//! Price changes by an administrator.

use crate::models::Fuel;
use crate::store::{fuel_ids, position_of, Store, StoreView};
use vstd::prelude::*;

verus! {

/// Why a price change was turned down.
#[derive(Debug, Clone, Copy, PartialEq, Eq, Structural)]
pub enum PriceError {
    /// The token is no administrator's live session.
    Unauthorized,
}

/// The products once the one numbered `fuel_id` costs `new_price`; a number
/// that no product has changes nothing.
pub open spec fn repriced(fuels: Seq<Fuel>, fuel_id: i32, new_price: i64) -> Seq<Fuel> {
    match position_of(fuel_ids(fuels), fuel_id) {
        Some(row) => fuels.update(row, Fuel { price: new_price, ..fuels[row] }),
        None => fuels,
    }
}

/// What a price change does to the store, or why it is turned down.
pub open spec fn price_outcome(store: StoreView, fuel_id: i32, new_price: i64, token: Seq<char>) -> Result<
    StoreView,
    PriceError,
> {
    if store.admin_signed_in(token) {
        Ok(StoreView { fuels: repriced(store.fuels, fuel_id, new_price), ..store })
    } else {
        Err(PriceError::Unauthorized)
    }
}

/// Sets the unit price of product `fuel_id`.
pub fn update_fuel_price(store: &mut Store, fuel_id: i32, new_price: i64, token: &str) -> (outcome:
    Result<(), PriceError>)
    ensures
        match price_outcome(old(store)@, fuel_id, new_price, token@) {
            Ok(after) => final(store)@ == after && outcome is Ok,
            Err(error) => final(store)@ == old(store)@ && outcome == Err::<(), PriceError>(error),
        },
{
    if !store.admin_signed_in(token) {
        return Err(PriceError::Unauthorized);
    }
    match store.find_fuel(fuel_id) {
        Some(row) => {
            store.fuels[row].price = new_price;
            assert(store@.fuels =~= repriced(old(store)@.fuels, fuel_id, new_price));
        },
        None => {},
    }
    Ok(())
}

} // verus!
