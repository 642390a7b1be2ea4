//! Refills: the station buys stock at the wholesale price and the bank pays.
//!
//! The mirror of a purchase: the bank is debited and the tanks take the stock
//! in, first tank first, up to their capacity. A refill that fails leaves the
//! store exactly as it was.

use crate::allocator::{
    after_fills, allocate_capacity, amounts, apply_fills, fill_plan, free_space,
    lemma_fills_effect, lemma_greedy_within, space_offers,
};
use crate::models::Bank;
use crate::store::{Store, StoreView};
use crate::utils::{checked_refill_cost, fits_i64, refill_cost};
use vstd::prelude::*;

verus! {

/// Why a refill was turned down.
#[derive(Debug, Clone, Copy, PartialEq, Eq, Structural)]
pub enum RefillError {
    /// The token is no administrator's live session.
    Unauthorized,
    /// The product is not on sale.
    ProductNotFound,
    /// The bank has no row yet: nothing was ever credited, so nothing can be debited.
    LedgerUninitialized,
    /// The bank holds less than the refill costs.
    InsufficientLedgerFunds,
    /// The product's tanks have less free space than the refill brings.
    InsufficientCapacity,
    /// An amount of money left the range that the store can hold.
    StoreFailure,
}

/// What a refill of `amount` units of product `fuel_id` does to the store, or
/// why it is turned down.
pub open spec fn refill_outcome(store: StoreView, fuel_id: i32, amount: i32, token: Seq<char>) -> Result<
    StoreView,
    RefillError,
> {
    if !store.admin_signed_in(token) {
        Err(RefillError::Unauthorized)
    } else {
        match store.fuel_at(fuel_id) {
            None => Err(RefillError::ProductNotFound),
            Some(row) => {
                let cost = refill_cost(store.fuels[row].price as int, amount as int);
                if !fits_i64(cost) {
                    Err(RefillError::StoreFailure)
                } else {
                    match store.bank {
                        None => Err(RefillError::LedgerUninitialized),
                        Some(bank) => if bank.total < cost {
                            Err(RefillError::InsufficientLedgerFunds)
                        } else if free_space(store.tanks, fuel_id) < amount {
                            Err(RefillError::InsufficientCapacity)
                        } else if !fits_i64(bank.total - cost) {
                            Err(RefillError::StoreFailure)
                        } else {
                            Ok(
                                StoreView {
                                    tanks: after_fills(
                                        store.tanks,
                                        fill_plan(store.tanks, fuel_id, amount as int),
                                    ),
                                    bank: Some(
                                        Bank { id: bank.id, total: (bank.total - cost) as i64 },
                                    ),
                                    ..store
                                },
                            )
                        },
                    }
                }
            },
        }
    }
}

/// Takes `amount` units of product `fuel_id` into its tanks and pays for them
/// from the bank.
pub fn refill_fuel(store: &mut Store, fuel_id: i32, amount: i32, token: &str) -> (outcome: Result<
    (),
    RefillError,
>)
    ensures
        match refill_outcome(old(store)@, fuel_id, amount, token@) {
            Ok(after) => final(store)@ == after && outcome is Ok,
            Err(error) => final(store)@ == old(store)@ && outcome == Err::<(), RefillError>(error),
        },
{
    if !store.admin_signed_in(token) {
        return Err(RefillError::Unauthorized);
    }
    let row = match store.find_fuel(fuel_id) {
        Some(row) => row,
        None => {
            return Err(RefillError::ProductNotFound);
        },
    };
    let cost = match checked_refill_cost(store.fuels[row].price, amount) {
        Some(cost) => cost,
        None => {
            return Err(RefillError::StoreFailure);
        },
    };
    let bank = match store.bank {
        Some(bank) => bank,
        None => {
            return Err(RefillError::LedgerUninitialized);
        },
    };
    if bank.total < cost {
        return Err(RefillError::InsufficientLedgerFunds);
    }
    let plan = match allocate_capacity(&store.tanks, fuel_id, amount) {
        Ok(plan) => plan,
        Err(_) => {
            return Err(RefillError::InsufficientCapacity);
        },
    };
    let total = match bank.total.checked_sub(cost) {
        Some(total) => total,
        None => {
            return Err(RefillError::StoreFailure);
        },
    };
    proof {
        lemma_greedy_within(space_offers(store.tanks@, fuel_id), amount as int);
        lemma_fills_effect(store.tanks@, fuel_id, amounts(plan@));
    }
    apply_fills(&mut store.tanks, &plan);
    store.bank = Some(Bank { id: bank.id, total });
    Ok(())
}

} // verus!
