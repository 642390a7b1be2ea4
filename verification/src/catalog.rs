//! The price list: every product that has a tank, with the stock and the
//! capacity of all its tanks, in the order of the products' numbers.

use crate::allocator::{fuel_stock, readings, stock_readings, sum_readings, total};
use crate::models::{Fuel, FuelWithTank, Tank};
use crate::rate_limit::{check_rate_limit, limiter_moved, RateLimiter, Span};
use crate::store::{Store, StoreView};
use vstd::prelude::*;

verus! {

/// Why the price list was not given out.
#[derive(Debug, Clone, Copy, PartialEq, Eq, Structural)]
pub enum ListingError {
    /// Too many requests for the list within the minute.
    RateLimited,
    /// The stock or the capacity of a product left the range that the list can hold.
    StoreFailure,
}

/// Requests for the price list that are served within `LISTING_WINDOW_SECS`.
pub const LISTING_LIMIT: u32 = 60;

/// Length in seconds of the window in which requests for the list are counted.
pub const LISTING_WINDOW_SECS: u64 = 60;

/// The rate limiter's key for requests for the price list.
pub open spec fn listing_key() -> Seq<char> {
    "get_fuels_global"@
}

/// The window in which requests for the list are counted.
pub open spec fn listing_window() -> Span {
    Span { nanos: 60_000_000_000 }
}

/// What each tank adds to the capacity of `fuel_id`: its capacity if it holds
/// that product, nothing otherwise.
pub open spec fn capacity_offers(tanks: Seq<Tank>, fuel_id: i32) -> Seq<int> {
    tanks.map_values(
        |tank: Tank|
            if tank.fuelid == fuel_id {
                tank.capacity as int
            } else {
                0
            },
    )
}

/// Capacity of a product: the sum of the capacities of its tanks.
pub open spec fn fuel_capacity(tanks: Seq<Tank>, fuel_id: i32) -> int {
    total(capacity_offers(tanks, fuel_id))
}

/// Whether some tank holds the product.
pub open spec fn has_tank(tanks: Seq<Tank>, fuel_id: i32) -> bool {
    exists|i: int| 0 <= i < tanks.len() && (#[trigger] tanks[i]).fuelid == fuel_id
}

/// The kind a product is listed under: petrol where none is recorded.
pub open spec fn kind_text(fuel: Fuel) -> Seq<char> {
    match fuel.fuel_type {
        Some(kind) => kind@,
        None => "petrol"@,
    }
}

/// Whether the product numbered `id` belongs on the list: it is on sale and has a tank.
pub open spec fn listable(store: StoreView, id: i32) -> bool {
    store.fuel_at(id) is Some && has_tank(store.tanks, id)
}

/// Whether the stock and the capacity of the product can be written on the list.
pub open spec fn sums_fit(store: StoreView, id: i32) -> bool {
    &&& i32::MIN <= fuel_stock(store.tanks, id) <= i32::MAX
    &&& i32::MIN <= fuel_capacity(store.tanks, id) <= i32::MAX
}

/// Whether `entry` is what the store says of the product it names.
pub open spec fn describes(entry: FuelWithTank, store: StoreView) -> bool {
    &&& listable(store, entry.id)
    &&& entry.name@ == store.fuels[store.fuel_at(entry.id).unwrap()].name@
    &&& entry.price == store.price_of(entry.id)
    &&& entry.fuel_type@ == kind_text(store.fuels[store.fuel_at(entry.id).unwrap()])
    &&& entry.stored == fuel_stock(store.tanks, entry.id)
    &&& entry.capacity == fuel_capacity(store.tanks, entry.id)
}

/// Whether the list names the product numbered `id`.
pub open spec fn lists(list: Seq<FuelWithTank>, id: i32) -> bool {
    exists|i: int| 0 <= i < list.len() && (#[trigger] list[i]).id == id
}

/// Whether the numbers on the list rise from each entry to the next.
pub open spec fn ascending(list: Seq<FuelWithTank>) -> bool {
    forall|i: int, j: int|
        0 <= i < j < list.len() ==> (#[trigger] list[i]).id < (#[trigger] list[j]).id
}

/// Whether `list` is the price list of the store: in rising order of the
/// products' numbers, each entry true of its product, no listable product
/// left out.
pub open spec fn is_listing(list: Seq<FuelWithTank>, store: StoreView) -> bool {
    &&& ascending(list)
    &&& forall|i: int| 0 <= i < list.len() ==> describes(#[trigger] list[i], store)
    &&& forall|id: i32| #[trigger] listable(store, id) ==> lists(list, id)
}

fn capacity_readings(tanks: &Vec<Tank>, fuel_id: i32) -> (offers: Vec<i64>)
    ensures
        readings(offers@) == capacity_offers(tanks@, fuel_id),
{
    let mut offers: Vec<i64> = Vec::new();
    let mut i: usize = 0;
    while i < tanks.len()
        invariant
            i <= tanks.len(),
            offers@.len() == i,
            forall|k: int| 0 <= k < i ==> offers@[k] == capacity_offers(tanks@, fuel_id)[k],
        decreases tanks.len() - i,
    {
        let tank = tanks[i];
        let offer: i64 = if tank.fuelid == fuel_id {
            tank.capacity as i64
        } else {
            0
        };
        offers.push(offer);
        i = i + 1;
    }
    assert(readings(offers@) =~= capacity_offers(tanks@, fuel_id));
    offers
}

fn holds_product(tanks: &Vec<Tank>, fuel_id: i32) -> (found: bool)
    ensures
        found == has_tank(tanks@, fuel_id),
{
    let mut i: usize = 0;
    while i < tanks.len()
        invariant
            i <= tanks.len(),
            forall|k: int| 0 <= k < i ==> (#[trigger] tanks@[k]).fuelid != fuel_id,
        decreases tanks.len() - i,
    {
        if tanks[i].fuelid == fuel_id {
            return true;
        }
        i = i + 1;
    }
    false
}

fn kind_of(fuel: &Fuel) -> (kind: String)
    ensures
        kind@ == kind_text(*fuel),
{
    match &fuel.fuel_type {
        Some(kind) => kind.clone(),
        None => String::from_str("petrol"),
    }
}

/// Puts `entry` where its number belongs in a list in rising order that does
/// not name it yet.
fn insert_in_order(list: &mut Vec<FuelWithTank>, entry: FuelWithTank)
    requires
        ascending(old(list)@),
        !lists(old(list)@, entry.id),
    ensures
        ascending(final(list)@),
        final(list)@.len() == old(list)@.len() + 1,
        lists(final(list)@, entry.id),
        forall|id: i32| lists(old(list)@, id) ==> lists(final(list)@, id),
        forall|i: int|
            0 <= i < final(list)@.len() ==> #[trigger] final(list)@[i] == entry || exists|k: int|
                0 <= k < old(list)@.len() && old(list)@[k] == final(list)@[i],
{
    let mut at: usize = 0;
    while at < list.len() && list[at].id < entry.id
        invariant
            at <= list.len(),
            list@ == old(list)@,
            forall|k: int| 0 <= k < at ==> (#[trigger] list@[k]).id < entry.id,
        decreases list.len() - at,
    {
        at = at + 1;
    }
    let ghost before = list@;
    proof {
        if at < before.len() {
            assert(before[at as int].id != entry.id);
        }
        before.insert_ensures(at as int, entry);
    }
    list.insert(at, entry);
    proof {
        let after = list@;
        assert(after[at as int] == entry);
        assert forall|i: int| 0 <= i < after.len() implies #[trigger] after[i] == entry || exists|
            k: int,
        |
            0 <= k < before.len() && before[k] == after[i] by {
            if i < at {
                assert(after[i] == before[i]);
            } else if i > at {
                assert(after[i] == before[i - 1]);
            }
        }
        assert forall|i: int, j: int| 0 <= i < j < after.len() implies (#[trigger] after[i]).id < (
        #[trigger] after[j]).id by {
            if i < at {
                assert(after[i] == before[i]);
            } else if i > at {
                assert(after[i] == before[i - 1]);
            }
            if j < at {
                assert(after[j] == before[j]);
            } else if j > at {
                assert(after[j] == before[j - 1]);
                assert(before[at as int].id <= before[j - 1].id) by {
                    if at < j - 1 {
                        assert(before[at as int].id < before[j - 1].id);
                    }
                }
            }
        }
        assert forall|id: i32| lists(before, id) implies lists(after, id) by {
            let k = choose|k: int| 0 <= k < before.len() && (#[trigger] before[k]).id == id;
            if k < at {
                assert(after[k] == before[k]);
            } else {
                assert(after[k + 1] == before[k]);
            }
        }
    }
}

/// The price list of the store.
pub fn get_fuels_unblocked(store: &Store) -> (outcome: Result<Vec<FuelWithTank>, ListingError>)
    ensures
        match outcome {
            Ok(list) => is_listing(list@, store@) && forall|id: i32| #[trigger]
                listable(store@, id) ==> sums_fit(store@, id),
            Err(error) => error == ListingError::StoreFailure && exists|id: i32| #[trigger]
                listable(store@, id) && !sums_fit(store@, id),
        },
{
    let mut list: Vec<FuelWithTank> = Vec::new();
    let mut row: usize = 0;
    proof {
        assert forall|id: i32| #[trigger] listable(store@, id) implies store@.fuel_at(id).unwrap()
            >= 0 by {
            crate::store::lemma_position_of(crate::store::fuel_ids(store@.fuels), id);
        }
    }
    while row < store.fuels.len()
        invariant
            row <= store.fuels.len(),
            ascending(list@),
            forall|i: int|
                0 <= i < list.len() ==> describes(#[trigger] list@[i], store@) && store@.fuel_at(
                    list@[i].id,
                ).unwrap() < row,
            forall|id: i32| #[trigger]
                listable(store@, id) && store@.fuel_at(id).unwrap() < row ==> lists(list@, id)
                    && sums_fit(store@, id),
        decreases store.fuels.len() - row,
    {
        let fuel = &store.fuels[row];
        let id = fuel.id;
        let first = store.find_fuel(id);
        proof {
            crate::store::lemma_position_of(crate::store::fuel_ids(store@.fuels), id);
            assert(crate::store::fuel_ids(store@.fuels)[row as int] == id);
            assert forall|other: i32| store@.fuel_at(other) == Some(row as int) implies other
                == id by {
                crate::store::lemma_position_of(crate::store::fuel_ids(store@.fuels), other);
            }
        }
        let listed = first == Some(row) && holds_product(&store.tanks, id);
        if listed {
            let stock = sum_readings(&stock_readings(&store.tanks, id));
            let capacity = sum_readings(&capacity_readings(&store.tanks, id));
            if stock < i32::MIN as i128 || stock > i32::MAX as i128 || capacity < i32::MIN as i128
                || capacity > i32::MAX as i128 {
                assert(listable(store@, id) && !sums_fit(store@, id));
                return Err(ListingError::StoreFailure);
            }
            let entry = FuelWithTank {
                id,
                name: fuel.name.clone(),
                price: fuel.price,
                fuel_type: kind_of(fuel),
                stored: stock as i32,
                capacity: capacity as i32,
            };
            proof {
                assert(describes(entry, store@));
                if lists(list@, id) {
                    let k = choose|k: int| 0 <= k < list@.len() && (#[trigger] list@[k]).id == id;
                    assert(store@.fuel_at(list@[k].id).unwrap() < row);
                }
            }
            let ghost earlier = list@;
            insert_in_order(&mut list, entry);
            proof {
                assert forall|i: int| 0 <= i < list.len() implies describes(
                    #[trigger] list@[i],
                    store@,
                ) && store@.fuel_at(list@[i].id).unwrap() < row + 1 by {
                    if list@[i] != entry {
                        let k = choose|k: int| 0 <= k < earlier.len() && earlier[k] == list@[i];
                        assert(describes(earlier[k], store@));
                    }
                }
            }
        }
        proof {
            assert forall|other: i32| #[trigger]
                listable(store@, other) && store@.fuel_at(other).unwrap() < row + 1 implies lists(
                list@,
                other,
            ) && sums_fit(store@, other) by {
                if store@.fuel_at(other).unwrap() == row {
                    assert(other == id);
                }
            }
        }
        row = row + 1;
    }
    proof {
        assert forall|id: i32| #[trigger] listable(store@, id) implies lists(list@, id) && sums_fit(
            store@,
            id,
        ) by {
            crate::store::lemma_position_of(crate::store::fuel_ids(store@.fuels), id);
        }
    }
    Ok(list)
}

/// Counts a request for the price list against the limit on such requests,
/// and says whether it may go on. To be asked before anything is read for it.
pub fn listing_allowed(limiter: &mut RateLimiter) -> (allowed: bool)
    ensures
        exists|now: u128| #[trigger]
            limiter_moved(
                old(limiter)@,
                final(limiter)@,
                listing_key(),
                LISTING_LIMIT,
                listing_window(),
                now,
                allowed,
            ),
{
    let window = Span::from_secs(LISTING_WINDOW_SECS);
    let allowed = check_rate_limit(limiter, "get_fuels_global", LISTING_LIMIT, window);
    let ghost now = choose|now: u128|
        limiter_moved(
            old(limiter)@,
            limiter@,
            "get_fuels_global"@,
            LISTING_LIMIT,
            window,
            now,
            allowed,
        );
    proof {
        assert(window == listing_window());
        assert(limiter_moved(
            old(limiter)@,
            limiter@,
            listing_key(),
            LISTING_LIMIT,
            listing_window(),
            now,
            allowed,
        ));
    }
    allowed
}

/// The price list of the store, for a request counted against the limit on
/// requests for it.
pub fn get_fuels(store: &Store, limiter: &mut RateLimiter) -> (outcome: Result<
    Vec<FuelWithTank>,
    ListingError,
>)
    ensures
        exists|now: u128, allowed: bool|
            #[trigger] limiter_moved(
                old(limiter)@,
                final(limiter)@,
                listing_key(),
                LISTING_LIMIT,
                listing_window(),
                now,
                allowed,
            ) && (if allowed {
                match outcome {
                    Ok(list) => is_listing(list@, store@),
                    Err(error) => error == ListingError::StoreFailure && exists|id: i32| #[trigger]
                        listable(store@, id) && !sums_fit(store@, id),
                }
            } else {
                outcome == Err::<Vec<FuelWithTank>, ListingError>(ListingError::RateLimited)
            }),
{
    let allowed = listing_allowed(limiter);
    let ghost now = choose|now: u128|
        limiter_moved(
            old(limiter)@,
            limiter@,
            listing_key(),
            LISTING_LIMIT,
            listing_window(),
            now,
            allowed,
        );
    let outcome = if allowed {
        get_fuels_unblocked(store)
    } else {
        Err(ListingError::RateLimited)
    };
    proof {
        assert(limiter_moved(
            old(limiter)@,
            limiter@,
            listing_key(),
            LISTING_LIMIT,
            listing_window(),
            now,
            allowed,
        ));
    }
    outcome
}

} // verus!
