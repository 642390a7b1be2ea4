//! Spreading a quantity over the tanks of one product.
//!
//! A draw takes stock out of tanks, a fill puts stock into their free space.
//! Both walk the tanks in their stored order and take from each as much as it
//! offers until the quantity is met, so the same request on the same tanks
//! always gives the same plan.

use crate::models::Tank;
use vstd::prelude::*;

verus! {

/// A purchase asks for more than the product's tanks hold.
#[derive(Debug, Clone, Copy, PartialEq, Eq)]
pub struct InsufficientStock;

/// A refill brings more than the product's tanks have room for.
#[derive(Debug, Clone, Copy, PartialEq, Eq)]
pub struct InsufficientSpace;

/// Sum of a list of amounts.
pub open spec fn total(amounts: Seq<int>) -> int
    decreases amounts.len(),
{
    if amounts.len() == 0 {
        0
    } else {
        amounts.first() + total(amounts.drop_first())
    }
}

/// Sum of the amounts above zero.
pub open spec fn usable(offers: Seq<int>) -> int
    decreases offers.len(),
{
    if offers.len() == 0 {
        0
    } else {
        (if offers.first() > 0 {
            offers.first()
        } else {
            0
        }) + usable(offers.drop_first())
    }
}

/// What is taken from a unit that offers `offer` while `needed` is still open.
pub open spec fn share(offer: int, needed: int) -> int {
    if needed > 0 && offer > 0 {
        if needed < offer {
            needed
        } else {
            offer
        }
    } else {
        0
    }
}

/// The greedy plan: each unit in turn gives its share of what is still open.
pub open spec fn greedy(offers: Seq<int>, needed: int) -> Seq<int>
    decreases offers.len(),
{
    if offers.len() == 0 {
        Seq::empty()
    } else {
        let take = share(offers.first(), needed);
        seq![take] + greedy(offers.drop_first(), needed - take)
    }
}

/// What each tank offers to a draw for `fuel_id`: its stock if it holds that
/// product, nothing otherwise.
pub open spec fn stock_offers(tanks: Seq<Tank>, fuel_id: i32) -> Seq<int> {
    tanks.map_values(
        |tank: Tank|
            if tank.fuelid == fuel_id {
                tank.stored as int
            } else {
                0
            },
    )
}

/// What each tank offers to a fill for `fuel_id`: its free space if it holds
/// that product, nothing otherwise.
pub open spec fn space_offers(tanks: Seq<Tank>, fuel_id: i32) -> Seq<int> {
    tanks.map_values(
        |tank: Tank|
            if tank.fuelid == fuel_id {
                tank.capacity - tank.stored
            } else {
                0
            },
    )
}

/// Stock of a product: the sum of what its tanks store.
pub open spec fn fuel_stock(tanks: Seq<Tank>, fuel_id: i32) -> int {
    total(stock_offers(tanks, fuel_id))
}

/// Free space of a product: the sum of capacity less stock over its tanks.
pub open spec fn free_space(tanks: Seq<Tank>, fuel_id: i32) -> int {
    total(space_offers(tanks, fuel_id))
}

pub open spec fn holds_stock(tank: Tank, fuel_id: i32) -> bool {
    tank.fuelid == fuel_id && tank.stored > 0
}

/// Whether at least one tank of the product stores something.
pub open spec fn any_stocked(tanks: Seq<Tank>, fuel_id: i32) -> bool {
    exists|i: int| 0 <= i < tanks.len() && holds_stock(#[trigger] tanks[i], fuel_id)
}

/// Whether a purchase of `requested` units can be served: an unmetered product
/// needs one stocked tank whatever the quantity, a metered one needs the
/// quantity in stock.
pub open spec fn stock_available(
    tanks: Seq<Tank>,
    fuel_id: i32,
    requested: int,
    is_binary: bool,
) -> bool {
    if is_binary {
        any_stocked(tanks, fuel_id)
    } else {
        fuel_stock(tanks, fuel_id) >= requested
    }
}

/// The draws of a purchase, one per tank: an unmetered product is not drawn from.
pub open spec fn draw_plan(tanks: Seq<Tank>, fuel_id: i32, requested: int, is_binary: bool) -> Seq<
    int,
> {
    greedy(
        stock_offers(tanks, fuel_id),
        if is_binary {
            0
        } else {
            requested
        },
    )
}

/// The fills of a refill, one per tank.
pub open spec fn fill_plan(tanks: Seq<Tank>, fuel_id: i32, amount: int) -> Seq<int> {
    greedy(space_offers(tanks, fuel_id), amount)
}

/// The amounts of an executable plan.
pub open spec fn amounts(plan: Seq<i32>) -> Seq<int> {
    plan.map_values(|amount: i32| amount as int)
}

/// The tanks once each has given up its draw.
pub open spec fn after_draws(tanks: Seq<Tank>, plan: Seq<int>) -> Seq<Tank> {
    Seq::new(
        tanks.len(),
        |i: int| Tank { stored: (tanks[i].stored - plan[i]) as i32, ..tanks[i] },
    )
}

/// The tanks once each has taken in its fill.
pub open spec fn after_fills(tanks: Seq<Tank>, plan: Seq<int>) -> Seq<Tank> {
    Seq::new(
        tanks.len(),
        |i: int| Tank { stored: (tanks[i].stored + plan[i]) as i32, ..tanks[i] },
    )
}

/// A plan has one amount per offer, none negative and none above the offer.
pub open spec fn within_offers(offers: Seq<int>, plan: Seq<int>) -> bool {
    &&& plan.len() == offers.len()
    &&& forall|i: int|
        0 <= i < plan.len() ==> 0 <= #[trigger] plan[i] && (plan[i] == 0 || plan[i] <= offers[i])
}

/// A total lies within the number of amounts times the range of one amount.
pub proof fn lemma_total_bounds(offers: Seq<int>, low: int, high: int)
    requires
        low <= 0 <= high,
        forall|i: int| 0 <= i < offers.len() ==> low <= #[trigger] offers[i] <= high,
    ensures
        low * offers.len() <= total(offers) <= high * offers.len(),
    decreases offers.len(),
{
    if offers.len() > 0 {
        let rest = offers.drop_first();
        assert forall|i: int| 0 <= i < rest.len() implies low <= #[trigger] rest[i] <= high by {
            assert(rest[i] == offers[i + 1]);
        }
        lemma_total_bounds(rest, low, high);
        assert(low * offers.len() == low * rest.len() + low) by (nonlinear_arith)
            requires
                offers.len() == rest.len() + 1,
        ;
        assert(high * offers.len() == high * rest.len() + high) by (nonlinear_arith)
            requires
                offers.len() == rest.len() + 1,
        ;
    }
}

/// What can be used is never negative and never less than the plain total.
pub proof fn lemma_usable_bounds(offers: Seq<int>)
    ensures
        0 <= usable(offers),
        total(offers) <= usable(offers),
    decreases offers.len(),
{
    if offers.len() > 0 {
        lemma_usable_bounds(offers.drop_first());
    }
}

/// The greedy plan stays within the offers, and asks nothing when nothing is needed.
pub proof fn lemma_greedy_within(offers: Seq<int>, needed: int)
    ensures
        within_offers(offers, greedy(offers, needed)),
        needed <= 0 ==> forall|i: int|
            0 <= i < offers.len() ==> #[trigger] greedy(offers, needed)[i] == 0,
        forall|i: int| 0 <= i < offers.len() ==> #[trigger] greedy(offers, needed)[i] <= needed || greedy(offers, needed)[i] == 0,
    decreases offers.len(),
{
    if offers.len() > 0 {
        let take = share(offers.first(), needed);
        let rest = greedy(offers.drop_first(), needed - take);
        lemma_greedy_within(offers.drop_first(), needed - take);
        let plan = greedy(offers, needed);
        assert(plan.len() == offers.len());
        assert forall|i: int| 0 <= i < plan.len() implies 0 <= #[trigger] plan[i] && (plan[i] == 0
            || plan[i] <= offers[i]) && (plan[i] <= needed || plan[i] == 0) && (needed <= 0
            ==> plan[i] == 0) by {
            if i > 0 {
                assert(plan[i] == rest[i - 1]);
                assert(offers.drop_first()[i - 1] == offers[i]);
            }
        }
    }
}

/// Where the need is within what can be used, the greedy plan meets it exactly.
pub proof fn lemma_greedy_meets_need(offers: Seq<int>, needed: int)
    requires
        0 <= needed <= usable(offers),
    ensures
        total(greedy(offers, needed)) == needed,
    decreases offers.len(),
{
    if offers.len() > 0 {
        let take = share(offers.first(), needed);
        let plan = greedy(offers, needed);
        lemma_usable_bounds(offers.drop_first());
        lemma_greedy_meets_need(offers.drop_first(), needed - take);
        assert(plan.drop_first() =~= greedy(offers.drop_first(), needed - take));
        assert(plan.first() == take);
    }
}

/// With no need above zero the greedy plan takes nothing.
pub proof fn lemma_greedy_idle(offers: Seq<int>, needed: int)
    requires
        needed <= 0,
    ensures
        total(greedy(offers, needed)) == 0,
    decreases offers.len(),
{
    if offers.len() > 0 {
        let plan = greedy(offers, needed);
        lemma_greedy_idle(offers.drop_first(), needed);
        assert(plan.drop_first() =~= greedy(offers.drop_first(), needed));
    }
}

/// The greedy plan takes from a later unit only once every earlier one has
/// given all it offers.
pub proof fn lemma_greedy_in_order(offers: Seq<int>, needed: int, earlier: int, later: int)
    requires
        0 <= earlier < later < offers.len(),
        greedy(offers, needed)[later] > 0,
    ensures
        offers[earlier] > 0 ==> greedy(offers, needed)[earlier] == offers[earlier],
        offers[earlier] <= 0 ==> greedy(offers, needed)[earlier] == 0,
    decreases offers.len(),
{
    let take = share(offers.first(), needed);
    let plan = greedy(offers, needed);
    let rest = greedy(offers.drop_first(), needed - take);
    lemma_greedy_within(offers.drop_first(), needed - take);
    assert(plan[later] == rest[later - 1]);
    if earlier == 0 {
        assert(needed - take > 0);
    } else {
        assert(plan[earlier] == rest[earlier - 1]);
        assert(offers.drop_first()[earlier - 1] == offers[earlier]);
        assert(offers.drop_first()[later - 1] == offers[later]);
        lemma_greedy_in_order(offers.drop_first(), needed - take, earlier - 1, later - 1);
    }
}

/// The total of what is left after a plan is the total before less the plan's.
pub proof fn lemma_total_difference(offers: Seq<int>, plan: Seq<int>, left: Seq<int>)
    requires
        plan.len() == offers.len(),
        left.len() == offers.len(),
        forall|i: int| 0 <= i < offers.len() ==> #[trigger] left[i] == offers[i] - plan[i],
    ensures
        total(left) == total(offers) - total(plan),
    decreases offers.len(),
{
    if offers.len() > 0 {
        assert forall|i: int| 0 <= i < offers.len() - 1 implies #[trigger] left.drop_first()[i]
            == offers.drop_first()[i] - plan.drop_first()[i] by {
            assert(left.drop_first()[i] == left[i + 1]);
        }
        lemma_total_difference(offers.drop_first(), plan.drop_first(), left.drop_first());
    }
}

/// A list of machine readings as amounts.
pub open spec fn readings(values: Seq<i64>) -> Seq<int> {
    values.map_values(|value: i64| value as int)
}

/// A draw plan fits the tanks: each draw is zero, or positive and within the tank's stock.
pub open spec fn draws_fit(tanks: Seq<Tank>, plan: Seq<int>) -> bool {
    &&& plan.len() == tanks.len()
    &&& forall|i: int|
        0 <= i < plan.len() ==> 0 <= #[trigger] plan[i] && (plan[i] == 0 || plan[i]
            <= tanks[i].stored)
}

/// A fill plan fits the tanks: each fill is zero, or positive and within the tank's free space.
pub open spec fn fills_fit(tanks: Seq<Tank>, plan: Seq<int>) -> bool {
    &&& plan.len() == tanks.len()
    &&& forall|i: int|
        0 <= i < plan.len() ==> 0 <= #[trigger] plan[i] && (plan[i] == 0 || plan[i]
            <= tanks[i].capacity - tanks[i].stored)
}

/// Adding one amount at the end adds it to the total.
pub proof fn lemma_total_push(amounts: Seq<int>, last: int)
    ensures
        total(amounts.push(last)) == total(amounts) + last,
    decreases amounts.len(),
{
    let longer = amounts.push(last);
    if amounts.len() == 0 {
        assert(longer.drop_first() =~= Seq::<int>::empty());
        assert(total(longer.drop_first()) == 0);
        assert(total(longer) == longer.first() + total(longer.drop_first()));
    } else {
        lemma_total_push(amounts.drop_first(), last);
        assert(longer.drop_first() =~= amounts.drop_first().push(last));
        assert(total(longer) == longer.first() + total(longer.drop_first()));
    }
}

/// A plan within the stock on offer for a product fits the tanks, takes its
/// total out of that product's stock, and leaves every other product as it was.
pub proof fn lemma_draws_effect(tanks: Seq<Tank>, fuel_id: i32, plan: Seq<int>)
    requires
        within_offers(stock_offers(tanks, fuel_id), plan),
    ensures
        draws_fit(tanks, plan),
        fuel_stock(after_draws(tanks, plan), fuel_id) == fuel_stock(tanks, fuel_id) - total(plan),
        forall|other: i32|
            other != fuel_id ==> #[trigger] stock_offers(after_draws(tanks, plan), other)
                == stock_offers(tanks, other),
        forall|other: i32|
            other != fuel_id ==> #[trigger] space_offers(after_draws(tanks, plan), other)
                == space_offers(tanks, other),
{
    let after = after_draws(tanks, plan);
    let offers = stock_offers(tanks, fuel_id);
    assert forall|i: int| 0 <= i < plan.len() implies 0 <= #[trigger] plan[i] && (plan[i] == 0
        || plan[i] <= tanks[i].stored) by {
        assert(offers[i] == if tanks[i].fuelid == fuel_id {
            tanks[i].stored as int
        } else {
            0
        });
    }
    assert forall|i: int| 0 <= i < tanks.len() implies #[trigger] stock_offers(after, fuel_id)[i]
        == offers[i] - plan[i] by {
        assert(0 <= plan[i] && (plan[i] == 0 || plan[i] <= offers[i]));
    }
    lemma_total_difference(offers, plan, stock_offers(after, fuel_id));
    assert forall|other: i32| other != fuel_id implies #[trigger] stock_offers(after, other)
        == stock_offers(tanks, other) && #[trigger] space_offers(after, other) == space_offers(
        tanks,
        other,
    ) by {
        assert forall|i: int| 0 <= i < tanks.len() && after[i].fuelid == other implies after[i]
            == tanks[i] by {
            assert(0 <= plan[i] && (plan[i] == 0 || plan[i] <= offers[i]));
        }
        assert(stock_offers(after, other) =~= stock_offers(tanks, other));
        assert(space_offers(after, other) =~= space_offers(tanks, other));
    }
}

/// A plan within the space on offer for a product fits the tanks, adds its
/// total to that product's stock, takes it out of its free space, and leaves
/// every other product as it was.
pub proof fn lemma_fills_effect(tanks: Seq<Tank>, fuel_id: i32, plan: Seq<int>)
    requires
        within_offers(space_offers(tanks, fuel_id), plan),
    ensures
        fills_fit(tanks, plan),
        fuel_stock(after_fills(tanks, plan), fuel_id) == fuel_stock(tanks, fuel_id) + total(plan),
        free_space(after_fills(tanks, plan), fuel_id) == free_space(tanks, fuel_id) - total(plan),
        forall|other: i32|
            other != fuel_id ==> #[trigger] stock_offers(after_fills(tanks, plan), other)
                == stock_offers(tanks, other),
{
    let after = after_fills(tanks, plan);
    let offers = space_offers(tanks, fuel_id);
    let stock = stock_offers(tanks, fuel_id);
    assert forall|i: int| 0 <= i < plan.len() implies 0 <= #[trigger] plan[i] && (plan[i] == 0
        || plan[i] <= tanks[i].capacity - tanks[i].stored) by {
        assert(offers[i] == if tanks[i].fuelid == fuel_id {
            tanks[i].capacity - tanks[i].stored
        } else {
            0
        });
    }
    assert forall|i: int| 0 <= i < tanks.len() implies #[trigger] space_offers(after, fuel_id)[i]
        == offers[i] - plan[i] by {
        assert(0 <= plan[i] && (plan[i] == 0 || plan[i] <= offers[i]));
    }
    lemma_total_difference(offers, plan, space_offers(after, fuel_id));
    assert forall|i: int| 0 <= i < tanks.len() implies #[trigger] stock[i] == stock_offers(
        after,
        fuel_id,
    )[i] - plan[i] by {
        assert(0 <= plan[i] && (plan[i] == 0 || plan[i] <= offers[i]));
    }
    lemma_total_difference(stock_offers(after, fuel_id), plan, stock);
    assert forall|other: i32| other != fuel_id implies #[trigger] stock_offers(after, other)
        == stock_offers(tanks, other) by {
        assert forall|i: int| 0 <= i < tanks.len() && after[i].fuelid == other implies after[i]
            == tanks[i] by {
            assert(0 <= plan[i] && (plan[i] == 0 || plan[i] <= offers[i]));
        }
        assert(stock_offers(after, other) =~= stock_offers(tanks, other));
    }
}

pub(crate) fn stock_readings(tanks: &Vec<Tank>, fuel_id: i32) -> (offers: Vec<i64>)
    ensures
        readings(offers@) == stock_offers(tanks@, fuel_id),
{
    let mut offers: Vec<i64> = Vec::new();
    let mut i: usize = 0;
    while i < tanks.len()
        invariant
            i <= tanks.len(),
            offers@.len() == i,
            forall|k: int| 0 <= k < i ==> offers@[k] == stock_offers(tanks@, fuel_id)[k],
        decreases tanks.len() - i,
    {
        let tank = tanks[i];
        let offer: i64 = if tank.fuelid == fuel_id {
            tank.stored as i64
        } else {
            0
        };
        offers.push(offer);
        i = i + 1;
    }
    assert(readings(offers@) =~= stock_offers(tanks@, fuel_id));
    offers
}

fn space_readings(tanks: &Vec<Tank>, fuel_id: i32) -> (offers: Vec<i64>)
    ensures
        readings(offers@) == space_offers(tanks@, fuel_id),
{
    let mut offers: Vec<i64> = Vec::new();
    let mut i: usize = 0;
    while i < tanks.len()
        invariant
            i <= tanks.len(),
            offers@.len() == i,
            forall|k: int| 0 <= k < i ==> offers@[k] == space_offers(tanks@, fuel_id)[k],
        decreases tanks.len() - i,
    {
        let tank = tanks[i];
        let offer: i64 = if tank.fuelid == fuel_id {
            tank.capacity as i64 - tank.stored as i64
        } else {
            0
        };
        offers.push(offer);
        i = i + 1;
    }
    assert(readings(offers@) =~= space_offers(tanks@, fuel_id));
    offers
}

pub(crate) fn sum_readings(offers: &Vec<i64>) -> (sum: i128)
    ensures
        sum == total(readings(offers@)),
{
    let mut sum: i128 = 0;
    let mut i: usize = 0;
    while i < offers.len()
        invariant
            i <= offers.len(),
            sum == total(readings(offers@).take(i as int)),
        decreases offers.len() - i,
    {
        proof {
            let all = readings(offers@);
            lemma_total_bounds(
                all.take(i as int),
                -0x8000_0000_0000_0000,
                0x7fff_ffff_ffff_ffff,
            );
            lemma_total_push(all.take(i as int), all[i as int]);
            assert(all.take(i + 1) =~= all.take(i as int).push(all[i as int]));
        }
        sum = sum + offers[i] as i128;
        i = i + 1;
    }
    proof {
        assert(readings(offers@).take(i as int) =~= readings(offers@));
    }
    sum
}

fn plan_greedy(offers: &Vec<i64>, needed: i32) -> (plan: Vec<i32>)
    ensures
        amounts(plan@) == greedy(readings(offers@), needed as int),
{
    let mut plan: Vec<i32> = Vec::new();
    let mut remaining: i32 = needed;
    let mut i: usize = 0;
    proof {
        assert(readings(offers@).skip(0) =~= readings(offers@));
        assert(amounts(plan@) + greedy(readings(offers@), needed as int) =~= greedy(
            readings(offers@),
            needed as int,
        ));
    }
    while i < offers.len()
        invariant
            i <= offers.len(),
            plan@.len() == i,
            remaining <= needed || remaining <= 0,
            greedy(readings(offers@), needed as int) == amounts(plan@) + greedy(
                readings(offers@).skip(i as int),
                remaining as int,
            ),
        decreases offers.len() - i,
    {
        let offer = offers[i];
        let take: i32 = if remaining > 0 && offer > 0 {
            if (remaining as i64) < offer {
                remaining
            } else {
                offer as i32
            }
        } else {
            0
        };
        proof {
            let all = readings(offers@);
            assert(all.skip(i as int).first() == offer);
            assert(all.skip(i as int).drop_first() =~= all.skip(i + 1));
            assert(take == share(offer as int, remaining as int));
            assert(amounts(plan@.push(take)) =~= amounts(plan@).push(take as int));
            assert(amounts(plan@).push(take as int) + greedy(
                all.skip(i + 1),
                remaining - take,
            ) =~= amounts(plan@) + (seq![take as int] + greedy(all.skip(i + 1), remaining - take)));
        }
        plan.push(take);
        remaining = remaining - take;
        i = i + 1;
    }
    proof {
        assert(amounts(plan@) + greedy(readings(offers@).skip(i as int), remaining as int)
            =~= amounts(plan@));
    }
    plan
}

fn any_stock(tanks: &Vec<Tank>, fuel_id: i32) -> (found: bool)
    ensures
        found == any_stocked(tanks@, fuel_id),
{
    let mut i: usize = 0;
    while i < tanks.len()
        invariant
            i <= tanks.len(),
            forall|k: int| 0 <= k < i ==> !holds_stock(#[trigger] tanks@[k], fuel_id),
        decreases tanks.len() - i,
    {
        let tank = tanks[i];
        if tank.fuelid == fuel_id && tank.stored > 0 {
            assert(holds_stock(tanks@[i as int], fuel_id));
            return true;
        }
        i = i + 1;
    }
    false
}

/// Plans a purchase of `requested_quantity` units of product `fuel_id` over
/// `tanks`, or says that the stock does not allow it. The plan has one draw
/// per tank, in the tanks' order.
pub fn allocate(tanks: &Vec<Tank>, fuel_id: i32, requested_quantity: i32, is_binary: bool) -> (outcome:
    Result<Vec<i32>, InsufficientStock>)
    ensures
        match outcome {
            Ok(plan) => stock_available(tanks@, fuel_id, requested_quantity as int, is_binary)
                && amounts(plan@) == draw_plan(
                tanks@,
                fuel_id,
                requested_quantity as int,
                is_binary,
            ),
            Err(_) => !stock_available(tanks@, fuel_id, requested_quantity as int, is_binary),
        },
{
    let offers = stock_readings(tanks, fuel_id);
    if is_binary {
        if !any_stock(tanks, fuel_id) {
            return Err(InsufficientStock);
        }
        Ok(plan_greedy(&offers, 0))
    } else {
        if sum_readings(&offers) < requested_quantity as i128 {
            return Err(InsufficientStock);
        }
        Ok(plan_greedy(&offers, requested_quantity))
    }
}

/// Plans a refill of `amount` units of product `fuel_id` over `tanks`, or says
/// that their free space does not allow it. The plan has one fill per tank, in
/// the tanks' order.
pub fn allocate_capacity(tanks: &Vec<Tank>, fuel_id: i32, amount: i32) -> (outcome: Result<
    Vec<i32>,
    InsufficientSpace,
>)
    ensures
        match outcome {
            Ok(plan) => free_space(tanks@, fuel_id) >= amount && amounts(plan@) == fill_plan(
                tanks@,
                fuel_id,
                amount as int,
            ),
            Err(_) => free_space(tanks@, fuel_id) < amount,
        },
{
    let offers = space_readings(tanks, fuel_id);
    if sum_readings(&offers) < amount as i128 {
        return Err(InsufficientSpace);
    }
    Ok(plan_greedy(&offers, amount))
}

/// Takes each tank's draw out of its stock.
pub fn apply_draws(tanks: &mut Vec<Tank>, plan: &Vec<i32>)
    requires
        draws_fit(old(tanks)@, amounts(plan@)),
    ensures
        final(tanks)@ == after_draws(old(tanks)@, amounts(plan@)),
{
    let mut i: usize = 0;
    while i < tanks.len()
        invariant
            i <= tanks.len(),
            tanks@.len() == old(tanks)@.len(),
            plan@.len() == tanks@.len(),
            draws_fit(old(tanks)@, amounts(plan@)),
            forall|k: int|
                0 <= k < i ==> tanks@[k] == after_draws(old(tanks)@, amounts(plan@))[k],
            forall|k: int| i <= k < tanks@.len() ==> tanks@[k] == old(tanks)@[k],
        decreases tanks.len() - i,
    {
        let tank = tanks[i];
        let draw = plan[i];
        assert(0 <= amounts(plan@)[i as int] && (amounts(plan@)[i as int] == 0 || amounts(
            plan@,
        )[i as int] <= tank.stored));
        tanks.set(
            i,
            Tank { id: tank.id, fuelid: tank.fuelid, stored: tank.stored - draw, capacity: tank.capacity },
        );
        i = i + 1;
    }
    assert(tanks@ =~= after_draws(old(tanks)@, amounts(plan@)));
}

/// Adds each tank's fill to its stock.
pub fn apply_fills(tanks: &mut Vec<Tank>, plan: &Vec<i32>)
    requires
        fills_fit(old(tanks)@, amounts(plan@)),
    ensures
        final(tanks)@ == after_fills(old(tanks)@, amounts(plan@)),
{
    let mut i: usize = 0;
    while i < tanks.len()
        invariant
            i <= tanks.len(),
            tanks@.len() == old(tanks)@.len(),
            plan@.len() == tanks@.len(),
            fills_fit(old(tanks)@, amounts(plan@)),
            forall|k: int|
                0 <= k < i ==> tanks@[k] == after_fills(old(tanks)@, amounts(plan@))[k],
            forall|k: int| i <= k < tanks@.len() ==> tanks@[k] == old(tanks)@[k],
        decreases tanks.len() - i,
    {
        let tank = tanks[i];
        let fill = plan[i];
        assert(0 <= amounts(plan@)[i as int] && (amounts(plan@)[i as int] == 0 || amounts(
            plan@,
        )[i as int] <= tank.capacity - tank.stored));
        tanks.set(
            i,
            Tank { id: tank.id, fuelid: tank.fuelid, stored: tank.stored + fill, capacity: tank.capacity },
        );
        i = i + 1;
    }
    assert(tanks@ =~= after_fills(old(tanks)@, amounts(plan@)));
}

/// Amounts of which none is negative have a total that is not negative.
pub proof fn lemma_total_nonnegative(amounts: Seq<int>)
    requires
        forall|i: int| 0 <= i < amounts.len() ==> 0 <= #[trigger] amounts[i],
    ensures
        0 <= total(amounts),
    decreases amounts.len(),
{
    if amounts.len() > 0 {
        assert forall|i: int| 0 <= i < amounts.drop_first().len() implies 0
            <= #[trigger] amounts.drop_first()[i] by {
            assert(amounts.drop_first()[i] == amounts[i + 1]);
        }
        lemma_total_nonnegative(amounts.drop_first());
        assert(0 <= amounts[0]);
    }
}

/// A plan that draws nothing leaves the tanks as they are.
pub proof fn lemma_idle_draws(tanks: Seq<Tank>, plan: Seq<int>)
    requires
        plan.len() == tanks.len(),
        forall|i: int| 0 <= i < plan.len() ==> #[trigger] plan[i] == 0,
    ensures
        after_draws(tanks, plan) == tanks,
{
    assert(after_draws(tanks, plan) =~= tanks);
}

/// Draws never raise what is in stock: after a draw for one product, no
/// purchase of any product is feasible that was not feasible before.
pub proof fn lemma_draws_lower_stock(
    tanks: Seq<Tank>,
    fuel_id: i32,
    plan: Seq<int>,
    other: i32,
    requested: int,
    is_binary: bool,
)
    requires
        within_offers(stock_offers(tanks, fuel_id), plan),
        stock_available(after_draws(tanks, plan), other, requested, is_binary),
    ensures
        stock_available(tanks, other, requested, is_binary),
{
    let after = after_draws(tanks, plan);
    lemma_draws_effect(tanks, fuel_id, plan);
    assert forall|i: int| 0 <= i < plan.len() implies 0 <= #[trigger] plan[i] by {}
    lemma_total_nonnegative(plan);
    if is_binary {
        let i = choose|i: int| 0 <= i < after.len() && holds_stock(#[trigger] after[i], other);
        assert(0 <= plan[i]);
        assert(holds_stock(tanks[i], other));
    } else if other != fuel_id {
        assert(stock_offers(after, other) == stock_offers(tanks, other));
    }
}

/// What the offers still hold once a plan has been taken from them.
pub open spec fn left_after(offers: Seq<int>, plan: Seq<int>) -> Seq<int> {
    Seq::new(offers.len(), |i: int| offers[i] - plan[i])
}

/// Two needs met one after the other take from each unit what their sum,
/// met at once, would take.
pub proof fn lemma_greedy_in_two_steps(offers: Seq<int>, first: int, second: int)
    requires
        0 <= first,
        0 <= second,
    ensures
        forall|i: int|
            0 <= i < offers.len() ==> #[trigger] greedy(offers, first + second)[i] == greedy(
                offers,
                first,
            )[i] + greedy(left_after(offers, greedy(offers, first)), second)[i],
    decreases offers.len(),
{
    if offers.len() > 0 {
        let taken = share(offers.first(), first);
        let left = left_after(offers, greedy(offers, first));
        let again = share(left.first(), second);
        let at_once = share(offers.first(), first + second);
        lemma_greedy_within(offers, first);
        assert(greedy(offers, first)[0] == taken);
        assert(left.first() == offers.first() - taken);
        assert(at_once == taken + again);
        let rest = offers.drop_first();
        lemma_greedy_in_two_steps(rest, first - taken, second - again);
        lemma_greedy_within(offers, first + second);
        lemma_greedy_within(rest, first + second - at_once);
        lemma_greedy_within(rest, first - taken);
        lemma_greedy_within(left, second);
        lemma_greedy_within(left.drop_first(), second - again);
        assert(greedy(offers, first).drop_first() =~= greedy(rest, first - taken));
        assert(left.drop_first() =~= left_after(rest, greedy(rest, first - taken)));
        assert forall|i: int| 0 <= i < offers.len() implies #[trigger] greedy(
            offers,
            first + second,
        )[i] == greedy(offers, first)[i] + greedy(left, second)[i] by {
            if i > 0 {
                let open_first = first - taken;
                let open_second = second - again;
                assert(greedy(offers, first + second)[i] == greedy(
                    rest,
                    open_first + open_second,
                )[i - 1]);
                assert(greedy(offers, first)[i] == greedy(rest, open_first)[i - 1]);
                assert(greedy(left, second)[i] == greedy(left.drop_first(), open_second)[i - 1]);
                assert(greedy(rest, open_first + open_second)[i - 1] == greedy(
                    rest,
                    open_first,
                )[i - 1] + greedy(left_after(rest, greedy(rest, open_first)), open_second)[i - 1]);
            } else {
                assert(greedy(offers, first + second)[0] == at_once);
                assert(greedy(left, second)[0] == again);
            }
        }
    }
}

/// Two draws of a metered product, one after the other, leave the tanks as
/// one draw of the two quantities together does.
pub proof fn law_draws_add_up(tanks: Seq<Tank>, fuel_id: i32, first: int, second: int)
    requires
        0 <= first,
        0 <= second,
    ensures
        after_draws(
            after_draws(tanks, draw_plan(tanks, fuel_id, first, false)),
            draw_plan(
                after_draws(tanks, draw_plan(tanks, fuel_id, first, false)),
                fuel_id,
                second,
                false,
            ),
        ) == after_draws(tanks, draw_plan(tanks, fuel_id, first + second, false)),
{
    let offers = stock_offers(tanks, fuel_id);
    let one = greedy(offers, first);
    let between = after_draws(tanks, one);
    lemma_greedy_within(offers, first);
    lemma_greedy_within(offers, first + second);
    lemma_draws_effect(tanks, fuel_id, one);
    assert(stock_offers(between, fuel_id) =~= left_after(offers, one)) by {
        assert forall|i: int| 0 <= i < tanks.len() implies #[trigger] stock_offers(
            between,
            fuel_id,
        )[i] == offers[i] - one[i] by {
            assert(0 <= one[i] && (one[i] == 0 || one[i] <= offers[i]));
        }
    }
    let two = greedy(stock_offers(between, fuel_id), second);
    lemma_greedy_within(stock_offers(between, fuel_id), second);
    lemma_greedy_in_two_steps(offers, first, second);
    let both = greedy(offers, first + second);
    assert forall|i: int| 0 <= i < tanks.len() implies #[trigger] after_draws(between, two)[i]
        == after_draws(tanks, both)[i] by {
        assert(both[i] == one[i] + two[i]);
        assert(0 <= one[i] && (one[i] == 0 || one[i] <= offers[i]));
    }
    assert(after_draws(between, two) =~= after_draws(tanks, both));
}

} // verus!
