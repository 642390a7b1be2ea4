//! What holds of purchases and refills whatever the store and the request.

use crate::allocator::{
    after_draws, any_stocked, draw_plan, fuel_stock, greedy, lemma_draws_effect,
    lemma_draws_lower_stock, lemma_fills_effect, lemma_greedy_idle, lemma_greedy_in_order,
    lemma_greedy_meets_need, lemma_greedy_within, lemma_idle_draws, lemma_usable_bounds,
    space_offers, stock_offers,
};
use crate::models::{token_matches, Fuel, Tank};
use crate::purchase::{
    admitted, basket_cost, batch_outcome, lemma_charged_keeps_rows, line_feasible, line_outcome,
    lines_outcome, payable, purchase_outcome, settled, store_after_batch, store_after_purchase,
    PurchaseError,
};
use crate::refill::refill_outcome;
use crate::store::StoreView;
use crate::utils::{fuel_cost, refill_cost};
use vstd::prelude::*;

verus! {

/// The tanks of `fuel_id` are drained in their order: where a tank has given
/// something up, every tank of the product before it is empty.
pub open spec fn drained_in_order(before: Seq<Tank>, after: Seq<Tank>, fuel_id: i32) -> bool {
    &&& after.len() == before.len()
    &&& forall|i: int, j: int|
        0 <= i < j < before.len() && before[i].fuelid == fuel_id && (#[trigger] after[j]).stored
            != before[j].stored ==> (#[trigger] after[i]).stored <= 0 && (before[i].stored > 0
            ==> after[i].stored == 0)
}

/// A purchase of a metered product within its stock is never refused for
/// stock, goes through whenever the customer is signed in and can pay, and
/// then leaves the product's stock lower by exactly the quantity, drawn from
/// its tanks in their order.
pub proof fn law_purchase_within_stock(
    store: StoreView,
    user_id: i32,
    fuel_id: i32,
    amount: i32,
    token: Seq<char>,
)
    requires
        store.fuel_at(fuel_id) is Some,
        !store.is_unmetered(fuel_id),
        0 <= amount <= fuel_stock(store.tanks, fuel_id),
    ensures
        purchase_outcome(store, user_id, fuel_id, amount, token) != Err::<
            StoreView,
            PurchaseError,
        >(PurchaseError::InsufficientStock),
        admitted(store, user_id, token) matches Ok(payer) && payable(
            store,
            payer,
            fuel_cost(store.price_of(fuel_id), amount as int),
        ) ==> purchase_outcome(store, user_id, fuel_id, amount, token) is Ok,
        purchase_outcome(store, user_id, fuel_id, amount, token) matches Ok(after) ==> fuel_stock(
            after.tanks,
            fuel_id,
        ) == fuel_stock(store.tanks, fuel_id) - amount && drained_in_order(
            store.tanks,
            after.tanks,
            fuel_id,
        ),
{
    let offers = stock_offers(store.tanks, fuel_id);
    let plan = greedy(offers, amount as int);
    lemma_greedy_within(offers, amount as int);
    lemma_usable_bounds(offers);
    lemma_greedy_meets_need(offers, amount as int);
    lemma_draws_effect(store.tanks, fuel_id, plan);
    let left = after_draws(store.tanks, plan);
    assert forall|i: int, j: int|
        0 <= i < j < store.tanks.len() && store.tanks[i].fuelid == fuel_id && (
        #[trigger] left[j]).stored != store.tanks[j].stored implies (#[trigger] left[i]).stored
        <= 0 && (store.tanks[i].stored > 0 ==> left[i].stored == 0) by {
        assert(0 <= plan[j]);
        assert(plan[j] > 0);
        lemma_greedy_in_order(offers, amount as int, i, j);
    }
    assert(drained_in_order(store.tanks, left, fuel_id));
}

/// A purchase of a metered product beyond its stock by a signed-in customer
/// is refused for stock, and the store stays as it was.
pub proof fn law_purchase_beyond_stock(
    store: StoreView,
    user_id: i32,
    fuel_id: i32,
    amount: i32,
    token: Seq<char>,
)
    requires
        admitted(store, user_id, token) is Ok,
        store.fuel_at(fuel_id) is Some,
        !store.is_unmetered(fuel_id),
        amount > fuel_stock(store.tanks, fuel_id),
    ensures
        purchase_outcome(store, user_id, fuel_id, amount, token) == Err::<
            StoreView,
            PurchaseError,
        >(PurchaseError::InsufficientStock),
        store_after_purchase(store, user_id, fuel_id, amount, token) == store,
{
}

/// A purchase of an unmetered product by a signed-in customer is refused for
/// stock exactly when none of its tanks stores anything, whatever the
/// quantity; it goes through whenever one does and the customer can pay; and
/// it leaves every tank as it was.
pub proof fn law_unmetered_purchase(
    store: StoreView,
    user_id: i32,
    fuel_id: i32,
    amount: i32,
    token: Seq<char>,
)
    requires
        admitted(store, user_id, token) is Ok,
        store.fuel_at(fuel_id) is Some,
        store.is_unmetered(fuel_id),
    ensures
        purchase_outcome(store, user_id, fuel_id, amount, token) == Err::<
            StoreView,
            PurchaseError,
        >(PurchaseError::InsufficientStock) <==> !any_stocked(store.tanks, fuel_id),
        any_stocked(store.tanks, fuel_id) && payable(
            store,
            admitted(store, user_id, token).unwrap(),
            fuel_cost(store.price_of(fuel_id), amount as int),
        ) ==> purchase_outcome(store, user_id, fuel_id, amount, token) is Ok,
        purchase_outcome(store, user_id, fuel_id, amount, token) matches Ok(after) ==> after.tanks
            == store.tanks,
{
    let offers = stock_offers(store.tanks, fuel_id);
    lemma_greedy_within(offers, 0);
    lemma_idle_draws(store.tanks, greedy(offers, 0));
}

/// A purchase with a token that is not the customer's is refused as
/// unauthorized and changes nothing, and so is the same purchase made again.
pub proof fn law_invalid_token_refused_again(
    store: StoreView,
    user_id: i32,
    fuel_id: i32,
    amount: i32,
    token: Seq<char>,
)
    requires
        store.customer_at(user_id) matches Some(row) && !token_matches(
            store.customers[row].customer.session_token,
            token,
        ),
    ensures
        purchase_outcome(store, user_id, fuel_id, amount, token) == Err::<
            StoreView,
            PurchaseError,
        >(PurchaseError::Unauthorized),
        store_after_purchase(store, user_id, fuel_id, amount, token) == store,
        purchase_outcome(
            store_after_purchase(store, user_id, fuel_id, amount, token),
            user_id,
            fuel_id,
            amount,
            token,
        ) == Err::<StoreView, PurchaseError>(PurchaseError::Unauthorized),
        store_after_purchase(
            store_after_purchase(store, user_id, fuel_id, amount, token),
            user_id,
            fuel_id,
            amount,
            token,
        ) == store,
{
}

/// A payment moves exactly the cost from the payer's balance to the bank.
pub proof fn lemma_settled_moves_cost(
    store: StoreView,
    user_id: i32,
    payer: int,
    tanks: Seq<Tank>,
    cost: int,
)
    requires
        store.customer_at(user_id) == Some(payer),
        0 <= payer < store.customers.len(),
        settled(store, payer, tanks, cost) is Ok,
    ensures
        settled(store, payer, tanks, cost).unwrap().balance_of(user_id) == store.balance_of(user_id)
            - cost,
        settled(store, payer, tanks, cost).unwrap().bank_total() == store.bank_total() + cost,
        settled(store, payer, tanks, cost).unwrap().tanks == tanks,
        settled(store, payer, tanks, cost).unwrap().fuels == store.fuels,
{
    lemma_charged_keeps_rows(store, payer, cost);
}

/// A purchase that goes through takes price times quantity, no more and no
/// less, from the customer's balance and adds the same to the bank.
pub proof fn law_purchase_conserves_money(
    store: StoreView,
    user_id: i32,
    fuel_id: i32,
    amount: i32,
    token: Seq<char>,
)
    requires
        purchase_outcome(store, user_id, fuel_id, amount, token) is Ok,
    ensures
        purchase_outcome(store, user_id, fuel_id, amount, token).unwrap().balance_of(user_id)
            == store.balance_of(user_id) - store.price_of(fuel_id) * amount,
        purchase_outcome(store, user_id, fuel_id, amount, token).unwrap().bank_total()
            == store.bank_total() + store.price_of(fuel_id) * amount,
{
    crate::store::lemma_position_of(crate::store::customer_ids(store.customers), user_id);
    let payer = admitted(store, user_id, token).unwrap();
    let line = line_outcome(store.fuels, store.tanks, 0, fuel_id, amount).unwrap();
    lemma_settled_moves_cost(store, user_id, payer, line.0, line.1);
}

/// The lines of a basket that go through run up the basket's cost.
pub proof fn lemma_lines_cost(
    fuels: Seq<Fuel>,
    tanks: Seq<Tank>,
    spent: int,
    items: Seq<(i32, i32)>,
)
    requires
        lines_outcome(fuels, tanks, spent, items) is Ok,
    ensures
        lines_outcome(fuels, tanks, spent, items).unwrap().1 == spent + basket_cost(fuels, items),
    decreases items.len(),
{
    if items.len() > 0 {
        let line = line_outcome(fuels, tanks, spent, items.first().0, items.first().1).unwrap();
        lemma_lines_cost(fuels, line.0, line.1, items.drop_first());
    }
}

/// The purchase of a basket that goes through takes the basket's cost, no
/// more and no less, from the customer's balance and adds the same to the bank.
pub proof fn law_batch_conserves_money(
    store: StoreView,
    user_id: i32,
    items: Seq<(i32, i32)>,
    token: Seq<char>,
)
    requires
        batch_outcome(store, user_id, items, token) is Ok,
    ensures
        batch_outcome(store, user_id, items, token).unwrap().balance_of(user_id)
            == store.balance_of(user_id) - basket_cost(store.fuels, items),
        batch_outcome(store, user_id, items, token).unwrap().bank_total() == store.bank_total()
            + basket_cost(store.fuels, items),
{
    crate::store::lemma_position_of(crate::store::customer_ids(store.customers), user_id);
    let payer = admitted(store, user_id, token).unwrap();
    let lines = lines_outcome(store.fuels, store.tanks, 0, items).unwrap();
    lemma_lines_cost(store.fuels, store.tanks, 0, items);
    lemma_settled_moves_cost(store, user_id, payer, lines.0, lines.1);
}

/// A refill of a metered product followed by a purchase of the same quantity
/// of it brings the product's stock back to where it was, and leaves the bank
/// with what it had, less the refill's cost, plus the purchase's.
pub proof fn law_refill_then_purchase(
    store: StoreView,
    fuel_id: i32,
    amount: i32,
    admin_token: Seq<char>,
    user_id: i32,
    token: Seq<char>,
)
    requires
        refill_outcome(store, fuel_id, amount, admin_token) is Ok,
        purchase_outcome(
            refill_outcome(store, fuel_id, amount, admin_token).unwrap(),
            user_id,
            fuel_id,
            amount,
            token,
        ) is Ok,
        !store.is_unmetered(fuel_id) || amount <= 0,
    ensures
        fuel_stock(
            purchase_outcome(
                refill_outcome(store, fuel_id, amount, admin_token).unwrap(),
                user_id,
                fuel_id,
                amount,
                token,
            ).unwrap().tanks,
            fuel_id,
        ) == fuel_stock(store.tanks, fuel_id),
        purchase_outcome(
            refill_outcome(store, fuel_id, amount, admin_token).unwrap(),
            user_id,
            fuel_id,
            amount,
            token,
        ).unwrap().bank_total() == store.bank_total() - refill_cost(
            store.price_of(fuel_id),
            amount as int,
        ) + fuel_cost(store.price_of(fuel_id), amount as int),
{
    let refilled = refill_outcome(store, fuel_id, amount, admin_token).unwrap();
    let space = space_offers(store.tanks, fuel_id);
    let fills = greedy(space, amount as int);
    lemma_greedy_within(space, amount as int);
    lemma_fills_effect(store.tanks, fuel_id, fills);
    lemma_usable_bounds(space);
    if amount >= 0 {
        lemma_greedy_meets_need(space, amount as int);
    } else {
        lemma_greedy_idle(space, amount as int);
    }
    let needed = if store.is_unmetered(fuel_id) {
        0
    } else {
        amount as int
    };
    let offers = stock_offers(refilled.tanks, fuel_id);
    let draws = greedy(offers, needed);
    lemma_greedy_within(offers, needed);
    lemma_draws_effect(refilled.tanks, fuel_id, draws);
    lemma_usable_bounds(offers);
    if needed >= 0 {
        lemma_greedy_meets_need(offers, needed);
    } else {
        lemma_greedy_idle(offers, needed);
    }
    law_purchase_conserves_money(refilled, user_id, fuel_id, amount, token);
}

/// Lines that fail one of them fail as a whole: where a line cannot be served
/// from the tanks as they stand, no run through the lines goes through.
pub proof fn lemma_infeasible_line_fails(
    fuels: Seq<Fuel>,
    tanks: Seq<Tank>,
    spent: int,
    items: Seq<(i32, i32)>,
    line: int,
)
    requires
        0 <= line < items.len(),
        !line_feasible(fuels, tanks, items[line].0, items[line].1),
    ensures
        lines_outcome(fuels, tanks, spent, items) is Err,
    decreases items.len(),
{
    if line > 0 {
        match line_outcome(fuels, tanks, spent, items.first().0, items.first().1) {
            Err(_) => {},
            Ok((left, so_far)) => {
                let first = items.first();
                let row = crate::store::position_of(crate::store::fuel_ids(fuels), first.0).unwrap();
                let binary = fuels[row].is_unmetered();
                let needed = if binary {
                    0
                } else {
                    first.1 as int
                };
                lemma_greedy_within(stock_offers(tanks, first.0), needed);
                let later = items[line];
                assert(items.drop_first()[line - 1] == later);
                if line_feasible(fuels, left, later.0, later.1) {
                    let later_row = crate::store::position_of(
                        crate::store::fuel_ids(fuels),
                        later.0,
                    ).unwrap();
                    lemma_draws_lower_stock(
                        tanks,
                        first.0,
                        draw_plan(tanks, first.0, first.1 as int, binary),
                        later.0,
                        later.1 as int,
                        fuels[later_row].is_unmetered(),
                    );
                }
                lemma_infeasible_line_fails(fuels, left, so_far, items.drop_first(), line - 1);
            },
        }
    }
}

/// The purchase of a basket with a line that cannot be served, because its
/// product is not on sale or the stock does not allow its quantity, is
/// refused as a whole: no tank, no balance and no ledger changes.
pub proof fn law_batch_is_all_or_nothing(
    store: StoreView,
    user_id: i32,
    items: Seq<(i32, i32)>,
    token: Seq<char>,
    line: int,
)
    requires
        0 <= line < items.len(),
        !line_feasible(store.fuels, store.tanks, items[line].0, items[line].1),
    ensures
        batch_outcome(store, user_id, items, token) is Err,
        store_after_batch(store, user_id, items, token) == store,
{
    lemma_infeasible_line_fails(store.fuels, store.tanks, 0, items, line);
}

/// Whether every tank stores something between nothing and its capacity.
pub open spec fn tanks_valid(tanks: Seq<Tank>) -> bool {
    forall|i: int| 0 <= i < tanks.len() ==> 0 <= (#[trigger] tanks[i]).stored <= tanks[i].capacity
}

/// Lines that go through leave valid tanks valid.
pub proof fn lemma_lines_keep_tanks_valid(
    fuels: Seq<Fuel>,
    tanks: Seq<Tank>,
    spent: int,
    items: Seq<(i32, i32)>,
)
    requires
        tanks_valid(tanks),
        lines_outcome(fuels, tanks, spent, items) is Ok,
    ensures
        tanks_valid(lines_outcome(fuels, tanks, spent, items).unwrap().0),
    decreases items.len(),
{
    if items.len() > 0 {
        let first = items.first();
        let row = crate::store::position_of(crate::store::fuel_ids(fuels), first.0).unwrap();
        let needed = if fuels[row].is_unmetered() {
            0
        } else {
            first.1 as int
        };
        let offers = stock_offers(tanks, first.0);
        let plan = greedy(offers, needed);
        lemma_greedy_within(offers, needed);
        lemma_draws_effect(tanks, first.0, plan);
        let line = line_outcome(fuels, tanks, spent, first.0, first.1).unwrap();
        assert forall|i: int| 0 <= i < line.0.len() implies 0 <= (#[trigger] line.0[i]).stored
            <= line.0[i].capacity by {
            assert(0 <= plan[i] && (plan[i] == 0 || plan[i] <= tanks[i].stored));
            assert(0 <= tanks[i].stored <= tanks[i].capacity);
        }
        lemma_lines_keep_tanks_valid(fuels, line.0, line.1, items.drop_first());
    }
}

/// A purchase that goes through leaves the customer with a balance that is
/// not negative, and valid tanks valid.
pub proof fn law_purchase_keeps_store_valid(
    store: StoreView,
    user_id: i32,
    fuel_id: i32,
    amount: i32,
    token: Seq<char>,
)
    requires
        purchase_outcome(store, user_id, fuel_id, amount, token) is Ok,
    ensures
        purchase_outcome(store, user_id, fuel_id, amount, token).unwrap().balance_of(user_id) >= 0,
        tanks_valid(store.tanks) ==> tanks_valid(
            purchase_outcome(store, user_id, fuel_id, amount, token).unwrap().tanks,
        ),
{
    crate::store::lemma_position_of(crate::store::customer_ids(store.customers), user_id);
    let payer = admitted(store, user_id, token).unwrap();
    let line = line_outcome(store.fuels, store.tanks, 0, fuel_id, amount).unwrap();
    lemma_settled_moves_cost(store, user_id, payer, line.0, line.1);
    if tanks_valid(store.tanks) {
        let items = seq![(fuel_id, amount)];
        assert(items.drop_first() =~= Seq::<(i32, i32)>::empty());
        assert(lines_outcome(store.fuels, line.0, line.1, items.drop_first()) == Ok::<
            (Seq<Tank>, int),
            PurchaseError,
        >((line.0, line.1)));
        assert(lines_outcome(store.fuels, store.tanks, 0, items) == Ok::<
            (Seq<Tank>, int),
            PurchaseError,
        >((line.0, line.1)));
        lemma_lines_keep_tanks_valid(store.fuels, store.tanks, 0, items);
    }
}

/// The purchase of a basket that goes through leaves the customer with a
/// balance that is not negative, and valid tanks valid.
pub proof fn law_batch_keeps_store_valid(
    store: StoreView,
    user_id: i32,
    items: Seq<(i32, i32)>,
    token: Seq<char>,
)
    requires
        batch_outcome(store, user_id, items, token) is Ok,
    ensures
        batch_outcome(store, user_id, items, token).unwrap().balance_of(user_id) >= 0,
        tanks_valid(store.tanks) ==> tanks_valid(
            batch_outcome(store, user_id, items, token).unwrap().tanks,
        ),
{
    crate::store::lemma_position_of(crate::store::customer_ids(store.customers), user_id);
    let payer = admitted(store, user_id, token).unwrap();
    let lines = lines_outcome(store.fuels, store.tanks, 0, items).unwrap();
    lemma_settled_moves_cost(store, user_id, payer, lines.0, lines.1);
    if tanks_valid(store.tanks) {
        lemma_lines_keep_tanks_valid(store.fuels, store.tanks, 0, items);
    }
}

/// A refill that goes through leaves the bank with a total that is not
/// negative, valid tanks valid, and the product's stock higher by the
/// quantity, if that is above zero.
pub proof fn law_refill_keeps_store_valid(
    store: StoreView,
    fuel_id: i32,
    amount: i32,
    token: Seq<char>,
)
    requires
        refill_outcome(store, fuel_id, amount, token) is Ok,
    ensures
        refill_outcome(store, fuel_id, amount, token).unwrap().bank_total() >= 0,
        refill_outcome(store, fuel_id, amount, token).unwrap().bank_total() == store.bank_total()
            - refill_cost(store.price_of(fuel_id), amount as int),
        tanks_valid(store.tanks) ==> tanks_valid(
            refill_outcome(store, fuel_id, amount, token).unwrap().tanks,
        ),
        fuel_stock(refill_outcome(store, fuel_id, amount, token).unwrap().tanks, fuel_id)
            == fuel_stock(store.tanks, fuel_id) + if amount > 0 {
            amount as int
        } else {
            0
        },
{
    let after = refill_outcome(store, fuel_id, amount, token).unwrap();
    let space = space_offers(store.tanks, fuel_id);
    let plan = greedy(space, amount as int);
    lemma_greedy_within(space, amount as int);
    lemma_fills_effect(store.tanks, fuel_id, plan);
    lemma_usable_bounds(space);
    if amount >= 0 {
        lemma_greedy_meets_need(space, amount as int);
    } else {
        lemma_greedy_idle(space, amount as int);
    }
    if tanks_valid(store.tanks) {
        assert forall|i: int| 0 <= i < after.tanks.len() implies 0 <= (
        #[trigger] after.tanks[i]).stored <= after.tanks[i].capacity by {
            assert(0 <= plan[i] && (plan[i] == 0 || plan[i] <= store.tanks[i].capacity
                - store.tanks[i].stored));
            assert(0 <= store.tanks[i].stored <= store.tanks[i].capacity);
        }
    }
}

} // verus!
