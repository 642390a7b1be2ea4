//! Purchases: one product or a whole basket, paid from a customer's balance.
//!
//! A purchase checks everything first and changes the store only when every
//! check has passed: the tanks give up the stock, the customer pays, the bank
//! is credited. A purchase that fails leaves the store exactly as it was.

use crate::allocator::{
    after_draws, allocate, amounts, apply_draws, draw_plan, lemma_draws_effect,
    lemma_greedy_within, stock_available, stock_offers,
};
use crate::models::{check_token, token_matches, Bank, Customer, Fuel, Tank};
use crate::store::{CustomerAccount, Store, StoreView};
use crate::utils::{checked_fuel_cost, fits_i64, fuel_cost};
use vstd::prelude::*;

verus! {

/// Why a purchase was turned down.
#[derive(Debug, Clone, Copy, PartialEq, Eq, Structural)]
pub enum PurchaseError {
    /// No customer has the given number.
    CustomerNotFound,
    /// The customer has no live session, or the token is not that session's.
    Unauthorized,
    /// The basket holds no line.
    EmptyRequest,
    /// A line names a product that is not on sale.
    ProductNotFound,
    /// A line asks for more than is in stock.
    InsufficientStock,
    /// The customer's balance does not cover the cost.
    InsufficientFunds,
    /// An amount of money left the range that the store can hold.
    StoreFailure,
}

/// The bank's row once `amount` has been credited: the row is opened, as
/// number one, by the first credit.
pub open spec fn credited(bank: Option<Bank>, amount: int) -> Bank {
    match bank {
        Some(row) => Bank { id: row.id, total: (row.total + amount) as i64 },
        None => Bank { id: 1, total: amount as i64 },
    }
}

/// The account once `cost` has been taken from its balance.
pub open spec fn charged(account: CustomerAccount, cost: int) -> CustomerAccount {
    CustomerAccount {
        customer: Customer {
            balance: (account.customer.balance - cost) as i64,
            ..account.customer
        },
        ..account
    }
}

/// Who pays: the row of the customer numbered `user_id`, if `token` is the
/// token of that customer's live session.
pub open spec fn admitted(store: StoreView, user_id: i32, token: Seq<char>) -> Result<
    int,
    PurchaseError,
> {
    match store.customer_at(user_id) {
        None => Err(PurchaseError::CustomerNotFound),
        Some(row) => if token_matches(store.customers[row].customer.session_token, token) {
            Ok(row)
        } else {
            Err(PurchaseError::Unauthorized)
        },
    }
}

/// One line of a basket, taken from `tanks` after `spent` has been run up:
/// the tanks it leaves and the sum run up with it.
pub open spec fn line_outcome(
    fuels: Seq<Fuel>,
    tanks: Seq<Tank>,
    spent: int,
    fuel_id: i32,
    amount: i32,
) -> Result<(Seq<Tank>, int), PurchaseError> {
    match crate::store::position_of(crate::store::fuel_ids(fuels), fuel_id) {
        None => Err(PurchaseError::ProductNotFound),
        Some(row) => {
            let cost = fuel_cost(fuels[row].price as int, amount as int);
            let binary = fuels[row].is_unmetered();
            if !stock_available(tanks, fuel_id, amount as int, binary) {
                Err(PurchaseError::InsufficientStock)
            } else if !fits_i64(cost) || !fits_i64(spent + cost) {
                Err(PurchaseError::StoreFailure)
            } else {
                Ok((after_draws(tanks, draw_plan(tanks, fuel_id, amount as int, binary)), spent + cost))
            }
        },
    }
}

/// The lines of a basket in order, each taken from what the lines before it left.
pub open spec fn lines_outcome(
    fuels: Seq<Fuel>,
    tanks: Seq<Tank>,
    spent: int,
    items: Seq<(i32, i32)>,
) -> Result<(Seq<Tank>, int), PurchaseError>
    decreases items.len(),
{
    if items.len() == 0 {
        Ok((tanks, spent))
    } else {
        match line_outcome(fuels, tanks, spent, items.first().0, items.first().1) {
            Err(error) => Err(error),
            Ok((left, so_far)) => lines_outcome(fuels, left, so_far, items.drop_first()),
        }
    }
}

/// Payment of `cost` by the customer in row `payer` for a draw that leaves `tanks`.
pub open spec fn settled(store: StoreView, payer: int, tanks: Seq<Tank>, cost: int) -> Result<
    StoreView,
    PurchaseError,
> {
    let balance = store.customers[payer].customer.balance as int;
    if balance < cost {
        Err(PurchaseError::InsufficientFunds)
    } else if !fits_i64(balance - cost) || !fits_i64(store.bank_total() + cost) {
        Err(PurchaseError::StoreFailure)
    } else {
        Ok(
            StoreView {
                customers: store.customers.update(payer, charged(store.customers[payer], cost)),
                tanks,
                bank: Some(credited(store.bank, cost)),
                ..store
            },
        )
    }
}

/// What a purchase of `amount` units of product `fuel_id` by customer
/// `user_id` does to the store, or why it is turned down.
pub open spec fn purchase_outcome(
    store: StoreView,
    user_id: i32,
    fuel_id: i32,
    amount: i32,
    token: Seq<char>,
) -> Result<StoreView, PurchaseError> {
    match admitted(store, user_id, token) {
        Err(error) => Err(error),
        Ok(payer) => match line_outcome(store.fuels, store.tanks, 0, fuel_id, amount) {
            Err(error) => Err(error),
            Ok((left, cost)) => settled(store, payer, left, cost),
        },
    }
}

/// What the purchase of a basket of `(product, quantity)` lines by customer
/// `user_id` does to the store, or why it is turned down.
pub open spec fn batch_outcome(
    store: StoreView,
    user_id: i32,
    items: Seq<(i32, i32)>,
    token: Seq<char>,
) -> Result<StoreView, PurchaseError> {
    match admitted(store, user_id, token) {
        Err(error) => Err(error),
        Ok(payer) => if items.len() == 0 {
            Err(PurchaseError::EmptyRequest)
        } else {
            match lines_outcome(store.fuels, store.tanks, 0, items) {
                Err(error) => Err(error),
                Ok((left, cost)) => settled(store, payer, left, cost),
            }
        },
    }
}

/// Whether the customer in row `payer` can pay `cost` and the store can hold
/// the amounts that result.
pub open spec fn payable(store: StoreView, payer: int, cost: int) -> bool {
    let balance = store.customers[payer].customer.balance as int;
    &&& fits_i64(cost)
    &&& cost <= balance
    &&& fits_i64(balance - cost)
    &&& fits_i64(store.bank_total() + cost)
}

/// Whether a line can be served from `tanks`: its product is on sale and the
/// stock allows the quantity.
pub open spec fn line_feasible(fuels: Seq<Fuel>, tanks: Seq<Tank>, fuel_id: i32, amount: i32) -> bool {
    match crate::store::position_of(crate::store::fuel_ids(fuels), fuel_id) {
        None => false,
        Some(row) => stock_available(tanks, fuel_id, amount as int, fuels[row].is_unmetered()),
    }
}

/// What a basket costs: the sum over its lines of price times quantity.
pub open spec fn basket_cost(fuels: Seq<Fuel>, items: Seq<(i32, i32)>) -> int
    decreases items.len(),
{
    if items.len() == 0 {
        0
    } else {
        (match crate::store::position_of(crate::store::fuel_ids(fuels), items.first().0) {
            Some(row) => fuel_cost(fuels[row].price as int, items.first().1 as int),
            None => 0,
        }) + basket_cost(fuels, items.drop_first())
    }
}

/// The store as a purchase leaves it: changed where it goes through, as it
/// was where it is turned down.
pub open spec fn store_after_purchase(
    store: StoreView,
    user_id: i32,
    fuel_id: i32,
    amount: i32,
    token: Seq<char>,
) -> StoreView {
    match purchase_outcome(store, user_id, fuel_id, amount, token) {
        Ok(after) => after,
        Err(_) => store,
    }
}

/// The store as the purchase of a basket leaves it: changed where it goes
/// through, as it was where it is turned down.
pub open spec fn store_after_batch(
    store: StoreView,
    user_id: i32,
    items: Seq<(i32, i32)>,
    token: Seq<char>,
) -> StoreView {
    match batch_outcome(store, user_id, items, token) {
        Ok(after) => after,
        Err(_) => store,
    }
}

/// Charging an account changes nobody's number: the payer is found where they were.
pub proof fn lemma_charged_keeps_rows(store: StoreView, payer: int, cost: int)
    requires
        0 <= payer < store.customers.len(),
    ensures
        crate::store::customer_ids(store.customers.update(payer, charged(store.customers[payer], cost)))
            == crate::store::customer_ids(store.customers),
{
    assert(crate::store::customer_ids(
        store.customers.update(payer, charged(store.customers[payer], cost)),
    ) =~= crate::store::customer_ids(store.customers));
}

fn authorize(store: &Store, user_id: i32, token: &str) -> (outcome: Result<usize, PurchaseError>)
    ensures
        match admitted(store@, user_id, token@) {
            Ok(row) => outcome == Ok::<usize, PurchaseError>(row as usize) && 0 <= row
                < store.customers.len(),
            Err(error) => outcome == Err::<usize, PurchaseError>(error),
        },
{
    match store.find_customer(user_id) {
        None => Err(PurchaseError::CustomerNotFound),
        Some(row) => {
            if check_token(&store.customers[row].customer.session_token, token) {
                Ok(row)
            } else {
                Err(PurchaseError::Unauthorized)
            }
        },
    }
}

fn copy_tanks(tanks: &Vec<Tank>) -> (copy: Vec<Tank>)
    ensures
        copy@ == tanks@,
{
    let mut copy: Vec<Tank> = Vec::new();
    let mut i: usize = 0;
    while i < tanks.len()
        invariant
            i <= tanks.len(),
            copy@ == tanks@.take(i as int),
        decreases tanks.len() - i,
    {
        copy.push(tanks[i]);
        assert(tanks@.take(i + 1) =~= tanks@.take(i as int).push(tanks@[i as int]));
        i = i + 1;
    }
    assert(tanks@.take(i as int) =~= tanks@);
    copy
}

fn plan_line(store: &Store, tanks: &mut Vec<Tank>, spent: i64, fuel_id: i32, amount: i32) -> (outcome:
    Result<i64, PurchaseError>)
    ensures
        match line_outcome(store@.fuels, old(tanks)@, spent as int, fuel_id, amount) {
            Ok((left, so_far)) => outcome == Ok::<i64, PurchaseError>(so_far as i64) && fits_i64(
                so_far,
            ) && final(tanks)@ == left,
            Err(error) => outcome == Err::<i64, PurchaseError>(error),
        },
{
    let row = match store.find_fuel(fuel_id) {
        Some(row) => row,
        None => {
            return Err(PurchaseError::ProductNotFound);
        },
    };
    let fuel = &store.fuels[row];
    let binary = fuel.unmetered();
    let plan = match allocate(tanks, fuel_id, amount, binary) {
        Ok(plan) => plan,
        Err(_) => {
            return Err(PurchaseError::InsufficientStock);
        },
    };
    let cost = match checked_fuel_cost(fuel.price, amount) {
        Some(cost) => cost,
        None => {
            return Err(PurchaseError::StoreFailure);
        },
    };
    let so_far = match spent.checked_add(cost) {
        Some(sum) => sum,
        None => {
            return Err(PurchaseError::StoreFailure);
        },
    };
    proof {
        lemma_greedy_within(
            stock_offers(tanks@, fuel_id),
            if binary {
                0
            } else {
                amount as int
            },
        );
        lemma_draws_effect(tanks@, fuel_id, amounts(plan@));
    }
    apply_draws(tanks, &plan);
    Ok(so_far)
}

fn plan_lines(store: &Store, tanks: &mut Vec<Tank>, items: &Vec<(i32, i32)>) -> (outcome: Result<
    i64,
    PurchaseError,
>)
    ensures
        match lines_outcome(store@.fuels, old(tanks)@, 0, items@) {
            Ok((left, spent)) => outcome == Ok::<i64, PurchaseError>(spent as i64) && fits_i64(
                spent,
            ) && final(tanks)@ == left,
            Err(error) => outcome == Err::<i64, PurchaseError>(error),
        },
{
    let mut spent: i64 = 0;
    let mut i: usize = 0;
    proof {
        assert(items@.skip(0) =~= items@);
    }
    while i < items.len()
        invariant
            i <= items.len(),
            lines_outcome(store@.fuels, old(tanks)@, 0, items@) == lines_outcome(
                store@.fuels,
                tanks@,
                spent as int,
                items@.skip(i as int),
            ),
        decreases items.len() - i,
    {
        let (fuel_id, amount) = items[i];
        proof {
            assert(items@.skip(i as int).first() == items@[i as int]);
            assert(items@.skip(i as int).drop_first() =~= items@.skip(i + 1));
        }
        match plan_line(store, tanks, spent, fuel_id, amount) {
            Ok(so_far) => {
                spent = so_far;
            },
            Err(error) => {
                return Err(error);
            },
        }
        i = i + 1;
    }
    Ok(spent)
}

fn settle(store: &mut Store, payer: usize, tanks: Vec<Tank>, cost: i64) -> (outcome: Result<
    i64,
    PurchaseError,
>)
    requires
        payer < old(store).customers.len(),
    ensures
        match settled(old(store)@, payer as int, tanks@, cost as int) {
            Ok(after) => final(store)@ == after && outcome == Ok::<i64, PurchaseError>(
                after.customers[payer as int].customer.balance,
            ),
            Err(error) => final(store)@ == old(store)@ && outcome == Err::<i64, PurchaseError>(
                error,
            ),
        },
{
    let balance = store.customers[payer].customer.balance;
    if balance < cost {
        return Err(PurchaseError::InsufficientFunds);
    }
    let new_balance = match balance.checked_sub(cost) {
        Some(left) => left,
        None => {
            return Err(PurchaseError::StoreFailure);
        },
    };
    let bank = match store.bank {
        Some(row) => match row.total.checked_add(cost) {
            Some(total) => Bank { id: row.id, total },
            None => {
                return Err(PurchaseError::StoreFailure);
            },
        },
        None => Bank { id: 1, total: cost },
    };
    store.customers[payer].customer.balance = new_balance;
    store.tanks = tanks;
    store.bank = Some(bank);
    assert(store@.customers =~= old(store)@.customers.update(
        payer as int,
        charged(old(store)@.customers[payer as int], cost as int),
    ));
    Ok(new_balance)
}

/// Sells `amount_needed` units of product `fuel_id` to customer `user_id`
/// and returns the customer's new balance.
pub fn buy_fuel(store: &mut Store, user_id: i32, fuel_id: i32, amount_needed: i32, token: &str) -> (outcome:
    Result<i64, PurchaseError>)
    ensures
        match purchase_outcome(old(store)@, user_id, fuel_id, amount_needed, token@) {
            Ok(after) => final(store)@ == after && outcome == Ok::<i64, PurchaseError>(
                after.balance_of(user_id) as i64,
            ),
            Err(error) => final(store)@ == old(store)@ && outcome == Err::<i64, PurchaseError>(
                error,
            ),
        },
{
    let payer = match authorize(store, user_id, token) {
        Ok(row) => row,
        Err(error) => {
            return Err(error);
        },
    };
    let mut tanks = copy_tanks(&store.tanks);
    let cost = match plan_line(store, &mut tanks, 0, fuel_id, amount_needed) {
        Ok(cost) => cost,
        Err(error) => {
            return Err(error);
        },
    };
    proof {
        lemma_charged_keeps_rows(store@, payer as int, cost as int);
    }
    settle(store, payer, tanks, cost)
}

/// Sells a basket of `(product, quantity)` lines to customer `user_id` in one
/// step and returns the customer's new balance.
pub fn buy_fuel_batch(store: &mut Store, user_id: i32, items: &Vec<(i32, i32)>, token: &str) -> (outcome:
    Result<i64, PurchaseError>)
    ensures
        match batch_outcome(old(store)@, user_id, items@, token@) {
            Ok(after) => final(store)@ == after && outcome == Ok::<i64, PurchaseError>(
                after.balance_of(user_id) as i64,
            ),
            Err(error) => final(store)@ == old(store)@ && outcome == Err::<i64, PurchaseError>(
                error,
            ),
        },
{
    let payer = match authorize(store, user_id, token) {
        Ok(row) => row,
        Err(error) => {
            return Err(error);
        },
    };
    if items.len() == 0 {
        return Err(PurchaseError::EmptyRequest);
    }
    let mut tanks = copy_tanks(&store.tanks);
    let cost = match plan_lines(store, &mut tanks, items) {
        Ok(cost) => cost,
        Err(error) => {
            return Err(error);
        },
    };
    proof {
        lemma_charged_keeps_rows(store@, payer as int, cost as int);
    }
    settle(store, payer, tanks, cost)
}

} // verus!
