use gas_station::models::{Admin, Bank, Fuel, Tank};
use gas_station::price::{update_fuel_price, PriceError};
use gas_station::refill::{refill_fuel, RefillError};
use gas_station::store::{AdminAccount, Store};

const ADMIN: &str = "admin-session";

fn depot() -> Store {
    Store {
        customers: Vec::new(),
        admins: vec![
            AdminAccount {
                admin: Admin { id: 1, login: "night".to_string(), session_token: None },
                password: String::new(),
                salt: String::new(),
            },
            AdminAccount {
                admin: Admin { id: 2, login: "day".to_string(), session_token: Some(ADMIN.to_string()) },
                password: String::new(),
                salt: String::new(),
            },
        ],
        fuels: vec![
            Fuel { id: 1, name: "A-95".to_string(), price: 10001, fuel_type: None },
            Fuel { id: 2, name: "Gas".to_string(), price: 3000, fuel_type: Some("gas".to_string()) },
        ],
        tanks: vec![
            Tank { id: 1, fuelid: 1, stored: 900, capacity: 1000 },
            Tank { id: 2, fuelid: 2, stored: 0, capacity: 50 },
            Tank { id: 3, fuelid: 1, stored: 500, capacity: 500 },
            Tank { id: 4, fuelid: 1, stored: 100, capacity: 400 },
        ],
        bank: Some(Bank { id: 7, total: 2_000_000 }),
    }
}

fn levels(store: &Store) -> Vec<i32> {
    store.tanks.iter().map(|t| t.stored).collect()
}

#[test]
fn refill_fills_tanks_in_order_and_debits_the_bank() {
    let mut store = depot();
    assert_eq!(refill_fuel(&mut store, 1, 250, ADMIN), Ok(()));
    assert_eq!(levels(&store), vec![1000, 0, 500, 250]);
    assert_eq!(store.bank, Some(Bank { id: 7, total: 2_000_000 - 5000 * 250 }));
}

#[test]
fn refill_of_all_free_space_fills_every_tank() {
    let mut store = depot();
    assert_eq!(refill_fuel(&mut store, 1, 400, ADMIN), Ok(()));
    assert_eq!(levels(&store), vec![1000, 0, 500, 400]);
}

#[test]
fn refill_beyond_free_space_is_refused() {
    let mut store = depot();
    store.bank = Some(Bank { id: 7, total: 5000 * 401 });
    let before = store.clone();
    assert_eq!(refill_fuel(&mut store, 1, 401, ADMIN), Err(RefillError::InsufficientCapacity));
    assert_eq!(store, before);
}

#[test]
fn refill_without_admin_session_is_unauthorized() {
    let mut store = depot();
    let before = store.clone();
    assert_eq!(refill_fuel(&mut store, 1, 10, "guess"), Err(RefillError::Unauthorized));
    assert_eq!(refill_fuel(&mut store, 1, 10, ""), Err(RefillError::Unauthorized));
    assert_eq!(store, before);
}

#[test]
fn refill_of_unknown_product_is_not_found() {
    let mut store = depot();
    let before = store.clone();
    assert_eq!(refill_fuel(&mut store, 5, 10, ADMIN), Err(RefillError::ProductNotFound));
    assert_eq!(store, before);
}

#[test]
fn refill_without_bank_row_is_refused_whatever_the_cost() {
    let mut store = depot();
    store.bank = None;
    let before = store.clone();
    assert_eq!(refill_fuel(&mut store, 1, 10, ADMIN), Err(RefillError::LedgerUninitialized));
    assert_eq!(refill_fuel(&mut store, 1, 0, ADMIN), Err(RefillError::LedgerUninitialized));
    assert_eq!(store, before);
}

#[test]
fn refill_above_bank_total_is_refused() {
    let mut store = depot();
    store.bank = Some(Bank { id: 7, total: 5000 * 10 - 1 });
    let before = store.clone();
    assert_eq!(refill_fuel(&mut store, 1, 10, ADMIN), Err(RefillError::InsufficientLedgerFunds));
    assert_eq!(store, before);
    store.bank = Some(Bank { id: 7, total: 5000 * 10 });
    assert_eq!(refill_fuel(&mut store, 1, 10, ADMIN), Ok(()));
    assert_eq!(store.bank, Some(Bank { id: 7, total: 0 }));
}

#[test]
fn bank_funds_are_checked_before_capacity() {
    let mut store = depot();
    store.bank = Some(Bank { id: 7, total: 0 });
    assert_eq!(refill_fuel(&mut store, 1, 401, ADMIN), Err(RefillError::InsufficientLedgerFunds));
}

#[test]
fn refill_cost_beyond_the_range_of_money_is_a_store_failure() {
    let mut store = depot();
    store.fuels[0].price = i64::MAX;
    let before = store.clone();
    assert_eq!(refill_fuel(&mut store, 1, 3, ADMIN), Err(RefillError::StoreFailure));
    assert_eq!(store, before);
}

#[test]
fn refill_leaves_other_products_alone() {
    let mut store = depot();
    assert_eq!(refill_fuel(&mut store, 2, 50, ADMIN), Ok(()));
    assert_eq!(levels(&store), vec![900, 50, 500, 100]);
    assert_eq!(store.bank, Some(Bank { id: 7, total: 2_000_000 - 1500 * 50 }));
}

#[test]
fn price_change_needs_an_admin_session() {
    let mut store = depot();
    let before = store.clone();
    assert_eq!(update_fuel_price(&mut store, 1, 1, "nobody"), Err(PriceError::Unauthorized));
    assert_eq!(store, before);
}

#[test]
fn price_change_sets_the_price_of_one_product() {
    let mut store = depot();
    assert_eq!(update_fuel_price(&mut store, 2, 3333, ADMIN), Ok(()));
    assert_eq!(store.fuels[0].price, 10001);
    assert_eq!(store.fuels[1].price, 3333);
    assert_eq!(store.fuels[1].name, "Gas");
}

#[test]
fn price_change_of_unknown_product_changes_nothing() {
    let mut store = depot();
    let before = store.clone();
    assert_eq!(update_fuel_price(&mut store, 9, 3333, ADMIN), Ok(()));
    assert_eq!(store, before);
}

#[test]
fn bank_info_of_a_store_without_bank_is_empty() {
    let mut store = depot();
    assert_eq!(store.get_bank_info(), Bank { id: 7, total: 2_000_000 });
    store.bank = None;
    assert_eq!(store.get_bank_info(), Bank { id: 0, total: 0 });
}
