use gas_station::models::{Admin, Bank, Customer, Fuel, Tank};
use gas_station::purchase::{buy_fuel, buy_fuel_batch, PurchaseError};
use gas_station::refill::refill_fuel;
use gas_station::store::{AdminAccount, CustomerAccount, Store};

const TOKEN: &str = "customer-session";
const ADMIN_TOKEN: &str = "admin-session";

fn customer(id: i32, login: &str, balance: i64, token: Option<&str>) -> CustomerAccount {
    CustomerAccount {
        customer: Customer {
            id,
            login: login.to_string(),
            balance,
            session_token: token.map(|t| t.to_string()),
        },
        password: String::new(),
        salt: String::new(),
    }
}

fn fuel(id: i32, name: &str, price: i64, kind: Option<&str>) -> Fuel {
    Fuel { id, name: name.to_string(), price, fuel_type: kind.map(|k| k.to_string()) }
}

fn tank(id: i32, fuelid: i32, stored: i32, capacity: i32) -> Tank {
    Tank { id, fuelid, stored, capacity }
}

/// Product 1 is petrol at 5500 in two tanks, product 2 is diesel, product 3
/// is electricity with one working charger.
fn station() -> Store {
    Store {
        customers: vec![
            customer(1, "olena", 10_000_000, Some(TOKEN)),
            customer(2, "taras", 1_000, None),
        ],
        admins: vec![AdminAccount {
            admin: Admin { id: 1, login: "root".to_string(), session_token: Some(ADMIN_TOKEN.to_string()) },
            password: String::new(),
            salt: String::new(),
        }],
        fuels: vec![
            fuel(1, "A-95", 5500, Some("petrol")),
            fuel(2, "Diesel", 5200, Some("diesel")),
            fuel(3, "Charge", 900, Some("electricity")),
        ],
        tanks: vec![
            tank(1, 1, 300, 1000),
            tank(2, 2, 700, 1000),
            tank(3, 1, 200, 500),
            tank(4, 3, 1, 1),
        ],
        bank: Some(Bank { id: 1, total: 1_000_000 }),
    }
}

fn stored(store: &Store) -> Vec<i32> {
    store.tanks.iter().map(|t| t.stored).collect()
}

fn stock_of(store: &Store, fuel_id: i32) -> i64 {
    store.tanks.iter().filter(|t| t.fuelid == fuel_id).map(|t| t.stored as i64).sum()
}

#[test]
fn two_tank_purchase_drains_first_tank_and_part_of_second() {
    let mut store = Store::new();
    store.customers.push(customer(1, "olena", 3_000_000, Some(TOKEN)));
    store.fuels.push(fuel(1, "A", 5500, None));
    store.tanks = vec![tank(1, 1, 300, 1000), tank(2, 1, 200, 500)];
    store.bank = Some(Bank { id: 1, total: 40 });
    assert_eq!(buy_fuel(&mut store, 1, 1, 450, TOKEN), Ok(3_000_000 - 5500 * 450));
    assert_eq!(store.tanks, vec![tank(1, 1, 0, 1000), tank(2, 1, 50, 500)]);
    assert_eq!(store.customers[0].customer.balance, 525_000);
    assert_eq!(store.bank, Some(Bank { id: 1, total: 40 + 5500 * 450 }));
}

#[test]
fn purchase_drains_first_tank_before_second() {
    let mut store = station();
    let outcome = buy_fuel(&mut store, 1, 1, 450, TOKEN);
    assert_eq!(outcome, Ok(10_000_000 - 5500 * 450));
    assert_eq!(stored(&store), vec![0, 700, 50, 1]);
    assert_eq!(store.customers[0].customer.balance, 10_000_000 - 2_475_000);
    assert_eq!(store.bank, Some(Bank { id: 1, total: 1_000_000 + 2_475_000 }));
}

#[test]
fn purchase_within_stock_lowers_stock_by_quantity() {
    for quantity in [0, 1, 299, 300, 301, 499, 500] {
        let mut store = station();
        let before = stock_of(&store, 1);
        assert!(buy_fuel(&mut store, 1, 1, quantity, TOKEN).is_ok());
        assert_eq!(stock_of(&store, 1), before - quantity as i64);
        assert_eq!(stock_of(&store, 2), 700);
    }
}

#[test]
fn purchase_of_whole_stock_empties_every_tank() {
    let mut store = station();
    assert_eq!(buy_fuel(&mut store, 1, 1, 500, TOKEN), Ok(10_000_000 - 5500 * 500));
    assert_eq!(stored(&store), vec![0, 700, 0, 1]);
}

#[test]
fn purchase_beyond_stock_is_refused_and_changes_nothing() {
    let mut store = station();
    let before = store.clone();
    assert_eq!(buy_fuel(&mut store, 1, 1, 501, TOKEN), Err(PurchaseError::InsufficientStock));
    assert_eq!(store, before);
}

#[test]
fn purchase_skips_tanks_without_stock() {
    let mut store = station();
    store.tanks = vec![tank(1, 1, 0, 100), tank(2, 1, -5, 100), tank(3, 1, 40, 100)];
    assert_eq!(buy_fuel(&mut store, 1, 1, 30, TOKEN), Ok(10_000_000 - 5500 * 30));
    assert_eq!(stored(&store), vec![0, -5, 10]);
}

#[test]
fn negative_readings_count_against_stock() {
    let mut store = station();
    store.tanks = vec![tank(1, 1, -5, 100), tank(2, 1, 40, 100)];
    assert_eq!(buy_fuel(&mut store, 1, 1, 36, TOKEN), Err(PurchaseError::InsufficientStock));
    assert_eq!(buy_fuel(&mut store, 1, 1, 35, TOKEN), Ok(10_000_000 - 5500 * 35));
    assert_eq!(stored(&store), vec![-5, 5]);
}

#[test]
fn electricity_is_sold_while_one_charger_works() {
    let mut store = station();
    assert_eq!(buy_fuel(&mut store, 1, 3, 1000, TOKEN), Ok(10_000_000 - 900 * 1000));
    assert_eq!(stored(&store), vec![300, 700, 200, 1]);
    assert_eq!(store.bank, Some(Bank { id: 1, total: 1_000_000 + 900_000 }));
}

#[test]
fn electricity_is_refused_when_no_charger_works() {
    let mut store = station();
    store.tanks[3].stored = 0;
    let before = store.clone();
    assert_eq!(buy_fuel(&mut store, 1, 3, 1, TOKEN), Err(PurchaseError::InsufficientStock));
    assert_eq!(store, before);
}

#[test]
fn fuel_without_a_kind_is_metered() {
    let mut store = station();
    store.fuels[0].fuel_type = None;
    assert_eq!(buy_fuel(&mut store, 1, 1, 501, TOKEN), Err(PurchaseError::InsufficientStock));
    assert_eq!(buy_fuel(&mut store, 1, 1, 500, TOKEN), Ok(10_000_000 - 5500 * 500));
}

#[test]
fn invalid_token_is_refused_twice_without_change() {
    let mut store = station();
    let before = store.clone();
    assert_eq!(buy_fuel(&mut store, 1, 1, 10, "stolen"), Err(PurchaseError::Unauthorized));
    assert_eq!(store, before);
    assert_eq!(buy_fuel(&mut store, 1, 1, 10, "stolen"), Err(PurchaseError::Unauthorized));
    assert_eq!(store, before);
}

#[test]
fn customer_without_session_is_unauthorized() {
    let mut store = station();
    assert_eq!(buy_fuel(&mut store, 2, 1, 10, ""), Err(PurchaseError::Unauthorized));
    assert_eq!(buy_fuel(&mut store, 2, 1, 10, TOKEN), Err(PurchaseError::Unauthorized));
}

#[test]
fn unknown_customer_is_not_found() {
    let mut store = station();
    let before = store.clone();
    assert_eq!(buy_fuel(&mut store, 9, 1, 10, TOKEN), Err(PurchaseError::CustomerNotFound));
    assert_eq!(
        buy_fuel_batch(&mut store, 9, &vec![(1, 10)], TOKEN),
        Err(PurchaseError::CustomerNotFound)
    );
    assert_eq!(store, before);
}

#[test]
fn unknown_product_is_not_found() {
    let mut store = station();
    let before = store.clone();
    assert_eq!(buy_fuel(&mut store, 1, 42, 10, TOKEN), Err(PurchaseError::ProductNotFound));
    assert_eq!(store, before);
}

#[test]
fn purchase_above_balance_is_refused() {
    let mut store = station();
    store.customers[0].customer.balance = 5500 * 10 - 1;
    let before = store.clone();
    assert_eq!(buy_fuel(&mut store, 1, 1, 10, TOKEN), Err(PurchaseError::InsufficientFunds));
    assert_eq!(store, before);
    store.customers[0].customer.balance = 5500 * 10;
    assert_eq!(buy_fuel(&mut store, 1, 1, 10, TOKEN), Ok(0));
}

#[test]
fn stock_is_checked_before_funds() {
    let mut store = station();
    store.customers[0].customer.balance = 0;
    assert_eq!(buy_fuel(&mut store, 1, 1, 501, TOKEN), Err(PurchaseError::InsufficientStock));
}

#[test]
fn purchase_moves_cost_from_balance_to_bank() {
    let mut store = station();
    let balance = store.customers[0].customer.balance;
    let bank = store.bank.unwrap().total;
    let new_balance = buy_fuel(&mut store, 1, 2, 7, TOKEN).unwrap();
    assert_eq!(new_balance, balance - 5200 * 7);
    assert_eq!(store.customers[0].customer.balance, new_balance);
    assert_eq!(store.bank.unwrap().total, bank + 5200 * 7);
    assert_eq!(store.customers[1].customer.balance, 1_000);
}

#[test]
fn first_sale_opens_the_bank() {
    let mut store = station();
    store.bank = None;
    assert_eq!(buy_fuel(&mut store, 1, 1, 2, TOKEN), Ok(10_000_000 - 11_000));
    assert_eq!(store.bank, Some(Bank { id: 1, total: 11_000 }));
}

#[test]
fn cost_beyond_the_range_of_money_is_a_store_failure() {
    let mut store = station();
    store.fuels[0].price = i64::MAX;
    let before = store.clone();
    assert_eq!(buy_fuel(&mut store, 1, 1, 2, TOKEN), Err(PurchaseError::StoreFailure));
    assert_eq!(store, before);
}

#[test]
fn bank_total_beyond_the_range_of_money_is_a_store_failure() {
    let mut store = station();
    store.bank = Some(Bank { id: 1, total: i64::MAX - 10 });
    let before = store.clone();
    assert_eq!(buy_fuel(&mut store, 1, 1, 1, TOKEN), Err(PurchaseError::StoreFailure));
    assert_eq!(store, before);
}

#[test]
fn quantity_below_one_draws_nothing() {
    let mut store = station();
    assert_eq!(buy_fuel(&mut store, 1, 1, 0, TOKEN), Ok(10_000_000));
    assert_eq!(stored(&store), vec![300, 700, 200, 1]);
    assert_eq!(buy_fuel(&mut store, 1, 1, -3, TOKEN), Ok(10_000_000 + 16_500));
    assert_eq!(stored(&store), vec![300, 700, 200, 1]);
    assert_eq!(store.bank, Some(Bank { id: 1, total: 1_000_000 - 16_500 }));
}

#[test]
fn batch_buys_every_line_in_one_step() {
    let mut store = station();
    let items = vec![(1, 450), (2, 100), (3, 5)];
    let cost = 5500 * 450 + 5200 * 100 + 900 * 5;
    assert_eq!(buy_fuel_batch(&mut store, 1, &items, TOKEN), Ok(10_000_000 - cost));
    assert_eq!(stored(&store), vec![0, 600, 50, 1]);
    assert_eq!(store.bank, Some(Bank { id: 1, total: 1_000_000 + cost }));
}

#[test]
fn batch_of_one_line_equals_single_purchase() {
    let mut single = station();
    let mut batch = station();
    let a = buy_fuel(&mut single, 1, 1, 123, TOKEN);
    let b = buy_fuel_batch(&mut batch, 1, &vec![(1, 123)], TOKEN);
    assert_eq!(a, b);
    assert_eq!(single, batch);
}

#[test]
fn empty_batch_is_refused() {
    let mut store = station();
    let before = store.clone();
    assert_eq!(buy_fuel_batch(&mut store, 1, &Vec::new(), TOKEN), Err(PurchaseError::EmptyRequest));
    assert_eq!(store, before);
}

#[test]
fn empty_batch_with_bad_token_is_unauthorized() {
    let mut store = station();
    assert_eq!(buy_fuel_batch(&mut store, 1, &Vec::new(), "x"), Err(PurchaseError::Unauthorized));
}

#[test]
fn batch_with_one_line_out_of_stock_changes_nothing() {
    let mut store = station();
    let before = store.clone();
    let items = vec![(1, 100), (2, 701), (3, 1)];
    assert_eq!(buy_fuel_batch(&mut store, 1, &items, TOKEN), Err(PurchaseError::InsufficientStock));
    assert_eq!(store, before);
}

#[test]
fn batch_with_unknown_product_changes_nothing() {
    let mut store = station();
    let before = store.clone();
    let items = vec![(1, 100), (77, 1)];
    assert_eq!(buy_fuel_batch(&mut store, 1, &items, TOKEN), Err(PurchaseError::ProductNotFound));
    assert_eq!(store, before);
}

#[test]
fn batch_reports_the_first_failing_line() {
    let mut store = station();
    let items = vec![(2, 701), (77, 1)];
    assert_eq!(buy_fuel_batch(&mut store, 1, &items, TOKEN), Err(PurchaseError::InsufficientStock));
    let items = vec![(77, 1), (2, 701)];
    assert_eq!(buy_fuel_batch(&mut store, 1, &items, TOKEN), Err(PurchaseError::ProductNotFound));
}

#[test]
fn batch_above_balance_changes_nothing() {
    let mut store = station();
    store.customers[0].customer.balance = 5500 * 100 + 5200 * 100 - 1;
    let before = store.clone();
    let items = vec![(1, 100), (2, 100)];
    assert_eq!(buy_fuel_batch(&mut store, 1, &items, TOKEN), Err(PurchaseError::InsufficientFunds));
    assert_eq!(store, before);
}

#[test]
fn repeated_product_draws_from_what_the_earlier_line_left() {
    let mut store = station();
    let items = vec![(1, 300), (1, 200)];
    assert_eq!(buy_fuel_batch(&mut store, 1, &items, TOKEN), Ok(10_000_000 - 5500 * 500));
    assert_eq!(stored(&store), vec![0, 700, 0, 1]);

    let mut store = station();
    let before = store.clone();
    let items = vec![(1, 300), (1, 201)];
    assert_eq!(buy_fuel_batch(&mut store, 1, &items, TOKEN), Err(PurchaseError::InsufficientStock));
    assert_eq!(store, before);
}

#[test]
fn batch_total_beyond_the_range_of_money_is_a_store_failure() {
    let mut store = station();
    store.fuels[2].price = i64::MAX;
    let before = store.clone();
    let items = vec![(3, 1), (1, 1)];
    assert_eq!(buy_fuel_batch(&mut store, 1, &items, TOKEN), Err(PurchaseError::StoreFailure));
    assert_eq!(store, before);
}

#[test]
fn refill_then_purchase_restores_stock() {
    let mut store = station();
    let stock = stock_of(&store, 1);
    let bank = store.bank.unwrap().total;
    assert_eq!(refill_fuel(&mut store, 1, 360, ADMIN_TOKEN), Ok(()));
    assert_eq!(stock_of(&store, 1), stock + 360);
    assert_eq!(stored(&store), vec![660, 700, 200, 1]);
    assert!(buy_fuel(&mut store, 1, 1, 360, TOKEN).is_ok());
    assert_eq!(stock_of(&store, 1), stock);
    assert_eq!(stored(&store), vec![300, 700, 200, 1]);
    assert_eq!(store.bank.unwrap().total, bank - 2750 * 360 + 5500 * 360);
}
