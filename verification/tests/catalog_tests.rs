use gas_station::catalog::{
    get_fuels, get_fuels_unblocked, listing_allowed, ListingError, LISTING_LIMIT,
};
use gas_station::models::{Bank, Customer, Fuel, FuelWithTank, Tank};
use gas_station::purchase::buy_fuel;
use gas_station::rate_limit::RateLimiter;
use gas_station::store::{CustomerAccount, Store};

fn shelf() -> Store {
    let mut store = Store::new();
    store.fuels = vec![
        Fuel { id: 7, name: "Diesel".to_string(), price: 5200, fuel_type: Some("diesel".to_string()) },
        Fuel { id: 2, name: "A-95".to_string(), price: 5500, fuel_type: None },
        Fuel { id: 9, name: "Hydrogen".to_string(), price: 9000, fuel_type: Some("gas".to_string()) },
        Fuel { id: 4, name: "Charge".to_string(), price: 900, fuel_type: Some("electricity".to_string()) },
    ];
    store.tanks = vec![
        Tank { id: 1, fuelid: 2, stored: 500, capacity: 1000 },
        Tank { id: 2, fuelid: 7, stored: 10, capacity: 20 },
        Tank { id: 3, fuelid: 2, stored: 300, capacity: 1000 },
        Tank { id: 4, fuelid: 4, stored: 1, capacity: 1 },
        Tank { id: 5, fuelid: 2, stored: 200, capacity: 500 },
        Tank { id: 6, fuelid: 33, stored: 5, capacity: 5 },
    ];
    store
}

fn entry(id: i32, name: &str, price: i64, kind: &str, stored: i32, capacity: i32) -> FuelWithTank {
    FuelWithTank {
        id,
        name: name.to_string(),
        price,
        fuel_type: kind.to_string(),
        stored,
        capacity,
    }
}

#[test]
fn list_groups_tanks_by_product_in_order_of_number() {
    let list = get_fuels_unblocked(&shelf()).unwrap();
    assert_eq!(
        list,
        vec![
            entry(2, "A-95", 5500, "petrol", 1000, 2500),
            entry(4, "Charge", 900, "electricity", 1, 1),
            entry(7, "Diesel", 5200, "diesel", 10, 20),
        ]
    );
}

#[test]
fn list_of_an_empty_store_is_empty() {
    assert_eq!(get_fuels_unblocked(&Store::new()), Ok(Vec::new()));
}

#[test]
fn product_under_a_number_taken_earlier_is_not_listed_twice() {
    let mut store = shelf();
    store.fuels.push(Fuel { id: 2, name: "Other".to_string(), price: 1, fuel_type: None });
    let list = get_fuels_unblocked(&store).unwrap();
    assert_eq!(list.len(), 3);
    assert_eq!(list[0], entry(2, "A-95", 5500, "petrol", 1000, 2500));
}

#[test]
fn list_follows_purchases() {
    let mut store = shelf();
    store.customers.push(CustomerAccount {
        customer: Customer {
            id: 1,
            login: "olena".to_string(),
            balance: 10_000_000,
            session_token: Some("t".to_string()),
        },
        password: String::new(),
        salt: String::new(),
    });
    store.bank = Some(Bank { id: 1, total: 0 });
    assert!(buy_fuel(&mut store, 1, 2, 600, "t").is_ok());
    let list = get_fuels_unblocked(&store).unwrap();
    assert_eq!(list[0], entry(2, "A-95", 5500, "petrol", 400, 2500));
}

#[test]
fn sums_beyond_the_range_of_the_list_are_a_store_failure() {
    let mut store = shelf();
    store.tanks.push(Tank { id: 8, fuelid: 7, stored: 0, capacity: i32::MAX });
    assert_eq!(get_fuels_unblocked(&store), Err(ListingError::StoreFailure));
}

#[test]
fn list_is_rate_limited() {
    let store = shelf();
    let mut limiter = RateLimiter::new();
    for _ in 0..LISTING_LIMIT {
        assert_eq!(get_fuels(&store, &mut limiter).map(|list| list.len()), Ok(3));
    }
    assert_eq!(get_fuels(&store, &mut limiter), Err(ListingError::RateLimited));
    assert_eq!(limiter.usage("get_fuels_global").unwrap().count, 60);
    assert!(get_fuels_unblocked(&store).is_ok());
}

#[test]
fn requests_for_the_list_are_counted_before_anything_is_read() {
    let mut limiter = RateLimiter::new();
    for _ in 0..LISTING_LIMIT {
        assert!(listing_allowed(&mut limiter));
    }
    assert!(!listing_allowed(&mut limiter));
    assert_eq!(get_fuels(&shelf(), &mut limiter), Err(ListingError::RateLimited));
}
