use gas_station::auth::{
    admin_login_allowed, customer_login_allowed, hex_encode, insert_admin, insert_customer,
    issue_token, login_admin, login_user, register_user, sign_in_admin, sign_in_customer,
    LoginError, RegisterError, ADMIN_LOGIN_LIMIT, CUSTOMER_LOGIN_LIMIT, STARTING_BALANCE,
};
use gas_station::models::{Fuel, NewAdmin, NewCustomer, Tank};
use gas_station::purchase::{buy_fuel, PurchaseError};
use gas_station::rate_limit::RateLimiter;
use gas_station::store::Store;

fn quick_hash(password: &str) -> String {
    bcrypt::hash(password, 4).unwrap()
}

fn is_token(text: &str) -> bool {
    text.len() == 64 && text.chars().all(|c| c.is_ascii_digit() || ('a'..='f').contains(&c))
}

#[test]
fn bytes_are_written_in_lower_case_hex() {
    assert_eq!(hex_encode(&vec![0x00, 0xff, 0x1a, 0xa1, 0x09]), "00ff1aa109");
    assert_eq!(hex_encode(&Vec::new()), "");
}

#[test]
fn tokens_are_64_hex_digits_and_differ() {
    let first = issue_token();
    let second = issue_token();
    assert!(is_token(&first));
    assert!(is_token(&second));
    assert_ne!(first, second);
}

#[test]
fn registered_customer_can_sign_in_and_buy() {
    let mut store = Store::new();
    let mut limiter = RateLimiter::new();
    store.fuels.push(Fuel { id: 1, name: "A-95".to_string(), price: 5500, fuel_type: None });
    store.tanks.push(Tank { id: 1, fuelid: 1, stored: 100, capacity: 100 });
    assert_eq!(register_user(&mut store, "olena", "s3cret"), Ok(()));
    assert_eq!(store.customers.len(), 1);
    assert_eq!(store.customers[0].customer.id, 1);
    assert_eq!(store.customers[0].customer.login, "olena");
    assert_eq!(store.customers[0].customer.balance, STARTING_BALANCE);
    assert_eq!(store.customers[0].customer.session_token, None);
    assert_eq!(store.customers[0].salt, "bcrypt");
    assert_ne!(store.customers[0].password, "s3cret");

    let customer = login_user(&mut store, &mut limiter, "olena", "s3cret").unwrap();
    assert_eq!(customer.id, 1);
    assert_eq!(customer.balance, 100000);
    let token = customer.session_token.clone().unwrap();
    assert!(is_token(&token));
    assert_eq!(store.customers[0].customer, customer);
    assert_eq!(buy_fuel(&mut store, 1, 1, 10, &token), Ok(100000 - 55000));
}

#[test]
fn taken_login_cannot_be_registered() {
    let mut store = Store::new();
    let hash = quick_hash("pw");
    let new_customer = NewCustomer { login: "taras", password: &hash, salt: "bcrypt", balance: 5 };
    assert_eq!(insert_customer(&mut store, new_customer), Ok(1));
    let before = store.clone();
    assert_eq!(register_user(&mut store, "taras", "other"), Err(RegisterError::LoginTaken));
    assert_eq!(insert_customer(&mut store, new_customer), Err(RegisterError::LoginTaken));
    assert_eq!(store, before);
}

#[test]
fn accounts_are_numbered_after_the_highest() {
    let mut store = Store::new();
    let a = NewCustomer { login: "a", password: "x", salt: "s", balance: 1 };
    let b = NewCustomer { login: "b", password: "y", salt: "s", balance: 2 };
    assert_eq!(insert_customer(&mut store, a), Ok(1));
    store.customers[0].customer.id = 41;
    assert_eq!(insert_customer(&mut store, b), Ok(42));
    assert_eq!(store.customers[1].customer.login, "b");
    assert_eq!(store.customers[1].password, "y");
    assert_eq!(store.customers[1].customer.balance, 2);
    store.customers[1].customer.id = i32::MAX;
    let c = NewCustomer { login: "c", password: "z", salt: "s", balance: 3 };
    assert_eq!(insert_customer(&mut store, c), Err(RegisterError::StoreFailure));
    assert_eq!(store.customers.len(), 2);
}

#[test]
fn wrong_password_and_unknown_login_are_refused_alike() {
    let mut store = Store::new();
    let mut limiter = RateLimiter::new();
    let hash = quick_hash("right");
    let new_customer = NewCustomer { login: "olena", password: &hash, salt: "bcrypt", balance: 5 };
    insert_customer(&mut store, new_customer).unwrap();
    let before = store.clone();
    assert_eq!(
        login_user(&mut store, &mut limiter, "olena", "wrong"),
        Err(LoginError::InvalidCredentials)
    );
    assert_eq!(
        login_user(&mut store, &mut limiter, "nobody", "right"),
        Err(LoginError::InvalidCredentials)
    );
    assert_eq!(store, before);
    assert!(login_user(&mut store, &mut limiter, "olena", "right").is_ok());
}

#[test]
fn unreadable_hash_lets_nobody_in() {
    let mut store = Store::new();
    let mut limiter = RateLimiter::new();
    let new_customer = NewCustomer { login: "olena", password: "plain", salt: "", balance: 5 };
    insert_customer(&mut store, new_customer).unwrap();
    assert_eq!(
        login_user(&mut store, &mut limiter, "olena", "plain"),
        Err(LoginError::InvalidCredentials)
    );
}

#[test]
fn new_sign_in_kills_the_earlier_session() {
    let mut store = Store::new();
    let mut limiter = RateLimiter::new();
    store.fuels.push(Fuel { id: 1, name: "A-95".to_string(), price: 1, fuel_type: None });
    store.tanks.push(Tank { id: 1, fuelid: 1, stored: 100, capacity: 100 });
    let hash = quick_hash("pw");
    let new_customer = NewCustomer { login: "olena", password: &hash, salt: "bcrypt", balance: 50 };
    insert_customer(&mut store, new_customer).unwrap();
    let first = login_user(&mut store, &mut limiter, "olena", "pw").unwrap().session_token.unwrap();
    let second = login_user(&mut store, &mut limiter, "olena", "pw").unwrap().session_token.unwrap();
    assert_ne!(first, second);
    assert_eq!(buy_fuel(&mut store, 1, 1, 1, &first), Err(PurchaseError::Unauthorized));
    assert_eq!(buy_fuel(&mut store, 1, 1, 1, &second), Ok(49));
}

#[test]
fn customer_sign_in_is_rate_limited_per_login() {
    let mut store = Store::new();
    let mut limiter = RateLimiter::new();
    for _ in 0..CUSTOMER_LOGIN_LIMIT {
        assert_eq!(
            login_user(&mut store, &mut limiter, "ghost", "pw"),
            Err(LoginError::InvalidCredentials)
        );
    }
    assert_eq!(login_user(&mut store, &mut limiter, "ghost", "pw"), Err(LoginError::RateLimited));
    assert_eq!(
        login_user(&mut store, &mut limiter, "other", "pw"),
        Err(LoginError::InvalidCredentials)
    );
    assert!(limiter.usage("login_ghost").is_some());
    assert_eq!(limiter.usage("login_ghost").unwrap().count, 20);
}

#[test]
fn admin_signs_in_and_is_rate_limited_apart() {
    let mut store = Store::new();
    let mut limiter = RateLimiter::new();
    let hash = quick_hash("adminpw");
    let new_admin = NewAdmin { login: "root", password: &hash, salt: "bcrypt" };
    assert_eq!(insert_admin(&mut store, new_admin), Ok(1));
    assert_eq!(insert_admin(&mut store, new_admin), Err(RegisterError::LoginTaken));
    let admin = login_admin(&mut store, &mut limiter, "root", "adminpw").unwrap();
    assert_eq!(admin.id, 1);
    assert_eq!(admin.login, "root");
    assert!(is_token(admin.session_token.as_ref().unwrap()));
    assert_eq!(store.admins[0].admin, admin);
    assert!(store.admin_signed_in(admin.session_token.as_ref().unwrap()));
    assert!(!store.admin_signed_in("something else"));
    assert_eq!(
        login_admin(&mut store, &mut limiter, "root", "nope"),
        Err(LoginError::InvalidCredentials)
    );
    for _ in 0..ADMIN_LOGIN_LIMIT {
        let _ = login_admin(&mut store, &mut limiter, "ghost", "pw");
    }
    assert_eq!(login_admin(&mut store, &mut limiter, "ghost", "pw"), Err(LoginError::RateLimited));
    assert_eq!(limiter.usage("admin_login_ghost").unwrap().count, 10);
    assert_eq!(limiter.usage("admin_login_root").unwrap().count, 2);
}

#[test]
fn sign_in_attempts_are_counted_before_anything_is_read() {
    let mut limiter = RateLimiter::new();
    for _ in 0..CUSTOMER_LOGIN_LIMIT {
        assert!(customer_login_allowed(&mut limiter, "olena"));
    }
    assert!(!customer_login_allowed(&mut limiter, "olena"));
    assert!(customer_login_allowed(&mut limiter, "taras"));
    assert_eq!(limiter.usage("login_olena").unwrap().count, 20);
    for _ in 0..ADMIN_LOGIN_LIMIT {
        assert!(admin_login_allowed(&mut limiter, "olena"));
    }
    assert!(!admin_login_allowed(&mut limiter, "olena"));
    assert_eq!(limiter.usage("admin_login_olena").unwrap().count, 10);
}

#[test]
fn sign_in_on_an_allowed_attempt_checks_the_password() {
    let mut store = Store::new();
    let hash = quick_hash("pw");
    insert_customer(
        &mut store,
        NewCustomer { login: "olena", password: &hash, salt: "bcrypt", balance: 5 },
    )
    .unwrap();
    insert_admin(&mut store, NewAdmin { login: "root", password: &hash, salt: "bcrypt" }).unwrap();
    let before = store.clone();
    assert_eq!(
        sign_in_customer(&mut store, "olena", "no"),
        Err(LoginError::InvalidCredentials)
    );
    assert_eq!(sign_in_customer(&mut store, "root", "pw"), Err(LoginError::InvalidCredentials));
    assert_eq!(sign_in_admin(&mut store, "olena", "pw"), Err(LoginError::InvalidCredentials));
    assert_eq!(store, before);
    let customer = sign_in_customer(&mut store, "olena", "pw").unwrap();
    assert!(is_token(customer.session_token.as_ref().unwrap()));
    assert_eq!(store.customers[0].customer, customer);
    let admin = sign_in_admin(&mut store, "root", "pw").unwrap();
    assert_eq!(store.admins[0].admin, admin);
}

#[test]
fn registered_password_checks_against_the_stored_hash() {
    let mut store = Store::new();
    assert_eq!(register_user(&mut store, "olena", "s3cret"), Ok(()));
    assert_eq!(bcrypt::verify("s3cret", &store.customers[0].password).ok(), Some(true));
    assert_eq!(bcrypt::verify("other", &store.customers[0].password).ok(), Some(false));
}
