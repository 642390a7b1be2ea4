//! Accounts and sessions: registration, sign-in, and the bearer tokens that
//! purchases and administrative changes are checked against.
//!
//! A customer or an administrator has at most one live session. Signing in
//! issues a fresh token and stores it in place of the earlier one, which is
//! thereby dead.

use crate::models::{Admin, Customer, NewAdmin, NewCustomer};
use crate::rate_limit::{check_rate_limit, limiter_moved, RateLimiter, Span};
use crate::store::{AdminAccount, CustomerAccount, Store, StoreView};
use vstd::prelude::*;

verus! {

/// `bcrypt::BcryptError`, the reason a hash or a check failed, carried as it is.
#[verifier::external_type_specification]
#[verifier::external_body]
pub struct ExBcryptError(bcrypt::BcryptError);

/// `getrandom::Error`, the reason the random source failed, carried as it is.
#[verifier::external_type_specification]
#[verifier::external_body]
pub struct ExRandomError(getrandom::Error);

/// What `bcrypt::verify` answers for a password and a stored hash: whether
/// the password is the hashed one, or `None` where the hash cannot be read.
pub uninterp spec fn bcrypt_verdict(password: Seq<char>, hash: Seq<char>) -> Option<bool>;

/// `bcrypt::verify`: recomputes the hash of `password` with the cost and salt
/// found in `hash` and compares. The answer depends on the two strings alone;
/// the contract gives it its name and claims nothing else.
#[verifier::external_body]
fn bcrypt_verify(password: &str, hash: &str) -> (answer: Result<bool, bcrypt::BcryptError>)
    ensures
        match answer {
            Ok(same) => bcrypt_verdict(password@, hash@) == Some(same),
            Err(_) => bcrypt_verdict(password@, hash@) is None,
        },
{
    bcrypt::verify(password, hash)
}

/// `bcrypt::hash`: hashes `password` under a salt drawn at random and writes
/// cost, salt and hash into one string. Which string comes back, and whether
/// one does, is left open; the contract claims that a string that does come
/// back is one that `bcrypt::verify` accepts for the same password, since
/// `verify` reads back the cost and salt that `hash` wrote and recomputes.
#[verifier::external_body]
fn bcrypt_hash(password: &str, cost: u32) -> (answer: Result<String, bcrypt::BcryptError>)
    ensures
        answer matches Ok(hash) ==> bcrypt_verdict(password@, hash@) == Some(true),
{
    bcrypt::hash(password, cost)
}

/// `getrandom::fill`: overwrites the buffer with random bytes, or fails. The
/// contract claims only that the buffer keeps its length.
#[verifier::external_body]
fn fill_random(buffer: &mut Vec<u8>) -> (answer: Result<(), getrandom::Error>)
    ensures
        final(buffer)@.len() == old(buffer)@.len(),
{
    getrandom::fill(buffer.as_mut_slice())
}

/// Why a sign-in was turned down.
#[derive(Debug, Clone, Copy, PartialEq, Eq, Structural)]
pub enum LoginError {
    /// Too many attempts for this login within the minute.
    RateLimited,
    /// No such account, or not its password.
    InvalidCredentials,
}

/// Why an account was not opened.
#[derive(Debug, Clone, Copy, PartialEq, Eq, Structural)]
pub enum RegisterError {
    /// The login is already somebody's.
    LoginTaken,
    /// The password could not be hashed.
    HashingFailed,
    /// The store has no number left for a new account.
    StoreFailure,
}

/// Sign-in attempts that one customer login may make within `LOGIN_WINDOW_SECS`.
pub const CUSTOMER_LOGIN_LIMIT: u32 = 20;

/// Sign-in attempts that one administrator login may make within `LOGIN_WINDOW_SECS`.
pub const ADMIN_LOGIN_LIMIT: u32 = 10;

/// Length in seconds of the window in which sign-in attempts are counted.
pub const LOGIN_WINDOW_SECS: u64 = 60;

/// What a new customer starts with, in minor currency units.
pub const STARTING_BALANCE: i64 = 100000;

/// Work factor of the password hash: the hashing library's default.
pub const HASH_COST: u32 = 12;

/// Number of random bytes in a session token.
pub const TOKEN_BYTES: usize = 32;

/// The window in which sign-in attempts are counted.
pub open spec fn login_window() -> Span {
    Span { nanos: 60_000_000_000 }
}

/// The rate limiter's key for sign-in attempts with a customer login.
pub open spec fn customer_login_key(login: Seq<char>) -> Seq<char> {
    "login_"@ + login
}

/// The rate limiter's key for sign-in attempts with an administrator login.
pub open spec fn admin_login_key(login: Seq<char>) -> Seq<char> {
    "admin_login_"@ + login
}

/// The character of one hexadecimal digit, in lower case.
pub open spec fn hex_digit(nibble: int) -> char {
    seq!['0', '1', '2', '3', '4', '5', '6', '7', '8', '9', 'a', 'b', 'c', 'd', 'e', 'f'][nibble]
}

/// Bytes written as two lower-case hexadecimal digits each.
pub open spec fn hex_text(bytes: Seq<u8>) -> Seq<char>
    decreases bytes.len(),
{
    if bytes.len() == 0 {
        Seq::empty()
    } else {
        hex_text(bytes.drop_last()) + seq![
            hex_digit(bytes.last() as int / 16),
            hex_digit(bytes.last() as int % 16),
        ]
    }
}

/// Whether `text` has the form of a session token: 32 bytes in hexadecimal.
pub open spec fn is_session_token(text: Seq<char>) -> bool {
    exists|bytes: Seq<u8>| bytes.len() == TOKEN_BYTES && text == #[trigger] hex_text(bytes)
}

fn hex_str(nibble: u8) -> (text: &'static str)
    requires
        nibble < 16,
    ensures
        text@ == seq![hex_digit(nibble as int)],
{
    proof {
        reveal_strlit("0");
        reveal_strlit("1");
        reveal_strlit("2");
        reveal_strlit("3");
        reveal_strlit("4");
        reveal_strlit("5");
        reveal_strlit("6");
        reveal_strlit("7");
        reveal_strlit("8");
        reveal_strlit("9");
        reveal_strlit("a");
        reveal_strlit("b");
        reveal_strlit("c");
        reveal_strlit("d");
        reveal_strlit("e");
        reveal_strlit("f");
    }
    let text = if nibble == 0 {
        "0"
    } else if nibble == 1 {
        "1"
    } else if nibble == 2 {
        "2"
    } else if nibble == 3 {
        "3"
    } else if nibble == 4 {
        "4"
    } else if nibble == 5 {
        "5"
    } else if nibble == 6 {
        "6"
    } else if nibble == 7 {
        "7"
    } else if nibble == 8 {
        "8"
    } else if nibble == 9 {
        "9"
    } else if nibble == 10 {
        "a"
    } else if nibble == 11 {
        "b"
    } else if nibble == 12 {
        "c"
    } else if nibble == 13 {
        "d"
    } else if nibble == 14 {
        "e"
    } else {
        "f"
    };
    assert(text@ =~= seq![hex_digit(nibble as int)]);
    text
}

/// Writes bytes as two lower-case hexadecimal digits each.
pub fn hex_encode(bytes: &Vec<u8>) -> (text: String)
    ensures
        text@ == hex_text(bytes@),
{
    let mut text = String::new();
    let mut i: usize = 0;
    while i < bytes.len()
        invariant
            i <= bytes.len(),
            text@ == hex_text(bytes@.take(i as int)),
        decreases bytes.len() - i,
    {
        let byte = bytes[i];
        proof {
            assert(bytes@.take(i + 1).drop_last() =~= bytes@.take(i as int));
            assert(bytes@.take(i + 1).last() == byte);
        }
        text.append(hex_str(byte / 16));
        text.append(hex_str(byte % 16));
        assert(text@ =~= hex_text(bytes@.take(i + 1)));
        i = i + 1;
    }
    proof {
        assert(bytes@.take(i as int) =~= bytes@);
    }
    text
}

/// A fresh session token: 32 bytes from the system's random source, in
/// hexadecimal. Where the source fails, the bytes are whatever it left behind.
pub fn issue_token() -> (token: String)
    ensures
        is_session_token(token@),
{
    let mut buffer: Vec<u8> = Vec::new();
    let mut i: usize = 0;
    while i < TOKEN_BYTES
        invariant
            i <= TOKEN_BYTES,
            buffer@.len() == i,
        decreases TOKEN_BYTES - i,
    {
        buffer.push(0);
        i = i + 1;
    }
    let _ = fill_random(&mut buffer);
    let token = hex_encode(&buffer);
    assert(token@ == hex_text(buffer@));
    token
}

/// Whether the answer to a password check lets the caller in: only a clear yes does.
pub fn password_accepted(answer: Result<bool, bcrypt::BcryptError>) -> (accepted: bool)
    ensures
        accepted == (answer matches Ok(same) && same),
{
    match answer {
        Ok(same) => same,
        Err(_) => false,
    }
}

/// The store once the customer in `row` has `token` as their live session.
pub open spec fn with_customer_session(store: StoreView, row: int, token: String) -> StoreView {
    StoreView {
        customers: store.customers.update(
            row,
            CustomerAccount {
                customer: Customer {
                    session_token: Some(token),
                    ..store.customers[row].customer
                },
                ..store.customers[row]
            },
        ),
        ..store
    }
}

/// The store once the administrator in `row` has `token` as their live session.
pub open spec fn with_admin_session(store: StoreView, row: int, token: String) -> StoreView {
    StoreView {
        admins: store.admins.update(
            row,
            AdminAccount {
                admin: Admin { session_token: Some(token), ..store.admins[row].admin },
                ..store.admins[row]
            },
        ),
        ..store
    }
}

/// Makes `token` the live session of the customer in `row`, in place of any
/// earlier one, and returns the customer as they now stand.
pub fn start_customer_session(store: &mut Store, row: usize, token: String) -> (customer: Customer)
    requires
        row < old(store).customers.len(),
    ensures
        final(store)@ == with_customer_session(old(store)@, row as int, token),
        customer == final(store)@.customers[row as int].customer,
{
    let account = &store.customers[row];
    let customer = Customer {
        id: account.customer.id,
        login: account.customer.login.clone(),
        balance: account.customer.balance,
        session_token: Some(token.clone()),
    };
    store.customers[row].customer.session_token = Some(token);
    assert(store@.customers =~= with_customer_session(old(store)@, row as int, token).customers);
    customer
}

/// Makes `token` the live session of the administrator in `row`, in place of
/// any earlier one, and returns the administrator as they now stand.
pub fn start_admin_session(store: &mut Store, row: usize, token: String) -> (admin: Admin)
    requires
        row < old(store).admins.len(),
    ensures
        final(store)@ == with_admin_session(old(store)@, row as int, token),
        admin == final(store)@.admins[row as int].admin,
{
    let account = &store.admins[row];
    let admin = Admin {
        id: account.admin.id,
        login: account.admin.login.clone(),
        session_token: Some(token.clone()),
    };
    store.admins[row].admin.session_token = Some(token);
    assert(store@.admins =~= with_admin_session(old(store)@, row as int, token).admins);
    admin
}

/// The row of the customer who signs in as `login`, if `password` is theirs.
pub open spec fn customer_recognized(store: StoreView, login: Seq<char>, password: Seq<char>) -> Option<
    int,
> {
    match store.customer_named(login) {
        Some(row) => if bcrypt_verdict(password, store.customers[row].password@) == Some(true) {
            Some(row)
        } else {
            None
        },
        None => None,
    }
}

/// The row of the administrator who signs in as `login`, if `password` is theirs.
pub open spec fn admin_recognized(store: StoreView, login: Seq<char>, password: Seq<char>) -> Option<
    int,
> {
    match store.admin_named(login) {
        Some(row) => if bcrypt_verdict(password, store.admins[row].password@) == Some(true) {
            Some(row)
        } else {
            None
        },
        None => None,
    }
}

/// A customer's sign-in as far as the store goes, for an attempt that the
/// rate limiter has or has not `allowed`.
pub open spec fn customer_login_outcome(
    before: StoreView,
    after: StoreView,
    allowed: bool,
    login: Seq<char>,
    password: Seq<char>,
    outcome: Result<Customer, LoginError>,
) -> bool {
    if !allowed {
        outcome == Err::<Customer, LoginError>(LoginError::RateLimited) && after == before
    } else {
        match customer_recognized(before, login, password) {
            None => outcome == Err::<Customer, LoginError>(LoginError::InvalidCredentials) && after
                == before,
            Some(row) => {
                &&& outcome matches Ok(customer)
                &&& customer.session_token matches Some(token)
                &&& is_session_token(token@)
                &&& after == with_customer_session(before, row, token)
                &&& customer == after.customers[row].customer
            },
        }
    }
}

/// An administrator's sign-in as far as the store goes, for an attempt that
/// the rate limiter has or has not `allowed`.
pub open spec fn admin_login_outcome(
    before: StoreView,
    after: StoreView,
    allowed: bool,
    login: Seq<char>,
    password: Seq<char>,
    outcome: Result<Admin, LoginError>,
) -> bool {
    if !allowed {
        outcome == Err::<Admin, LoginError>(LoginError::RateLimited) && after == before
    } else {
        match admin_recognized(before, login, password) {
            None => outcome == Err::<Admin, LoginError>(LoginError::InvalidCredentials) && after
                == before,
            Some(row) => {
                &&& outcome matches Ok(admin)
                &&& admin.session_token matches Some(token)
                &&& is_session_token(token@)
                &&& after == with_admin_session(before, row, token)
                &&& admin == after.admins[row].admin
            },
        }
    }
}

/// Counts a sign-in attempt with a customer login against the limit on attempts
/// for that login, and says whether it may go on. To be asked before anything
/// is read for the attempt.
pub fn customer_login_allowed(limiter: &mut RateLimiter, login: &str) -> (allowed: bool)
    ensures
        exists|now: u128| #[trigger]
            limiter_moved(
                old(limiter)@,
                final(limiter)@,
                customer_login_key(login@),
                CUSTOMER_LOGIN_LIMIT,
                login_window(),
                now,
                allowed,
            ),
{
    let mut key = String::from_str("login_");
    key.append(login);
    let window = Span::from_secs(LOGIN_WINDOW_SECS);
    let allowed = check_rate_limit(limiter, key.as_str(), CUSTOMER_LOGIN_LIMIT, window);
    let ghost now = choose|now: u128|
        limiter_moved(old(limiter)@, limiter@, key@, CUSTOMER_LOGIN_LIMIT, window, now, allowed);
    proof {
        assert(key@ == customer_login_key(login@));
        assert(window == login_window());
        assert(limiter_moved(
            old(limiter)@,
            limiter@,
            customer_login_key(login@),
            CUSTOMER_LOGIN_LIMIT,
            login_window(),
            now,
            allowed,
        ));
    }
    allowed
}

/// Signs a customer in on an attempt that the rate limiter has let through:
/// checks the password against the stored hash, and on success issues a fresh
/// token, stores it as the one live session and returns the account's holder.
pub fn sign_in_customer(store: &mut Store, login: &str, password: &str) -> (outcome: Result<
    Customer,
    LoginError,
>)
    ensures
        customer_login_outcome(old(store)@, final(store)@, true, login@, password@, outcome),
{
    match store.find_customer_by_login(login) {
        None => Err(LoginError::InvalidCredentials),
        Some(row) => {
            let answer = bcrypt_verify(password, store.customers[row].password.as_str());
            if password_accepted(answer) {
                let token = issue_token();
                Ok(start_customer_session(store, row, token))
            } else {
                Err(LoginError::InvalidCredentials)
            }
        },
    }
}

/// Signs a customer in: counts the attempt against the login, checks the
/// password against the stored hash, and on success issues a fresh token,
/// stores it as the customer's one live session and returns the customer.
pub fn login_user(store: &mut Store, limiter: &mut RateLimiter, login: &str, password: &str) -> (outcome:
    Result<Customer, LoginError>)
    ensures
        exists|now: u128, allowed: bool|
            #[trigger] limiter_moved(
                old(limiter)@,
                final(limiter)@,
                customer_login_key(login@),
                CUSTOMER_LOGIN_LIMIT,
                login_window(),
                now,
                allowed,
            ) && customer_login_outcome(
                old(store)@,
                final(store)@,
                allowed,
                login@,
                password@,
                outcome,
            ),
{
    let allowed = customer_login_allowed(limiter, login);
    let ghost now = choose|now: u128|
        limiter_moved(
            old(limiter)@,
            limiter@,
            customer_login_key(login@),
            CUSTOMER_LOGIN_LIMIT,
            login_window(),
            now,
            allowed,
        );
    let outcome = if allowed {
        sign_in_customer(store, login, password)
    } else {
        Err(LoginError::RateLimited)
    };
    proof {
        assert(customer_login_outcome(old(store)@, store@, allowed, login@, password@, outcome));
        assert(limiter_moved(
            old(limiter)@,
            limiter@,
            customer_login_key(login@),
            CUSTOMER_LOGIN_LIMIT,
            login_window(),
            now,
            allowed,
        ));
    }
    outcome
}

/// Counts a sign-in attempt with an administrator login against the limit on attempts
/// for that login, and says whether it may go on. To be asked before anything
/// is read for the attempt.
pub fn admin_login_allowed(limiter: &mut RateLimiter, login: &str) -> (allowed: bool)
    ensures
        exists|now: u128| #[trigger]
            limiter_moved(
                old(limiter)@,
                final(limiter)@,
                admin_login_key(login@),
                ADMIN_LOGIN_LIMIT,
                login_window(),
                now,
                allowed,
            ),
{
    let mut key = String::from_str("admin_login_");
    key.append(login);
    let window = Span::from_secs(LOGIN_WINDOW_SECS);
    let allowed = check_rate_limit(limiter, key.as_str(), ADMIN_LOGIN_LIMIT, window);
    let ghost now = choose|now: u128|
        limiter_moved(old(limiter)@, limiter@, key@, ADMIN_LOGIN_LIMIT, window, now, allowed);
    proof {
        assert(key@ == admin_login_key(login@));
        assert(window == login_window());
        assert(limiter_moved(
            old(limiter)@,
            limiter@,
            admin_login_key(login@),
            ADMIN_LOGIN_LIMIT,
            login_window(),
            now,
            allowed,
        ));
    }
    allowed
}

/// Signs an administrator in on an attempt that the rate limiter has let through:
/// checks the password against the stored hash, and on success issues a fresh
/// token, stores it as the one live session and returns the account's holder.
pub fn sign_in_admin(store: &mut Store, login: &str, password: &str) -> (outcome: Result<
    Admin,
    LoginError,
>)
    ensures
        admin_login_outcome(old(store)@, final(store)@, true, login@, password@, outcome),
{
    match store.find_admin_by_login(login) {
        None => Err(LoginError::InvalidCredentials),
        Some(row) => {
            let answer = bcrypt_verify(password, store.admins[row].password.as_str());
            if password_accepted(answer) {
                let token = issue_token();
                Ok(start_admin_session(store, row, token))
            } else {
                Err(LoginError::InvalidCredentials)
            }
        },
    }
}

/// Signs an administrator in, as `login_user` does a customer.
pub fn login_admin(store: &mut Store, limiter: &mut RateLimiter, login: &str, password: &str) -> (outcome:
    Result<Admin, LoginError>)
    ensures
        exists|now: u128, allowed: bool|
            #[trigger] limiter_moved(
                old(limiter)@,
                final(limiter)@,
                admin_login_key(login@),
                ADMIN_LOGIN_LIMIT,
                login_window(),
                now,
                allowed,
            ) && admin_login_outcome(
                old(store)@,
                final(store)@,
                allowed,
                login@,
                password@,
                outcome,
            ),
{
    let allowed = admin_login_allowed(limiter, login);
    let ghost now = choose|now: u128|
        limiter_moved(
            old(limiter)@,
            limiter@,
            admin_login_key(login@),
            ADMIN_LOGIN_LIMIT,
            login_window(),
            now,
            allowed,
        );
    let outcome = if allowed {
        sign_in_admin(store, login, password)
    } else {
        Err(LoginError::RateLimited)
    };
    proof {
        assert(admin_login_outcome(old(store)@, store@, allowed, login@, password@, outcome));
        assert(limiter_moved(
            old(limiter)@,
            limiter@,
            admin_login_key(login@),
            ADMIN_LOGIN_LIMIT,
            login_window(),
            now,
            allowed,
        ));
    }
    outcome
}

/// The highest of a list of row numbers, and zero for none above it.
pub open spec fn highest_id(ids: Seq<i32>) -> int
    decreases ids.len(),
{
    if ids.len() == 0 {
        0
    } else {
        let rest = highest_id(ids.drop_last());
        if ids.last() > rest {
            ids.last() as int
        } else {
            rest
        }
    }
}

pub open spec fn admin_ids(admins: Seq<AdminAccount>) -> Seq<i32> {
    admins.map_values(|account: AdminAccount| account.admin.id)
}

/// `after` is `before` with one customer account more, at the end: numbered
/// `id`, with the given login, password hash, salt and balance, and no session.
pub open spec fn customer_added(
    before: StoreView,
    after: StoreView,
    id: int,
    login: Seq<char>,
    password: Seq<char>,
    salt: Seq<char>,
    balance: i64,
) -> bool {
    let account = after.customers.last();
    &&& after.customers.len() == before.customers.len() + 1
    &&& after.customers.drop_last() == before.customers
    &&& account.customer.id == id
    &&& account.customer.login@ == login
    &&& account.customer.balance == balance
    &&& account.customer.session_token is None
    &&& account.password@ == password
    &&& account.salt@ == salt
    &&& after.admins == before.admins
    &&& after.fuels == before.fuels
    &&& after.tanks == before.tanks
    &&& after.bank == before.bank
}

/// `after` is `before` with one administrator account more, at the end:
/// numbered `id`, with the given login, password hash and salt, and no session.
pub open spec fn admin_added(
    before: StoreView,
    after: StoreView,
    id: int,
    login: Seq<char>,
    password: Seq<char>,
    salt: Seq<char>,
) -> bool {
    let account = after.admins.last();
    &&& after.admins.len() == before.admins.len() + 1
    &&& after.admins.drop_last() == before.admins
    &&& account.admin.id == id
    &&& account.admin.login@ == login
    &&& account.admin.session_token is None
    &&& account.password@ == password
    &&& account.salt@ == salt
    &&& after.customers == before.customers
    &&& after.fuels == before.fuels
    &&& after.tanks == before.tanks
    &&& after.bank == before.bank
}

fn highest_customer_id(customers: &Vec<CustomerAccount>) -> (highest: i32)
    ensures
        highest == highest_id(crate::store::customer_ids(customers@)),
{
    let mut highest: i32 = 0;
    let mut i: usize = 0;
    while i < customers.len()
        invariant
            i <= customers.len(),
            highest == highest_id(crate::store::customer_ids(customers@).take(i as int)),
        decreases customers.len() - i,
    {
        proof {
            let ids = crate::store::customer_ids(customers@);
            assert(ids.take(i + 1).drop_last() =~= ids.take(i as int));
        }
        if customers[i].customer.id > highest {
            highest = customers[i].customer.id;
        }
        i = i + 1;
    }
    proof {
        let ids = crate::store::customer_ids(customers@);
        assert(ids.take(i as int) =~= ids);
    }
    highest
}

fn highest_admin_id(admins: &Vec<AdminAccount>) -> (highest: i32)
    ensures
        highest == highest_id(admin_ids(admins@)),
{
    let mut highest: i32 = 0;
    let mut i: usize = 0;
    while i < admins.len()
        invariant
            i <= admins.len(),
            highest == highest_id(admin_ids(admins@).take(i as int)),
        decreases admins.len() - i,
    {
        proof {
            let ids = admin_ids(admins@);
            assert(ids.take(i + 1).drop_last() =~= ids.take(i as int));
        }
        if admins[i].admin.id > highest {
            highest = admins[i].admin.id;
        }
        i = i + 1;
    }
    proof {
        let ids = admin_ids(admins@);
        assert(ids.take(i as int) =~= ids);
    }
    highest
}

/// Opens a customer account under the next free number and returns the
/// number. The login must be nobody's yet.
pub fn insert_customer(store: &mut Store, new_customer: NewCustomer) -> (outcome: Result<
    i32,
    RegisterError,
>)
    ensures
        match outcome {
            Ok(id) => {
                &&& old(store)@.customer_named(new_customer.login@) is None
                &&& id == highest_id(crate::store::customer_ids(old(store)@.customers)) + 1
                &&& customer_added(
                    old(store)@,
                    final(store)@,
                    id as int,
                    new_customer.login@,
                    new_customer.password@,
                    new_customer.salt@,
                    new_customer.balance,
                )
            },
            Err(error) => {
                &&& final(store)@ == old(store)@
                &&& if old(store)@.customer_named(new_customer.login@) is Some {
                    error == RegisterError::LoginTaken
                } else {
                    error == RegisterError::StoreFailure && highest_id(
                        crate::store::customer_ids(old(store)@.customers),
                    ) + 1 > i32::MAX
                }
            },
        },
{
    if store.find_customer_by_login(new_customer.login).is_some() {
        return Err(RegisterError::LoginTaken);
    }
    let highest = highest_customer_id(&store.customers);
    if highest == i32::MAX {
        return Err(RegisterError::StoreFailure);
    }
    let id = highest + 1;
    let account = CustomerAccount {
        customer: Customer {
            id,
            login: new_customer.login.to_owned(),
            balance: new_customer.balance,
            session_token: None,
        },
        password: new_customer.password.to_owned(),
        salt: new_customer.salt.to_owned(),
    };
    store.customers.push(account);
    assert(store@.customers.drop_last() =~= old(store)@.customers);
    Ok(id)
}

/// Opens an administrator account under the next free number and returns the
/// number. The login must be no administrator's yet.
pub fn insert_admin(store: &mut Store, new_admin: NewAdmin) -> (outcome: Result<i32, RegisterError>)
    ensures
        match outcome {
            Ok(id) => {
                &&& old(store)@.admin_named(new_admin.login@) is None
                &&& id == highest_id(admin_ids(old(store)@.admins)) + 1
                &&& admin_added(
                    old(store)@,
                    final(store)@,
                    id as int,
                    new_admin.login@,
                    new_admin.password@,
                    new_admin.salt@,
                )
            },
            Err(error) => {
                &&& final(store)@ == old(store)@
                &&& if old(store)@.admin_named(new_admin.login@) is Some {
                    error == RegisterError::LoginTaken
                } else {
                    error == RegisterError::StoreFailure && highest_id(
                        admin_ids(old(store)@.admins),
                    ) + 1 > i32::MAX
                }
            },
        },
{
    if store.find_admin_by_login(new_admin.login).is_some() {
        return Err(RegisterError::LoginTaken);
    }
    let highest = highest_admin_id(&store.admins);
    if highest == i32::MAX {
        return Err(RegisterError::StoreFailure);
    }
    let id = highest + 1;
    let account = AdminAccount {
        admin: Admin { id, login: new_admin.login.to_owned(), session_token: None },
        password: new_admin.password.to_owned(),
        salt: new_admin.salt.to_owned(),
    };
    store.admins.push(account);
    assert(store@.admins.drop_last() =~= old(store)@.admins);
    Ok(id)
}

/// A customer added under a login that nobody had, with a hash that the
/// password checks against, is recognized by that login and password.
pub proof fn law_new_customer_is_recognized(
    before: StoreView,
    after: StoreView,
    id: int,
    login: Seq<char>,
    password: Seq<char>,
    hash: Seq<char>,
    salt: Seq<char>,
    balance: i64,
)
    requires
        before.customer_named(login) is None,
        customer_added(before, after, id, login, hash, salt, balance),
        bcrypt_verdict(password, hash) == Some(true),
    ensures
        customer_recognized(after, login, password) == Some(before.customers.len() as int),
{
    let last = before.customers.len() as int;
    let logins = crate::store::customer_logins(after.customers);
    crate::store::lemma_position_of(crate::store::customer_logins(before.customers), login);
    assert forall|j: int| 0 <= j < last implies #[trigger] logins[j] != login by {
        assert(after.customers.drop_last()[j] == after.customers[j]);
        assert(crate::store::customer_logins(before.customers)[j] == logins[j]);
    }
    assert(logins[last] == login);
    crate::store::lemma_position_found(logins, login, last);
}

/// Registers a customer: the login must be free; the password is hashed and
/// the account opened with the starting balance and no session. The hash
/// stored is one that the password checks against, so the customer can sign
/// in with it.
pub fn register_user(store: &mut Store, login: &str, password: &str) -> (outcome: Result<
    (),
    RegisterError,
>)
    ensures
        match outcome {
            Ok(_) => {
                &&& old(store)@.customer_named(login@) is None
                &&& exists|hash: Seq<char>| #[trigger]
                    customer_added(
                        old(store)@,
                        final(store)@,
                        highest_id(crate::store::customer_ids(old(store)@.customers)) + 1,
                        login@,
                        hash,
                        "bcrypt"@,
                        STARTING_BALANCE,
                    ) && bcrypt_verdict(password@, hash) == Some(true)
                &&& customer_recognized(final(store)@, login@, password@) == Some(
                    old(store)@.customers.len() as int,
                )
            },
            Err(error) => {
                &&& final(store)@ == old(store)@
                &&& error == RegisterError::LoginTaken <==> old(store)@.customer_named(login@) is Some
                &&& error == RegisterError::StoreFailure ==> highest_id(
                    crate::store::customer_ids(old(store)@.customers),
                ) + 1 > i32::MAX
            },
        },
{
    if store.find_customer_by_login(login).is_some() {
        return Err(RegisterError::LoginTaken);
    }
    let hash = match bcrypt_hash(password, HASH_COST) {
        Ok(hash) => hash,
        Err(_) => {
            return Err(RegisterError::HashingFailed);
        },
    };
    let new_customer = NewCustomer {
        login,
        password: hash.as_str(),
        salt: "bcrypt",
        balance: STARTING_BALANCE,
    };
    match insert_customer(store, new_customer) {
        Ok(_) => {
            proof {
                law_new_customer_is_recognized(
                    old(store)@,
                    store@,
                    highest_id(crate::store::customer_ids(old(store)@.customers)) + 1,
                    login@,
                    password@,
                    hash@,
                    "bcrypt"@,
                    STARTING_BALANCE,
                );
            }
            Ok(())
        },
        Err(error) => Err(error),
    }
}

} // verus!
