//! The ledger store: the station's accounts, products, tanks and bank, and
//! the lookups that every operation starts with.
//!
//! A store value is one consistent reading of the persisted rows. Operations
//! take it by `&mut` and either change it as a whole or leave it untouched.

use crate::models::{Admin, Bank, Customer, Fuel, Tank};
use vstd::prelude::*;

verus! {

/// A customer with the credentials kept for them.
#[derive(Debug, Clone, PartialEq)]
pub struct CustomerAccount {
    pub customer: Customer,
    /// The password's hash, never the password.
    pub password: String,
    pub salt: String,
}

/// An administrator with the credentials kept for them.
#[derive(Debug, Clone, PartialEq)]
pub struct AdminAccount {
    pub admin: Admin,
    /// The password's hash, never the password.
    pub password: String,
    pub salt: String,
}

/// The rows of the station. Tanks keep their stored order: it decides which
/// tank of a product is drawn from or filled first. The bank is a single
/// optional row: absent until the first sale is credited.
#[derive(Debug, Clone, PartialEq)]
pub struct Store {
    pub customers: Vec<CustomerAccount>,
    pub admins: Vec<AdminAccount>,
    pub fuels: Vec<Fuel>,
    pub tanks: Vec<Tank>,
    pub bank: Option<Bank>,
}

/// The store as sequences of rows.
#[verifier::ext_equal]
pub struct StoreView {
    pub customers: Seq<CustomerAccount>,
    pub admins: Seq<AdminAccount>,
    pub fuels: Seq<Fuel>,
    pub tanks: Seq<Tank>,
    pub bank: Option<Bank>,
}

impl View for Store {
    type V = StoreView;

    open spec fn view(&self) -> StoreView {
        StoreView {
            customers: self.customers@,
            admins: self.admins@,
            fuels: self.fuels@,
            tanks: self.tanks@,
            bank: self.bank,
        }
    }
}

/// Position of the first of `keys` equal to `key`.
pub open spec fn position_of<K>(keys: Seq<K>, key: K) -> Option<int>
    decreases keys.len(),
{
    if keys.len() == 0 {
        None
    } else if keys.first() == key {
        Some(0)
    } else {
        match position_of(keys.drop_first(), key) {
            Some(i) => Some(i + 1),
            None => None,
        }
    }
}

/// `position_of` answers with a position that holds the key and has none
/// before it, or with `None` where no position holds it.
pub proof fn lemma_position_of<K>(keys: Seq<K>, key: K)
    ensures
        match position_of(keys, key) {
            Some(i) => 0 <= i < keys.len() && keys[i] == key && forall|j: int|
                0 <= j < i ==> #[trigger] keys[j] != key,
            None => forall|j: int| 0 <= j < keys.len() ==> #[trigger] keys[j] != key,
        },
    decreases keys.len(),
{
    if keys.len() > 0 && keys.first() != key {
        let rest = keys.drop_first();
        lemma_position_of(rest, key);
        match position_of(rest, key) {
            Some(i) => {
                assert forall|j: int| 0 <= j < i + 1 implies #[trigger] keys[j] != key by {
                    if j > 0 {
                        assert(rest[j - 1] == keys[j]);
                    }
                }
            },
            None => {
                assert forall|j: int| 0 <= j < keys.len() implies #[trigger] keys[j] != key by {
                    if j > 0 {
                        assert(rest[j - 1] == keys[j]);
                    }
                }
            },
        }
    }
}

/// The first position that holds the key is what `position_of` answers.
pub proof fn lemma_position_found<K>(keys: Seq<K>, key: K, at: int)
    requires
        0 <= at < keys.len(),
        keys[at] == key,
        forall|j: int| 0 <= j < at ==> #[trigger] keys[j] != key,
    ensures
        position_of(keys, key) == Some(at),
{
    lemma_position_of(keys, key);
}

/// Where no position holds the key, `position_of` answers `None`.
pub proof fn lemma_position_absent<K>(keys: Seq<K>, key: K)
    requires
        forall|j: int| 0 <= j < keys.len() ==> #[trigger] keys[j] != key,
    ensures
        position_of(keys, key) is None,
{
    lemma_position_of(keys, key);
}

pub open spec fn customer_ids(customers: Seq<CustomerAccount>) -> Seq<i32> {
    customers.map_values(|account: CustomerAccount| account.customer.id)
}

pub open spec fn customer_logins(customers: Seq<CustomerAccount>) -> Seq<Seq<char>> {
    customers.map_values(|account: CustomerAccount| account.customer.login@)
}

pub open spec fn admin_logins(admins: Seq<AdminAccount>) -> Seq<Seq<char>> {
    admins.map_values(|account: AdminAccount| account.admin.login@)
}

pub open spec fn fuel_ids(fuels: Seq<Fuel>) -> Seq<i32> {
    fuels.map_values(|fuel: Fuel| fuel.id)
}

/// Whether an administrator's live session carries `token`.
pub open spec fn holds_session(account: AdminAccount, token: Seq<char>) -> bool {
    crate::models::token_matches(account.admin.session_token, token)
}

impl StoreView {
    /// Row of the customer numbered `id`.
    pub open spec fn customer_at(self, id: i32) -> Option<int> {
        position_of(customer_ids(self.customers), id)
    }

    /// Row of the customer who signs in as `login`.
    pub open spec fn customer_named(self, login: Seq<char>) -> Option<int> {
        position_of(customer_logins(self.customers), login)
    }

    /// Row of the administrator who signs in as `login`.
    pub open spec fn admin_named(self, login: Seq<char>) -> Option<int> {
        position_of(admin_logins(self.admins), login)
    }

    /// Row of the product numbered `id`.
    pub open spec fn fuel_at(self, id: i32) -> Option<int> {
        position_of(fuel_ids(self.fuels), id)
    }

    /// Whether `token` is the session token of some administrator.
    pub open spec fn admin_signed_in(self, token: Seq<char>) -> bool {
        exists|i: int| 0 <= i < self.admins.len() && holds_session(#[trigger] self.admins[i], token)
    }

    /// What the bank holds: nothing while it has no row.
    pub open spec fn bank_total(self) -> int {
        match self.bank {
            Some(bank) => bank.total as int,
            None => 0,
        }
    }

    /// Unit price of the product numbered `id`.
    pub open spec fn price_of(self, id: i32) -> int
        recommends
            self.fuel_at(id) is Some,
    {
        self.fuels[self.fuel_at(id).unwrap()].price as int
    }

    /// Whether the product numbered `id` is sold as available-or-not.
    pub open spec fn is_unmetered(self, id: i32) -> bool
        recommends
            self.fuel_at(id) is Some,
    {
        self.fuels[self.fuel_at(id).unwrap()].is_unmetered()
    }

    /// Balance of the customer numbered `id`.
    pub open spec fn balance_of(self, id: i32) -> int
        recommends
            self.customer_at(id) is Some,
    {
        self.customers[self.customer_at(id).unwrap()].customer.balance as int
    }
}

impl Store {
    /// A station with no rows at all.
    pub fn new() -> (store: Store)
        ensures
            store@.customers.len() == 0,
            store@.admins.len() == 0,
            store@.fuels.len() == 0,
            store@.tanks.len() == 0,
            store@.bank is None,
    {
        Store {
            customers: Vec::new(),
            admins: Vec::new(),
            fuels: Vec::new(),
            tanks: Vec::new(),
            bank: None,
        }
    }

    /// Row of the customer numbered `id`.
    pub fn find_customer(&self, id: i32) -> (found: Option<usize>)
        ensures
            match found {
                Some(row) => self@.customer_at(id) == Some(row as int) && row < self.customers.len(),
                None => self@.customer_at(id) is None,
            },
    {
        let mut i: usize = 0;
        while i < self.customers.len()
            invariant
                i <= self.customers.len(),
                forall|j: int| 0 <= j < i ==> #[trigger] customer_ids(self.customers@)[j] != id,
            decreases self.customers.len() - i,
        {
            if self.customers[i].customer.id == id {
                proof {
                    lemma_position_found(customer_ids(self.customers@), id, i as int);
                }
                return Some(i);
            }
            i = i + 1;
        }
        proof {
            lemma_position_absent(customer_ids(self.customers@), id);
        }
        None
    }

    /// Row of the customer who signs in as `login`.
    pub fn find_customer_by_login(&self, login: &str) -> (found: Option<usize>)
        ensures
            match found {
                Some(row) => self@.customer_named(login@) == Some(row as int) && row
                    < self.customers.len(),
                None => self@.customer_named(login@) is None,
            },
    {
        let mut i: usize = 0;
        while i < self.customers.len()
            invariant
                i <= self.customers.len(),
                forall|j: int|
                    0 <= j < i ==> #[trigger] customer_logins(self.customers@)[j] != login@,
            decreases self.customers.len() - i,
        {
            if crate::models::same_text(self.customers[i].customer.login.as_str(), login) {
                proof {
                    lemma_position_found(customer_logins(self.customers@), login@, i as int);
                }
                return Some(i);
            }
            i = i + 1;
        }
        proof {
            lemma_position_absent(customer_logins(self.customers@), login@);
        }
        None
    }

    /// Row of the administrator who signs in as `login`.
    pub fn find_admin_by_login(&self, login: &str) -> (found: Option<usize>)
        ensures
            match found {
                Some(row) => self@.admin_named(login@) == Some(row as int) && row
                    < self.admins.len(),
                None => self@.admin_named(login@) is None,
            },
    {
        let mut i: usize = 0;
        while i < self.admins.len()
            invariant
                i <= self.admins.len(),
                forall|j: int| 0 <= j < i ==> #[trigger] admin_logins(self.admins@)[j] != login@,
            decreases self.admins.len() - i,
        {
            if crate::models::same_text(self.admins[i].admin.login.as_str(), login) {
                proof {
                    lemma_position_found(admin_logins(self.admins@), login@, i as int);
                }
                return Some(i);
            }
            i = i + 1;
        }
        proof {
            lemma_position_absent(admin_logins(self.admins@), login@);
        }
        None
    }

    /// Row of the product numbered `id`.
    pub fn find_fuel(&self, id: i32) -> (found: Option<usize>)
        ensures
            match found {
                Some(row) => self@.fuel_at(id) == Some(row as int) && row < self.fuels.len(),
                None => self@.fuel_at(id) is None,
            },
    {
        let mut i: usize = 0;
        while i < self.fuels.len()
            invariant
                i <= self.fuels.len(),
                forall|j: int| 0 <= j < i ==> #[trigger] fuel_ids(self.fuels@)[j] != id,
            decreases self.fuels.len() - i,
        {
            if self.fuels[i].id == id {
                proof {
                    lemma_position_found(fuel_ids(self.fuels@), id, i as int);
                }
                return Some(i);
            }
            i = i + 1;
        }
        proof {
            lemma_position_absent(fuel_ids(self.fuels@), id);
        }
        None
    }

    /// Whether `token` is the session token of some administrator.
    pub fn admin_signed_in(&self, token: &str) -> (live: bool)
        ensures
            live == self@.admin_signed_in(token@),
    {
        let mut i: usize = 0;
        while i < self.admins.len()
            invariant
                i <= self.admins.len(),
                forall|j: int| 0 <= j < i ==> !holds_session(#[trigger] self@.admins[j], token@),
            decreases self.admins.len() - i,
        {
            if crate::models::check_token(&self.admins[i].admin.session_token, token) {
                assert(holds_session(self@.admins[i as int], token@));
                return true;
            }
            i = i + 1;
        }
        false
    }

    /// The bank's row, or an empty ledger numbered zero while it has none.
    pub fn get_bank_info(&self) -> (bank: Bank)
        ensures
            bank == match self.bank {
                Some(row) => row,
                None => Bank { id: 0, total: 0 },
            },
    {
        match self.bank {
            Some(row) => row,
            None => Bank { id: 0, total: 0 },
        }
    }
}

} // verus!
