//! The records of the station's ledger.

use vstd::prelude::*;

verus! {

/// A customer as the station's front end sees one: no credentials.
#[derive(Debug, Clone, PartialEq)]
pub struct Customer {
    pub id: i32,
    pub login: String,
    /// Minor currency units.
    pub balance: i64,
    /// The bearer token of the one live session, if any.
    pub session_token: Option<String>,
}

/// What is needed to open a customer account.
#[derive(Debug, Clone, Copy)]
pub struct NewCustomer<'a> {
    pub login: &'a str,
    pub password: &'a str,
    pub salt: &'a str,
    pub balance: i64,
}

#[derive(Debug, Clone, PartialEq)]
pub struct Admin {
    pub id: i32,
    pub login: String,
    pub session_token: Option<String>,
}

/// What is needed to open an administrator account.
#[derive(Debug, Clone, Copy)]
pub struct NewAdmin<'a> {
    pub login: &'a str,
    pub password: &'a str,
    pub salt: &'a str,
}

/// A product on sale.
#[derive(Debug, Clone, PartialEq)]
pub struct Fuel {
    pub id: i32,
    pub name: String,
    /// Price of one unit, in minor currency units.
    pub price: i64,
    /// `None` stands for petrol.
    pub fuel_type: Option<String>,
}

/// One storage unit of one product.
#[derive(Debug, Clone, Copy, PartialEq, Eq, Structural)]
pub struct Tank {
    pub id: i32,
    pub fuelid: i32,
    pub stored: i32,
    pub capacity: i32,
}

/// The station's ledger: what sales have brought in and refills have not yet spent.
#[derive(Debug, Clone, Copy, PartialEq, Eq, Structural)]
pub struct Bank {
    pub id: i32,
    pub total: i64,
}

/// A product together with the stock and capacity of all its tanks.
#[derive(Debug, Clone, PartialEq)]
pub struct FuelWithTank {
    pub id: i32,
    pub name: String,
    pub price: i64,
    pub fuel_type: String,
    pub stored: i32,
    pub capacity: i32,
}

impl Fuel {
    /// Whether the product is sold as available-or-not rather than drawn from a
    /// metered pool: electricity is, every other kind is not.
    pub open spec fn is_unmetered(self) -> bool {
        self.fuel_type matches Some(kind) && kind@ == "electricity"@
    }

    pub fn unmetered(&self) -> (binary: bool)
        ensures
            binary == self.is_unmetered(),
    {
        match &self.fuel_type {
            Some(kind) => same_text(kind.as_str(), "electricity"),
            None => false,
        }
    }
}

/// Whether two strings hold the same characters.
pub fn same_text(left: &str, right: &str) -> (same: bool)
    ensures
        same == (left@ == right@),
{
    let a = left.to_owned();
    let b = right.to_owned();
    a == b
}

/// Whether a stored session token is present and equal to the one presented.
pub open spec fn token_matches(stored: Option<String>, presented: Seq<char>) -> bool {
    stored matches Some(token) && token@ == presented
}

pub fn check_token(stored: &Option<String>, presented: &str) -> (valid: bool)
    ensures
        valid == token_matches(*stored, presented@),
{
    match stored {
        Some(token) => same_text(token.as_str(), presented),
        None => false,
    }
}

} // verus!
