//! Money and stock arithmetic shared by the purchase and refill paths.

use vstd::prelude::*;

verus! {

/// Price of `amount` units at `price_per_unit`, in minor currency units.
pub open spec fn fuel_cost(price_per_unit: int, amount: int) -> int {
    price_per_unit * amount
}

/// Half of `price`, rounded toward zero: the wholesale price of one unit.
pub open spec fn wholesale_price(price: int) -> int {
    if price >= 0 {
        price / 2
    } else {
        -((-price) / 2)
    }
}

/// What the station pays to take in `amount` units of a fuel sold at `fuel_price`.
pub open spec fn refill_cost(fuel_price: int, amount: int) -> int {
    wholesale_price(fuel_price) * amount
}

/// Whether `value` can be held in a 64-bit signed amount.
pub open spec fn fits_i64(value: int) -> bool {
    i64::MIN <= value <= i64::MAX
}

/// Sum of the stored quantities of a list of `(stored, capacity)` pairs.
pub open spec fn stored_sum(tanks: Seq<(i32, i32)>) -> int
    decreases tanks.len(),
{
    if tanks.len() == 0 {
        0
    } else {
        stored_sum(tanks.drop_last()) + tanks.last().0
    }
}

/// The stored sum of `n` pairs lies within `n` times the range of one quantity.
pub proof fn lemma_stored_sum_bounds(tanks: Seq<(i32, i32)>)
    ensures
        -0x8000_0000 * tanks.len() <= stored_sum(tanks) <= 0x7fff_ffff * tanks.len(),
    decreases tanks.len(),
{
    if tanks.len() > 0 {
        lemma_stored_sum_bounds(tanks.drop_last());
    }
}

pub fn calculate_fuel_cost(price_per_unit: i64, amount: i32) -> (cost: i64)
    requires
        fits_i64(fuel_cost(price_per_unit as int, amount as int)),
    ensures
        cost == fuel_cost(price_per_unit as int, amount as int),
{
    price_per_unit * (amount as i64)
}

/// `calculate_fuel_cost` for any input: `None` exactly when the cost does not fit.
pub fn checked_fuel_cost(price_per_unit: i64, amount: i32) -> (cost: Option<i64>)
    ensures
        fits_i64(fuel_cost(price_per_unit as int, amount as int)) ==> cost == Some(
            fuel_cost(price_per_unit as int, amount as int) as i64,
        ),
        !fits_i64(fuel_cost(price_per_unit as int, amount as int)) ==> cost is None,
{
    price_per_unit.checked_mul(amount as i64)
}

/// Half of `fuel_price`, rounded toward zero.
pub fn wholesale_unit_price(fuel_price: i64) -> (half: i64)
    ensures
        half == wholesale_price(fuel_price as int),
{
    if fuel_price >= 0 {
        fuel_price / 2
    } else if fuel_price == i64::MIN {
        -0x4000_0000_0000_0000
    } else {
        -((-fuel_price) / 2)
    }
}

pub fn calculate_refill_cost(fuel_price: i64, amount: i32) -> (cost: i64)
    requires
        fits_i64(refill_cost(fuel_price as int, amount as int)),
    ensures
        cost == refill_cost(fuel_price as int, amount as int),
{
    let cost_per_unit = wholesale_unit_price(fuel_price);
    cost_per_unit * (amount as i64)
}

/// `calculate_refill_cost` for any input: `None` exactly when the cost does not fit.
pub fn checked_refill_cost(fuel_price: i64, amount: i32) -> (cost: Option<i64>)
    ensures
        fits_i64(refill_cost(fuel_price as int, amount as int)) ==> cost == Some(
            refill_cost(fuel_price as int, amount as int) as i64,
        ),
        !fits_i64(refill_cost(fuel_price as int, amount as int)) ==> cost is None,
{
    let cost_per_unit = wholesale_unit_price(fuel_price);
    cost_per_unit.checked_mul(amount as i64)
}

pub fn has_sufficient_balance(balance: i64, cost: i64) -> (enough: bool)
    ensures
        enough == (balance >= cost),
{
    balance >= cost
}

pub fn calculate_total_stored(tanks: &[(i32, i32)]) -> (total: i32)
    requires
        i32::MIN <= stored_sum(tanks@) <= i32::MAX,
    ensures
        total == stored_sum(tanks@),
{
    let mut sum: i128 = 0;
    let mut i: usize = 0;
    while i < tanks.len()
        invariant
            i <= tanks.len(),
            sum == stored_sum(tanks@.take(i as int)),
        decreases tanks.len() - i,
    {
        proof {
            lemma_stored_sum_bounds(tanks@.take(i as int));
            assert(tanks@.take(i + 1).drop_last() =~= tanks@.take(i as int));
        }
        sum = sum + tanks[i].0 as i128;
        i = i + 1;
    }
    proof {
        assert(tanks@.take(i as int) =~= tanks@);
    }
    sum as i32
}

pub fn has_sufficient_fuel(total_stored: i32, amount_needed: i32) -> (enough: bool)
    ensures
        enough == (total_stored >= amount_needed),
{
    total_stored >= amount_needed
}

/// The character of one decimal digit.
pub open spec fn digit_char(digit: int) -> char {
    seq!['0', '1', '2', '3', '4', '5', '6', '7', '8', '9'][digit]
}

/// Decimal notation of `value`, without leading zeros.
pub open spec fn decimal_text(value: nat) -> Seq<char>
    decreases value,
{
    if value < 10 {
        seq![digit_char(value as int)]
    } else {
        decimal_text(value / 10).push(digit_char((value % 10) as int))
    }
}

/// An amount of minor units written as whole units with two decimals and the
/// currency: a minus sign for negative amounts, the whole units, a point,
/// the two digits of the hundredths, a space and the currency's name.
pub open spec fn money_text(cents: int) -> Seq<char> {
    let magnitude = if cents < 0 {
        -cents
    } else {
        cents
    };
    let sign = if cents < 0 {
        seq!['-']
    } else {
        Seq::<char>::empty()
    };
    sign + decimal_text((magnitude / 100) as nat) + seq![
        '.',
        digit_char(magnitude % 100 / 10),
        digit_char(magnitude % 10),
    ] + " грн"@
}

fn digit_str(digit: u64) -> (text: &'static str)
    requires
        digit < 10,
    ensures
        text@ == seq![digit_char(digit as int)],
{
    proof {
        reveal_strlit("0");
        reveal_strlit("1");
        reveal_strlit("2");
        reveal_strlit("3");
        reveal_strlit("4");
        reveal_strlit("5");
        reveal_strlit("6");
        reveal_strlit("7");
        reveal_strlit("8");
        reveal_strlit("9");
    }
    let text = if digit == 0 {
        "0"
    } else if digit == 1 {
        "1"
    } else if digit == 2 {
        "2"
    } else if digit == 3 {
        "3"
    } else if digit == 4 {
        "4"
    } else if digit == 5 {
        "5"
    } else if digit == 6 {
        "6"
    } else if digit == 7 {
        "7"
    } else if digit == 8 {
        "8"
    } else {
        "9"
    };
    assert(text@ =~= seq![digit_char(digit as int)]);
    text
}

fn append_decimal(text: &mut String, value: u64)
    ensures
        final(text)@ == old(text)@ + decimal_text(value as nat),
    decreases value,
{
    if value >= 10 {
        append_decimal(text, value / 10);
    }
    text.append(digit_str(value % 10));
}

pub fn format_money(cents: i64) -> (text: String)
    ensures
        text@ == money_text(cents as int),
{
    let magnitude: u64 = if cents >= 0 {
        cents as u64
    } else if cents == i64::MIN {
        0x8000_0000_0000_0000
    } else {
        (-cents) as u64
    };
    let mut text = String::new();
    if cents < 0 {
        proof {
            reveal_strlit("-");
        }
        text.append("-");
    }
    append_decimal(&mut text, magnitude / 100);
    proof {
        reveal_strlit(".");
    }
    text.append(".");
    text.append(digit_str(magnitude % 100 / 10));
    text.append(digit_str(magnitude % 10));
    text.append(" грн");
    assert(text@ =~= money_text(cents as int));
    text
}

} // verus!
