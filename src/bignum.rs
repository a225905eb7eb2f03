//! Arbitrary-precision natural numbers, provided by `num::BigUint`.
//!
//! The type is opaque to the verifier: what a value holds is named by
//! `big_value`, and each operation the library performs on it has a small
//! wrapper whose contract states the result over that name.
use num::BigUint;
use num::Integer;
use num::Zero;
use std::cmp::Ordering;
use std::str::FromStr;
use vstd::prelude::*;

verus! {

#[verifier::external_type_specification]
#[verifier::external_body]
pub struct ExBigUint(BigUint);

/// The natural number that a `BigUint` holds.
pub uninterp spec fn big_value(b: BigUint) -> nat;

/// Greatest common divisor, by Euclid's recurrence (`gcd(0, 0) == 0`).
pub open spec fn gcd(a: nat, b: nat) -> nat
    decreases b,
{
    if b == 0 {
        a
    } else {
        gcd(b, a % b)
    }
}

/// Least common multiple as num computes it: `a / gcd(a, b) * b`, and zero
/// when both are zero.
pub open spec fn lcm(a: nat, b: nat) -> nat {
    if a == 0 && b == 0 {
        0
    } else {
        a / gcd(a, b) * b
    }
}

/// Whether every character is an ASCII decimal digit.
pub open spec fn all_digits(s: Seq<char>) -> bool {
    forall|i: int| 0 <= i < s.len() ==> '0' <= #[trigger] s[i] <= '9'
}

/// The value of one decimal digit character.
pub open spec fn digit_value(c: char) -> nat {
    (c as nat - '0' as nat) as nat
}

/// The natural number written by a string of decimal digits.
pub open spec fn digits_value(s: Seq<char>) -> nat
    decreases s.len(),
{
    if s.len() == 0 {
        0
    } else {
        digits_value(s.drop_last()) * 10 + digit_value(s.last())
    }
}

/// The decimal digit character for `d < 10`.
pub open spec fn digit_char(d: nat) -> char {
    ((d + '0' as nat) as u32) as char
}

/// The decimal representation of `n`, without leading zeros ("0" for zero).
pub open spec fn decimal(n: nat) -> Seq<char>
    decreases n,
{
    if n < 10 {
        seq![digit_char(n)]
    } else {
        decimal(n / 10).push(digit_char(n % 10))
    }
}

/// Relies on `BigUint: From<u64>`: the conversion keeps the value.
#[verifier::external_body]
pub(crate) fn big_from_u64(n: u64) -> (r: BigUint)
    ensures
        big_value(r) == n,
{
    BigUint::from(n)
}

/// Relies on `Clone for BigUint`: the copy holds the same value.
pub assume_specification[ <BigUint as Clone>::clone ](a: &BigUint) -> (r: BigUint)
    ensures
        big_value(r) == big_value(*a),
;

/// Relies on `Add for &BigUint`: the exact sum.
#[verifier::external_body]
pub(crate) fn big_add(a: &BigUint, b: &BigUint) -> (r: BigUint)
    ensures
        big_value(r) == big_value(*a) + big_value(*b),
{
    a + b
}

/// Relies on `Sub for &BigUint`: the exact difference; it panics when
/// `b > a`, which `requires` leaves out.
#[verifier::external_body]
pub(crate) fn big_sub(a: &BigUint, b: &BigUint) -> (r: BigUint)
    requires
        big_value(*b) <= big_value(*a),
    ensures
        big_value(r) == big_value(*a) - big_value(*b),
{
    a - b
}

/// Relies on `Mul for &BigUint`: the exact product.
#[verifier::external_body]
pub(crate) fn big_mul(a: &BigUint, b: &BigUint) -> (r: BigUint)
    ensures
        big_value(r) == big_value(*a) * big_value(*b),
{
    a * b
}

/// Relies on `Div for &BigUint`: the truncated quotient; it panics on a zero
/// divisor, which `requires` leaves out.
#[verifier::external_body]
pub(crate) fn big_div(a: &BigUint, b: &BigUint) -> (r: BigUint)
    requires
        big_value(*b) > 0,
    ensures
        big_value(r) == big_value(*a) / big_value(*b),
{
    a / b
}

/// Relies on `Integer::gcd for BigUint`: the greatest common divisor, with
/// `gcd(0, n) == n`.
#[verifier::external_body]
pub(crate) fn big_gcd(a: &BigUint, b: &BigUint) -> (r: BigUint)
    ensures
        big_value(r) == gcd(big_value(*a), big_value(*b)),
{
    a.gcd(b)
}

/// Relies on `Integer::lcm for BigUint`: the least common multiple.
#[verifier::external_body]
pub(crate) fn big_lcm(a: &BigUint, b: &BigUint) -> (r: BigUint)
    ensures
        big_value(r) == lcm(big_value(*a), big_value(*b)),
{
    a.lcm(b)
}

/// Relies on `Zero::is_zero for BigUint`.
#[verifier::external_body]
pub(crate) fn big_is_zero(a: &BigUint) -> (r: bool)
    ensures
        r == (big_value(*a) == 0),
{
    a.is_zero()
}

/// Relies on `Ord::cmp for BigUint`: the numeric order.
#[verifier::external_body]
pub(crate) fn big_cmp(a: &BigUint, b: &BigUint) -> (r: Ordering)
    ensures
        (r == Ordering::Less) == (big_value(*a) < big_value(*b)),
        (r == Ordering::Equal) == (big_value(*a) == big_value(*b)),
        (r == Ordering::Greater) == (big_value(*a) > big_value(*b)),
{
    a.cmp(b)
}

/// Relies on `FromStr for BigUint`: a non-empty string of decimal digits
/// parses to the number it writes.
#[verifier::external_body]
pub(crate) fn big_from_digits(s: &str) -> (r: BigUint)
    requires
        s@.len() > 0,
        all_digits(s@),
    ensures
        big_value(r) == digits_value(s@),
{
    BigUint::from_str(s).unwrap()
}

/// Relies on `Display for BigUint`: decimal digits without leading zeros.
#[verifier::external_body]
pub(crate) fn big_to_decimal(a: &BigUint) -> (r: String)
    ensures
        r@ == decimal(big_value(*a)),
{
    a.to_string()
}

} // verus!
