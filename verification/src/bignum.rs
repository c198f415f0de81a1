use vstd::prelude::*;
use crate::numerics::{Integer, abs, decimal_value, gcd, is_decimal_literal, reduced};
use num_bigint::BigInt;
use num_traits::ToPrimitive;

verus! {

/// Reads a decimal literal with `num_bigint::BigInt`'s `FromStr`.
/// Claimed: on a run of digits with an optional leading `-`, the parse succeeds and
/// the integer has the literal's value (BigInt's `Display` then gives its canonical spelling).
#[verifier::external_body]
pub(crate) fn integer_parse(s: &str) -> (r: Integer)
    requires
        is_decimal_literal(s@),
    ensures
        r.value() == decimal_value(s@),
{
    Integer { text: s.parse::<BigInt>().unwrap().to_string() }
}

/// `BigInt + BigInt`. Claimed: the result is the exact sum.
#[verifier::external_body]
pub(crate) fn integer_add(a: &Integer, b: &Integer) -> (r: Integer)
    ensures
        r.value() == a.value() + b.value(),
{
    let x: BigInt = a.text.parse().unwrap();
    let y: BigInt = b.text.parse().unwrap();
    Integer { text: (x + y).to_string() }
}

/// `BigInt - BigInt`. Claimed: the result is the exact difference.
#[verifier::external_body]
pub(crate) fn integer_sub(a: &Integer, b: &Integer) -> (r: Integer)
    ensures
        r.value() == a.value() - b.value(),
{
    let x: BigInt = a.text.parse().unwrap();
    let y: BigInt = b.text.parse().unwrap();
    Integer { text: (x - y).to_string() }
}

/// `BigInt * BigInt`. Claimed: the result is the exact product.
#[verifier::external_body]
pub(crate) fn integer_mul(a: &Integer, b: &Integer) -> (r: Integer)
    ensures
        r.value() == a.value() * b.value(),
{
    let x: BigInt = a.text.parse().unwrap();
    let y: BigInt = b.text.parse().unwrap();
    Integer { text: (x * y).to_string() }
}

/// `Ord::cmp` on `BigInt`. Claimed: -1, 0 or 1 as the first value is below, equal to
/// or above the second.
#[verifier::external_body]
pub(crate) fn integer_order(a: &Integer, b: &Integer) -> (r: i8)
    ensures
        r == (if a.value() < b.value() { -1i8 } else if a.value() == b.value() { 0i8 } else { 1i8 }),
{
    let x: BigInt = a.text.parse().unwrap();
    let y: BigInt = b.text.parse().unwrap();
    match x.cmp(&y) {
        core::cmp::Ordering::Less => -1,
        core::cmp::Ordering::Equal => 0,
        core::cmp::Ordering::Greater => 1,
    }
}

/// `ToPrimitive::to_usize` on `BigInt`. Claimed: `Some` of the value exactly when it
/// fits in a `usize`.
#[verifier::external_body]
pub(crate) fn integer_to_usize(a: &Integer) -> (r: Option<usize>)
    ensures
        r == (if 0 <= a.value() <= usize::MAX { Some(a.value() as usize) } else { None::<usize> }),
{
    let x: BigInt = a.text.parse().unwrap();
    x.to_usize()
}

/// `BigInt::from(i64)`. Claimed: the integer has the same value.
#[verifier::external_body]
pub(crate) fn integer_from_i64(n: i64) -> (r: Integer)
    ensures
        r.value() == n,
{
    Integer { text: BigInt::from(n).to_string() }
}

/// `BigInt::from(usize)`. Claimed: the integer has the same value.
#[verifier::external_body]
pub(crate) fn integer_from_usize(n: usize) -> (r: Integer)
    ensures
        r.value() == n,
{
    Integer { text: BigInt::from(n).to_string() }
}

/// `num_rational::BigRational::new(n, d)`, which reduces the fraction.
/// Claimed: the numerator and denominator are those of `n / d` in lowest terms
/// with a positive denominator, so that the two have no common factor above one.
/// `new` panics on a zero denominator, which `requires` leaves out.
#[verifier::external_body]
pub(crate) fn rational_parts(n: &Integer, d: &Integer) -> (r: (Integer, Integer))
    requires
        d.value() != 0,
    ensures
        (r.0.value(), r.1.value()) == reduced(n.value(), d.value()),
        r.1.value() > 0,
        gcd(abs(r.0.value()), abs(r.1.value())) == 1,
{
    let x: BigInt = n.text.parse().unwrap();
    let y: BigInt = d.text.parse().unwrap();
    let q = num_rational::BigRational::new(x, y);
    (Integer { text: q.numer().to_string() }, Integer { text: q.denom().to_string() })
}

} // verus!
