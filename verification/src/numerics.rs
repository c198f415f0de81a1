use vstd::prelude::*;

verus! {

/// The number of bits of binary precision that `decimal_digits` decimal digits need,
/// at 3.322 bits per digit, rounded up and capped at `u32::MAX`.
pub open spec fn spec_decimal_digits_to_bits(decimal_digits: nat) -> int {
    let exact: int = ((decimal_digits * 3322 + 999) / 1000) as int;
    if exact > u32::MAX { u32::MAX as int } else { exact }
}

/// The number of whole decimal digits that `bits` bits of binary precision hold,
/// at 3.322 bits per digit, rounded down.
pub open spec fn spec_bits_to_decimal_digits(bits: nat) -> int {
    ((bits * 500) / 1661) as int
}

/// Bits of precision needed for a number written with `decimal_digits` digits.
pub fn decimal_digits_to_bits(decimal_digits: usize) -> (bits: u32)
    ensures
        bits == spec_decimal_digits_to_bits(decimal_digits as nat),
{
    let d: u128 = decimal_digits as u128;
    let exact: u128 = (d * 3322 + 999) / 1000;
    if exact > u32::MAX as u128 {
        u32::MAX
    } else {
        exact as u32
    }
}

/// Whole decimal digits that `bits` bits of precision can represent.
pub fn bits_to_decimal_digits(bits: u32) -> (digits: usize)
    ensures
        digits == spec_bits_to_decimal_digits(bits as nat),
{
    let b: u64 = bits as u64;
    let r: u64 = (b * 500) / 1661;
    assert(r <= u32::MAX);
    r as usize
}

pub open spec fn is_digit(c: char) -> bool {
    '0' <= c && c <= '9'
}

pub open spec fn digit_value(c: char) -> int {
    (c as int) - ('0' as int)
}

pub open spec fn digit_char(d: int) -> char
    recommends 0 <= d < 10,
{
    (d + ('0' as int)) as char
}

/// All characters are decimal digits, and there is at least one.
pub open spec fn all_digits(s: Seq<char>) -> bool {
    s.len() > 0 && forall|i: int| 0 <= i < s.len() ==> is_digit(#[trigger] s[i])
}

/// A run of digits with an optional leading minus sign.
pub open spec fn is_decimal_literal(s: Seq<char>) -> bool {
    all_digits(s) || (s.len() > 1 && s[0] == '-' && all_digits(s.skip(1)))
}

/// The value of a run of decimal digits, most significant first.
pub open spec fn digits_value(s: Seq<char>) -> int
    decreases s.len(),
{
    if s.len() == 0 {
        0
    } else {
        digits_value(s.drop_last()) * 10 + digit_value(s.last())
    }
}

/// The value of a decimal literal with an optional minus sign.
pub open spec fn decimal_value(s: Seq<char>) -> int {
    if s.len() > 0 && s[0] == '-' {
        -digits_value(s.skip(1))
    } else {
        digits_value(s)
    }
}

/// The digits of a natural number in base ten, without leading zeros.
pub open spec fn nat_to_decimal(n: nat) -> Seq<char>
    decreases n,
{
    if n < 10 {
        seq![digit_char(n as int)]
    } else {
        nat_to_decimal(n / 10) + seq![digit_char((n % 10) as int)]
    }
}

/// The canonical decimal spelling of an integer: a minus sign for negative numbers,
/// then its digits without leading zeros.
pub open spec fn int_to_decimal(n: int) -> Seq<char> {
    if n < 0 {
        seq!['-'] + nat_to_decimal((-n) as nat)
    } else {
        nat_to_decimal(n as nat)
    }
}

/// Greatest common divisor of two natural numbers.
pub open spec fn gcd(a: nat, b: nat) -> nat
    decreases b,
{
    if b == 0 {
        a
    } else {
        gcd(b, a % b)
    }
}

pub open spec fn abs(n: int) -> nat {
    if n < 0 { (-n) as nat } else { n as nat }
}

/// The numerator and denominator of `n / d` in lowest terms, with a positive denominator.
pub open spec fn reduced(n: int, d: int) -> (int, int)
    recommends d != 0,
{
    let g = gcd(abs(n), abs(d)) as int;
    if d < 0 {
        (-n / g, -d / g)
    } else {
        (n / g, d / g)
    }
}

/// An arbitrary-precision integer, held as its canonical decimal spelling.
#[derive(PartialEq, Debug)]
pub struct Integer {
    pub(crate) text: String,
}

impl Integer {
    #[verifier::type_invariant]
    spec fn canonical(&self) -> bool {
        self.text@ == int_to_decimal(decimal_value(self.text@))
    }

    /// The value of the integer.
    pub closed spec fn value(&self) -> int {
        decimal_value(self.text@)
    }

    /// The canonical decimal spelling of the integer.
    pub fn text(&self) -> (s: &String)
        ensures
            s@ == int_to_decimal(self.value()),
    {
        proof {
            use_type_invariant(self);
        }
        &self.text
    }

    /// The integer with value `n`.
    pub fn from_i64(n: i64) -> (r: Integer)
        ensures
            r.value() == n,
    {
        crate::bignum::integer_from_i64(n)
    }

    /// The integer that a decimal literal (digits with an optional leading `-`) spells.
    pub fn parse(s: &str) -> (r: Integer)
        requires
            is_decimal_literal(s@),
        ensures
            r.value() == decimal_value(s@),
    {
        crate::bignum::integer_parse(s)
    }

    pub fn clone(&self) -> (r: Integer)
        ensures
            r.value() == self.value(),
    {
        proof {
            use_type_invariant(self);
        }
        Integer { text: self.text.clone() }
    }
}

/// A rational number that is not an integer, in lowest terms with a positive denominator.
#[derive(PartialEq, Debug)]
pub struct Ratio {
    numer: Integer,
    denom: Integer,
}

impl Ratio {
    #[verifier::type_invariant]
    spec fn in_lowest_terms(&self) -> bool {
        &&& self.denom.value() > 1
        &&& gcd(abs(self.numer.value()), abs(self.denom.value())) == 1
    }

    /// The fraction `numer / denom`, which must be in lowest terms and not an integer.
    pub fn new(numer: Integer, denom: Integer) -> (r: Ratio)
        requires
            denom.value() > 1,
            gcd(abs(numer.value()), abs(denom.value())) == 1,
        ensures
            r.numer_value() == numer.value(),
            r.denom_value() == denom.value(),
    {
        Ratio { numer, denom }
    }

    pub closed spec fn numer_value(&self) -> int {
        self.numer.value()
    }

    pub closed spec fn denom_value(&self) -> int {
        self.denom.value()
    }

    pub fn numer(&self) -> (n: &Integer)
        ensures
            n.value() == self.numer_value(),
    {
        &self.numer
    }

    pub fn denom(&self) -> (d: &Integer)
        ensures
            d.value() == self.denom_value(),
            d.value() > 1,
    {
        proof {
            use_type_invariant(self);
        }
        &self.denom
    }

    pub fn clone(&self) -> (r: Ratio)
        ensures
            r.numer_value() == self.numer_value(),
            r.denom_value() == self.denom_value(),
    {
        proof {
            use_type_invariant(self);
        }
        Ratio { numer: self.numer.clone(), denom: self.denom.clone() }
    }
}

/// A floating-point literal, held as the text it was read from.
#[derive(PartialEq, Debug)]
pub struct Float {
    literal: String,
}

impl Float {
    pub closed spec fn literal_view(&self) -> Seq<char> {
        self.literal@
    }

    /// The float that the literal `s` spells.
    pub fn from_str(s: &str) -> (f: Float)
        ensures
            f.literal_view() == s@,
    {
        Float { literal: s.to_string() }
    }

    /// The literal this float was read from.
    pub fn literal(&self) -> (s: &String)
        ensures
            s@ == self.literal_view(),
    {
        &self.literal
    }

    pub fn clone(&self) -> (r: Float)
        ensures
            r.literal_view() == self.literal_view(),
    {
        Float { literal: self.literal.clone() }
    }
}

} // verus!
