//! Decimal amounts of money, held as a mantissa and a decimal scale.
//!
//! The value of an `Amount` is `mantissa / 10^scale`. Comparisons and
//! conversions go through `rust_decimal`, whose results are stated here.
use rust_decimal::prelude::ToPrimitive;
use rust_decimal::Decimal;
use vstd::prelude::*;

verus! {

/// A decimal amount: `mantissa / 10^scale`.
#[derive(Debug, Clone, Copy, PartialEq, Eq)]
pub struct Amount {
    pub mantissa: i128,
    pub scale: u32,
}

/// Largest mantissa magnitude that a decimal holds (96 bits).
pub open spec fn max_mantissa() -> int {
    0xFFFF_FFFF_FFFF_FFFF_FFFF_FFFF
}

/// `10^s`.
pub open spec fn pow10(s: nat) -> int
    decreases s,
{
    if s == 0 {
        1
    } else {
        10 * pow10((s - 1) as nat)
    }
}

/// An amount that a decimal can represent: scale at most 28, mantissa within 96 bits.
pub open spec fn amount_ok(a: Amount) -> bool {
    &&& a.scale <= 28
    &&& -max_mantissa() <= a.mantissa <= max_mantissa()
}

/// `a < b` as numbers.
pub open spec fn amount_lt(a: Amount, b: Amount) -> bool {
    a.mantissa * pow10(b.scale as nat) < b.mantissa * pow10(a.scale as nat)
}

/// The value of `a` rounded toward zero.
pub open spec fn amount_trunc(a: Amount) -> int {
    if a.mantissa >= 0 {
        (a.mantissa as int) / pow10(a.scale as nat)
    } else {
        -((-(a.mantissa as int)) / pow10(a.scale as nat))
    }
}

/// The amount zero, with scale 0.
pub open spec fn zero_amount() -> Amount {
    Amount { mantissa: 0, scale: 0 }
}

/// Zero, with scale 0.
pub fn zero() -> (r: Amount)
    ensures
        r == zero_amount(),
        amount_ok(r),
{
    Amount { mantissa: 0, scale: 0 }
}

/// The whole number `n` as an amount with scale 0.
pub fn from_i32(n: i32) -> (r: Amount)
    ensures
        r == (Amount { mantissa: n as i128, scale: 0 }),
        amount_ok(r),
{
    Amount { mantissa: n as i128, scale: 0 }
}

/// Compares two amounts by value with `rust_decimal`'s `<` (`PartialOrd::lt`
/// of `Decimal`); claimed: the result is the numeric comparison of the values.
#[verifier::external_body]
pub(crate) fn amount_less_than(a: &Amount, b: &Amount) -> (r: bool)
    requires
        amount_ok(*a),
        amount_ok(*b),
    ensures
        r == amount_lt(*a, *b),
{
    Decimal::from_i128_with_scale(a.mantissa, a.scale) < Decimal::from_i128_with_scale(
        b.mantissa,
        b.scale,
    )
}

/// Converts with `ToPrimitive::to_i32` of `Decimal`; claimed: the value
/// rounded toward zero when it fits in an `i32`, otherwise `None`.
#[verifier::external_body]
pub(crate) fn amount_to_i32(a: &Amount) -> (r: Option<i32>)
    requires
        amount_ok(*a),
    ensures
        r == (if i32::MIN <= amount_trunc(*a) <= i32::MAX {
            Some(amount_trunc(*a) as i32)
        } else {
            None
        }),
{
    Decimal::from_i128_with_scale(a.mantissa, a.scale).to_i32()
}

} // verus!
