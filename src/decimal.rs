use vstd::prelude::*;

use crate::math::{mul_div_floor, multiply_ratio_floor};

verus! {

/// Number of units in one, for a fixed-point decimal with eighteen fractional
/// digits.
pub const DECIMAL_FRACTIONAL: u128 = 1_000_000_000_000_000_000;

/// A non-negative fixed-point number with eighteen fractional digits, held as
/// its count of `10^-18` units.
#[derive(Debug, Clone, Copy, PartialEq, Eq)]
pub struct Decimal {
    pub atomics: u128,
}

impl Decimal {
    /// The number one.
    pub fn one() -> (r: Decimal)
        ensures
            r.atomics == DECIMAL_FRACTIONAL,
    {
        Decimal { atomics: DECIMAL_FRACTIONAL }
    }

    /// `x` percent.
    pub fn percent(x: u64) -> (r: Decimal)
        ensures
            r.atomics == x as int * 10_000_000_000_000_000,
    {
        assert(x as int * 10_000_000_000_000_000 <= u128::MAX) by (nonlinear_arith)
            requires
                x <= u64::MAX,
        ;
        Decimal { atomics: x as u128 * 10_000_000_000_000_000 }
    }

    /// `numerator / denominator`, rounded down to eighteen fractional digits;
    /// `None` when the denominator is zero or the value is out of range.
    pub fn from_ratio(numerator: u128, denominator: u128) -> (r: Option<Decimal>)
        ensures
            r is Some <==> (denominator != 0 && mul_div_floor(
                numerator as int,
                DECIMAL_FRACTIONAL as int,
                denominator as int,
            ) <= u128::MAX),
            r is Some ==> r->0.atomics == mul_div_floor(
                numerator as int,
                DECIMAL_FRACTIONAL as int,
                denominator as int,
            ),
    {
        match multiply_ratio_floor(numerator, DECIMAL_FRACTIONAL, denominator) {
            Some(a) => Some(Decimal { atomics: a }),
            None => None,
        }
    }
}

} // verus!
