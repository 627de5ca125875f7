//! Exact fractions. The library reports rates, ratios and averages as a
//! numerator and a denominator; turning them into a decimal number is left
//! to the caller.

use vstd::prelude::*;

verus! {

/// The fraction `numerator / denominator`. Every fraction that the library
/// hands out has a positive denominator.
#[derive(Debug, Clone, Copy, PartialEq, Eq, Structural)]
pub struct Ratio {
    pub numerator: u128,
    pub denominator: u128,
}

impl Ratio {
    /// The fraction `numerator / denominator`.
    pub fn new(numerator: u128, denominator: u128) -> (r: Ratio)
        ensures
            r == (Ratio { numerator, denominator }),
    {
        Ratio { numerator, denominator }
    }

    /// The fraction `0 / 1`.
    pub fn zero() -> (r: Ratio)
        ensures
            r == (Ratio { numerator: 0, denominator: 1 }),
    {
        Ratio { numerator: 0, denominator: 1 }
    }

    /// The fraction `1 / 1`.
    pub fn one() -> (r: Ratio)
        ensures
            r == (Ratio { numerator: 1, denominator: 1 }),
    {
        Ratio { numerator: 1, denominator: 1 }
    }

    /// Whether this fraction is strictly greater than `p / q`, for fractions
    /// with positive denominators.
    pub open spec fn exceeds(self, p: int, q: int) -> bool {
        self.numerator * q > p * self.denominator
    }
}

} // verus!
