//! Exact non-negative decimal values, the raw form in which prices and
//! quantities enter the book before they are quantized to fixed point.

use vstd::prelude::*;

verus! {

/// A non-negative decimal value `whole + num / den`, held exactly.
///
/// The fractional part is a proper fraction (`num < den`), so the value
/// determines the fields up to the choice of `den`.
#[derive(Debug, Clone, Copy)]
pub struct Decimal {
    pub whole: u64,
    pub num: u64,
    pub den: u64,
}

impl Decimal {
    /// The fractional part is a proper fraction over a non-zero denominator.
    pub open spec fn wf(self) -> bool {
        self.den > 0 && self.num < self.den
    }

    /// The value scaled by its own denominator: `whole * den + num`.
    pub open spec fn numerator(self) -> int {
        self.whole * self.den + self.num
    }

    /// `self <= other` as exact rational numbers.
    pub open spec fn le(self, other: Decimal) -> bool {
        self.numerator() * other.den <= other.numerator() * self.den
    }

    pub fn new(whole: u64, num: u64, den: u64) -> (d: Decimal)
        requires
            0 < den,
            num < den,
        ensures
            d.wf(),
            d.whole == whole,
            d.num == num,
            d.den == den,
    {
        Decimal { whole, num, den }
    }

    /// Runtime check of `wf`, for callers whose input is not trusted.
    pub fn is_well_formed(&self) -> (b: bool)
        ensures
            b == self.wf(),
    {
        self.den > 0 && self.num < self.den
    }
}

} // verus!
