//! Exact nonnegative rational figures.
//!
//! Every derived figure of a session (rates in bits per second, the
//! bandwidth-delay product) is a quotient of two integers; keeping the
//! fraction unreduced makes every formula of the summary exact.

use vstd::prelude::*;

verus! {

/// An exact nonnegative rational number, kept as an unreduced fraction.
#[derive(Clone, Copy, PartialEq, Eq, Structural, Debug)]
pub struct Ratio {
    pub num: u128,
    pub den: u128,
}

impl Ratio {
    /// A ratio is well formed when its denominator is positive.
    pub open spec fn wf(self) -> bool {
        self.den > 0
    }

    /// The fraction denotes exactly `num / den`, by cross multiplication.
    pub open spec fn is_fraction(self, num: int, den: int) -> bool {
        self.num * den == num * self.den
    }

    pub fn new(num: u128, den: u128) -> (r: Ratio)
        requires
            den > 0,
        ensures
            r.num == num,
            r.den == den,
            r.wf(),
    {
        Ratio { num, den }
    }
}

} // verus!
