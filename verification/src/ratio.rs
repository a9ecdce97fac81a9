//! Quotients kept exact: a total and what it is divided by.

use vstd::prelude::*;

verus! {

/// The quotient of `numerator` by `denominator`, kept as the two numbers
/// so that nothing is lost to rounding.
#[derive(Clone, Copy, Debug, PartialEq, Eq, Structural)]
pub struct Ratio {
    pub numerator: usize,
    pub denominator: usize,
}

/// The quotient of `numerator` by `denominator`; `None`, the value of an
/// average over nothing, where `denominator` is 0.
pub open spec fn ratio_of(numerator: nat, denominator: nat) -> Option<Ratio> {
    if denominator == 0 {
        None
    } else {
        Some(Ratio { numerator: numerator as usize, denominator: denominator as usize })
    }
}

impl Ratio {
    /// The quotient of `numerator` by `denominator`; `None` where
    /// `denominator` is 0.
    pub fn of(numerator: usize, denominator: usize) -> (ratio: Option<Ratio>)
        ensures
            ratio == ratio_of(numerator as nat, denominator as nat),
            ratio is None <==> denominator == 0,
    {
        if denominator == 0 {
            None
        } else {
            Some(Ratio { numerator, denominator })
        }
    }
}

} // verus!
