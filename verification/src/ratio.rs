use vstd::prelude::*;

verus! {

/// An exact fraction of two counts. A rate of the metrics is the
/// quotient `numerator / denominator`; a zero denominator stands for the
/// undefined quotient of a division by zero.
#[derive(Clone, Copy, Debug, PartialEq, Eq)]
pub struct Ratio {
    pub numerator: u64,
    pub denominator: u64,
}

impl Ratio {
    /// The fraction `numerator / denominator`.
    pub fn new(numerator: u64, denominator: u64) -> (res: Self)
        ensures
            res.numerator == numerator,
            res.denominator == denominator,
    {
        Ratio { numerator, denominator }
    }
}

} // verus!
