//! A fixed-point decimal with 18 fractional digits.
use vstd::prelude::*;

verus! {

/// A non-negative decimal number stored as `atomics / 10^18`.
#[derive(Debug, Clone, Copy, PartialEq, Eq)]
pub struct Decimal {
    pub atomics: u128,
}

impl Decimal {
    /// The decimal zero.
    pub fn zero() -> (d: Decimal)
        ensures
            d.atomics == 0,
    {
        Decimal { atomics: 0 }
    }
}

} // verus!
