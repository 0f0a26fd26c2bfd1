//! One asset of a multi-asset pool.
use vstd::prelude::*;

verus! {

/// The liquidity of one denomination in a pool, and the factor by which its
/// amounts are normalized: `amount / normalization_factor` is the same value
/// for every asset.
#[derive(Debug, PartialEq, Eq)]
pub struct Asset {
    pub amount: u128,
    pub denom: String,
    pub normalization_factor: u128,
    pub is_corrupted: bool,
}

impl Asset {
    /// A healthy asset.
    pub fn new(amount: u128, denom: String, normalization_factor: u128) -> (a: Asset)
        ensures
            a == (Asset { amount, denom, normalization_factor, is_corrupted: false }),
    {
        Asset { amount, denom, normalization_factor, is_corrupted: false }
    }

    /// The amount held.
    pub fn amount(&self) -> (r: u128)
        ensures
            r == self.amount,
    {
        self.amount
    }

    /// The normalization factor.
    pub fn normalization_factor(&self) -> (r: u128)
        ensures
            r == self.normalization_factor,
    {
        self.normalization_factor
    }
}

impl Clone for Asset {
    fn clone(&self) -> (a: Self)
        ensures
            a == *self,
    {
        Asset {
            amount: self.amount,
            denom: self.denom.clone(),
            normalization_factor: self.normalization_factor,
            is_corrupted: self.is_corrupted,
        }
    }
}

} // verus!
