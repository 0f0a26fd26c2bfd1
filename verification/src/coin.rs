//! A quantity of one denomination.
use vstd::prelude::*;

verus! {

/// An amount of a single denomination.
#[derive(Debug, PartialEq, Eq)]
pub struct Coin {
    pub denom: String,
    pub amount: u128,
}

impl Coin {
    /// A coin of `amount` units of `denom`.
    pub fn new(amount: u128, denom: String) -> (c: Coin)
        ensures
            c.amount == amount,
            c.denom == denom,
    {
        Coin { denom, amount }
    }

    /// A coin with the same denomination as `self` and the given amount.
    pub fn with_amount(&self, amount: u128) -> (c: Coin)
        ensures
            c.amount == amount,
            c.denom == self.denom,
    {
        Coin { denom: self.denom.clone(), amount }
    }
}

impl Clone for Coin {
    fn clone(&self) -> (c: Self)
        ensures
            c == *self,
    {
        Coin { denom: self.denom.clone(), amount: self.amount }
    }
}

} // verus!
