//! The two-denomination pool: coins of the in-denomination are transmuted
//! one to one into coins of the out-denomination held in reserve.
use crate::coin::Coin;
use crate::error::ContractError;
use vstd::prelude::*;

verus! {

/// Incoming coins are kept in `in_coin`; `out_coin_reserve` holds the coins
/// that transmutations pay out.
#[derive(Debug, PartialEq, Eq)]
pub struct TransmuterPool {
    pub in_coin: Coin,
    pub out_coin_reserve: Coin,
}

impl Clone for TransmuterPool {
    fn clone(&self) -> (p: Self)
        ensures
            p == *self,
    {
        TransmuterPool { in_coin: self.in_coin.clone(), out_coin_reserve: self.out_coin_reserve.clone() }
    }
}

/// The value of the pool in units: both sides count one to one.
pub open spec fn pool_total(pool: TransmuterPool) -> int {
    pool.in_coin.amount + pool.out_coin_reserve.amount
}

/// `pool` with `amount` as its in-coin amount.
pub open spec fn with_in_amount(pool: TransmuterPool, amount: int) -> TransmuterPool {
    TransmuterPool {
        in_coin: Coin { denom: pool.in_coin.denom, amount: amount as u128 },
        out_coin_reserve: pool.out_coin_reserve,
    }
}

/// `pool` with `amount` as its out-reserve amount.
pub open spec fn with_out_amount(pool: TransmuterPool, amount: int) -> TransmuterPool {
    TransmuterPool {
        in_coin: pool.in_coin,
        out_coin_reserve: Coin { denom: pool.out_coin_reserve.denom, amount: amount as u128 },
    }
}

/// What supplying `coin` does: only the out-denomination is accepted, and it
/// is added to the reserve.
pub open spec fn supply_result(pool: TransmuterPool, coin: Coin) -> Result<
    TransmuterPool,
    ContractError,
> {
    if coin.denom@ != pool.out_coin_reserve.denom@ {
        Err(
            ContractError::InvalidSupplyDenom {
                denom: coin.denom,
                expected_denom: pool.out_coin_reserve.denom,
            },
        )
    } else if pool.out_coin_reserve.amount + coin.amount > u128::MAX {
        Err(ContractError::Overflow)
    } else {
        Ok(with_out_amount(pool, pool.out_coin_reserve.amount + coin.amount))
    }
}

/// What transmuting `coin` does: only the in-denomination is accepted; the
/// same amount moves from the reserve to the sender, and the pool keeps the
/// coin. The second component is the coin paid out.
pub open spec fn transmute_result(pool: TransmuterPool, coin: Coin) -> Result<
    (TransmuterPool, Coin),
    ContractError,
> {
    if coin.denom@ != pool.in_coin.denom@ {
        Err(
            ContractError::InvalidTransmuteDenom {
                denom: coin.denom,
                expected_denom: pool.in_coin.denom,
            },
        )
    } else if pool.out_coin_reserve.amount < coin.amount {
        Err(
            ContractError::InsufficientPoolAsset {
                required: Coin { denom: pool.out_coin_reserve.denom, amount: coin.amount },
                available: pool.out_coin_reserve,
            },
        )
    } else if pool.in_coin.amount + coin.amount > u128::MAX {
        Err(ContractError::Overflow)
    } else {
        Ok(
            (
                with_out_amount(
                    with_in_amount(pool, pool.in_coin.amount + coin.amount),
                    pool.out_coin_reserve.amount - coin.amount,
                ),
                Coin { denom: pool.out_coin_reserve.denom, amount: coin.amount },
            ),
        )
    }
}

/// The coins paid out for `shares` units: the reserve first, then the
/// in-coins; coins of amount zero are left out.
pub open spec fn withdrawing_coins(pool: TransmuterPool, shares: int) -> Result<
    Seq<Coin>,
    ContractError,
> {
    let out_amount = if shares <= pool.out_coin_reserve.amount {
        shares
    } else {
        pool.out_coin_reserve.amount as int
    };
    let in_amount = shares - out_amount;
    if in_amount > pool.in_coin.amount {
        Err(
            ContractError::InsufficientPoolAsset {
                required: Coin { denom: pool.in_coin.denom, amount: in_amount as u128 },
                available: pool.in_coin,
            },
        )
    } else {
        let outs = if out_amount > 0 {
            seq![Coin { denom: pool.out_coin_reserve.denom, amount: out_amount as u128 }]
        } else {
            Seq::empty()
        };
        let ins = if in_amount > 0 {
            seq![Coin { denom: pool.in_coin.denom, amount: in_amount as u128 }]
        } else {
            Seq::empty()
        };
        Ok(outs + ins)
    }
}

/// What taking `coin` out of the pool does.
pub open spec fn withdraw_one(pool: TransmuterPool, coin: Coin) -> Result<
    TransmuterPool,
    ContractError,
> {
    if coin.denom@ == pool.in_coin.denom@ {
        if coin.amount > pool.in_coin.amount {
            Err(ContractError::InsufficientPoolAsset { required: coin, available: pool.in_coin })
        } else {
            Ok(with_in_amount(pool, pool.in_coin.amount - coin.amount))
        }
    } else if coin.denom@ == pool.out_coin_reserve.denom@ {
        if coin.amount > pool.out_coin_reserve.amount {
            Err(
                ContractError::InsufficientPoolAsset {
                    required: coin,
                    available: pool.out_coin_reserve,
                },
            )
        } else {
            Ok(with_out_amount(pool, pool.out_coin_reserve.amount - coin.amount))
        }
    } else {
        Err(ContractError::InvalidPoolAssetDenom { denom: coin.denom })
    }
}

/// What taking `coins` out of the pool, one after the other, does.
pub open spec fn withdraw_result(pool: TransmuterPool, coins: Seq<Coin>) -> Result<
    TransmuterPool,
    ContractError,
>
    decreases coins.len(),
{
    if coins.len() == 0 {
        Ok(pool)
    } else {
        match withdraw_result(pool, coins.drop_last()) {
            Ok(p) => withdraw_one(p, coins.last()),
            Err(e) => Err(e),
        }
    }
}

impl TransmuterPool {
    /// The empty pool that transmutes `in_denom` into `out_denom`.
    pub open spec fn new_spec(in_denom: String, out_denom: String) -> TransmuterPool {
        TransmuterPool {
            in_coin: Coin { denom: in_denom, amount: 0 },
            out_coin_reserve: Coin { denom: out_denom, amount: 0 },
        }
    }

    /// An empty pool that transmutes `in_denom` into `out_denom`.
    pub fn new(in_denom: String, out_denom: String) -> (p: TransmuterPool)
        ensures
            p == TransmuterPool::new_spec(in_denom, out_denom),
    {
        TransmuterPool { in_coin: Coin::new(0, in_denom), out_coin_reserve: Coin::new(0, out_denom) }
    }

    /// Adds `coin` to the out-reserve.
    pub fn supply(&mut self, coin: &Coin) -> (r: Result<(), ContractError>)
        ensures
            match supply_result(*old(self), *coin) {
                Ok(p) => r is Ok && *final(self) == p,
                Err(e) => r == Err::<(), ContractError>(e) && *final(self) == *old(self),
            },
    {
        if coin.denom != self.out_coin_reserve.denom {
            return Err(
                ContractError::InvalidSupplyDenom {
                    denom: coin.denom.clone(),
                    expected_denom: self.out_coin_reserve.denom.clone(),
                },
            );
        }
        match self.out_coin_reserve.amount.checked_add(coin.amount) {
            Some(v) => {
                self.out_coin_reserve.amount = v;
                Ok(())
            },
            None => Err(ContractError::Overflow),
        }
    }

    /// Takes `coin` of the in-denomination and pays out as many coins of the
    /// out-denomination from the reserve.
    pub fn transmute(&mut self, coin: &Coin) -> (r: Result<Coin, ContractError>)
        ensures
            match transmute_result(*old(self), *coin) {
                Ok((p, out)) => r == Ok::<Coin, ContractError>(out) && *final(self) == p,
                Err(e) => r == Err::<Coin, ContractError>(e) && *final(self) == *old(self),
            },
    {
        if coin.denom != self.in_coin.denom {
            return Err(
                ContractError::InvalidTransmuteDenom {
                    denom: coin.denom.clone(),
                    expected_denom: self.in_coin.denom.clone(),
                },
            );
        }
        if self.out_coin_reserve.amount < coin.amount {
            return Err(
                ContractError::InsufficientPoolAsset {
                    required: self.out_coin_reserve.with_amount(coin.amount),
                    available: self.out_coin_reserve.clone(),
                },
            );
        }
        match self.in_coin.amount.checked_add(coin.amount) {
            Some(v) => {
                self.in_coin.amount = v;
                self.out_coin_reserve.amount = self.out_coin_reserve.amount - coin.amount;
                Ok(self.out_coin_reserve.with_amount(coin.amount))
            },
            None => Err(ContractError::Overflow),
        }
    }

    /// The coins that `shares` units are paid out in.
    pub fn calc_withdrawing_coins(&self, shares: u128) -> (r: Result<Vec<Coin>, ContractError>)
        ensures
            match withdrawing_coins(*self, shares as int) {
                Ok(cs) => r matches Ok(v) && v@ == cs,
                Err(e) => r == Err::<Vec<Coin>, ContractError>(e),
            },
    {
        let out_amount = if shares <= self.out_coin_reserve.amount {
            shares
        } else {
            self.out_coin_reserve.amount
        };
        let in_amount = shares - out_amount;
        if in_amount > self.in_coin.amount {
            return Err(
                ContractError::InsufficientPoolAsset {
                    required: self.in_coin.with_amount(in_amount),
                    available: self.in_coin.clone(),
                },
            );
        }
        let mut coins: Vec<Coin> = Vec::new();
        if out_amount > 0 {
            coins.push(self.out_coin_reserve.with_amount(out_amount));
        }
        if in_amount > 0 {
            coins.push(self.in_coin.with_amount(in_amount));
        }
        proof {
            let outs = if out_amount > 0 {
                seq![Coin { denom: self.out_coin_reserve.denom, amount: out_amount }]
            } else {
                Seq::<Coin>::empty()
            };
            let ins = if in_amount > 0 {
                seq![Coin { denom: self.in_coin.denom, amount: in_amount }]
            } else {
                Seq::<Coin>::empty()
            };
            assert(coins@ =~= outs + ins);
        }
        Ok(coins)
    }

    /// Takes `coins` out of the pool, one after the other.
    pub fn withdraw(&mut self, coins: &[Coin]) -> (r: Result<(), ContractError>)
        ensures
            match withdraw_result(*old(self), coins@) {
                Ok(p) => r is Ok && *final(self) == p,
                Err(e) => r == Err::<(), ContractError>(e) && *final(self) == *old(self),
            },
    {
        let mut work = self.clone();
        let n = coins.len();
        for i in 0..n
            invariant
                n == coins@.len(),
                withdraw_result(*self, coins@.take(i as int)) == Ok::<TransmuterPool, ContractError>(work),
        {
            assert(coins@.take(i as int + 1).drop_last() =~= coins@.take(i as int));
            let coin = &coins[i];
            if coin.denom == work.in_coin.denom {
                if coin.amount > work.in_coin.amount {
                    proof { lemma_withdraw_error_sticks(*self, coins@, i as int + 1); }
                    return Err(
                        ContractError::InsufficientPoolAsset {
                            required: coin.clone(),
                            available: work.in_coin.clone(),
                        },
                    );
                }
                work.in_coin.amount = work.in_coin.amount - coin.amount;
            } else if coin.denom == work.out_coin_reserve.denom {
                if coin.amount > work.out_coin_reserve.amount {
                    proof { lemma_withdraw_error_sticks(*self, coins@, i as int + 1); }
                    return Err(
                        ContractError::InsufficientPoolAsset {
                            required: coin.clone(),
                            available: work.out_coin_reserve.clone(),
                        },
                    );
                }
                work.out_coin_reserve.amount = work.out_coin_reserve.amount - coin.amount;
            } else {
                proof { lemma_withdraw_error_sticks(*self, coins@, i as int + 1); }
                return Err(ContractError::InvalidPoolAssetDenom { denom: coin.denom.clone() });
            }
        }
        assert(coins@.take(n as int) =~= coins@);
        *self = work;
        Ok(())
    }
}

/// Once withdrawing a prefix of `coins` fails, withdrawing all of them fails
/// with the same error.
proof fn lemma_withdraw_error_sticks(pool: TransmuterPool, coins: Seq<Coin>, k: int)
    requires
        0 <= k <= coins.len(),
        withdraw_result(pool, coins.take(k)) is Err,
    ensures
        withdraw_result(pool, coins) == withdraw_result(pool, coins.take(k)),
    decreases coins.len() - k,
{
    if k < coins.len() {
        assert(coins.take(k + 1).drop_last() =~= coins.take(k));
        lemma_withdraw_error_sticks(pool, coins, k + 1);
    } else {
        assert(coins.take(k) =~= coins);
    }
}

/// A transmutation succeeds exactly when the coin is of the in-denomination,
/// the reserve holds at least its amount and the in-coins do not overflow;
/// it then pays out that amount of the out-denomination, moves it from the
/// reserve to the in-coins, and keeps both denominations.
pub proof fn law_transmute_succeeds_iff(pool: TransmuterPool, coin: Coin)
    ensures
        transmute_result(pool, coin) is Ok <==> (coin.denom@ == pool.in_coin.denom@
            && coin.amount <= pool.out_coin_reserve.amount && pool.in_coin.amount + coin.amount
            <= u128::MAX),
        transmute_result(pool, coin) matches Ok((p, out)) ==> {
            &&& out.amount == coin.amount
            &&& out.denom == pool.out_coin_reserve.denom
            &&& p.in_coin.denom == pool.in_coin.denom
            &&& p.out_coin_reserve.denom == pool.out_coin_reserve.denom
            &&& p.in_coin.amount == pool.in_coin.amount + coin.amount
            &&& p.out_coin_reserve.amount == pool.out_coin_reserve.amount - coin.amount
        },
{
}

/// Supplying succeeds exactly when the coin is of the out-denomination and
/// the reserve does not overflow; it adds the amount to the reserve only.
pub proof fn law_supply_succeeds_iff(pool: TransmuterPool, coin: Coin)
    ensures
        supply_result(pool, coin) is Ok <==> (coin.denom@ == pool.out_coin_reserve.denom@
            && pool.out_coin_reserve.amount + coin.amount <= u128::MAX),
        supply_result(pool, coin) matches Ok(p) ==> p.in_coin == pool.in_coin
            && p.out_coin_reserve.denom == pool.out_coin_reserve.denom
            && p.out_coin_reserve.amount == pool.out_coin_reserve.amount + coin.amount,
{
}

} // verus!
