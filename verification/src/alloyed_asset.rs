//! The alloyed asset: one denomination, minted and burned by the contract,
//! that stands for any of the pool's assets at the ratio of normalization
//! factors.
pub mod swap_from_alloyed;
pub mod swap_to_alloyed;

use crate::coin::Coin;
use crate::error::ContractError;
use crate::math::{conversion, convert_amount, lemma_floor_then_ceil, Rounding};
use vstd::prelude::*;

verus! {

/// The denomination of the alloyed asset and its normalization factor.
#[derive(Debug, PartialEq, Eq)]
pub struct AlloyedAsset {
    pub alloyed_denom: String,
    pub normalization_factor: u128,
}

impl AlloyedAsset {
    /// The denomination of the alloyed asset.
    pub fn get_alloyed_denom(&self) -> (r: String)
        ensures
            r == self.alloyed_denom,
    {
        self.alloyed_denom.clone()
    }

    /// The normalization factor of the alloyed asset.
    pub fn get_normalization_factor(&self) -> (r: u128)
        ensures
            r == self.normalization_factor,
    {
        self.normalization_factor
    }
}

/// The sum of the amounts of `pairs`, each converted from its own
/// normalization factor to `to`, rounded as asked.
pub open spec fn sum_converted(pairs: Seq<(Coin, u128)>, to: u128, rounding: Rounding) -> Result<
    u128,
    ContractError,
>
    decreases pairs.len(),
{
    if pairs.len() == 0 {
        Ok(0)
    } else {
        match sum_converted(pairs.drop_last(), to, rounding) {
            Err(e) => Err(e),
            Ok(s) => match conversion(pairs.last().0.amount, pairs.last().1, to, rounding) {
                Err(e) => Err(e),
                Ok(v) => if s + v > u128::MAX {
                    Err(ContractError::Overflow)
                } else {
                    Ok((s + v) as u128)
                },
            },
        }
    }
}

proof fn lemma_sum_error_sticks(pairs: Seq<(Coin, u128)>, to: u128, rounding: Rounding, k: int)
    requires
        0 <= k <= pairs.len(),
        sum_converted(pairs.take(k), to, rounding) is Err,
    ensures
        sum_converted(pairs, to, rounding) == sum_converted(pairs.take(k), to, rounding),
    decreases pairs.len() - k,
{
    if k < pairs.len() {
        assert(pairs.take(k + 1).drop_last() =~= pairs.take(k));
        lemma_sum_error_sticks(pairs, to, rounding, k + 1);
    } else {
        assert(pairs.take(k) =~= pairs);
    }
}

/// Adds up the amounts of `pairs`, each converted from its own
/// normalization factor to `to`.
pub fn sum_converted_amounts(pairs: &[(Coin, u128)], to: u128, rounding: Rounding) -> (r: Result<
    u128,
    ContractError,
>)
    ensures
        r == sum_converted(pairs@, to, rounding),
{
    let mut total: u128 = 0;
    let n = pairs.len();
    for i in 0..n
        invariant
            n == pairs@.len(),
            sum_converted(pairs@.take(i as int), to, rounding) == Ok::<u128, ContractError>(total),
    {
        assert(pairs@.take(i as int + 1).drop_last() =~= pairs@.take(i as int));
        let v = match convert_amount(pairs[i].0.amount, pairs[i].1, to, rounding) {
            Err(e) => {
                proof { lemma_sum_error_sticks(pairs@, to, rounding, i as int + 1); }
                return Err(e);
            },
            Ok(v) => v,
        };
        match total.checked_add(v) {
            None => {
                proof { lemma_sum_error_sticks(pairs@, to, rounding, i as int + 1); }
                return Err(ContractError::Overflow);
            },
            Some(t) => {
                total = t;
            },
        }
    }
    assert(pairs@.take(n as int) =~= pairs@);
    Ok(total)
}

/// One coin converts on its own normalization factor.
pub proof fn law_sum_converted_single(pair: (Coin, u128), to: u128, rounding: Rounding)
    ensures
        sum_converted(seq![pair], to, rounding) == conversion(pair.0.amount, pair.1, to, rounding),
{
    reveal_with_fuel(sum_converted, 2);
    assert(seq![pair].drop_last() =~= Seq::<(Coin, u128)>::empty());
}

/// The converted sum is additive: for coins `a ++ b` it is the sum for `a`
/// plus the sum for `b`, each coin converted from its own factor.
pub proof fn law_sum_converted_additive(
    a: Seq<(Coin, u128)>,
    b: Seq<(Coin, u128)>,
    to: u128,
    rounding: Rounding,
)
    ensures
        sum_converted(a, to, rounding) matches Ok(x) ==> (sum_converted(b, to, rounding) matches Ok(y)
            ==> (x + y <= u128::MAX ==> sum_converted(a + b, to, rounding) == Ok::<
            u128,
            ContractError,
        >((x + y) as u128))),
    decreases b.len(),
{
    if b.len() == 0 {
        assert(a + b =~= a);
    } else {
        law_sum_converted_additive(a, b.drop_last(), to, rounding);
        assert((a + b).drop_last() =~= a + b.drop_last());
        assert((a + b).last() == b.last());
        if let Ok(x) = sum_converted(a, to, rounding) {
            if let Ok(y) = sum_converted(b, to, rounding) {
                if x + y <= u128::MAX {
                    let y0 = sum_converted(b.drop_last(), to, rounding)->Ok_0;
                    let v = conversion(b.last().0.amount, b.last().1, to, rounding)->Ok_0;
                    assert(y == y0 + v);
                }
            }
        }
    }
}

/// Minting the alloyed asset for a coin and then asking what minting that
/// same alloyed amount costs never asks for more than the coin.
pub proof fn law_mint_exact_in_then_exact_out(
    token_in: Coin,
    token_norm_factor: u128,
    alloyed_norm_factor: u128,
)
    requires
        alloyed_norm_factor > 0,
    ensures
        swap_to_alloyed::out_amount_via_exact_in_result(
            seq![(token_in, token_norm_factor)],
            0,
            alloyed_norm_factor,
        ) matches Ok(minted) ==> swap_to_alloyed::in_amount_via_exact_out_result(
            token_norm_factor,
            u128::MAX,
            minted,
            alloyed_norm_factor,
        ) matches Ok(cost) && cost <= token_in.amount,
{
    let pairs = seq![(token_in, token_norm_factor)];
    reveal_with_fuel(sum_converted, 2);
    assert(pairs.drop_last() =~= Seq::<(Coin, u128)>::empty());
    if token_norm_factor > 0 {
        lemma_floor_then_ceil(token_in.amount as int, alloyed_norm_factor as int, token_norm_factor as int);
    }
}

/// Burning an alloyed amount for coins of one asset and then asking what
/// paying out those coins burns never asks for more than that amount.
pub proof fn law_burn_exact_in_then_exact_out(
    token_in_amount: u128,
    token_out_denom: String,
    token_norm_factor: u128,
    alloyed_norm_factor: u128,
)
    requires
        token_norm_factor > 0,
    ensures
        swap_from_alloyed::out_amount_via_exact_in_result(
            token_in_amount,
            alloyed_norm_factor,
            token_norm_factor,
            0,
        ) matches Ok(paid) ==> swap_from_alloyed::in_amount_via_exact_out_result(
            u128::MAX,
            alloyed_norm_factor,
            seq![(Coin { denom: token_out_denom, amount: paid }, token_norm_factor)],
        ) matches Ok(burned) && burned <= token_in_amount,
{
    reveal_with_fuel(sum_converted, 2);
    if let Ok(paid) = swap_from_alloyed::out_amount_via_exact_in_result(
        token_in_amount,
        alloyed_norm_factor,
        token_norm_factor,
        0,
    ) {
        let pairs = seq![(Coin { denom: token_out_denom, amount: paid }, token_norm_factor)];
        assert(pairs.drop_last() =~= Seq::<(Coin, u128)>::empty());
        lemma_floor_then_ceil(token_in_amount as int, token_norm_factor as int, alloyed_norm_factor as int);
    }
}

} // verus!
