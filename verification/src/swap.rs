//! Swaps against the multi-asset pool: between two pool assets, from pool
//! assets to the alloyed asset (minting it), and from the alloyed asset to
//! pool assets (burning it).
//!
//! Rate limiters are not modelled here: this crate holds no limiter state and
//! checks no limits. Each swap that changes the pool instead returns, beside
//! its response, the `LimiterStep` that the contract's limiters must take on
//! the pool it leaves behind; a swap whose limit check would fail is accepted
//! by this crate alone.
use crate::alloyed_asset::swap_from_alloyed;
use crate::alloyed_asset::swap_to_alloyed;
use crate::alloyed_asset::AlloyedAsset;
use crate::asset::Asset;
use crate::asset_pool::{
    asset_by_denom, asset_index, copy_assets, denoms_distinct, lemma_exit_same_assets,
    lemma_join_same_assets, lemma_remove_keeps_distinct, lemma_same_assets_distinct,
    lemma_transmute_same_assets, same_assets, exit_result, law_exit_distinct_coins,
    law_asset_lookup_finds_any_position, lemma_join_one_moves, lemma_index_is_denom, law_join_adds_totals, law_exit_takes_totals, total_of, lemma_exit_one_moves, join_one, exit_one, lemma_same_assets_index, lemma_asset_index_bounds, join_result, liquidity_of,
    pair_result, remove_result, transmute_result, AmountConstraint, AssetPool,
};
use crate::coin::Coin;
use crate::contract::Transmuter;
use crate::decimal::Decimal;
use crate::error::ContractError;
use crate::response::{
    Message, Response, ResponseData, SwapExactAmountInResponseData, SwapExactAmountOutResponseData,
};
use vstd::prelude::*;

verus! {

/// The swap fee, in atomic units of a decimal: always zero.
pub const SWAP_FEE_ATOMICS: u128 = 0;

/// Possible variants of swap, depending on the input and output tokens.
#[derive(Debug, Clone, Copy, PartialEq, Eq)]
pub enum SwapVariant {
    /// Swap any token to alloyed asset
    TokenToAlloyed,
    /// Swap alloyed asset to any token
    AlloyedToToken,
    /// Swap any token to any token
    TokenToToken,
}

/// What the contract's rate limiters must do after a swap that changed the
/// pool.
#[derive(Debug, Clone, Copy, PartialEq, Eq)]
pub enum LimiterStep {
    /// Check the limits against the weights of the pool after the swap, and
    /// record those weights.
    CheckAndUpdate,
    /// Nothing: the pool holds no liquidity after the swap, so it has no
    /// weights to check.
    Skip,
    /// A forced exit of corrupted assets: reset the change limiters' states
    /// and deregister every limiter of each denomination paid out; no limit
    /// is checked.
    ResetAndDeregister,
}

/// What the contract's rate limiters answered when asked to take a
/// `LimiterStep` on the pool a swap left behind.
#[derive(Debug, PartialEq, Eq)]
pub enum LimiterOutcome {
    /// The limits hold (or nothing was checked).
    Passed,
    /// A limit would be exceeded; `reason` is the limiter's error.
    Refused { reason: String },
}

/// The result of settling a swap with the limiters' outcome: a refused
/// limit check undoes the swap with the limiter's error; anything else keeps
/// the pool the swap left behind.
pub open spec fn settle_result(step: LimiterStep, outcome: LimiterOutcome) -> Result<(), ContractError> {
    match outcome {
        LimiterOutcome::Refused { reason } => if step == LimiterStep::CheckAndUpdate {
            Err(ContractError::RateLimited { reason })
        } else {
            Ok(())
        },
        LimiterOutcome::Passed => Ok(()),
    }
}

/// Some asset of the pool holds a positive amount, so the pool has weights.
pub open spec fn has_liquidity(assets: Seq<Asset>) -> bool {
    exists|i: int| 0 <= i < assets.len() && #[trigger] assets[i].amount > 0
}

/// The limiter step after a swap that leaves `assets` behind.
pub open spec fn limit_check_after(assets: Seq<Asset>) -> LimiterStep {
    if has_liquidity(assets) {
        LimiterStep::CheckAndUpdate
    } else {
        LimiterStep::Skip
    }
}

/// How a swap reached the contract.
#[derive(Debug, Clone, Copy, PartialEq, Eq)]
pub enum Entrypoint {
    Exec,
    Sudo,
}

/// Determines where to burn alloyed assets from.
#[derive(Debug, Clone, Copy, PartialEq, Eq)]
pub enum BurnTarget {
    /// Burn alloyed asset from the sender's account.
    /// This is used when the sender wants to exit pool
    /// forcing no funds attached in the process.
    SenderAccount,
    /// Burn alloyed assets from the sent funds.
    /// This is used when the sender wants to swap tokens for alloyed assets,
    /// since alloyed asset needs to be sent to the contract before swapping.
    SentFunds,
}

/// What is fixed in a swap to the alloyed asset.
#[derive(Debug, PartialEq, Eq)]
pub enum SwapToAlloyedConstraint {
    ExactIn { tokens_in: Vec<Coin>, token_out_min_amount: u128 },
    ExactOut { token_in_denom: String, token_in_max_amount: u128, token_out_amount: u128 },
}

/// What is fixed in a swap from the alloyed asset.
#[derive(Debug, PartialEq, Eq)]
pub enum SwapFromAlloyedConstraint {
    ExactIn { token_out_denom: String, token_out_min_amount: u128, token_in_amount: u128 },
    ExactOut { tokens_out: Vec<Coin>, token_in_max_amount: u128 },
}

/// Which kind of swap goes from `token_in_denom` to `token_out_denom`.
pub open spec fn swap_variant_result(
    token_in_denom: String,
    token_out_denom: String,
    alloyed_denom: String,
) -> Result<SwapVariant, ContractError> {
    if token_in_denom@ == token_out_denom@ {
        Err(ContractError::SameDenomNotAllowed { denom: token_in_denom })
    } else if alloyed_denom@ == token_in_denom@ {
        Ok(SwapVariant::AlloyedToToken)
    } else if alloyed_denom@ == token_out_denom@ {
        Ok(SwapVariant::TokenToAlloyed)
    } else {
        Ok(SwapVariant::TokenToToken)
    }
}

/// The data a swap sets: only when it came in through sudo.
pub open spec fn data_if_sudo(entrypoint: Entrypoint, data: ResponseData) -> Option<ResponseData> {
    match entrypoint {
        Entrypoint::Sudo => Some(data),
        Entrypoint::Exec => None,
    }
}

/// Every coin has a positive amount.
pub open spec fn all_positive(coins: Seq<Coin>) -> bool {
    forall|i: int| 0 <= i < coins.len() ==> #[trigger] coins[i].amount > 0
}

/// `coin` is all that is left of a corrupted asset.
pub open spec fn is_corrupted_remainder(assets: Seq<Asset>, coin: Coin) -> bool {
    let i = asset_index(assets, coin.denom@);
    &&& i >= 0
    &&& assets[i].is_corrupted
    &&& coin.amount == liquidity_of(assets, coin.denom@)
}

/// Every coin is all that is left of a corrupted asset.
pub open spec fn is_force_exit(assets: Seq<Asset>, coins: Seq<Coin>) -> bool {
    forall|i: int| 0 <= i < coins.len() ==> #[trigger] is_corrupted_remainder(assets, coins[i])
}

/// Removing the assets of `coins`, one after the other.
pub open spec fn remove_all_result(assets: Seq<Asset>, coins: Seq<Coin>) -> Result<
    Seq<Asset>,
    ContractError,
>
    decreases coins.len(),
{
    if coins.len() == 0 {
        Ok(assets)
    } else {
        match remove_all_result(assets, coins.drop_last()) {
            Err(e) => Err(e),
            Ok(a) => remove_result(a, coins.last().denom),
        }
    }
}

/// The pool after a swap that pays out `tokens_out`: when every coin out is
/// the whole remainder of a corrupted asset, the assets are emptied and then
/// removed; otherwise the coins simply leave the pool.
pub open spec fn pay_out_result(assets: Seq<Asset>, tokens_out: Seq<Coin>) -> Result<
    Seq<Asset>,
    ContractError,
> {
    match exit_result(assets, tokens_out) {
        Err(e) => Err(e),
        Ok(p) => if is_force_exit(assets, tokens_out) {
            remove_all_result(p, tokens_out)
        } else {
            Ok(p)
        },
    }
}

/// A swap from pool assets to the alloyed asset. On success: the new
/// assets, the alloyed amount minted, and the data the response carries.
pub open spec fn to_alloyed_result(
    assets: Seq<Asset>,
    alloyed: AlloyedAsset,
    entrypoint: Entrypoint,
    constraint: SwapToAlloyedConstraint,
) -> Result<(Seq<Asset>, u128, Option<ResponseData>), ContractError> {
    let stage: Result<(Seq<Coin>, u128, ResponseData), ContractError> = match constraint {
        SwapToAlloyedConstraint::ExactIn { tokens_in, token_out_min_amount } => match pair_result(
            assets,
            tokens_in@,
        ) {
            Err(e) => Err(e),
            Ok(pairs) => match swap_to_alloyed::out_amount_via_exact_in_result(
                pairs,
                token_out_min_amount,
                alloyed.normalization_factor,
            ) {
                Err(e) => Err(e),
                Ok(out) => Ok(
                    (
                        tokens_in@,
                        out,
                        ResponseData::SwapExactAmountIn(
                            SwapExactAmountInResponseData { token_out_amount: out },
                        ),
                    ),
                ),
            },
        },
        SwapToAlloyedConstraint::ExactOut {
            token_in_denom,
            token_in_max_amount,
            token_out_amount,
        } => match asset_by_denom(assets, token_in_denom) {
            Err(e) => Err(e),
            Ok(a) => match swap_to_alloyed::in_amount_via_exact_out_result(
                a.normalization_factor,
                token_in_max_amount,
                token_out_amount,
                alloyed.normalization_factor,
            ) {
                Err(e) => Err(e),
                Ok(x) => Ok(
                    (
                        seq![Coin { denom: token_in_denom, amount: x }],
                        token_out_amount,
                        ResponseData::SwapExactAmountOut(
                            SwapExactAmountOutResponseData { token_in_amount: x },
                        ),
                    ),
                ),
            },
        },
    };
    match stage {
        Err(e) => Err(e),
        Ok((tokens_in, out, data)) => if tokens_in.len() == 0 {
            Err(ContractError::AtLeastSingleTokenExpected)
        } else if !all_positive(tokens_in) {
            Err(ContractError::ZeroValueOperation)
        } else {
            match join_result(assets, tokens_in) {
                Err(e) => Err(e),
                Ok(p) => Ok((p, out, data_if_sudo(entrypoint, data))),
            }
        },
    }
}

/// A swap from the alloyed asset to pool assets. On success: the new assets,
/// the alloyed amount burned, the coins paid out, the address burned from,
/// and the data the response carries.
pub open spec fn from_alloyed_result(
    assets: Seq<Asset>,
    alloyed: AlloyedAsset,
    entrypoint: Entrypoint,
    constraint: SwapFromAlloyedConstraint,
    burn_target: BurnTarget,
    sender: String,
    sender_alloyed_balance: u128,
    contract_address: String,
) -> Result<(Seq<Asset>, u128, Seq<Coin>, String, Option<ResponseData>), ContractError> {
    let stage: Result<(u128, Seq<Coin>, ResponseData), ContractError> = match constraint {
        SwapFromAlloyedConstraint::ExactIn {
            token_out_denom,
            token_out_min_amount,
            token_in_amount,
        } => match asset_by_denom(assets, token_out_denom) {
            Err(e) => Err(e),
            Ok(a) => match swap_from_alloyed::out_amount_via_exact_in_result(
                token_in_amount,
                alloyed.normalization_factor,
                a.normalization_factor,
                token_out_min_amount,
            ) {
                Err(e) => Err(e),
                Ok(out) => Ok(
                    (
                        token_in_amount,
                        seq![Coin { denom: token_out_denom, amount: out }],
                        ResponseData::SwapExactAmountIn(
                            SwapExactAmountInResponseData { token_out_amount: out },
                        ),
                    ),
                ),
            },
        },
        SwapFromAlloyedConstraint::ExactOut { tokens_out, token_in_max_amount } => match pair_result(
            assets,
            tokens_out@,
        ) {
            Err(e) => Err(e),
            Ok(pairs) => match swap_from_alloyed::in_amount_via_exact_out_result(
                token_in_max_amount,
                alloyed.normalization_factor,
                pairs,
            ) {
                Err(e) => Err(e),
                Ok(x) => Ok(
                    (
                        x,
                        tokens_out@,
                        ResponseData::SwapExactAmountOut(
                            SwapExactAmountOutResponseData { token_in_amount: x },
                        ),
                    ),
                ),
            },
        },
    };
    match stage {
        Err(e) => Err(e),
        Ok((in_amount, tokens_out, data)) => if !all_positive(tokens_out) {
            Err(ContractError::ZeroValueOperation)
        } else if burn_target == BurnTarget::SenderAccount && sender_alloyed_balance < in_amount {
            Err(
                ContractError::InsufficientShares {
                    required: in_amount,
                    available: sender_alloyed_balance,
                },
            )
        } else {
            let burn_from = match burn_target {
                BurnTarget::SenderAccount => sender,
                BurnTarget::SentFunds => contract_address,
            };
            match pay_out_result(assets, tokens_out) {
                Err(e) => Err(e),
                Ok(p) => Ok((p, in_amount, tokens_out, burn_from, data_if_sudo(entrypoint, data))),
            }
        },
    }
}

/// The coin out for a fixed coin in, and the pool after the swap.
pub open spec fn out_amt_given_in_result(
    assets: Seq<Asset>,
    alloyed: AlloyedAsset,
    token_in: Coin,
    token_out_denom: String,
) -> Result<(Seq<Asset>, Coin), ContractError> {
    if token_out_denom@ == token_in.denom@ {
        Err(ContractError::TokenDenomsIdentical)
    } else {
        match swap_variant_result(token_in.denom, token_out_denom, alloyed.alloyed_denom) {
            Err(e) => Err(e),
            Ok(SwapVariant::TokenToAlloyed) => match asset_by_denom(assets, token_in.denom) {
                Err(e) => Err(e),
                Ok(a) => match swap_to_alloyed::out_amount_via_exact_in_result(
                    seq![(token_in, a.normalization_factor)],
                    0,
                    alloyed.normalization_factor,
                ) {
                    Err(e) => Err(e),
                    Ok(out) => match join_result(assets, seq![token_in]) {
                        Err(e) => Err(e),
                        Ok(p) => Ok((p, Coin { denom: token_out_denom, amount: out })),
                    },
                },
            },
            Ok(SwapVariant::AlloyedToToken) => match asset_by_denom(assets, token_out_denom) {
                Err(e) => Err(e),
                Ok(a) => match swap_from_alloyed::out_amount_via_exact_in_result(
                    token_in.amount,
                    alloyed.normalization_factor,
                    a.normalization_factor,
                    0,
                ) {
                    Err(e) => Err(e),
                    Ok(out) => {
                        let token_out = Coin { denom: token_out_denom, amount: out };
                        match exit_result(assets, seq![token_out]) {
                            Err(e) => Err(e),
                            Ok(p) => Ok((p, token_out)),
                        }
                    },
                },
            },
            Ok(SwapVariant::TokenToToken) => match transmute_result(
                assets,
                AmountConstraint::ExactIn(token_in.amount),
                token_in.denom,
                token_out_denom,
            ) {
                Err(e) => Err(e),
                Ok((p, _, token_out)) => Ok((p, token_out)),
            },
        }
    }
}

/// The coin in for a fixed coin out, and the pool after the swap.
pub open spec fn in_amt_given_out_result(
    assets: Seq<Asset>,
    alloyed: AlloyedAsset,
    token_out: Coin,
    token_in_denom: String,
) -> Result<(Seq<Asset>, Coin), ContractError> {
    if token_out.denom@ == token_in_denom@ {
        Err(ContractError::TokenDenomsIdentical)
    } else {
        match swap_variant_result(token_in_denom, token_out.denom, alloyed.alloyed_denom) {
            Err(e) => Err(e),
            Ok(SwapVariant::TokenToAlloyed) => match asset_by_denom(assets, token_in_denom) {
                Err(e) => Err(e),
                Ok(a) => match swap_to_alloyed::in_amount_via_exact_out_result(
                    a.normalization_factor,
                    u128::MAX,
                    token_out.amount,
                    alloyed.normalization_factor,
                ) {
                    Err(e) => Err(e),
                    Ok(x) => {
                        let token_in = Coin { denom: token_in_denom, amount: x };
                        match join_result(assets, seq![token_in]) {
                            Err(e) => Err(e),
                            Ok(p) => Ok((p, token_in)),
                        }
                    },
                },
            },
            Ok(SwapVariant::AlloyedToToken) => match asset_by_denom(assets, token_out.denom) {
                Err(e) => Err(e),
                Ok(a) => match swap_from_alloyed::in_amount_via_exact_out_result(
                    u128::MAX,
                    alloyed.normalization_factor,
                    seq![(token_out, a.normalization_factor)],
                ) {
                    Err(e) => Err(e),
                    Ok(x) => match exit_result(assets, seq![token_out]) {
                        Err(e) => Err(e),
                        Ok(p) => Ok((p, Coin { denom: token_in_denom, amount: x })),
                    },
                },
            },
            Ok(SwapVariant::TokenToToken) => match transmute_result(
                assets,
                AmountConstraint::ExactOut(token_out.amount),
                token_in_denom,
                token_out.denom,
            ) {
                Err(e) => Err(e),
                Ok((p, token_in, actual_out)) => if actual_out.amount != token_out.amount
                    || actual_out.denom@ != token_out.denom@ {
                    Err(
                        ContractError::InvalidTokenOutAmount {
                            expected: token_out.amount,
                            actual: actual_out.amount,
                        },
                    )
                } else {
                    Ok((p, token_in))
                },
            },
        }
    }
}

/// A swap between two pool assets (or with the alloyed asset) with a fixed
/// coin in; the coin out must reach `token_out_min_amount`.
pub open spec fn exact_in_result(
    assets: Seq<Asset>,
    alloyed: AlloyedAsset,
    token_in: Coin,
    token_out_denom: String,
    token_out_min_amount: u128,
) -> Result<(Seq<Asset>, Coin), ContractError> {
    match out_amt_given_in_result(assets, alloyed, token_in, token_out_denom) {
        Err(e) => Err(e),
        Ok((p, out)) => if out.amount < token_out_min_amount {
            Err(
                ContractError::InsufficientTokenOut {
                    min_required: token_out_min_amount,
                    amount_out: out.amount,
                },
            )
        } else {
            Ok((p, out))
        },
    }
}

/// A swap between two pool assets (or with the alloyed asset) with a fixed
/// coin out; the coin in must stay within `token_in_max_amount`.
pub open spec fn exact_out_result(
    assets: Seq<Asset>,
    alloyed: AlloyedAsset,
    token_in_denom: String,
    token_in_max_amount: u128,
    token_out: Coin,
) -> Result<(Seq<Asset>, Coin), ContractError> {
    match in_amt_given_out_result(assets, alloyed, token_out, token_in_denom) {
        Err(e) => Err(e),
        Ok((p, token_in)) => if token_in.amount > token_in_max_amount {
            Err(
                ContractError::ExcessiveRequiredTokenIn {
                    limit: token_in_max_amount,
                    required: token_in.amount,
                },
            )
        } else {
            Ok((p, token_in))
        },
    }
}

/// `resp` sends `coins` to `to` in its one message, logs nothing, and
/// carries `data`.
pub open spec fn send_with_data(resp: Response, to: String, coins: Seq<Coin>, data: ResponseData) -> bool {
    &&& resp.messages@.len() == 1
    &&& resp.messages@[0] matches Message::BankSend { to_address, amount } && to_address == to
        && amount@ == coins
    &&& resp.attributes@.len() == 0
    &&& resp.data == Some(data)
}

/// `response` with `data` set when the swap came in through sudo.
pub fn set_data_if_sudo(response: Response, entrypoint: &Entrypoint, data: ResponseData) -> (r:
    Response)
    ensures
        r.messages@ == response.messages@,
        r.attributes@ == response.attributes@,
        r.data == match *entrypoint {
            Entrypoint::Sudo => Some(data),
            Entrypoint::Exec => response.data,
        },
{
    match entrypoint {
        Entrypoint::Sudo => response.set_data(data),
        Entrypoint::Exec => response,
    }
}

/// The limiter step after a swap that leaves `pool` behind.
fn limit_check_step(pool: &AssetPool) -> (r: LimiterStep)
    ensures
        r == limit_check_after(pool.pool_assets@),
{
    for i in 0..pool.pool_assets.len()
        invariant
            forall|k: int| 0 <= k < i ==> !(#[trigger] pool.pool_assets@[k].amount > 0),
    {
        if pool.pool_assets[i].amount > 0 {
            return LimiterStep::CheckAndUpdate;
        }
    }
    LimiterStep::Skip
}

/// Whether every coin has a positive amount.
fn amounts_positive(coins: &[Coin]) -> (r: bool)
    ensures
        r == all_positive(coins@),
{
    for i in 0..coins.len()
        invariant
            forall|k: int| 0 <= k < i ==> #[trigger] coins@[k].amount > 0,
    {
        if coins[i].amount == 0 {
            return false;
        }
    }
    true
}

/// Whether every coin is all that is left of a corrupted asset.
fn force_exit(pool: &AssetPool, coins: &[Coin]) -> (r: bool)
    ensures
        r == is_force_exit(pool.pool_assets@, coins@),
{
    for i in 0..coins.len()
        invariant
            forall|k: int| 0 <= k < i ==> #[trigger] is_corrupted_remainder(pool.pool_assets@, coins@[k]),
    {
        let coin = &coins[i];
        if !(pool.is_corrupted_asset(&coin.denom) && coin.amount == pool.liquidity(&coin.denom)) {
            assert(!is_corrupted_remainder(pool.pool_assets@, coins@[i as int]));
            return false;
        }
    }
    true
}

proof fn lemma_remove_all_error_sticks(assets: Seq<Asset>, coins: Seq<Coin>, k: int)
    requires
        0 <= k <= coins.len(),
        remove_all_result(assets, coins.take(k)) is Err,
    ensures
        remove_all_result(assets, coins) == remove_all_result(assets, coins.take(k)),
    decreases coins.len() - k,
{
    if k < coins.len() {
        assert(coins.take(k + 1).drop_last() =~= coins.take(k));
        lemma_remove_all_error_sticks(assets, coins, k + 1);
    } else {
        assert(coins.take(k) =~= coins);
    }
}

/// Pays `tokens_out` out of `pool`; see `pay_out_result`.
fn pay_out(pool: &mut AssetPool, tokens_out: &[Coin]) -> (r: Result<(), ContractError>)
    ensures
        match pay_out_result(old(pool).pool_assets@, tokens_out@) {
            Ok(a) => r is Ok && final(pool).pool_assets@ == a,
            Err(e) => r == Err::<(), ContractError>(e) && *final(pool) == *old(pool),
        },
{
    let force = force_exit(pool, tokens_out);
    let mut work = AssetPool { pool_assets: copy_assets(&pool.pool_assets) };
    match work.exit_pool(tokens_out) {
        Err(e) => {
            return Err(e);
        },
        Ok(()) => {},
    }
    if force {
        let n = tokens_out.len();
        let ghost exited = work.pool_assets@;
        for i in 0..n
            invariant
                n == tokens_out@.len(),
                *pool == *old(pool),
                force,
                is_force_exit(pool.pool_assets@, tokens_out@),
                exit_result(pool.pool_assets@, tokens_out@) == Ok::<Seq<Asset>, ContractError>(exited),
                remove_all_result(exited, tokens_out@.take(i as int)) == Ok::<
                    Seq<Asset>,
                    ContractError,
                >(work.pool_assets@),
        {
            assert(tokens_out@.take(i as int + 1).drop_last() =~= tokens_out@.take(i as int));
            match work.remove_corrupted_asset(&tokens_out[i].denom) {
                Err(e) => {
                    proof { lemma_remove_all_error_sticks(exited, tokens_out@, i as int + 1); }
                    return Err(e);
                },
                Ok(()) => {},
            }
        }
        assert(tokens_out@.take(n as int) =~= tokens_out@);
    }
    pool.pool_assets = work.pool_assets;
    Ok(())
}

proof fn lemma_remove_all_keeps_distinct(assets: Seq<Asset>, coins: Seq<Coin>)
    requires
        denoms_distinct(assets),
    ensures
        remove_all_result(assets, coins) matches Ok(b) ==> denoms_distinct(b),
    decreases coins.len(),
{
    if coins.len() > 0 {
        lemma_remove_all_keeps_distinct(assets, coins.drop_last());
        if let Ok(a) = remove_all_result(assets, coins.drop_last()) {
            lemma_remove_keeps_distinct(a, coins.last().denom);
        }
    }
}

/// Every swap keeps the pool's denominations distinct.
pub proof fn law_swaps_keep_denoms_distinct(
    assets: Seq<Asset>,
    alloyed: AlloyedAsset,
    entrypoint: Entrypoint,
    to_constraint: SwapToAlloyedConstraint,
    from_constraint: SwapFromAlloyedConstraint,
    burn_target: BurnTarget,
    sender: String,
    sender_alloyed_balance: u128,
    contract_address: String,
    token: Coin,
    denom: String,
    limit: u128,
)
    requires
        denoms_distinct(assets),
    ensures
        exact_in_result(assets, alloyed, token, denom, limit) matches Ok((b, _)) ==> denoms_distinct(b),
        exact_out_result(assets, alloyed, denom, limit, token) matches Ok((b, _)) ==> denoms_distinct(b),
        to_alloyed_result(assets, alloyed, entrypoint, to_constraint) matches Ok((b, _, _))
            ==> denoms_distinct(b),
        from_alloyed_result(
            assets,
            alloyed,
            entrypoint,
            from_constraint,
            burn_target,
            sender,
            sender_alloyed_balance,
            contract_address,
        ) matches Ok((b, _, _, _, _)) ==> denoms_distinct(b),
{
    lemma_estimates_same_assets(assets, alloyed, token, denom);
    if let Ok((b, _)) = exact_in_result(assets, alloyed, token, denom, limit) {
        lemma_same_assets_distinct(assets, b);
    }
    if let Ok((b, _)) = exact_out_result(assets, alloyed, denom, limit, token) {
        lemma_same_assets_distinct(assets, b);
    }
    if let SwapToAlloyedConstraint::ExactIn { tokens_in, .. } = to_constraint {
        lemma_join_same_assets(assets, tokens_in@);
    }
    if let Ok((b, _, _)) = to_alloyed_result(assets, alloyed, entrypoint, to_constraint) {
        if let SwapToAlloyedConstraint::ExactOut { token_in_denom, token_in_max_amount, token_out_amount } = to_constraint {
            let a = asset_by_denom(assets, token_in_denom)->Ok_0;
            let x = swap_to_alloyed::in_amount_via_exact_out_result(
                a.normalization_factor,
                token_in_max_amount,
                token_out_amount,
                alloyed.normalization_factor,
            )->Ok_0;
            lemma_join_same_assets(assets, seq![Coin { denom: token_in_denom, amount: x }]);
        }
        lemma_same_assets_distinct(assets, b);
    }
    if let Ok((b, _, tokens_out, _, _)) = from_alloyed_result(
        assets,
        alloyed,
        entrypoint,
        from_constraint,
        burn_target,
        sender,
        sender_alloyed_balance,
        contract_address,
    ) {
        lemma_exit_same_assets(assets, tokens_out);
        let p = exit_result(assets, tokens_out)->Ok_0;
        lemma_same_assets_distinct(assets, p);
        lemma_remove_all_keeps_distinct(p, tokens_out);
    }
}

/// A payout is a forced exit only when every coin out is the whole
/// remainder of a corrupted asset. When some coin out is not, the payout is
/// a plain exit: its outcome is exactly that of taking the coins out of the
/// pool, so no asset is removed; for coins of distinct denominations it
/// succeeds exactly when each coin's denomination is in the pool and its
/// amount is within that asset's liquidity.
pub proof fn law_partial_payout_is_plain_exit(assets: Seq<Asset>, coins: Seq<Coin>, k: int)
    requires
        0 <= k < coins.len(),
        !(asset_index(assets, coins[k].denom@) >= 0 && assets[asset_index(
            assets,
            coins[k].denom@,
        )].is_corrupted && coins[k].amount == liquidity_of(assets, coins[k].denom@)),
    ensures
        pay_out_result(assets, coins) == exit_result(assets, coins),
        pay_out_result(assets, coins) matches Ok(b) ==> same_assets(assets, b),
        (forall|i: int, j: int|
            0 <= i < j < coins.len() ==> #[trigger] coins[i].denom@ != #[trigger] coins[j].denom@)
            ==> (pay_out_result(assets, coins) is Ok <==> forall|j: int|
            0 <= j < coins.len() ==> asset_index(assets, #[trigger] coins[j].denom@) >= 0
                && coins[j].amount <= liquidity_of(assets, coins[j].denom@)),
{
    assert(!is_corrupted_remainder(assets, coins[k]));
    assert(!is_force_exit(assets, coins));
    lemma_exit_same_assets(assets, coins);
    if forall|i: int, j: int|
        0 <= i < j < coins.len() ==> #[trigger] coins[i].denom@ != #[trigger] coins[j].denom@ {
        law_exit_distinct_coins(assets, coins);
    }
}

/// Some coin is of `denom`.
pub open spec fn has_denom(coins: Seq<Coin>, denom: Seq<char>) -> bool {
    exists|j: int| 0 <= j < coins.len() && #[trigger] coins[j].denom@ == denom
}

/// Removing, one after the other, the emptied assets of coins of distinct
/// denominations takes exactly those assets out and keeps every other one.
proof fn lemma_remove_all_emptied(e: Seq<Asset>, coins: Seq<Coin>)
    requires
        denoms_distinct(e),
        forall|i: int, j: int|
            0 <= i < j < coins.len() ==> #[trigger] coins[i].denom@ != #[trigger] coins[j].denom@,
        forall|j: int|
            0 <= j < coins.len() ==> asset_index(e, #[trigger] coins[j].denom@) >= 0 && e[asset_index(
                e,
                coins[j].denom@,
            )].amount == 0,
    ensures
        remove_all_result(e, coins) matches Ok(b) && {
            &&& b.len() == e.len() - coins.len()
            &&& forall|j: int| 0 <= j < coins.len() ==> asset_index(b, #[trigger] coins[j].denom@) < 0
            &&& forall|k: int|
                #![trigger e[k]]
                0 <= k < e.len() && !has_denom(coins, e[k].denom@)
                    ==> exists|m: int| #![trigger b[m]] 0 <= m < b.len() && b[m] == e[k]
        },
    decreases coins.len(),
{
    if coins.len() > 0 {
        let d = coins.drop_last();
        let n = coins.len() - 1;
        let c = coins[n];
        assert forall|i: int, j: int| 0 <= i < j < d.len() implies #[trigger] d[i].denom@ != #[trigger] d[j].denom@ by {
            assert(d[i] == coins[i] && d[j] == coins[j]);
        }
        assert forall|j: int| 0 <= j < d.len() implies asset_index(e, #[trigger] d[j].denom@) >= 0 && e[asset_index(
            e,
            d[j].denom@,
        )].amount == 0 by {
            assert(d[j] == coins[j]);
        }
        lemma_remove_all_emptied(e, d);
        lemma_remove_all_keeps_distinct(e, d);
        let a = remove_all_result(e, d)->Ok_0;
        assert(denoms_distinct(a));
        let i = asset_index(e, c.denom@);
        law_asset_lookup_finds_any_position(e, c.denom@, i);
        assert forall|j: int| 0 <= j < d.len() implies #[trigger] d[j].denom@ != e[i].denom@ by {
            assert(d[j] == coins[j]);
        }
        let m = choose|m: int| 0 <= m < a.len() && #[trigger] a[m] == e[i];
        law_asset_lookup_finds_any_position(a, c.denom@, m);
        assert(asset_index(a, c.denom@) == m);
        let b = a.remove(m);
        assert(remove_all_result(e, coins) == remove_result(a, c.denom));
        assert(remove_all_result(e, coins) == Ok::<Seq<Asset>, ContractError>(b));
        assert forall|j: int| 0 <= j < coins.len() implies asset_index(b, #[trigger] coins[j].denom@) < 0 by {
            let dn = coins[j].denom@;
            if j < n {
                assert(d[j] == coins[j]);
                law_asset_lookup_finds_any_position(a, dn, 0);
            }
            if asset_index(b, dn) >= 0 {
                let x = asset_index(b, dn);
                law_asset_lookup_finds_any_position(b, dn, 0);
                let x0 = if x < m { x } else { x + 1 };
                assert(b[x] == a[x0]);
                if j == n {
                    assert(a[x0].denom@ != a[m].denom@);
                }
            }
        }
        assert forall|k: int|
            #![trigger e[k]]
            0 <= k < e.len() && !has_denom(coins, e[k].denom@)
            implies exists|m2: int| #![trigger b[m2]] 0 <= m2 < b.len() && b[m2] == e[k] by {
            assert forall|j: int| 0 <= j < d.len() implies #[trigger] d[j].denom@ != e[k].denom@ by {
                assert(d[j] == coins[j]);
            }
            let m1 = choose|m1: int| 0 <= m1 < a.len() && #[trigger] a[m1] == e[k];
            assert(coins[n].denom@ != e[k].denom@);
            assert(m1 != m);
            if m1 < m {
                assert(b[m1] == e[k]);
            } else {
                assert(b[m1 - 1] == e[k]);
            }
        }
    } else {
        assert forall|k: int|
            #![trigger e[k]]
            0 <= k < e.len() && !has_denom(coins, e[k].denom@)
            implies exists|m2: int| #![trigger e[m2]] 0 <= m2 < e.len() && e[m2] == e[k] by {
            assert(e[k].amount >= 0);
        }
    }
}

/// When every coin out, each of its own denomination, is the whole remainder
/// of a corrupted asset, the payout is a forced exit: it succeeds, and the
/// pool afterwards has lost exactly those assets and kept every other asset
/// as it was.
pub proof fn law_full_payout_removes_corrupted(assets: Seq<Asset>, coins: Seq<Coin>)
    requires
        denoms_distinct(assets),
        forall|i: int, j: int|
            0 <= i < j < coins.len() ==> #[trigger] coins[i].denom@ != #[trigger] coins[j].denom@,
        forall|j: int|
            0 <= j < coins.len() ==> asset_index(assets, #[trigger] coins[j].denom@) >= 0 && assets[asset_index(
                assets,
                coins[j].denom@,
            )].is_corrupted && coins[j].amount == liquidity_of(assets, coins[j].denom@),
    ensures
        pay_out_result(assets, coins) matches Ok(b) && {
            &&& b.len() == assets.len() - coins.len()
            &&& forall|j: int| 0 <= j < coins.len() ==> asset_index(b, #[trigger] coins[j].denom@) < 0
            &&& forall|k: int|
                #![trigger assets[k]]
                0 <= k < assets.len() && !has_denom(coins, assets[k].denom@)
                    ==> exists|m: int| #![trigger b[m]] 0 <= m < b.len() && b[m] == assets[k]
        },
{
    assert forall|j: int| 0 <= j < coins.len() implies #[trigger] is_corrupted_remainder(assets, coins[j]) by {}
    assert(is_force_exit(assets, coins));
    law_exit_distinct_coins(assets, coins);
    let e = exit_result(assets, coins)->Ok_0;
    lemma_same_assets_distinct(assets, e);
    assert forall|j: int| 0 <= j < coins.len() implies asset_index(e, #[trigger] coins[j].denom@) >= 0 && e[asset_index(
        e,
        coins[j].denom@,
    )].amount == 0 by {
        lemma_same_assets_index(assets, e, coins[j].denom@);
    }
    lemma_remove_all_emptied(e, coins);
    let b = remove_all_result(e, coins)->Ok_0;
    assert forall|k: int|
        #![trigger assets[k]]
        0 <= k < assets.len() && !has_denom(coins, assets[k].denom@)
        implies exists|m: int| #![trigger b[m]] 0 <= m < b.len() && b[m] == assets[k] by {
        assert forall|j: int| 0 <= j < coins.len() implies asset_index(assets, #[trigger] coins[j].denom@) != k by {
            lemma_asset_index_bounds(assets, coins[j].denom@);
        }
        assert(e[k].amount == assets[k].amount);
        assert(e[k].denom == assets[k].denom);
        assert(e[k] == assets[k]);
        assert(!has_denom(coins, e[k].denom@));
    }
}

/// `b` holds the assets of `assets`, each with its amount after `x` of
/// `in_denom` came into the pool and `y` of `out_denom` left it. The alloyed
/// asset is minted or burned, not held: a side in its denomination changes
/// no asset.
pub open spec fn amounts_moved(
    assets: Seq<Asset>,
    b: Seq<Asset>,
    alloyed_denom: Seq<char>,
    in_denom: Seq<char>,
    x: u128,
    out_denom: Seq<char>,
    y: u128,
) -> bool {
    &&& same_assets(assets, b)
    &&& forall|k: int|
        0 <= k < assets.len() ==> #[trigger] b[k].amount == assets[k].amount + (if in_denom != alloyed_denom
            && assets[k].denom@ == in_denom {
            x as int
        } else {
            0
        }) - (if out_denom != alloyed_denom && assets[k].denom@ == out_denom {
            y as int
        } else {
            0
        })
}

/// A swap with a fixed coin in or a fixed coin out moves value through the
/// pool and nowhere else: afterwards the asset of the denomination that came
/// in holds the coin in more, the asset of the denomination that left holds
/// the coin out less, and every other asset is as it was. The coin that the
/// swap works out is of the denomination asked for.
pub proof fn law_swap_moves_amounts(
    assets: Seq<Asset>,
    alloyed: AlloyedAsset,
    token: Coin,
    denom: String,
    limit: u128,
)
    requires
        denoms_distinct(assets),
    ensures
        out_amt_given_in_result(assets, alloyed, token, denom) matches Ok((b, out)) ==> out.denom == denom
            && amounts_moved(assets, b, alloyed.alloyed_denom@, token.denom@, token.amount, denom@, out.amount),
        in_amt_given_out_result(assets, alloyed, token, denom) matches Ok((b, inc)) ==> inc.denom == denom
            && amounts_moved(assets, b, alloyed.alloyed_denom@, denom@, inc.amount, token.denom@, token.amount),
        exact_in_result(assets, alloyed, token, denom, limit) matches Ok((b, out)) ==> out.denom == denom
            && amounts_moved(assets, b, alloyed.alloyed_denom@, token.denom@, token.amount, denom@, out.amount),
        exact_out_result(assets, alloyed, denom, limit, token) matches Ok((b, inc)) ==> inc.denom == denom
            && amounts_moved(assets, b, alloyed.alloyed_denom@, denom@, inc.amount, token.denom@, token.amount),
{
    lemma_out_amt_moves(assets, alloyed, token, denom);
    lemma_in_amt_moves(assets, alloyed, token, denom);
}

/// The pool after a swap with a fixed coin in.
proof fn lemma_out_amt_moves(assets: Seq<Asset>, alloyed: AlloyedAsset, token: Coin, denom: String)
    requires
        denoms_distinct(assets),
    ensures
        out_amt_given_in_result(assets, alloyed, token, denom) matches Ok((b, out)) ==> out.denom == denom
            && amounts_moved(assets, b, alloyed.alloyed_denom@, token.denom@, token.amount, denom@, out.amount),
{
    if let Ok((b, out)) = out_amt_given_in_result(assets, alloyed, token, denom) {
        match swap_variant_result(token.denom, denom, alloyed.alloyed_denom) {
            Ok(SwapVariant::TokenToAlloyed) => {
                lemma_join_one_moves(assets, token);
            },
            Ok(SwapVariant::AlloyedToToken) => {
                lemma_exit_one_moves(assets, out);
            },
            Ok(SwapVariant::TokenToToken) => {
                let (_, c_in, c_out) = transmute_result(
                    assets,
                    AmountConstraint::ExactIn(token.amount),
                    token.denom,
                    denom,
                )->Ok_0;
                lemma_join_one_moves(assets, c_in);
                let joined = join_one(assets, c_in)->Ok_0;
                lemma_exit_one_moves(joined, c_out);
                assert forall|k: int| 0 <= k < assets.len() implies #[trigger] b[k].amount == assets[k].amount
                    + (if token.denom@ != alloyed.alloyed_denom@ && assets[k].denom@ == token.denom@ {
                    token.amount as int
                } else {
                    0
                }) - (if denom@ != alloyed.alloyed_denom@ && assets[k].denom@ == denom@ {
                    out.amount as int
                } else {
                    0
                }) by {
                    assert(joined[k].denom == assets[k].denom);
                    assert(b[k].amount == joined[k].amount - (if joined[k].denom@ == c_out.denom@ { c_out.amount as int } else { 0 }));
                }
            },
            Err(_) => {},
        }
    }
}

/// The pool after a swap with a fixed coin out.
proof fn lemma_in_amt_moves(assets: Seq<Asset>, alloyed: AlloyedAsset, token: Coin, denom: String)
    requires
        denoms_distinct(assets),
    ensures
        in_amt_given_out_result(assets, alloyed, token, denom) matches Ok((b, inc)) ==> inc.denom == denom
            && amounts_moved(assets, b, alloyed.alloyed_denom@, denom@, inc.amount, token.denom@, token.amount),
{
    if let Ok((b, inc)) = in_amt_given_out_result(assets, alloyed, token, denom) {
        match swap_variant_result(denom, token.denom, alloyed.alloyed_denom) {
            Ok(SwapVariant::TokenToAlloyed) => {
                lemma_join_one_moves(assets, inc);
            },
            Ok(SwapVariant::AlloyedToToken) => {
                lemma_exit_one_moves(assets, token);
            },
            Ok(SwapVariant::TokenToToken) => {
                let (_, c_in, c_out) = transmute_result(
                    assets,
                    AmountConstraint::ExactOut(token.amount),
                    denom,
                    token.denom,
                )->Ok_0;
                lemma_join_one_moves(assets, c_in);
                let joined = join_one(assets, c_in)->Ok_0;
                lemma_exit_one_moves(joined, c_out);
                assert forall|k: int| 0 <= k < assets.len() implies #[trigger] b[k].amount == assets[k].amount
                    + (if denom@ != alloyed.alloyed_denom@ && assets[k].denom@ == denom@ {
                    inc.amount as int
                } else {
                    0
                }) - (if token.denom@ != alloyed.alloyed_denom@ && assets[k].denom@ == token.denom@ {
                    token.amount as int
                } else {
                    0
                }) by {
                    assert(joined[k].denom == assets[k].denom);
                    assert(b[k].amount == joined[k].amount - (if joined[k].denom@ == c_out.denom@ { c_out.amount as int } else { 0 }));
                }
            },
            Err(_) => {},
        }
    }
}

/// Minting the alloyed asset moves exactly the coins in into the pool: each
/// asset holds, on top of its amount, the coins in of its denomination, and
/// nothing else changes. Burning it to pay out coins that are not all whole
/// remainders of corrupted assets takes exactly those coins out of the pool:
/// each asset holds the coins out of its denomination less, and no asset is
/// removed.
pub proof fn law_mint_and_burn_move_amounts(
    assets: Seq<Asset>,
    alloyed: AlloyedAsset,
    entrypoint: Entrypoint,
    to_constraint: SwapToAlloyedConstraint,
    from_constraint: SwapFromAlloyedConstraint,
    burn_target: BurnTarget,
    sender: String,
    sender_alloyed_balance: u128,
    contract_address: String,
)
    requires
        denoms_distinct(assets),
    ensures
        to_alloyed_result(assets, alloyed, entrypoint, to_constraint) matches Ok((b, _, _)) ==> {
            &&& same_assets(assets, b)
            &&& (to_constraint matches SwapToAlloyedConstraint::ExactIn { tokens_in, .. } ==> forall|k: int|
                0 <= k < assets.len() ==> #[trigger] b[k].amount == assets[k].amount + total_of(
                    tokens_in@,
                    assets[k].denom@,
                ))
            &&& (to_constraint matches SwapToAlloyedConstraint::ExactOut {
                token_in_denom,
                token_in_max_amount,
                token_out_amount,
            } ==> forall|k: int|
                0 <= k < assets.len() ==> #[trigger] b[k].amount == assets[k].amount + if assets[k].denom@
                    == token_in_denom@ {
                    swap_to_alloyed::in_amount_via_exact_out_result(
                        assets[k].normalization_factor,
                        token_in_max_amount,
                        token_out_amount,
                        alloyed.normalization_factor,
                    )->Ok_0 as int
                } else {
                    0
                })
        },
        from_alloyed_result(
            assets,
            alloyed,
            entrypoint,
            from_constraint,
            burn_target,
            sender,
            sender_alloyed_balance,
            contract_address,
        ) matches Ok((b, _, outs, _, _)) ==> (exists|j: int|
            0 <= j < outs.len() && !(asset_index(assets, #[trigger] outs[j].denom@) >= 0 && assets[asset_index(
                assets,
                outs[j].denom@,
            )].is_corrupted && outs[j].amount == liquidity_of(assets, outs[j].denom@))) ==> {
            &&& same_assets(assets, b)
            &&& forall|k: int|
                0 <= k < assets.len() ==> #[trigger] b[k].amount == assets[k].amount - total_of(
                    outs,
                    assets[k].denom@,
                )
        },
{
    if let SwapToAlloyedConstraint::ExactIn { tokens_in, .. } = to_constraint {
        law_join_adds_totals(assets, tokens_in@);
    }
    if let Ok((b, _, _)) = to_alloyed_result(assets, alloyed, entrypoint, to_constraint) {
        if let SwapToAlloyedConstraint::ExactOut { token_in_denom, token_in_max_amount, token_out_amount } = to_constraint {
            let a = asset_by_denom(assets, token_in_denom)->Ok_0;
            let x = swap_to_alloyed::in_amount_via_exact_out_result(
                a.normalization_factor,
                token_in_max_amount,
                token_out_amount,
                alloyed.normalization_factor,
            )->Ok_0;
            let c = Coin { denom: token_in_denom, amount: x };
            lemma_join_one_moves(assets, c);
            lemma_index_is_denom(assets, token_in_denom@);
            assert forall|k: int| 0 <= k < assets.len() implies #[trigger] b[k].amount == assets[k].amount + if assets[k].denom@
                == token_in_denom@ {
                swap_to_alloyed::in_amount_via_exact_out_result(
                    assets[k].normalization_factor,
                    token_in_max_amount,
                    token_out_amount,
                    alloyed.normalization_factor,
                )->Ok_0 as int
            } else {
                0
            } by {
                if assets[k].denom@ == token_in_denom@ {
                    assert(assets[k] == a);
                }
            }
        }
    }
    if let Ok((b, _, outs, _, _)) = from_alloyed_result(
        assets,
        alloyed,
        entrypoint,
        from_constraint,
        burn_target,
        sender,
        sender_alloyed_balance,
        contract_address,
    ) {
        if exists|j: int|
            0 <= j < outs.len() && !(asset_index(assets, #[trigger] outs[j].denom@) >= 0 && assets[asset_index(
                assets,
                outs[j].denom@,
            )].is_corrupted && outs[j].amount == liquidity_of(assets, outs[j].denom@)) {
            let j = choose|j: int|
                0 <= j < outs.len() && !(asset_index(assets, #[trigger] outs[j].denom@) >= 0 && assets[asset_index(
                    assets,
                    outs[j].denom@,
                )].is_corrupted && outs[j].amount == liquidity_of(assets, outs[j].denom@));
            law_partial_payout_is_plain_exit(assets, outs, j);
            law_exit_takes_totals(assets, outs);
        }
    }
}

/// The two estimates change amounts only.
proof fn lemma_estimates_same_assets(assets: Seq<Asset>, alloyed: AlloyedAsset, token: Coin, denom: String)
    ensures
        out_amt_given_in_result(assets, alloyed, token, denom) matches Ok((b, _)) ==> same_assets(assets, b),
        in_amt_given_out_result(assets, alloyed, token, denom) matches Ok((b, _)) ==> same_assets(assets, b),
{
    lemma_join_same_assets(assets, seq![token]);
    lemma_exit_same_assets(assets, seq![token]);
    lemma_transmute_same_assets(assets, AmountConstraint::ExactIn(token.amount), token.denom, denom);
    lemma_transmute_same_assets(assets, AmountConstraint::ExactOut(token.amount), denom, token.denom);
    if let Ok(a) = asset_by_denom(assets, denom) {
        if let Ok(out) = swap_from_alloyed::out_amount_via_exact_in_result(
            token.amount,
            alloyed.normalization_factor,
            a.normalization_factor,
            0,
        ) {
            lemma_exit_same_assets(assets, seq![Coin { denom: denom, amount: out }]);
        }
    }
    if let Ok(a) = asset_by_denom(assets, denom) {
        if let Ok(x) = swap_to_alloyed::in_amount_via_exact_out_result(
            a.normalization_factor,
            u128::MAX,
            token.amount,
            alloyed.normalization_factor,
        ) {
            lemma_join_same_assets(assets, seq![Coin { denom: denom, amount: x }]);
        }
    }
}

impl Transmuter {
    /// Which kind of swap goes from `token_in_denom` to `token_out_denom`,
    /// given the denomination of the alloyed asset.
    pub fn swap_variant(
        token_in_denom: &String,
        token_out_denom: &String,
        alloyed_denom: &String,
    ) -> (r: Result<SwapVariant, ContractError>)
        ensures
            r == swap_variant_result(*token_in_denom, *token_out_denom, *alloyed_denom),
    {
        if *token_in_denom == *token_out_denom {
            return Err(ContractError::SameDenomNotAllowed { denom: token_in_denom.clone() });
        }
        if *alloyed_denom == *token_in_denom {
            return Ok(SwapVariant::AlloyedToToken);
        }
        if *alloyed_denom == *token_out_denom {
            return Ok(SwapVariant::TokenToAlloyed);
        }
        Ok(SwapVariant::TokenToToken)
    }

    /// The coin out for `token_in`, and the pool after that swap.
    pub fn out_amt_given_in(
        pool: &AssetPool,
        alloyed: &AlloyedAsset,
        token_in: Coin,
        token_out_denom: &String,
    ) -> (r: Result<(AssetPool, Coin), ContractError>)
        ensures
            match out_amt_given_in_result(pool.pool_assets@, *alloyed, token_in, *token_out_denom) {
                Ok((a, c)) => r matches Ok((p, c2)) && p.pool_assets@ == a && c2 == c,
                Err(e) => r == Err::<(AssetPool, Coin), ContractError>(e),
            },
    {
        if *token_out_denom == token_in.denom {
            return Err(ContractError::TokenDenomsIdentical);
        }
        let variant = match Transmuter::swap_variant(&token_in.denom, token_out_denom, &alloyed.alloyed_denom) {
            Err(e) => {
                return Err(e);
            },
            Ok(v) => v,
        };
        let mut work = AssetPool { pool_assets: copy_assets(&pool.pool_assets) };
        match variant {
            SwapVariant::TokenToAlloyed => {
                let a = match work.get_pool_asset_by_denom(&token_in.denom) {
                    Err(e) => {
                        return Err(e);
                    },
                    Ok(a) => a,
                };
                let pairs = [(token_in.clone(), a.normalization_factor)];
                assert(pairs@ =~= seq![(token_in, a.normalization_factor)]);
                let out = match swap_to_alloyed::out_amount_via_exact_in(&pairs, 0, alloyed.normalization_factor) {
                    Err(e) => {
                        return Err(e);
                    },
                    Ok(out) => out,
                };
                let token_out = Coin::new(out, token_out_denom.clone());
                let ins = [token_in];
                assert(ins@ =~= seq![token_in]);
                match work.join_pool(&ins) {
                    Err(e) => {
                        return Err(e);
                    },
                    Ok(()) => {},
                }
                Ok((work, token_out))
            },
            SwapVariant::AlloyedToToken => {
                let a = match work.get_pool_asset_by_denom(token_out_denom) {
                    Err(e) => {
                        return Err(e);
                    },
                    Ok(a) => a,
                };
                let out = match swap_from_alloyed::out_amount_via_exact_in(
                    token_in.amount,
                    alloyed.normalization_factor,
                    a.normalization_factor,
                    0,
                ) {
                    Err(e) => {
                        return Err(e);
                    },
                    Ok(out) => out,
                };
                let token_out = Coin::new(out, token_out_denom.clone());
                let outs = [token_out.clone()];
                assert(outs@ =~= seq![token_out]);
                match work.exit_pool(&outs) {
                    Err(e) => {
                        return Err(e);
                    },
                    Ok(()) => {},
                }
                Ok((work, token_out))
            },
            SwapVariant::TokenToToken => {
                match work.transmute(AmountConstraint::exact_in(token_in.amount), &token_in.denom, token_out_denom) {
                    Err(e) => Err(e),
                    Ok((_, token_out)) => Ok((work, token_out)),
                }
            },
        }
    }

    /// The coin in needed for `token_out`, and the pool after that swap.
    pub fn in_amt_given_out(
        pool: &AssetPool,
        alloyed: &AlloyedAsset,
        token_out: Coin,
        token_in_denom: String,
    ) -> (r: Result<(AssetPool, Coin), ContractError>)
        ensures
            match in_amt_given_out_result(pool.pool_assets@, *alloyed, token_out, token_in_denom) {
                Ok((a, c)) => r matches Ok((p, c2)) && p.pool_assets@ == a && c2 == c,
                Err(e) => r == Err::<(AssetPool, Coin), ContractError>(e),
            },
    {
        if token_out.denom == token_in_denom {
            return Err(ContractError::TokenDenomsIdentical);
        }
        let variant = match Transmuter::swap_variant(&token_in_denom, &token_out.denom, &alloyed.alloyed_denom) {
            Err(e) => {
                return Err(e);
            },
            Ok(v) => v,
        };
        let mut work = AssetPool { pool_assets: copy_assets(&pool.pool_assets) };
        match variant {
            SwapVariant::TokenToAlloyed => {
                let a = match work.get_pool_asset_by_denom(&token_in_denom) {
                    Err(e) => {
                        return Err(e);
                    },
                    Ok(a) => a,
                };
                let x = match swap_to_alloyed::in_amount_via_exact_out(
                    a.normalization_factor,
                    u128::MAX,
                    token_out.amount,
                    alloyed.normalization_factor,
                ) {
                    Err(e) => {
                        return Err(e);
                    },
                    Ok(x) => x,
                };
                let token_in = Coin::new(x, token_in_denom);
                let ins = [token_in.clone()];
                assert(ins@ =~= seq![token_in]);
                match work.join_pool(&ins) {
                    Err(e) => {
                        return Err(e);
                    },
                    Ok(()) => {},
                }
                Ok((work, token_in))
            },
            SwapVariant::AlloyedToToken => {
                let a = match work.get_pool_asset_by_denom(&token_out.denom) {
                    Err(e) => {
                        return Err(e);
                    },
                    Ok(a) => a,
                };
                let pairs = [(token_out.clone(), a.normalization_factor)];
                assert(pairs@ =~= seq![(token_out, a.normalization_factor)]);
                let x = match swap_from_alloyed::in_amount_via_exact_out(
                    u128::MAX,
                    alloyed.normalization_factor,
                    &pairs,
                ) {
                    Err(e) => {
                        return Err(e);
                    },
                    Ok(x) => x,
                };
                let token_in = Coin::new(x, token_in_denom);
                let outs = [token_out];
                assert(outs@ =~= seq![token_out]);
                match work.exit_pool(&outs) {
                    Err(e) => {
                        return Err(e);
                    },
                    Ok(()) => {},
                }
                Ok((work, token_in))
            },
            SwapVariant::TokenToToken => {
                match work.transmute(AmountConstraint::exact_out(token_out.amount), &token_in_denom, &token_out.denom) {
                    Err(e) => Err(e),
                    Ok((token_in, actual_out)) => {
                        if actual_out.amount != token_out.amount || actual_out.denom != token_out.denom {
                            return Err(
                                ContractError::InvalidTokenOutAmount {
                                    expected: token_out.amount,
                                    actual: actual_out.amount,
                                },
                            );
                        }
                        Ok((work, token_in))
                    },
                }
            },
        }
    }

    /// Swaps `token_in` for coins of `token_out_denom`, at least
    /// `token_out_min_amount` of them, sent to `sender`.
    pub fn swap_non_alloyed_exact_amount_in(
        token_in: Coin,
        token_out_denom: &String,
        token_out_min_amount: u128,
        sender: String,
        pool: &mut AssetPool,
        alloyed: &AlloyedAsset,
    ) -> (r: Result<(Response, LimiterStep), ContractError>)
        ensures
            match exact_in_result(
                old(pool).pool_assets@,
                *alloyed,
                token_in,
                *token_out_denom,
                token_out_min_amount,
            ) {
                Err(e) => r == Err::<(Response, LimiterStep), ContractError>(e) && *final(pool) == *old(pool),
                Ok((a, out)) => r matches Ok((resp, step)) && final(pool).pool_assets@ == a
                    && step == limit_check_after(a) && send_with_data(
                    resp,
                    sender,
                    seq![out],
                    ResponseData::SwapExactAmountIn(
                        SwapExactAmountInResponseData { token_out_amount: out.amount },
                    ),
                ),
            },
    {
        let (new_pool, token_out) = match Transmuter::out_amt_given_in(pool, alloyed, token_in, token_out_denom) {
            Err(e) => {
                return Err(e);
            },
            Ok(v) => v,
        };
        if token_out.amount < token_out_min_amount {
            return Err(
                ContractError::InsufficientTokenOut {
                    min_required: token_out_min_amount,
                    amount_out: token_out.amount,
                },
            );
        }
        *pool = new_pool;
        let data = ResponseData::SwapExactAmountIn(
            SwapExactAmountInResponseData { token_out_amount: token_out.amount },
        );
        let mut amount: Vec<Coin> = Vec::new();
        amount.push(token_out);
        assert(amount@ =~= seq![token_out]);
        let step = limit_check_step(pool);
        Ok((Response::new().add_message(Message::BankSend { to_address: sender, amount }).set_data(data), step))
    }

    /// Swaps coins of `token_in_denom`, at most `token_in_max_amount` of
    /// them, for `token_out`, sent to `sender`.
    pub fn swap_non_alloyed_exact_amount_out(
        token_in_denom: &String,
        token_in_max_amount: u128,
        token_out: Coin,
        sender: String,
        pool: &mut AssetPool,
        alloyed: &AlloyedAsset,
    ) -> (r: Result<(Response, LimiterStep), ContractError>)
        ensures
            match exact_out_result(
                old(pool).pool_assets@,
                *alloyed,
                *token_in_denom,
                token_in_max_amount,
                token_out,
            ) {
                Err(e) => r == Err::<(Response, LimiterStep), ContractError>(e) && *final(pool) == *old(pool),
                Ok((a, token_in)) => r matches Ok((resp, step)) && final(pool).pool_assets@ == a
                    && step == limit_check_after(a) && send_with_data(
                    resp,
                    sender,
                    seq![token_out],
                    ResponseData::SwapExactAmountOut(
                        SwapExactAmountOutResponseData { token_in_amount: token_in.amount },
                    ),
                ),
            },
    {
        let (new_pool, token_in) = match Transmuter::in_amt_given_out(
            pool,
            alloyed,
            token_out.clone(),
            token_in_denom.clone(),
        ) {
            Err(e) => {
                return Err(e);
            },
            Ok(v) => v,
        };
        if token_in.amount > token_in_max_amount {
            return Err(
                ContractError::ExcessiveRequiredTokenIn {
                    limit: token_in_max_amount,
                    required: token_in.amount,
                },
            );
        }
        *pool = new_pool;
        let data = ResponseData::SwapExactAmountOut(
            SwapExactAmountOutResponseData { token_in_amount: token_in.amount },
        );
        let mut amount: Vec<Coin> = Vec::new();
        amount.push(token_out);
        assert(amount@ =~= seq![token_out]);
        let step = limit_check_step(pool);
        Ok((Response::new().add_message(Message::BankSend { to_address: sender, amount }).set_data(data), step))
    }

    /// Swaps pool assets for the alloyed asset, minted into
    /// `mint_to_address`.
    pub fn swap_tokens_to_alloyed_asset(
        entrypoint: Entrypoint,
        constraint: SwapToAlloyedConstraint,
        mint_to_address: String,
        pool: &mut AssetPool,
        alloyed: &AlloyedAsset,
        contract_address: String,
    ) -> (r: Result<(Response, LimiterStep), ContractError>)
        ensures
            match to_alloyed_result(old(pool).pool_assets@, *alloyed, entrypoint, constraint) {
                Err(e) => r == Err::<(Response, LimiterStep), ContractError>(e) && *final(pool) == *old(pool),
                Ok((a, out, data)) => r matches Ok((resp, step)) && final(pool).pool_assets@ == a
                    && step == limit_check_after(a)
                    && resp.messages@ == seq![
                    Message::Mint {
                        sender: contract_address,
                        amount: Coin { denom: alloyed.alloyed_denom, amount: out },
                        mint_to_address,
                    },
                ] && resp.attributes@.len() == 0 && resp.data == data,
            },
    {
        let (tokens_in, out_amount, response) = match constraint {
            SwapToAlloyedConstraint::ExactIn { tokens_in, token_out_min_amount } => {
                let pairs = match pool.pair_coins_with_normalization_factor(tokens_in.as_slice()) {
                    Err(e) => {
                        return Err(e);
                    },
                    Ok(p) => p,
                };
                let out = match swap_to_alloyed::out_amount_via_exact_in(
                    pairs.as_slice(),
                    token_out_min_amount,
                    alloyed.normalization_factor,
                ) {
                    Err(e) => {
                        return Err(e);
                    },
                    Ok(out) => out,
                };
                let response = set_data_if_sudo(
                    Response::new(),
                    &entrypoint,
                    ResponseData::SwapExactAmountIn(SwapExactAmountInResponseData { token_out_amount: out }),
                );
                (tokens_in, out, response)
            },
            SwapToAlloyedConstraint::ExactOut { token_in_denom, token_in_max_amount, token_out_amount } => {
                let a = match pool.get_pool_asset_by_denom(&token_in_denom) {
                    Err(e) => {
                        return Err(e);
                    },
                    Ok(a) => a,
                };
                let x = match swap_to_alloyed::in_amount_via_exact_out(
                    a.normalization_factor,
                    token_in_max_amount,
                    token_out_amount,
                    alloyed.normalization_factor,
                ) {
                    Err(e) => {
                        return Err(e);
                    },
                    Ok(x) => x,
                };
                let mut tokens_in: Vec<Coin> = Vec::new();
                tokens_in.push(Coin::new(x, token_in_denom));
                let response = set_data_if_sudo(
                    Response::new(),
                    &entrypoint,
                    ResponseData::SwapExactAmountOut(SwapExactAmountOutResponseData { token_in_amount: x }),
                );
                (tokens_in, token_out_amount, response)
            },
        };
        if tokens_in.len() == 0 {
            return Err(ContractError::AtLeastSingleTokenExpected);
        }
        if !amounts_positive(tokens_in.as_slice()) {
            return Err(ContractError::ZeroValueOperation);
        }
        match pool.join_pool(tokens_in.as_slice()) {
            Err(e) => {
                return Err(e);
            },
            Ok(()) => {},
        }
        let mint = Message::Mint {
            sender: contract_address,
            amount: Coin::new(out_amount, alloyed.alloyed_denom.clone()),
            mint_to_address,
        };
        let resp = response.add_message(mint);
        assert(resp.messages@ =~= seq![mint]);
        let step = limit_check_step(pool);
        Ok((resp, step))
    }

    /// Swaps the alloyed asset, burned from the sender's account or from the
    /// funds sent along, for pool assets sent to `sender`.
    pub fn swap_alloyed_asset_to_tokens(
        entrypoint: Entrypoint,
        constraint: SwapFromAlloyedConstraint,
        burn_target: BurnTarget,
        sender: String,
        sender_alloyed_balance: u128,
        pool: &mut AssetPool,
        alloyed: &AlloyedAsset,
        contract_address: String,
    ) -> (r: Result<(Response, LimiterStep), ContractError>)
        ensures
            match from_alloyed_result(
                old(pool).pool_assets@,
                *alloyed,
                entrypoint,
                constraint,
                burn_target,
                sender,
                sender_alloyed_balance,
                contract_address,
            ) {
                Err(e) => r == Err::<(Response, LimiterStep), ContractError>(e) && *final(pool) == *old(pool),
                Ok((a, in_amount, tokens_out, burn_from, data)) => r matches Ok((resp, step))
                    && final(pool).pool_assets@ == a && step == (if is_force_exit(
                    old(pool).pool_assets@,
                    tokens_out,
                ) {
                    LimiterStep::ResetAndDeregister
                } else {
                    limit_check_after(a)
                }) && resp.messages@.len() == 2
                    && resp.messages@[0] == (Message::Burn {
                    sender: contract_address,
                    amount: Coin { denom: alloyed.alloyed_denom, amount: in_amount },
                    burn_from_address: burn_from,
                }) && (resp.messages@[1] matches Message::BankSend { to_address, amount }
                    && to_address == sender && amount@ == tokens_out)
                    && resp.attributes@.len() == 0 && resp.data == data,
            },
    {
        let (in_amount, tokens_out, response) = match constraint {
            SwapFromAlloyedConstraint::ExactIn { token_out_denom, token_out_min_amount, token_in_amount } => {
                let a = match pool.get_pool_asset_by_denom(&token_out_denom) {
                    Err(e) => {
                        return Err(e);
                    },
                    Ok(a) => a,
                };
                let out = match swap_from_alloyed::out_amount_via_exact_in(
                    token_in_amount,
                    alloyed.normalization_factor,
                    a.normalization_factor,
                    token_out_min_amount,
                ) {
                    Err(e) => {
                        return Err(e);
                    },
                    Ok(out) => out,
                };
                let response = set_data_if_sudo(
                    Response::new(),
                    &entrypoint,
                    ResponseData::SwapExactAmountIn(SwapExactAmountInResponseData { token_out_amount: out }),
                );
                let mut tokens_out: Vec<Coin> = Vec::new();
                tokens_out.push(Coin::new(out, token_out_denom));
                (token_in_amount, tokens_out, response)
            },
            SwapFromAlloyedConstraint::ExactOut { tokens_out, token_in_max_amount } => {
                let pairs = match pool.pair_coins_with_normalization_factor(tokens_out.as_slice()) {
                    Err(e) => {
                        return Err(e);
                    },
                    Ok(p) => p,
                };
                let x = match swap_from_alloyed::in_amount_via_exact_out(
                    token_in_max_amount,
                    alloyed.normalization_factor,
                    pairs.as_slice(),
                ) {
                    Err(e) => {
                        return Err(e);
                    },
                    Ok(x) => x,
                };
                let response = set_data_if_sudo(
                    Response::new(),
                    &entrypoint,
                    ResponseData::SwapExactAmountOut(SwapExactAmountOutResponseData { token_in_amount: x }),
                );
                (x, tokens_out, response)
            },
        };
        if !amounts_positive(tokens_out.as_slice()) {
            return Err(ContractError::ZeroValueOperation);
        }
        let burn_from_address = match burn_target {
            BurnTarget::SenderAccount => {
                if sender_alloyed_balance < in_amount {
                    return Err(
                        ContractError::InsufficientShares {
                            required: in_amount,
                            available: sender_alloyed_balance,
                        },
                    );
                }
                sender.clone()
            },
            BurnTarget::SentFunds => contract_address.clone(),
        };
        let force = force_exit(pool, tokens_out.as_slice());
        match pay_out(pool, tokens_out.as_slice()) {
            Err(e) => {
                return Err(e);
            },
            Ok(()) => {},
        }
        let burn = Message::Burn {
            sender: contract_address,
            amount: Coin::new(in_amount, alloyed.alloyed_denom.clone()),
            burn_from_address,
        };
        let step = if force {
            LimiterStep::ResetAndDeregister
        } else {
            limit_check_step(pool)
        };
        Ok((response.add_message(burn).add_message(Message::BankSend { to_address: sender, amount: tokens_out }), step))
    }

    /// Settles a swap with the outcome of the rate limiters on the pool it
    /// left behind: where the step was a limit check and the limiters
    /// refused, the swap is undone (the pool goes back to `before`) and the
    /// limiter's error is returned; a reset or a skipped step checks no
    /// limit, so no outcome can refuse it.
    pub fn settle_limits(
        before: AssetPool,
        pool: &mut AssetPool,
        step: LimiterStep,
        outcome: LimiterOutcome,
    ) -> (r: Result<(), ContractError>)
        ensures
            r == settle_result(step, outcome),
            r is Ok ==> *final(pool) == *old(pool),
            r is Err ==> *final(pool) == before,
    {
        match outcome {
            LimiterOutcome::Refused { reason } => {
                if let LimiterStep::CheckAndUpdate = step {
                    *pool = before;
                    Err(ContractError::RateLimited { reason })
                } else {
                    Ok(())
                }
            },
            LimiterOutcome::Passed => Ok(()),
        }
    }

    /// The swap fee must be zero.
    pub fn ensure_valid_swap_fee(swap_fee: Decimal) -> (r: Result<(), ContractError>)
        ensures
            swap_fee.atomics == 0 ==> r is Ok,
            swap_fee.atomics != 0 ==> r == Err::<(), ContractError>(
                ContractError::InvalidSwapFee {
                    expected: Decimal { atomics: SWAP_FEE_ATOMICS },
                    actual: swap_fee,
                },
            ),
    {
        if swap_fee.atomics != SWAP_FEE_ATOMICS {
            return Err(
                ContractError::InvalidSwapFee {
                    expected: Decimal { atomics: SWAP_FEE_ATOMICS },
                    actual: swap_fee,
                },
            );
        }
        Ok(())
    }
}

} // verus!
