//! A pool of several assets, each with its own normalization factor, that
//! swaps any of them for any other at the ratio of their factors.
use crate::asset::Asset;
use crate::coin::Coin;
use crate::error::ContractError;
use crate::math::{
    convert_amount, conversion, law_conversion_favors_pool, lemma_floor_then_ceil, Rounding,
};
use vstd::prelude::*;

verus! {

/// The assets of the pool.
#[derive(Debug, PartialEq, Eq)]
pub struct AssetPool {
    pub pool_assets: Vec<Asset>,
}

/// How the amounts of a transmutation are fixed.
#[derive(Debug, Clone, Copy, PartialEq, Eq)]
pub enum AmountConstraint {
    /// The amount going in is fixed.
    ExactIn(u128),
    /// The amount coming out is fixed.
    ExactOut(u128),
}

impl AmountConstraint {
    pub fn exact_in(amount: u128) -> (c: AmountConstraint)
        ensures
            c == AmountConstraint::ExactIn(amount),
    {
        AmountConstraint::ExactIn(amount)
    }

    pub fn exact_out(amount: u128) -> (c: AmountConstraint)
        ensures
            c == AmountConstraint::ExactOut(amount),
    {
        AmountConstraint::ExactOut(amount)
    }
}

/// Index of the asset of `denom`, the last one if several match; -1 if none.
pub open spec fn asset_index(assets: Seq<Asset>, denom: Seq<char>) -> int
    decreases assets.len(),
{
    if assets.len() == 0 {
        -1
    } else if assets.last().denom@ == denom {
        assets.len() - 1
    } else {
        asset_index(assets.drop_last(), denom)
    }
}

pub proof fn lemma_asset_index_bounds(assets: Seq<Asset>, denom: Seq<char>)
    ensures
        -1 <= asset_index(assets, denom) < assets.len(),
        asset_index(assets, denom) >= 0 ==> assets[asset_index(assets, denom)].denom@ == denom,
    decreases assets.len(),
{
    if assets.len() > 0 {
        lemma_asset_index_bounds(assets.drop_last(), denom);
    }
}

/// The asset of `denom`.
pub open spec fn asset_by_denom(assets: Seq<Asset>, denom: String) -> Result<Asset, ContractError> {
    let i = asset_index(assets, denom@);
    if i < 0 {
        Err(ContractError::InvalidPoolAssetDenom { denom })
    } else {
        Ok(assets[i])
    }
}

/// The total amount of `denom` in the pool, zero if it is not there.
pub open spec fn liquidity_of(assets: Seq<Asset>, denom: Seq<char>) -> u128 {
    let i = asset_index(assets, denom);
    if i < 0 {
        0
    } else {
        assets[i].amount
    }
}

/// `a` holding `amount`.
pub open spec fn with_amount(a: Asset, amount: int) -> Asset {
    Asset {
        amount: amount as u128,
        denom: a.denom,
        normalization_factor: a.normalization_factor,
        is_corrupted: a.is_corrupted,
    }
}

/// Adding `coin` to the pool.
pub open spec fn join_one(assets: Seq<Asset>, coin: Coin) -> Result<Seq<Asset>, ContractError> {
    let i = asset_index(assets, coin.denom@);
    if i < 0 {
        Err(ContractError::InvalidPoolAssetDenom { denom: coin.denom })
    } else if assets[i].amount + coin.amount > u128::MAX {
        Err(ContractError::Overflow)
    } else {
        Ok(assets.update(i, with_amount(assets[i], assets[i].amount + coin.amount)))
    }
}

/// Adding `coins` to the pool, one after the other.
pub open spec fn join_result(assets: Seq<Asset>, coins: Seq<Coin>) -> Result<Seq<Asset>, ContractError>
    decreases coins.len(),
{
    if coins.len() == 0 {
        Ok(assets)
    } else {
        match join_result(assets, coins.drop_last()) {
            Ok(a) => join_one(a, coins.last()),
            Err(e) => Err(e),
        }
    }
}

/// Taking `coin` out of the pool.
pub open spec fn exit_one(assets: Seq<Asset>, coin: Coin) -> Result<Seq<Asset>, ContractError> {
    let i = asset_index(assets, coin.denom@);
    if i < 0 {
        Err(ContractError::InvalidPoolAssetDenom { denom: coin.denom })
    } else if coin.amount > assets[i].amount {
        Err(
            ContractError::InsufficientPoolAsset {
                required: coin,
                available: Coin { denom: assets[i].denom, amount: assets[i].amount },
            },
        )
    } else {
        Ok(assets.update(i, with_amount(assets[i], assets[i].amount - coin.amount)))
    }
}

/// Taking `coins` out of the pool, one after the other.
pub open spec fn exit_result(assets: Seq<Asset>, coins: Seq<Coin>) -> Result<Seq<Asset>, ContractError>
    decreases coins.len(),
{
    if coins.len() == 0 {
        Ok(assets)
    } else {
        match exit_result(assets, coins.drop_last()) {
            Ok(a) => exit_one(a, coins.last()),
            Err(e) => Err(e),
        }
    }
}

/// Each of `coins` beside the normalization factor of its asset.
pub open spec fn pair_result(assets: Seq<Asset>, coins: Seq<Coin>) -> Result<
    Seq<(Coin, u128)>,
    ContractError,
>
    decreases coins.len(),
{
    if coins.len() == 0 {
        Ok(Seq::empty())
    } else {
        match pair_result(assets, coins.drop_last()) {
            Err(e) => Err(e),
            Ok(ps) => match asset_by_denom(assets, coins.last().denom) {
                Err(e) => Err(e),
                Ok(a) => Ok(ps.push((coins.last(), a.normalization_factor))),
            },
        }
    }
}

/// A transmutation from `in_denom` to `out_denom` under `constraint`: the
/// free amount is converted at the ratio of the two normalization factors
/// (rounded down for an amount out, up for an amount in); the coin in joins
/// the pool and the coin out leaves it. On success: the new assets, the coin
/// in and the coin out.
pub open spec fn transmute_result(
    assets: Seq<Asset>,
    constraint: AmountConstraint,
    in_denom: String,
    out_denom: String,
) -> Result<(Seq<Asset>, Coin, Coin), ContractError> {
    match asset_by_denom(assets, in_denom) {
        Err(e) => Err(e),
        Ok(a_in) => match asset_by_denom(assets, out_denom) {
            Err(e) => Err(e),
            Ok(a_out) => {
                let amounts = match constraint {
                    AmountConstraint::ExactIn(x) => match conversion(
                        x,
                        a_in.normalization_factor,
                        a_out.normalization_factor,
                        Rounding::Down,
                    ) {
                        Ok(y) => Ok((x, y)),
                        Err(e) => Err(e),
                    },
                    AmountConstraint::ExactOut(y) => match conversion(
                        y,
                        a_out.normalization_factor,
                        a_in.normalization_factor,
                        Rounding::Up,
                    ) {
                        Ok(x) => Ok((x, y)),
                        Err(e) => Err(e),
                    },
                };
                match amounts {
                    Err(e) => Err(e),
                    Ok((x, y)) => {
                        let token_in = Coin { denom: in_denom, amount: x };
                        let token_out = Coin { denom: out_denom, amount: y };
                        match join_one(assets, token_in) {
                            Err(e) => Err(e),
                            Ok(joined) => match exit_one(joined, token_out) {
                                Err(e) => Err(e),
                                Ok(exited) => Ok((exited, token_in, token_out)),
                            },
                        }
                    },
                }
            },
        },
    }
}

/// Removing the asset of `denom`, which must be empty.
pub open spec fn remove_result(assets: Seq<Asset>, denom: String) -> Result<Seq<Asset>, ContractError> {
    let i = asset_index(assets, denom@);
    if i < 0 {
        Err(ContractError::InvalidPoolAssetDenom { denom })
    } else if assets[i].amount != 0 {
        Err(ContractError::InvalidAssetRemoval { denom })
    } else {
        Ok(assets.remove(i))
    }
}

/// Finds the asset of `denom`, the last one if several match.
pub fn find_asset_index(assets: &Vec<Asset>, denom: &String) -> (r: Option<usize>)
    ensures
        r is None <==> asset_index(assets@, denom@) < 0,
        r matches Some(i) ==> i == asset_index(assets@, denom@),
{
    let mut j = assets.len();
    assert(assets@.take(j as int) =~= assets@);
    while j > 0
        invariant
            j <= assets@.len(),
            asset_index(assets@, denom@) == asset_index(assets@.take(j as int), denom@),
        decreases j,
    {
        assert(assets@.take(j as int).drop_last() =~= assets@.take(j as int - 1));
        if assets[j - 1].denom == *denom {
            return Some(j - 1);
        }
        j = j - 1;
    }
    None
}

proof fn lemma_join_error_sticks(assets: Seq<Asset>, coins: Seq<Coin>, k: int)
    requires
        0 <= k <= coins.len(),
        join_result(assets, coins.take(k)) is Err,
    ensures
        join_result(assets, coins) == join_result(assets, coins.take(k)),
    decreases coins.len() - k,
{
    if k < coins.len() {
        assert(coins.take(k + 1).drop_last() =~= coins.take(k));
        lemma_join_error_sticks(assets, coins, k + 1);
    } else {
        assert(coins.take(k) =~= coins);
    }
}

proof fn lemma_exit_error_sticks(assets: Seq<Asset>, coins: Seq<Coin>, k: int)
    requires
        0 <= k <= coins.len(),
        exit_result(assets, coins.take(k)) is Err,
    ensures
        exit_result(assets, coins) == exit_result(assets, coins.take(k)),
    decreases coins.len() - k,
{
    if k < coins.len() {
        assert(coins.take(k + 1).drop_last() =~= coins.take(k));
        lemma_exit_error_sticks(assets, coins, k + 1);
    } else {
        assert(coins.take(k) =~= coins);
    }
}

proof fn lemma_pair_error_sticks(assets: Seq<Asset>, coins: Seq<Coin>, k: int)
    requires
        0 <= k <= coins.len(),
        pair_result(assets, coins.take(k)) is Err,
    ensures
        pair_result(assets, coins) == pair_result(assets, coins.take(k)),
    decreases coins.len() - k,
{
    if k < coins.len() {
        assert(coins.take(k + 1).drop_last() =~= coins.take(k));
        lemma_pair_error_sticks(assets, coins, k + 1);
    } else {
        assert(coins.take(k) =~= coins);
    }
}

/// A copy of `assets`.
pub(crate) fn copy_assets(assets: &Vec<Asset>) -> (r: Vec<Asset>)
    ensures
        r@ == assets@,
{
    let mut r: Vec<Asset> = Vec::new();
    for i in 0..assets.len()
        invariant
            r@ == assets@.take(i as int),
    {
        r.push(assets[i].clone());
        assert(r@ =~= assets@.take(i as int + 1));
    }
    assert(assets@.take(assets@.len() as int) =~= assets@);
    r
}

impl AssetPool {
    /// The asset of `denom`.
    pub fn get_pool_asset_by_denom(&self, denom: &String) -> (r: Result<Asset, ContractError>)
        ensures
            r == asset_by_denom(self.pool_assets@, *denom),
    {
        proof { lemma_asset_index_bounds(self.pool_assets@, denom@); }
        match find_asset_index(&self.pool_assets, denom) {
            Some(i) => Ok(self.pool_assets[i].clone()),
            None => Err(ContractError::InvalidPoolAssetDenom { denom: denom.clone() }),
        }
    }

    /// Whether the asset of `denom` is marked corrupted.
    pub fn is_corrupted_asset(&self, denom: &String) -> (r: bool)
        ensures
            r == (asset_index(self.pool_assets@, denom@) >= 0 && self.pool_assets@[asset_index(
                self.pool_assets@,
                denom@,
            )].is_corrupted),
    {
        proof { lemma_asset_index_bounds(self.pool_assets@, denom@); }
        match find_asset_index(&self.pool_assets, denom) {
            Some(i) => self.pool_assets[i].is_corrupted,
            None => false,
        }
    }

    /// The amount of `denom` in the pool, zero if it is not there.
    pub fn liquidity(&self, denom: &String) -> (r: u128)
        ensures
            r == liquidity_of(self.pool_assets@, denom@),
    {
        proof { lemma_asset_index_bounds(self.pool_assets@, denom@); }
        match find_asset_index(&self.pool_assets, denom) {
            Some(i) => self.pool_assets[i].amount,
            None => 0,
        }
    }

    /// Each of `coins` beside the normalization factor of its asset.
    pub fn pair_coins_with_normalization_factor(&self, coins: &[Coin]) -> (r: Result<
        Vec<(Coin, u128)>,
        ContractError,
    >)
        ensures
            match pair_result(self.pool_assets@, coins@) {
                Ok(ps) => r matches Ok(v) && v@ == ps,
                Err(e) => r == Err::<Vec<(Coin, u128)>, ContractError>(e),
            },
    {
        let mut pairs: Vec<(Coin, u128)> = Vec::new();
        let n = coins.len();
        for i in 0..n
            invariant
                n == coins@.len(),
                pair_result(self.pool_assets@, coins@.take(i as int)) == Ok::<
                    Seq<(Coin, u128)>,
                    ContractError,
                >(pairs@),
        {
            assert(coins@.take(i as int + 1).drop_last() =~= coins@.take(i as int));
            let coin = &coins[i];
            match self.get_pool_asset_by_denom(&coin.denom) {
                Err(e) => {
                    proof { lemma_pair_error_sticks(self.pool_assets@, coins@, i as int + 1); }
                    return Err(e);
                },
                Ok(a) => {
                    pairs.push((coin.clone(), a.normalization_factor));
                },
            }
        }
        assert(coins@.take(n as int) =~= coins@);
        Ok(pairs)
    }

    /// Adds `coins` to the pool, one after the other.
    pub fn join_pool(&mut self, coins: &[Coin]) -> (r: Result<(), ContractError>)
        ensures
            match join_result(old(self).pool_assets@, coins@) {
                Ok(a) => r is Ok && final(self).pool_assets@ == a,
                Err(e) => r == Err::<(), ContractError>(e) && *final(self) == *old(self),
            },
            denoms_distinct(old(self).pool_assets@) ==> denoms_distinct(final(self).pool_assets@),
    {
        proof {
            lemma_join_same_assets(self.pool_assets@, coins@);
            if let Ok(b) = join_result(self.pool_assets@, coins@) {
                if denoms_distinct(self.pool_assets@) {
                    lemma_same_assets_distinct(self.pool_assets@, b);
                }
            }
        }
        let mut work = copy_assets(&self.pool_assets);
        let n = coins.len();
        for i in 0..n
            invariant
                n == coins@.len(),
                join_result(self.pool_assets@, coins@.take(i as int)) == Ok::<
                    Seq<Asset>,
                    ContractError,
                >(work@),
        {
            assert(coins@.take(i as int + 1).drop_last() =~= coins@.take(i as int));
            let coin = &coins[i];
            proof { lemma_asset_index_bounds(work@, coin.denom@); }
            match find_asset_index(&work, &coin.denom) {
                None => {
                    proof { lemma_join_error_sticks(self.pool_assets@, coins@, i as int + 1); }
                    return Err(ContractError::InvalidPoolAssetDenom { denom: coin.denom.clone() });
                },
                Some(j) => {
                    match work[j].amount.checked_add(coin.amount) {
                        None => {
                            proof { lemma_join_error_sticks(self.pool_assets@, coins@, i as int + 1); }
                            return Err(ContractError::Overflow);
                        },
                        Some(v) => {
                            let a = Asset {
                                amount: v,
                                denom: work[j].denom.clone(),
                                normalization_factor: work[j].normalization_factor,
                                is_corrupted: work[j].is_corrupted,
                            };
                            work.set(j, a);
                        },
                    }
                },
            }
        }
        assert(coins@.take(n as int) =~= coins@);
        self.pool_assets = work;
        Ok(())
    }

    /// Takes `coins` out of the pool, one after the other.
    pub fn exit_pool(&mut self, coins: &[Coin]) -> (r: Result<(), ContractError>)
        ensures
            match exit_result(old(self).pool_assets@, coins@) {
                Ok(a) => r is Ok && final(self).pool_assets@ == a,
                Err(e) => r == Err::<(), ContractError>(e) && *final(self) == *old(self),
            },
            denoms_distinct(old(self).pool_assets@) ==> denoms_distinct(final(self).pool_assets@),
    {
        proof {
            lemma_exit_same_assets(self.pool_assets@, coins@);
            if let Ok(b) = exit_result(self.pool_assets@, coins@) {
                if denoms_distinct(self.pool_assets@) {
                    lemma_same_assets_distinct(self.pool_assets@, b);
                }
            }
        }
        let mut work = copy_assets(&self.pool_assets);
        let n = coins.len();
        for i in 0..n
            invariant
                n == coins@.len(),
                exit_result(self.pool_assets@, coins@.take(i as int)) == Ok::<
                    Seq<Asset>,
                    ContractError,
                >(work@),
        {
            assert(coins@.take(i as int + 1).drop_last() =~= coins@.take(i as int));
            let coin = &coins[i];
            proof { lemma_asset_index_bounds(work@, coin.denom@); }
            match find_asset_index(&work, &coin.denom) {
                None => {
                    proof { lemma_exit_error_sticks(self.pool_assets@, coins@, i as int + 1); }
                    return Err(ContractError::InvalidPoolAssetDenom { denom: coin.denom.clone() });
                },
                Some(j) => {
                    if coin.amount > work[j].amount {
                        proof { lemma_exit_error_sticks(self.pool_assets@, coins@, i as int + 1); }
                        return Err(
                            ContractError::InsufficientPoolAsset {
                                required: coin.clone(),
                                available: Coin::new(work[j].amount, work[j].denom.clone()),
                            },
                        );
                    }
                    let a = Asset {
                        amount: work[j].amount - coin.amount,
                        denom: work[j].denom.clone(),
                        normalization_factor: work[j].normalization_factor,
                        is_corrupted: work[j].is_corrupted,
                    };
                    work.set(j, a);
                },
            }
        }
        assert(coins@.take(n as int) =~= coins@);
        self.pool_assets = work;
        Ok(())
    }

    /// Swaps between two assets of the pool at the ratio of their
    /// normalization factors; returns the coin in and the coin out.
    pub fn transmute(
        &mut self,
        constraint: AmountConstraint,
        in_denom: &String,
        out_denom: &String,
    ) -> (r: Result<(Coin, Coin), ContractError>)
        ensures
            match transmute_result(old(self).pool_assets@, constraint, *in_denom, *out_denom) {
                Ok((a, c_in, c_out)) => r == Ok::<(Coin, Coin), ContractError>((c_in, c_out))
                    && final(self).pool_assets@ == a,
                Err(e) => r == Err::<(Coin, Coin), ContractError>(e) && *final(self) == *old(self),
            },
            denoms_distinct(old(self).pool_assets@) ==> denoms_distinct(final(self).pool_assets@),
    {
        proof {
            lemma_transmute_same_assets(self.pool_assets@, constraint, *in_denom, *out_denom);
            if let Ok((b, _, _)) = transmute_result(self.pool_assets@, constraint, *in_denom, *out_denom) {
                if denoms_distinct(self.pool_assets@) {
                    lemma_same_assets_distinct(self.pool_assets@, b);
                }
            }
        }
        let a_in = match self.get_pool_asset_by_denom(in_denom) {
            Err(e) => {
                return Err(e);
            },
            Ok(a) => a,
        };
        let a_out = match self.get_pool_asset_by_denom(out_denom) {
            Err(e) => {
                return Err(e);
            },
            Ok(a) => a,
        };
        let (x, y) = match constraint {
            AmountConstraint::ExactIn(x) => {
                match convert_amount(x, a_in.normalization_factor, a_out.normalization_factor, Rounding::Down) {
                    Err(e) => {
                        return Err(e);
                    },
                    Ok(y) => (x, y),
                }
            },
            AmountConstraint::ExactOut(y) => {
                match convert_amount(y, a_out.normalization_factor, a_in.normalization_factor, Rounding::Up) {
                    Err(e) => {
                        return Err(e);
                    },
                    Ok(x) => (x, y),
                }
            },
        };
        let token_in = Coin::new(x, in_denom.clone());
        let token_out = Coin::new(y, out_denom.clone());
        let ins = [token_in.clone()];
        let outs = [token_out.clone()];
        assert(ins@.drop_last() =~= Seq::<Coin>::empty());
        assert(outs@.drop_last() =~= Seq::<Coin>::empty());
        proof {
            reveal_with_fuel(join_result, 2);
            reveal_with_fuel(exit_result, 2);
        }
        let mut work = AssetPool { pool_assets: copy_assets(&self.pool_assets) };
        match work.join_pool(&ins) {
            Err(e) => {
                return Err(e);
            },
            Ok(()) => {},
        }
        match work.exit_pool(&outs) {
            Err(e) => {
                return Err(e);
            },
            Ok(()) => {},
        }
        self.pool_assets = work.pool_assets;
        Ok((token_in, token_out))
    }

    /// Removes the asset of `denom`, which must be empty.
    pub fn remove_corrupted_asset(&mut self, denom: &String) -> (r: Result<(), ContractError>)
        ensures
            match remove_result(old(self).pool_assets@, *denom) {
                Ok(a) => r is Ok && final(self).pool_assets@ == a,
                Err(e) => r == Err::<(), ContractError>(e) && *final(self) == *old(self),
            },
            denoms_distinct(old(self).pool_assets@) ==> denoms_distinct(final(self).pool_assets@),
    {
        proof {
            if denoms_distinct(self.pool_assets@) {
                lemma_remove_keeps_distinct(self.pool_assets@, *denom);
            }
        }
        proof { lemma_asset_index_bounds(self.pool_assets@, denom@); }
        match find_asset_index(&self.pool_assets, denom) {
            None => Err(ContractError::InvalidPoolAssetDenom { denom: denom.clone() }),
            Some(i) => {
                if self.pool_assets[i].amount != 0 {
                    return Err(ContractError::InvalidAssetRemoval { denom: denom.clone() });
                }
                self.pool_assets.remove(i);
                Ok(())
            },
        }
    }
}

/// Overwriting an asset with one of the same denomination keeps every index.
pub proof fn lemma_asset_index_update(assets: Seq<Asset>, i: int, a: Asset, denom: Seq<char>)
    requires
        0 <= i < assets.len(),
        a.denom@ == assets[i].denom@,
    ensures
        asset_index(assets.update(i, a), denom) == asset_index(assets, denom),
    decreases assets.len(),
{
    let u = assets.update(i, a);
    if i == assets.len() - 1 {
        assert(u.drop_last() =~= assets.drop_last());
    } else {
        lemma_asset_index_update(assets.drop_last(), i, a, denom);
        assert(u.drop_last() =~= assets.drop_last().update(i, a));
    }
}

/// A coin that joined the pool can leave it again, and the pool is then as
/// it was before.
pub proof fn law_join_then_exit(assets: Seq<Asset>, coin: Coin)
    ensures
        join_one(assets, coin) matches Ok(joined) ==> exit_one(joined, coin) == Ok::<
            Seq<Asset>,
            ContractError,
        >(assets),
{
    if let Ok(joined) = join_one(assets, coin) {
        lemma_asset_index_bounds(assets, coin.denom@);
        let i = asset_index(assets, coin.denom@);
        let a = with_amount(assets[i], assets[i].amount + coin.amount);
        lemma_asset_index_update(assets, i, a, coin.denom@);
        assert(joined.update(i, with_amount(joined[i], joined[i].amount - coin.amount)) =~= assets);
    }
}

/// A coin that left the pool can join it again, and the pool is then as it
/// was before.
pub proof fn law_exit_then_join(assets: Seq<Asset>, coin: Coin)
    ensures
        exit_one(assets, coin) matches Ok(exited) ==> join_one(exited, coin) == Ok::<
            Seq<Asset>,
            ContractError,
        >(assets),
{
    if let Ok(exited) = exit_one(assets, coin) {
        lemma_asset_index_bounds(assets, coin.denom@);
        let i = asset_index(assets, coin.denom@);
        let a = with_amount(assets[i], assets[i].amount - coin.amount);
        lemma_asset_index_update(assets, i, a, coin.denom@);
        assert(exited.update(i, with_amount(exited[i], exited[i].amount + coin.amount)) =~= assets);
    }
}

/// A transmutation never lets value leave the pool that did not come in:
/// measured in the common unit, the coin out is worth at most the coin in.
/// The coin in is of `in_denom`, the coin out of `out_denom`, and the fixed
/// side is the amount the constraint names.
pub proof fn law_transmute_favors_pool(
    assets: Seq<Asset>,
    constraint: AmountConstraint,
    in_denom: String,
    out_denom: String,
)
    ensures
        transmute_result(assets, constraint, in_denom, out_denom) matches Ok((_, c_in, c_out)) ==> {
            let nf_in = assets[asset_index(assets, in_denom@)].normalization_factor;
            let nf_out = assets[asset_index(assets, out_denom@)].normalization_factor;
            &&& c_out.amount * nf_in <= c_in.amount * nf_out
            &&& c_in.denom == in_denom
            &&& c_out.denom == out_denom
            &&& (constraint matches AmountConstraint::ExactIn(x) ==> c_in.amount == x)
            &&& (constraint matches AmountConstraint::ExactOut(y) ==> c_out.amount == y)
        },
{
    if let Ok((_, c_in, c_out)) = transmute_result(assets, constraint, in_denom, out_denom) {
        let nf_in = assets[asset_index(assets, in_denom@)].normalization_factor;
        let nf_out = assets[asset_index(assets, out_denom@)].normalization_factor;
        match constraint {
            AmountConstraint::ExactIn(x) => {
                law_conversion_favors_pool(x, nf_in, nf_out);
            },
            AmountConstraint::ExactOut(y) => {
                law_conversion_favors_pool(y, nf_out, nf_in);
            },
        }
    }
}

/// Asking for exactly what a swap with a fixed amount in paid out never
/// costs more than that amount in. It holds for pools whose normalization
/// factors are all positive, between two different denominations.
pub proof fn law_exact_in_then_exact_out(
    assets: Seq<Asset>,
    in_denom: String,
    out_denom: String,
    amount_in: u128,
)
    requires
        in_denom@ != out_denom@,
        forall|k: int| 0 <= k < assets.len() ==> #[trigger] assets[k].normalization_factor > 0,
    ensures
        transmute_result(assets, AmountConstraint::ExactIn(amount_in), in_denom, out_denom) matches Ok(
            (_, _, c_out),
        ) ==> (transmute_result(
            assets,
            AmountConstraint::ExactOut(c_out.amount),
            in_denom,
            out_denom,
        ) matches Ok((_, c_in, _)) && c_in.amount <= amount_in),
{
    if let Ok((_, _, c_out)) = transmute_result(
        assets,
        AmountConstraint::ExactIn(amount_in),
        in_denom,
        out_denom,
    ) {
        lemma_asset_index_bounds(assets, in_denom@);
        lemma_asset_index_bounds(assets, out_denom@);
        let i = asset_index(assets, in_denom@);
        let j = asset_index(assets, out_denom@);
        let nf_in = assets[i].normalization_factor;
        let nf_out = assets[j].normalization_factor;
        lemma_floor_then_ceil(amount_in as int, nf_out as int, nf_in as int);
        let y = c_out.amount;
        let x2 = conversion(y, nf_out, nf_in, Rounding::Up)->Ok_0;
        let joined2 = assets.update(i, with_amount(assets[i], assets[i].amount + x2));
        lemma_asset_index_update(assets, i, with_amount(assets[i], assets[i].amount + x2), out_denom@);
        let joined = assets.update(i, with_amount(assets[i], assets[i].amount + amount_in));
        lemma_asset_index_update(assets, i, with_amount(assets[i], assets[i].amount + amount_in), out_denom@);
        assert(joined2[j] == assets[j]);
        assert(joined[j] == assets[j]);
    }
}

/// No two assets share a denomination.
pub open spec fn denoms_distinct(assets: Seq<Asset>) -> bool {
    forall|i: int, j: int|
        0 <= i < j < assets.len() ==> #[trigger] assets[i].denom@ != #[trigger] assets[j].denom@
}

/// `b` has the assets of `a`, in the same order, with the same
/// denominations and normalization factors; only amounts may differ.
pub open spec fn same_assets(a: Seq<Asset>, b: Seq<Asset>) -> bool {
    &&& a.len() == b.len()
    &&& forall|k: int|
        0 <= k < a.len() ==> #[trigger] b[k].denom == a[k].denom && b[k].normalization_factor
            == a[k].normalization_factor && b[k].is_corrupted == a[k].is_corrupted
}

pub proof fn lemma_same_assets_distinct(a: Seq<Asset>, b: Seq<Asset>)
    requires
        same_assets(a, b),
        denoms_distinct(a),
    ensures
        denoms_distinct(b),
{
    assert forall|i: int, j: int| 0 <= i < j < b.len() implies #[trigger] b[i].denom@ != #[trigger] b[j].denom@ by {
        assert(a[i].denom@ != a[j].denom@);
    }
}

/// Joining coins changes amounts only.
pub proof fn lemma_join_same_assets(assets: Seq<Asset>, coins: Seq<Coin>)
    ensures
        join_result(assets, coins) matches Ok(b) ==> same_assets(assets, b),
    decreases coins.len(),
{
    if coins.len() > 0 {
        lemma_join_same_assets(assets, coins.drop_last());
        if let Ok(p) = join_result(assets, coins.drop_last()) {
            lemma_asset_index_bounds(p, coins.last().denom@);
        }
    }
}

/// Taking coins out changes amounts only.
pub proof fn lemma_exit_same_assets(assets: Seq<Asset>, coins: Seq<Coin>)
    ensures
        exit_result(assets, coins) matches Ok(b) ==> same_assets(assets, b),
    decreases coins.len(),
{
    if coins.len() > 0 {
        lemma_exit_same_assets(assets, coins.drop_last());
        if let Ok(p) = exit_result(assets, coins.drop_last()) {
            lemma_asset_index_bounds(p, coins.last().denom@);
        }
    }
}

/// A transmutation changes amounts only.
pub proof fn lemma_transmute_same_assets(
    assets: Seq<Asset>,
    constraint: AmountConstraint,
    in_denom: String,
    out_denom: String,
)
    ensures
        transmute_result(assets, constraint, in_denom, out_denom) matches Ok((b, _, _)) ==> same_assets(
            assets,
            b,
        ),
{
    if let Ok((b, c_in, c_out)) = transmute_result(assets, constraint, in_denom, out_denom) {
        reveal_with_fuel(join_result, 2);
        reveal_with_fuel(exit_result, 2);
        assert(seq![c_in].drop_last() =~= Seq::<Coin>::empty());
        assert(seq![c_out].drop_last() =~= Seq::<Coin>::empty());
        lemma_join_same_assets(assets, seq![c_in]);
        let joined = join_one(assets, c_in)->Ok_0;
        lemma_exit_same_assets(joined, seq![c_out]);
    }
}

/// Removing an asset keeps the others' denominations distinct.
pub proof fn lemma_remove_keeps_distinct(assets: Seq<Asset>, denom: String)
    requires
        denoms_distinct(assets),
    ensures
        remove_result(assets, denom) matches Ok(b) ==> denoms_distinct(b),
{
    if let Ok(b) = remove_result(assets, denom) {
        lemma_asset_index_bounds(assets, denom@);
        let i = asset_index(assets, denom@);
        assert(b.len() == assets.len() - 1);
        assert forall|x: int, y: int| 0 <= x < y < b.len() implies #[trigger] b[x].denom@ != #[trigger] b[y].denom@ by {
            let x0 = if x < i { x } else { x + 1 };
            let y0 = if y < i { y } else { y + 1 };
            assert(b[x] == assets[x0]);
            assert(b[y] == assets[y0]);
        }
    }
}

/// Looking up a denomination that some asset of the pool has always finds
/// an asset of that denomination, wherever it stands; a lookup fails only
/// when no asset has the denomination. Where denominations are distinct, the
/// asset found is the one that has it.
pub proof fn law_asset_lookup_finds_any_position(assets: Seq<Asset>, denom: Seq<char>, k: int)
    ensures
        0 <= k < assets.len() && assets[k].denom@ == denom ==> asset_index(assets, denom) >= 0,
        asset_index(assets, denom) >= 0 ==> asset_index(assets, denom) < assets.len()
            && assets[asset_index(assets, denom)].denom@ == denom,
        asset_index(assets, denom) < 0 ==> forall|j: int|
            0 <= j < assets.len() ==> #[trigger] assets[j].denom@ != denom,
        denoms_distinct(assets) && 0 <= k < assets.len() && assets[k].denom@ == denom
            ==> asset_index(assets, denom) == k,
    decreases assets.len(),
{
    lemma_asset_index_bounds(assets, denom);
    if assets.len() > 0 {
        let d = assets.drop_last();
        law_asset_lookup_finds_any_position(d, denom, k);
        if asset_index(assets, denom) < 0 {
            assert forall|j: int| 0 <= j < assets.len() implies #[trigger] assets[j].denom@ != denom by {
                if j < assets.len() - 1 {
                    assert(assets[j] == d[j]);
                }
            }
        }
        if denoms_distinct(assets) && 0 <= k < assets.len() && assets[k].denom@ == denom {
            if k < assets.len() - 1 {
                assert(assets[k] == d[k]);
                assert(assets[k].denom@ != assets[assets.len() - 1].denom@);
                assert forall|x: int, y: int| 0 <= x < y < d.len() implies #[trigger] d[x].denom@ != #[trigger] d[y].denom@ by {
                    assert(d[x] == assets[x] && d[y] == assets[y]);
                }
            }
        }
    }
}

/// Pairing gives each coin, in order, beside the normalization factor of
/// its own asset; it fails exactly when some coin's denomination is not in
/// the pool.
pub proof fn law_pairing_uses_own_factor(assets: Seq<Asset>, coins: Seq<Coin>)
    ensures
        pair_result(assets, coins) matches Ok(ps) ==> {
            &&& ps.len() == coins.len()
            &&& forall|k: int|
                0 <= k < coins.len() ==> #[trigger] ps[k].0 == coins[k] && asset_index(
                    assets,
                    coins[k].denom@,
                ) >= 0 && ps[k].1 == assets[asset_index(assets, coins[k].denom@)].normalization_factor
        },
        pair_result(assets, coins) is Err <==> exists|k: int|
            0 <= k < coins.len() && asset_index(assets, #[trigger] coins[k].denom@) < 0,
    decreases coins.len(),
{
    if coins.len() > 0 {
        let d = coins.drop_last();
        law_pairing_uses_own_factor(assets, d);
        if pair_result(assets, coins) is Err {
            if pair_result(assets, d) is Err {
                let k = choose|k: int| 0 <= k < d.len() && asset_index(assets, #[trigger] d[k].denom@) < 0;
                assert(coins[k] == d[k]);
            } else {
                assert(asset_index(assets, coins[coins.len() - 1].denom@) < 0);
            }
        } else {
            assert forall|k: int| 0 <= k < coins.len() implies asset_index(assets, #[trigger] coins[k].denom@) >= 0 by {
                if k < coins.len() - 1 {
                    assert(coins[k] == d[k]);
                }
            }
        }
    }
}


/// Pools with the same assets find every denomination at the same index.
pub proof fn lemma_same_assets_index(a: Seq<Asset>, b: Seq<Asset>, denom: Seq<char>)
    requires
        same_assets(a, b),
    ensures
        asset_index(a, denom) == asset_index(b, denom),
    decreases a.len(),
{
    if a.len() > 0 {
        assert(a.last().denom == b.last().denom);
        lemma_same_assets_index(a.drop_last(), b.drop_last(), denom);
    }
}

/// Taking out coins of distinct denominations succeeds exactly when each
/// coin's denomination is in the pool and its amount is within that asset's
/// liquidity. Then each coin's asset holds the coin's amount less, every
/// other asset keeps its amount, and no asset is added or removed.
pub proof fn law_exit_distinct_coins(assets: Seq<Asset>, coins: Seq<Coin>)
    requires
        forall|i: int, j: int|
            0 <= i < j < coins.len() ==> #[trigger] coins[i].denom@ != #[trigger] coins[j].denom@,
    ensures
        exit_result(assets, coins) is Ok <==> forall|j: int|
            0 <= j < coins.len() ==> asset_index(assets, #[trigger] coins[j].denom@) >= 0
                && coins[j].amount <= liquidity_of(assets, coins[j].denom@),
        exit_result(assets, coins) matches Ok(b) ==> {
            &&& same_assets(assets, b)
            &&& forall|j: int|
                0 <= j < coins.len() ==> b[asset_index(assets, #[trigger] coins[j].denom@)].amount
                    == assets[asset_index(assets, coins[j].denom@)].amount - coins[j].amount
            &&& forall|k: int|
                0 <= k < assets.len() && (forall|j: int|
                    0 <= j < coins.len() ==> asset_index(assets, #[trigger] coins[j].denom@) != k)
                    ==> #[trigger] b[k].amount == assets[k].amount
        },
    decreases coins.len(),
{
    lemma_exit_same_assets(assets, coins);
    if coins.len() > 0 {
        let d = coins.drop_last();
        let n = coins.len() - 1;
        let c = coins.last();
        assert forall|i: int, j: int| 0 <= i < j < d.len() implies #[trigger] d[i].denom@ != #[trigger] d[j].denom@ by {
            assert(d[i] == coins[i] && d[j] == coins[j]);
        }
        law_exit_distinct_coins(assets, d);
        lemma_asset_index_bounds(assets, c.denom@);
        let i = asset_index(assets, c.denom@);
        match exit_result(assets, d) {
            Err(_) => {
                let j = choose|j: int| 0 <= j < d.len() && !(asset_index(assets, #[trigger] d[j].denom@) >= 0
                    && d[j].amount <= liquidity_of(assets, d[j].denom@));
                assert(coins[j] == d[j]);
            },
            Ok(a) => {
                lemma_exit_same_assets(assets, d);
                lemma_same_assets_index(assets, a, c.denom@);
                if i >= 0 {
                    assert forall|j: int| 0 <= j < d.len() implies asset_index(assets, #[trigger] d[j].denom@) != i by {
                        assert(d[j] == coins[j]);
                        assert(coins[j].denom@ != coins[n].denom@);
                        lemma_asset_index_bounds(assets, d[j].denom@);
                    }
                    assert(a[i].amount == assets[i].amount);
                }
                if exit_result(assets, coins) is Ok {
                    assert forall|j: int| 0 <= j < coins.len() implies asset_index(assets, #[trigger] coins[j].denom@) >= 0
                        && coins[j].amount <= liquidity_of(assets, coins[j].denom@) by {
                        if j < n {
                            assert(coins[j] == d[j]);
                        }
                    }
                    let b = exit_result(assets, coins)->Ok_0;
                    assert forall|j: int| 0 <= j < coins.len() implies b[asset_index(assets, #[trigger] coins[j].denom@)].amount
                        == assets[asset_index(assets, coins[j].denom@)].amount - coins[j].amount by {
                        if j < n {
                            assert(coins[j] == d[j]);
                            lemma_asset_index_bounds(assets, d[j].denom@);
                        }
                    }
                    assert forall|k: int| 0 <= k < assets.len() && (forall|j: int|
                        0 <= j < coins.len() ==> asset_index(assets, #[trigger] coins[j].denom@) != k)
                        implies #[trigger] b[k].amount == assets[k].amount by {
                        assert forall|j: int| 0 <= j < d.len() implies asset_index(assets, #[trigger] d[j].denom@) != k by {
                            assert(d[j] == coins[j]);
                        }
                        assert(asset_index(assets, coins[n].denom@) != k);
                    }
                } else {
                    assert(!(asset_index(assets, coins[n].denom@) >= 0 && coins[n].amount <= liquidity_of(
                        assets,
                        coins[n].denom@,
                    )));
                }
            },
        }
    }
}


/// With distinct denominations, the asset found for a denomination is the
/// one that has it.
pub proof fn lemma_index_is_denom(assets: Seq<Asset>, denom: Seq<char>)
    requires
        denoms_distinct(assets),
    ensures
        forall|k: int| 0 <= k < assets.len() ==> (asset_index(assets, denom) == k <==> #[trigger] assets[k].denom@ == denom),
{
    lemma_asset_index_bounds(assets, denom);
    assert forall|k: int| 0 <= k < assets.len() implies (asset_index(assets, denom) == k <==> #[trigger] assets[k].denom@ == denom) by {
        law_asset_lookup_finds_any_position(assets, denom, k);
    }
}

/// A coin joining a pool of distinct denominations adds its amount to the
/// asset of its denomination and to no other.
pub proof fn lemma_join_one_moves(assets: Seq<Asset>, coin: Coin)
    requires
        denoms_distinct(assets),
    ensures
        join_one(assets, coin) matches Ok(b) ==> same_assets(assets, b) && denoms_distinct(b) && forall|k: int|
            0 <= k < assets.len() ==> #[trigger] b[k].amount == assets[k].amount + (if assets[k].denom@ == coin.denom@ {
                coin.amount as int
            } else {
                0
            }),
        join_result(assets, seq![coin]) == join_one(assets, coin),
{
    reveal_with_fuel(join_result, 2);
    assert(seq![coin].drop_last() =~= Seq::<Coin>::empty());
    lemma_join_same_assets(assets, seq![coin]);
    lemma_index_is_denom(assets, coin.denom@);
    if let Ok(b) = join_one(assets, coin) {
        lemma_same_assets_distinct(assets, b);
        lemma_asset_index_bounds(assets, coin.denom@);
        let i = asset_index(assets, coin.denom@);
        assert forall|k: int|
            0 <= k < assets.len() implies #[trigger] b[k].amount == assets[k].amount + (if assets[k].denom@ == coin.denom@ {
                coin.amount as int
            } else {
                0
            }) by {
            if k != i {
                assert(b[k] == assets[k]);
            }
        }
    }
}

/// A coin leaving a pool of distinct denominations takes its amount from the
/// asset of its denomination and from no other.
pub proof fn lemma_exit_one_moves(assets: Seq<Asset>, coin: Coin)
    requires
        denoms_distinct(assets),
    ensures
        exit_one(assets, coin) matches Ok(b) ==> same_assets(assets, b) && denoms_distinct(b) && forall|k: int|
            0 <= k < assets.len() ==> #[trigger] b[k].amount == assets[k].amount - (if assets[k].denom@ == coin.denom@ {
                coin.amount as int
            } else {
                0
            }),
        exit_result(assets, seq![coin]) == exit_one(assets, coin),
{
    reveal_with_fuel(exit_result, 2);
    assert(seq![coin].drop_last() =~= Seq::<Coin>::empty());
    lemma_exit_same_assets(assets, seq![coin]);
    lemma_index_is_denom(assets, coin.denom@);
    if let Ok(b) = exit_one(assets, coin) {
        lemma_same_assets_distinct(assets, b);
        lemma_asset_index_bounds(assets, coin.denom@);
        let i = asset_index(assets, coin.denom@);
        assert forall|k: int|
            0 <= k < assets.len() implies #[trigger] b[k].amount == assets[k].amount - (if assets[k].denom@ == coin.denom@ {
                coin.amount as int
            } else {
                0
            }) by {
            if k != i {
                assert(b[k] == assets[k]);
            }
        }
    }
}


/// The total amount of the coins of `denom` among `coins`.
pub open spec fn total_of(coins: Seq<Coin>, denom: Seq<char>) -> int
    decreases coins.len(),
{
    if coins.len() == 0 {
        0
    } else {
        total_of(coins.drop_last(), denom) + if coins.last().denom@ == denom {
            coins.last().amount as int
        } else {
            0
        }
    }
}

/// Joining coins to a pool of distinct denominations succeeds exactly when
/// every coin's denomination is in the pool and no asset would hold more
/// than `u128::MAX`. Each asset then holds, on top of its amount, the total
/// of the coins of its denomination, and nothing else changes.
pub proof fn law_join_adds_totals(assets: Seq<Asset>, coins: Seq<Coin>)
    requires
        denoms_distinct(assets),
    ensures
        join_result(assets, coins) is Ok <==> {
            &&& forall|j: int| 0 <= j < coins.len() ==> asset_index(assets, #[trigger] coins[j].denom@) >= 0
            &&& forall|k: int|
                0 <= k < assets.len() ==> #[trigger] assets[k].amount + total_of(coins, assets[k].denom@)
                    <= u128::MAX
        },
        join_result(assets, coins) matches Ok(b) ==> same_assets(assets, b) && forall|k: int|
            0 <= k < assets.len() ==> #[trigger] b[k].amount == assets[k].amount + total_of(
                coins,
                assets[k].denom@,
            ),
    decreases coins.len(),
{
    lemma_join_same_assets(assets, coins);
    if coins.len() > 0 {
        let d = coins.drop_last();
        let n = coins.len() - 1;
        let c = coins[n];
        law_join_adds_totals(assets, d);
        assert forall|k: int| 0 <= k < assets.len() implies #[trigger] total_of(coins, assets[k].denom@)
            >= total_of(d, assets[k].denom@) by {}
        match join_result(assets, d) {
            Err(_) => {
                if !(forall|j: int| 0 <= j < d.len() ==> asset_index(assets, #[trigger] d[j].denom@) >= 0) {
                    let j = choose|j: int| 0 <= j < d.len() && !(asset_index(assets, #[trigger] d[j].denom@) >= 0);
                    assert(coins[j] == d[j]);
                }
            },
            Ok(a) => {
                lemma_join_same_assets(assets, d);
                lemma_same_assets_distinct(assets, a);
                lemma_same_assets_index(assets, a, c.denom@);
                lemma_join_one_moves(a, c);
                lemma_index_is_denom(assets, c.denom@);
                lemma_asset_index_bounds(assets, c.denom@);
                let i = asset_index(assets, c.denom@);
                assert forall|j: int| 0 <= j < coins.len() && j < n implies asset_index(assets, #[trigger] coins[j].denom@) >= 0 by {
                    assert(coins[j] == d[j]);
                }
                assert forall|k: int| 0 <= k < assets.len() && assets[k].denom@ != c.denom@ implies #[trigger] total_of(coins, assets[k].denom@)
                    == total_of(d, assets[k].denom@) by {}
                if i >= 0 {
                    assert(a[i].denom == assets[i].denom);
                    assert(total_of(coins, assets[i].denom@) == total_of(d, assets[i].denom@) + c.amount);
                }
                if let Ok(b) = join_result(assets, coins) {
                    assert forall|k: int| 0 <= k < assets.len() implies #[trigger] b[k].amount == assets[k].amount + total_of(
                        coins,
                        assets[k].denom@,
                    ) by {
                        assert(a[k].denom == assets[k].denom);
                    }
                }
            },
        }
    }
}

/// Taking coins out of a pool of distinct denominations succeeds exactly
/// when every coin's denomination is in the pool and no asset holds less
/// than the total of the coins of its denomination. Each asset then holds
/// that total less, and nothing else changes.
pub proof fn law_exit_takes_totals(assets: Seq<Asset>, coins: Seq<Coin>)
    requires
        denoms_distinct(assets),
    ensures
        exit_result(assets, coins) is Ok <==> {
            &&& forall|j: int| 0 <= j < coins.len() ==> asset_index(assets, #[trigger] coins[j].denom@) >= 0
            &&& forall|k: int|
                0 <= k < assets.len() ==> total_of(coins, #[trigger] assets[k].denom@) <= assets[k].amount
        },
        exit_result(assets, coins) matches Ok(b) ==> same_assets(assets, b) && forall|k: int|
            0 <= k < assets.len() ==> #[trigger] b[k].amount == assets[k].amount - total_of(
                coins,
                assets[k].denom@,
            ),
    decreases coins.len(),
{
    lemma_exit_same_assets(assets, coins);
    if coins.len() > 0 {
        let d = coins.drop_last();
        let n = coins.len() - 1;
        let c = coins[n];
        law_exit_takes_totals(assets, d);
        assert forall|k: int| 0 <= k < assets.len() implies #[trigger] total_of(coins, assets[k].denom@)
            >= total_of(d, assets[k].denom@) by {}
        match exit_result(assets, d) {
            Err(_) => {
                if !(forall|j: int| 0 <= j < d.len() ==> asset_index(assets, #[trigger] d[j].denom@) >= 0) {
                    let j = choose|j: int| 0 <= j < d.len() && !(asset_index(assets, #[trigger] d[j].denom@) >= 0);
                    assert(coins[j] == d[j]);
                }
            },
            Ok(a) => {
                lemma_exit_same_assets(assets, d);
                lemma_same_assets_distinct(assets, a);
                lemma_same_assets_index(assets, a, c.denom@);
                lemma_exit_one_moves(a, c);
                lemma_index_is_denom(assets, c.denom@);
                lemma_asset_index_bounds(assets, c.denom@);
                let i = asset_index(assets, c.denom@);
                assert forall|j: int| 0 <= j < coins.len() && j < n implies asset_index(assets, #[trigger] coins[j].denom@) >= 0 by {
                    assert(coins[j] == d[j]);
                }
                assert forall|k: int| 0 <= k < assets.len() && assets[k].denom@ != c.denom@ implies #[trigger] total_of(coins, assets[k].denom@)
                    == total_of(d, assets[k].denom@) by {}
                if i >= 0 {
                    assert(a[i].denom == assets[i].denom);
                    assert(total_of(coins, assets[i].denom@) == total_of(d, assets[i].denom@) + c.amount);
                }
                if let Ok(b) = exit_result(assets, coins) {
                    assert forall|k: int| 0 <= k < assets.len() implies #[trigger] b[k].amount == assets[k].amount - total_of(
                        coins,
                        assets[k].denom@,
                    ) by {
                        assert(a[k].denom == assets[k].denom);
                    }
                }
            },
        }
    }
}

} // verus!
