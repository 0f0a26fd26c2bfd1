use transmuter::alloyed_asset::AlloyedAsset;
use transmuter::asset::Asset;
use transmuter::asset_pool::{AmountConstraint, AssetPool};
use transmuter::coin::Coin;
use transmuter::contract::Transmuter;
use transmuter::decimal::Decimal;
use transmuter::error::ContractError;
use transmuter::response::{
    Message, ResponseData, SwapExactAmountInResponseData, SwapExactAmountOutResponseData,
};
use transmuter::swap::{
    set_data_if_sudo, BurnTarget, Entrypoint, LimiterStep, LimiterOutcome, SwapFromAlloyedConstraint, SwapToAlloyedConstraint,
    SwapVariant,
};

const CONTRACT: &str = "cosmos2contract";

fn s(x: &str) -> String {
    x.to_string()
}

fn coin(amount: u128, denom: &str) -> Coin {
    Coin::new(amount, s(denom))
}

fn alloyed() -> AlloyedAsset {
    AlloyedAsset { alloyed_denom: s("alloyed"), normalization_factor: 100 }
}

fn pool_with(amount: u128) -> AssetPool {
    AssetPool {
        pool_assets: vec![Asset::new(amount, s("denom1"), 1), Asset::new(amount, s("denom2"), 10)],
    }
}

#[test]
fn test_swap_variant() {
    let a = s("alloyed");
    assert_eq!(Transmuter::swap_variant(&s("denom1"), &s("denom2"), &a), Ok(SwapVariant::TokenToToken));
    assert_eq!(Transmuter::swap_variant(&s("denom2"), &s("denom1"), &a), Ok(SwapVariant::TokenToToken));
    assert_eq!(
        Transmuter::swap_variant(&s("denom1"), &s("denom1"), &a),
        Err(ContractError::SameDenomNotAllowed { denom: s("denom1") })
    );
    assert_eq!(Transmuter::swap_variant(&s("denom1"), &s("alloyed"), &a), Ok(SwapVariant::TokenToAlloyed));
    assert_eq!(Transmuter::swap_variant(&s("alloyed"), &s("denom1"), &a), Ok(SwapVariant::AlloyedToToken));
    assert_eq!(
        Transmuter::swap_variant(&s("alloyed"), &s("alloyed"), &a),
        Err(ContractError::SameDenomNotAllowed { denom: s("alloyed") })
    );
}

fn mint(amount: u128, to: &str) -> Message {
    Message::Mint { sender: s(CONTRACT), amount: coin(amount, "alloyed"), mint_to_address: s(to) }
}

fn burn(amount: u128, from: &str) -> Message {
    Message::Burn { sender: s(CONTRACT), amount: coin(amount, "alloyed"), burn_from_address: s(from) }
}

fn send(to: &str, coins: Vec<Coin>) -> Message {
    Message::BankSend { to_address: s(to), amount: coins }
}

#[test]
fn test_swap_tokens_to_alloyed_asset() {
    let cases: Vec<(Entrypoint, SwapToAlloyedConstraint, Option<ResponseData>)> = vec![
        (
            Entrypoint::Exec,
            SwapToAlloyedConstraint::ExactIn { tokens_in: vec![coin(100, "denom1")], token_out_min_amount: 1 },
            None,
        ),
        (
            Entrypoint::Sudo,
            SwapToAlloyedConstraint::ExactIn { tokens_in: vec![coin(100, "denom1")], token_out_min_amount: 1 },
            Some(ResponseData::SwapExactAmountIn(SwapExactAmountInResponseData { token_out_amount: 10000 })),
        ),
        (
            Entrypoint::Exec,
            SwapToAlloyedConstraint::ExactOut {
                token_in_denom: s("denom1"),
                token_in_max_amount: 100,
                token_out_amount: 10000,
            },
            None,
        ),
        (
            Entrypoint::Sudo,
            SwapToAlloyedConstraint::ExactOut {
                token_in_denom: s("denom1"),
                token_in_max_amount: 100,
                token_out_amount: 10000,
            },
            Some(ResponseData::SwapExactAmountOut(SwapExactAmountOutResponseData { token_in_amount: 100 })),
        ),
    ];
    for (entrypoint, constraint, data) in cases {
        let mut pool = pool_with(1000);
        let res = Transmuter::swap_tokens_to_alloyed_asset(
            entrypoint,
            constraint,
            s("addr1"),
            &mut pool,
            &alloyed(),
            s(CONTRACT),
        )
        .unwrap();
        let (res, step) = res;
        assert_eq!(step, LimiterStep::CheckAndUpdate);
        assert_eq!(res.messages, vec![mint(10000, "addr1")]);
        assert_eq!(res.data, data);
        assert!(res.attributes.is_empty());
        assert_eq!(pool.pool_assets[0].amount, 1100);
        assert_eq!(pool.pool_assets[1].amount, 1000);
    }
}

#[test]
fn test_swap_alloyed_asset_to_tokens() {
    let cases: Vec<(Entrypoint, SwapFromAlloyedConstraint, BurnTarget, &str, Option<ResponseData>)> = vec![
        (
            Entrypoint::Exec,
            SwapFromAlloyedConstraint::ExactIn {
                token_out_denom: s("denom1"),
                token_out_min_amount: 1,
                token_in_amount: 100,
            },
            BurnTarget::SenderAccount,
            "addr1",
            None,
        ),
        (
            Entrypoint::Sudo,
            SwapFromAlloyedConstraint::ExactIn {
                token_out_denom: s("denom1"),
                token_out_min_amount: 1,
                token_in_amount: 100,
            },
            BurnTarget::SentFunds,
            CONTRACT,
            Some(ResponseData::SwapExactAmountIn(SwapExactAmountInResponseData { token_out_amount: 1 })),
        ),
        (
            Entrypoint::Exec,
            SwapFromAlloyedConstraint::ExactOut { tokens_out: vec![coin(1, "denom1")], token_in_max_amount: 100 },
            BurnTarget::SenderAccount,
            "addr1",
            None,
        ),
        (
            Entrypoint::Sudo,
            SwapFromAlloyedConstraint::ExactOut { tokens_out: vec![coin(1, "denom1")], token_in_max_amount: 100 },
            BurnTarget::SentFunds,
            CONTRACT,
            Some(ResponseData::SwapExactAmountOut(SwapExactAmountOutResponseData { token_in_amount: 100 })),
        ),
    ];
    for (entrypoint, constraint, target, burn_from, data) in cases {
        let mut pool = pool_with(1000000000000);
        let res = Transmuter::swap_alloyed_asset_to_tokens(
            entrypoint,
            constraint,
            target,
            s("addr1"),
            2000000000000,
            &mut pool,
            &alloyed(),
            s(CONTRACT),
        )
        .unwrap();
        let (res, step) = res;
        assert_eq!(step, LimiterStep::CheckAndUpdate);
        assert_eq!(res.messages, vec![burn(100, burn_from), send("addr1", vec![coin(1, "denom1")])]);
        assert_eq!(res.data, data);
        assert_eq!(pool.pool_assets[0].amount, 999999999999);
    }
}

#[test]
fn test_swap_alloyed_asset_to_tokens_needs_balance() {
    let mut pool = pool_with(1000000000000);
    let res = Transmuter::swap_alloyed_asset_to_tokens(
        Entrypoint::Exec,
        SwapFromAlloyedConstraint::ExactIn {
            token_out_denom: s("denom1"),
            token_out_min_amount: 1,
            token_in_amount: 100,
        },
        BurnTarget::SenderAccount,
        s("addr1"),
        99,
        &mut pool,
        &alloyed(),
        s(CONTRACT),
    );
    assert_eq!(res, Err(ContractError::InsufficientShares { required: 100, available: 99 }));
    assert_eq!(pool, pool_with(1000000000000));
}

#[test]
fn test_swap_alloyed_asset_to_tokens_zero_out() {
    let mut pool = pool_with(1000000000000);
    let res = Transmuter::swap_alloyed_asset_to_tokens(
        Entrypoint::Exec,
        SwapFromAlloyedConstraint::ExactOut { tokens_out: vec![coin(0, "denom1")], token_in_max_amount: 100 },
        BurnTarget::SentFunds,
        s("addr1"),
        0,
        &mut pool,
        &alloyed(),
        s(CONTRACT),
    );
    assert_eq!(res, Err(ContractError::ZeroValueOperation));
}

#[test]
fn test_force_exit_of_corrupted_asset() {
    let mut pool = pool_with(500);
    pool.pool_assets[1].is_corrupted = true;
    let res = Transmuter::swap_alloyed_asset_to_tokens(
        Entrypoint::Exec,
        SwapFromAlloyedConstraint::ExactOut { tokens_out: vec![coin(500, "denom2")], token_in_max_amount: 5000 },
        BurnTarget::SentFunds,
        s("addr1"),
        0,
        &mut pool,
        &alloyed(),
        s(CONTRACT),
    )
    .unwrap();
    let (res, step) = res;
    assert_eq!(step, LimiterStep::ResetAndDeregister);
    assert_eq!(res.messages, vec![burn(5000, CONTRACT), send("addr1", vec![coin(500, "denom2")])]);
    assert_eq!(pool.pool_assets, vec![Asset::new(500, s("denom1"), 1)]);
}

#[test]
fn test_partial_exit_of_corrupted_asset_keeps_it() {
    let mut pool = pool_with(500);
    pool.pool_assets[1].is_corrupted = true;
    let (_, step) = Transmuter::swap_alloyed_asset_to_tokens(
        Entrypoint::Exec,
        SwapFromAlloyedConstraint::ExactOut { tokens_out: vec![coin(100, "denom2")], token_in_max_amount: 5000 },
        BurnTarget::SentFunds,
        s("addr1"),
        0,
        &mut pool,
        &alloyed(),
        s(CONTRACT),
    )
    .unwrap();
    assert_eq!(step, LimiterStep::CheckAndUpdate);
    assert_eq!(pool.pool_assets.len(), 2);
    assert_eq!(pool.pool_assets[1].amount, 400);
}

#[test]
fn test_swap_tokens_to_alloyed_asset_errors() {
    let mut pool = pool_with(1000);
    let empty = Transmuter::swap_tokens_to_alloyed_asset(
        Entrypoint::Exec,
        SwapToAlloyedConstraint::ExactIn { tokens_in: vec![], token_out_min_amount: 0 },
        s("addr1"),
        &mut pool,
        &alloyed(),
        s(CONTRACT),
    );
    assert_eq!(empty, Err(ContractError::AtLeastSingleTokenExpected));
    let unknown = Transmuter::swap_tokens_to_alloyed_asset(
        Entrypoint::Exec,
        SwapToAlloyedConstraint::ExactIn { tokens_in: vec![coin(5, "denomx")], token_out_min_amount: 0 },
        s("addr1"),
        &mut pool,
        &alloyed(),
        s(CONTRACT),
    );
    assert_eq!(unknown, Err(ContractError::InvalidPoolAssetDenom { denom: s("denomx") }));
    let too_little = Transmuter::swap_tokens_to_alloyed_asset(
        Entrypoint::Exec,
        SwapToAlloyedConstraint::ExactIn { tokens_in: vec![coin(1, "denom2")], token_out_min_amount: 11 },
        s("addr1"),
        &mut pool,
        &alloyed(),
        s(CONTRACT),
    );
    assert_eq!(too_little, Err(ContractError::InsufficientTokenOut { min_required: 11, amount_out: 10 }));
    let too_much = Transmuter::swap_tokens_to_alloyed_asset(
        Entrypoint::Exec,
        SwapToAlloyedConstraint::ExactOut {
            token_in_denom: s("denom2"),
            token_in_max_amount: 0,
            token_out_amount: 1,
        },
        s("addr1"),
        &mut pool,
        &alloyed(),
        s(CONTRACT),
    );
    assert_eq!(too_much, Err(ContractError::ExcessiveRequiredTokenIn { limit: 0, required: 1 }));
    assert_eq!(pool, pool_with(1000));
}

#[test]
fn test_swap_non_alloyed_exact_amount_in() {
    let cases: Vec<(Coin, &str, u128, Result<(Vec<Coin>, u128), ContractError>)> = vec![
        (coin(100, "denom1"), "denom2", 1000, Ok((vec![coin(1000, "denom2")], 1000))),
        (coin(100, "denom2"), "denom1", 10, Ok((vec![coin(10, "denom1")], 10))),
        (
            coin(100, "denom2"),
            "denom1",
            100,
            Err(ContractError::InsufficientTokenOut { min_required: 100, amount_out: 10 }),
        ),
        (
            coin(100000000001, "denom1"),
            "denom2",
            1000000000010,
            Err(ContractError::InsufficientPoolAsset {
                required: coin(1000000000010, "denom2"),
                available: coin(1000000000000, "denom2"),
            }),
        ),
    ];
    for (token_in, out_denom, min, expected) in cases {
        let mut pool = pool_with(1000000000000);
        let res = Transmuter::swap_non_alloyed_exact_amount_in(
            token_in,
            &s(out_denom),
            min,
            s("addr1"),
            &mut pool,
            &alloyed(),
        );
        match expected {
            Ok((coins, amount)) => {
                let (res, step) = res.unwrap();
                assert_eq!(step, LimiterStep::CheckAndUpdate);
                assert_eq!(res.messages, vec![send("addr1", coins)]);
                assert_eq!(
                    res.data,
                    Some(ResponseData::SwapExactAmountIn(SwapExactAmountInResponseData { token_out_amount: amount }))
                );
            }
            Err(e) => {
                assert_eq!(res, Err(e));
                assert_eq!(pool, pool_with(1000000000000));
            }
        }
    }
}

#[test]
fn test_swap_non_alloyed_exact_amount_out() {
    let cases: Vec<(&str, u128, Coin, Result<u128, ContractError>)> = vec![
        ("denom1", 100, coin(1000, "denom2"), Ok(100)),
        ("denom2", 100, coin(10, "denom1"), Ok(100)),
        (
            "denom2",
            100,
            coin(100, "denom1"),
            Err(ContractError::ExcessiveRequiredTokenIn { limit: 100, required: 1000 }),
        ),
        (
            "denom1",
            100000000001,
            coin(1000000000010, "denom2"),
            Err(ContractError::InsufficientPoolAsset {
                required: coin(1000000000010, "denom2"),
                available: coin(1000000000000, "denom2"),
            }),
        ),
    ];
    for (in_denom, max, token_out, expected) in cases {
        let mut pool = pool_with(1000000000000);
        let res = Transmuter::swap_non_alloyed_exact_amount_out(
            &s(in_denom),
            max,
            token_out.clone(),
            s("addr1"),
            &mut pool,
            &alloyed(),
        );
        match expected {
            Ok(amount_in) => {
                let (res, step) = res.unwrap();
                assert_eq!(step, LimiterStep::CheckAndUpdate);
                assert_eq!(res.messages, vec![send("addr1", vec![token_out])]);
                assert_eq!(
                    res.data,
                    Some(ResponseData::SwapExactAmountOut(SwapExactAmountOutResponseData {
                        token_in_amount: amount_in
                    }))
                );
            }
            Err(e) => {
                assert_eq!(res, Err(e));
                assert_eq!(pool, pool_with(1000000000000));
            }
        }
    }
}

#[test]
fn test_out_amt_given_in_variants() {
    let pool = pool_with(1000);
    let (p, out) = Transmuter::out_amt_given_in(&pool, &alloyed(), coin(100, "denom1"), &s("alloyed")).unwrap();
    assert_eq!(out, coin(10000, "alloyed"));
    assert_eq!(p.pool_assets[0].amount, 1100);
    let (p, out) = Transmuter::out_amt_given_in(&pool, &alloyed(), coin(1000, "alloyed"), &s("denom2")).unwrap();
    assert_eq!(out, coin(100, "denom2"));
    assert_eq!(p.pool_assets[1].amount, 900);
    let (p, out) = Transmuter::out_amt_given_in(&pool, &alloyed(), coin(15, "denom2"), &s("denom1")).unwrap();
    assert_eq!(out, coin(1, "denom1"));
    assert_eq!(p.pool_assets[0].amount, 999);
    assert_eq!(p.pool_assets[1].amount, 1015);
    assert_eq!(
        Transmuter::out_amt_given_in(&pool, &alloyed(), coin(1, "denom1"), &s("denom1")),
        Err(ContractError::TokenDenomsIdentical)
    );
}

#[test]
fn test_in_amt_given_out_variants() {
    let pool = pool_with(1000);
    let (p, token_in) = Transmuter::in_amt_given_out(&pool, &alloyed(), coin(150, "alloyed"), s("denom1")).unwrap();
    assert_eq!(token_in, coin(2, "denom1"));
    assert_eq!(p.pool_assets[0].amount, 1002);
    let (p, token_in) = Transmuter::in_amt_given_out(&pool, &alloyed(), coin(3, "denom2"), s("alloyed")).unwrap();
    assert_eq!(token_in, coin(30, "alloyed"));
    assert_eq!(p.pool_assets[1].amount, 997);
    let (_, token_in) = Transmuter::in_amt_given_out(&pool, &alloyed(), coin(15, "denom2"), s("denom1")).unwrap();
    assert_eq!(token_in, coin(2, "denom1"));
    assert_eq!(
        Transmuter::in_amt_given_out(&pool, &alloyed(), coin(1, "denom1"), s("denom1")),
        Err(ContractError::TokenDenomsIdentical)
    );
}

#[test]
fn test_ensure_valid_swap_fee() {
    assert_eq!(Transmuter::ensure_valid_swap_fee(Decimal::zero()), Ok(()));
    assert_eq!(
        Transmuter::ensure_valid_swap_fee(Decimal { atomics: 1 }),
        Err(ContractError::InvalidSwapFee { expected: Decimal::zero(), actual: Decimal { atomics: 1 } })
    );
}

#[test]
fn test_set_data_if_sudo() {
    let data = ResponseData::SwapExactAmountIn(SwapExactAmountInResponseData { token_out_amount: 7 });
    let r = set_data_if_sudo(transmuter::response::Response::new(), &Entrypoint::Sudo, data);
    assert_eq!(r.data, Some(data));
    let r = set_data_if_sudo(transmuter::response::Response::new(), &Entrypoint::Exec, data);
    assert_eq!(r.data, None);
}

#[test]
fn test_pool_join_exit_transmute() {
    let mut pool = pool_with(1000);
    pool.join_pool(&[coin(5, "denom1")]).unwrap();
    pool.exit_pool(&[coin(5, "denom1")]).unwrap();
    assert_eq!(pool, pool_with(1000));
    assert_eq!(
        pool.exit_pool(&[coin(1001, "denom2")]),
        Err(ContractError::InsufficientPoolAsset { required: coin(1001, "denom2"), available: coin(1000, "denom2") })
    );
    assert_eq!(
        pool.join_pool(&[coin(1, "denom1"), coin(1, "nope")]),
        Err(ContractError::InvalidPoolAssetDenom { denom: s("nope") })
    );
    assert_eq!(pool, pool_with(1000));
    let (cin, cout) = pool.transmute(AmountConstraint::exact_out(7), &s("denom1"), &s("denom2")).unwrap();
    assert_eq!(cin, coin(1, "denom1"));
    assert_eq!(cout, coin(7, "denom2"));
    let (cin, cout) = pool.transmute(AmountConstraint::exact_in(19), &s("denom2"), &s("denom1")).unwrap();
    assert_eq!(cin, coin(19, "denom2"));
    assert_eq!(cout, coin(1, "denom1"));
    assert_eq!(pool.remove_corrupted_asset(&s("denom1")), Err(ContractError::InvalidAssetRemoval { denom: s("denom1") }));
}

#[test]
fn test_zero_normalization_factor() {
    let mut pool = AssetPool { pool_assets: vec![Asset::new(10, s("a"), 0), Asset::new(10, s("b"), 1)] };
    assert_eq!(
        pool.transmute(AmountConstraint::exact_in(1), &s("a"), &s("b")),
        Err(ContractError::DivideByZero)
    );
}

#[test]
fn test_limiter_step_skipped_for_empty_pool() {
    let mut pool = pool_with(0);
    pool.pool_assets[1].is_corrupted = true;
    // The last healthy liquidity leaves: the pool has no weights afterwards.
    pool.pool_assets[0].amount = 1;
    let (_, step) = Transmuter::swap_alloyed_asset_to_tokens(
        Entrypoint::Exec,
        SwapFromAlloyedConstraint::ExactOut { tokens_out: vec![coin(1, "denom1")], token_in_max_amount: 100 },
        BurnTarget::SentFunds,
        s("addr1"),
        0,
        &mut pool,
        &alloyed(),
        s(CONTRACT),
    )
    .unwrap();
    assert_eq!(step, LimiterStep::Skip);
    assert_eq!(pool.pool_assets[0].amount, 0);
}

#[test]
fn test_settle_limits() {
    let before = pool_with(1000);
    let mut pool = pool_with(1000);
    let (_, step) = Transmuter::swap_tokens_to_alloyed_asset(
        Entrypoint::Exec,
        SwapToAlloyedConstraint::ExactIn { tokens_in: vec![coin(100, "denom1")], token_out_min_amount: 1 },
        s("addr1"),
        &mut pool,
        &alloyed(),
        s(CONTRACT),
    )
    .unwrap();
    assert_eq!(step, LimiterStep::CheckAndUpdate);
    let after = AssetPool { pool_assets: pool.pool_assets.clone() };
    // A passed check keeps the swapped pool.
    assert_eq!(Transmuter::settle_limits(pool_with(1000), &mut pool, step, LimiterOutcome::Passed), Ok(()));
    assert_eq!(pool, after);
    // A refused check undoes the swap with the limiter's error.
    assert_eq!(
        Transmuter::settle_limits(
            pool_with(1000),
            &mut pool,
            step,
            LimiterOutcome::Refused { reason: s("upper limit exceeded") }
        ),
        Err(ContractError::RateLimited { reason: s("upper limit exceeded") })
    );
    assert_eq!(pool, before);
    // A forced exit checks no limit: no outcome refuses it.
    let mut pool = AssetPool { pool_assets: after.pool_assets.clone() };
    assert_eq!(
        Transmuter::settle_limits(
            pool_with(1000),
            &mut pool,
            LimiterStep::ResetAndDeregister,
            LimiterOutcome::Refused { reason: s("x") }
        ),
        Ok(())
    );
    assert_eq!(pool, after);
}
