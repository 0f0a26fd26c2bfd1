use transmuter::alloyed_asset::{swap_from_alloyed, swap_to_alloyed};
use transmuter::asset::Asset;
use transmuter::asset_pool::{AmountConstraint, AssetPool};
use transmuter::coin::Coin;
use transmuter::error::ContractError;
use transmuter::math::{convert_amount, Rounding};

#[test]
fn test_convert_amount_exact_values() {
    assert_eq!(convert_amount(100, 1, 10, Rounding::Down), Ok(1000));
    assert_eq!(convert_amount(5, 3, 1, Rounding::Down), Ok(1));
    assert_eq!(convert_amount(5, 3, 1, Rounding::Up), Ok(2));
    assert_eq!(convert_amount(6, 3, 1, Rounding::Up), Ok(2));
    assert_eq!(convert_amount(123456, 21, 8, Rounding::Down), Ok(47030));
    assert_eq!(convert_amount(123456, 21, 8, Rounding::Up), Ok(47031));
}

#[test]
fn test_convert_amount_wide_intermediate() {
    // The product exceeds u128 but the result fits.
    assert_eq!(convert_amount(u128::MAX, 7, 3, Rounding::Down), Ok(u128::MAX / 7 * 3 + (u128::MAX % 7) * 3 / 7));
    assert_eq!(convert_amount(u128::MAX, u128::MAX, u128::MAX, Rounding::Up), Ok(u128::MAX));
}

#[test]
fn test_convert_amount_errors() {
    assert_eq!(convert_amount(1, 0, 1, Rounding::Down), Err(ContractError::DivideByZero));
    assert_eq!(convert_amount(u128::MAX, 1, 2, Rounding::Down), Err(ContractError::Overflow));
    assert_eq!(convert_amount(u128::MAX, 2, 3, Rounding::Up), Err(ContractError::Overflow));
}

#[test]
fn test_round_trip_never_gains() {
    for amount in [0u128, 1, 7, 99, 1000, 12345] {
        for (f, t) in [(1u128, 10u128), (10, 1), (3, 7), (100, 1)] {
            let there = convert_amount(amount, f, t, Rounding::Down).unwrap();
            let back = convert_amount(there, t, f, Rounding::Down).unwrap();
            assert!(back <= amount);
            let there = convert_amount(amount, f, t, Rounding::Up).unwrap();
            let back = convert_amount(there, t, f, Rounding::Up).unwrap();
            assert!(back >= amount);
        }
    }
}

#[test]
fn test_mint_then_cost_never_exceeds_deposit() {
    let minted = swap_to_alloyed::out_amount_via_exact_in(&[(Coin::new(7, "d".to_string()), 10)], 0, 3).unwrap();
    assert_eq!(minted, 2);
    let cost = swap_to_alloyed::in_amount_via_exact_out(10, u128::MAX, minted, 3).unwrap();
    assert_eq!(cost, 7);
    let paid = swap_from_alloyed::out_amount_via_exact_in(7, 3, 10, 0).unwrap();
    assert_eq!(paid, 23);
    let burned = swap_from_alloyed::in_amount_via_exact_out(u128::MAX, 3, &[(Coin::new(paid, "d".to_string()), 10)]).unwrap();
    assert_eq!(burned, 7);
    assert_eq!(
        swap_from_alloyed::in_amount_via_exact_out(6, 3, &[(Coin::new(paid, "d".to_string()), 10)]),
        Err(transmuter::error::ContractError::ExcessiveRequiredTokenIn { limit: 6, required: 7 })
    );
    assert_eq!(
        swap_to_alloyed::out_amount_via_exact_in(&[(Coin::new(u128::MAX, "d".to_string()), 1), (Coin::new(1, "e".to_string()), 1)], 0, 1),
        Err(transmuter::error::ContractError::Overflow)
    );
}

#[test]
fn test_transmute_favors_pool() {
    let mut pool = AssetPool {
        pool_assets: vec![Asset::new(1000, "a".to_string(), 3), Asset::new(1000, "b".to_string(), 7)],
    };
    let (cin, cout) = pool.transmute(AmountConstraint::exact_in(10), &"a".to_string(), &"b".to_string()).unwrap();
    assert_eq!((cin.amount, cout.amount), (10, 23));
    assert!(cout.amount * 3 <= cin.amount * 7);
    let (cin, cout) = pool.transmute(AmountConstraint::exact_out(10), &"a".to_string(), &"b".to_string()).unwrap();
    assert_eq!((cin.amount, cout.amount), (5, 10));
    assert!(cout.amount * 3 <= cin.amount * 7);
}

#[test]
fn test_exact_in_then_exact_out_costs_no_more() {
    let pool = AssetPool {
        pool_assets: vec![Asset::new(1000, "a".to_string(), 3), Asset::new(1000, "b".to_string(), 7)],
    };
    let mut first = AssetPool { pool_assets: pool.pool_assets.clone() };
    let (_, out) = first.transmute(AmountConstraint::exact_in(10), &"a".to_string(), &"b".to_string()).unwrap();
    let mut second = AssetPool { pool_assets: pool.pool_assets.clone() };
    let (cin, _) = second.transmute(AmountConstraint::exact_out(out.amount), &"a".to_string(), &"b".to_string()).unwrap();
    assert_eq!(out.amount, 23);
    assert_eq!(cin.amount, 10);
}

#[test]
fn test_convert_same_factor() {
    assert_eq!(convert_amount(12345, 7, 7, Rounding::Down), Ok(12345));
    assert_eq!(convert_amount(12345, 7, 7, Rounding::Up), Ok(12345));
    assert_eq!(convert_amount(u128::MAX, u128::MAX, u128::MAX, Rounding::Down), Ok(u128::MAX));
}
