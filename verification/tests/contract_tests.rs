use transmuter::coin::Coin;
use transmuter::contract::{SharesResponse, Transmuter};
use transmuter::error::ContractError;
use transmuter::response::{Attribute, Message};
use transmuter::shares::ShareEntry;
use transmuter::transmuter_pool::TransmuterPool;

fn s(x: &str) -> String {
    x.to_string()
}

fn coin(amount: u128, denom: &str) -> Coin {
    Coin::new(amount, s(denom))
}

fn attr(k: &str, v: &str) -> Attribute {
    Attribute { key: s(k), value: s(v) }
}

fn setup() -> Transmuter {
    Transmuter::instantiate(s("uosmo"), s("uion"), s("admin"), s("0.1.0")).0
}

#[test]
fn test_instantiate() {
    let (t, resp) = Transmuter::instantiate(s("uosmo"), s("uion"), s("admin"), s("0.1.0"));
    assert_eq!(
        resp.attributes,
        vec![attr("method", "instantiate"), attr("contract_name", "crates.io:transmuter"), attr("contract_version", "0.1.0")]
    );
    assert!(resp.messages.is_empty());
    assert_eq!(t.pool().pool, TransmuterPool { in_coin: coin(0, "uosmo"), out_coin_reserve: coin(0, "uion") });
    assert_eq!(t.admin(), Some(s("admin")));
    assert_eq!(t.shares(&s("admin")), SharesResponse { shares: 0 });
}

#[test]
fn test_supply() {
    let mut t = setup();
    assert_eq!(t.supply(&s("lp"), &[]), Err(ContractError::SingleCoinExpected));
    assert_eq!(t.supply(&s("lp"), &[coin(1, "uion"), coin(1, "uion")]), Err(ContractError::SingleCoinExpected));
    assert_eq!(
        t.supply(&s("lp"), &[coin(1, "uosmo")]),
        Err(ContractError::InvalidSupplyDenom { denom: s("uosmo"), expected_denom: s("uion") })
    );
    let resp = t.supply(&s("lp"), &[coin(100, "uion")]).unwrap();
    assert_eq!(resp.attributes, vec![attr("method", "supply")]);
    t.supply(&s("lp"), &[coin(50, "uion")]).unwrap();
    t.supply(&s("other"), &[coin(7, "uion")]).unwrap();
    assert_eq!(t.shares(&s("lp")).shares, 150);
    assert_eq!(t.shares(&s("other")).shares, 7);
    assert_eq!(t.pool().pool.out_coin_reserve, coin(157, "uion"));
}

#[test]
fn test_supply_overflow() {
    let mut t = setup();
    t.supply(&s("lp"), &[coin(u128::MAX, "uion")]).unwrap();
    assert_eq!(t.supply(&s("x"), &[coin(1, "uion")]), Err(ContractError::Overflow));
    assert_eq!(t.shares(&s("x")).shares, 0);
}

#[test]
fn test_transmute() {
    let mut t = setup();
    t.supply(&s("lp"), &[coin(100, "uion")]).unwrap();
    assert_eq!(
        t.transmute(&s("user"), &[coin(1, "uion")]),
        Err(ContractError::InvalidTransmuteDenom { denom: s("uion"), expected_denom: s("uosmo") })
    );
    assert_eq!(
        t.transmute(&s("user"), &[coin(101, "uosmo")]),
        Err(ContractError::InsufficientPoolAsset { required: coin(101, "uion"), available: coin(100, "uion") })
    );
    let resp = t.transmute(&s("user"), &[coin(60, "uosmo")]).unwrap();
    assert_eq!(resp.attributes, vec![attr("method", "transmute")]);
    assert_eq!(resp.messages, vec![Message::BankSend { to_address: s("user"), amount: vec![coin(60, "uion")] }]);
    assert_eq!(t.pool().pool, TransmuterPool { in_coin: coin(60, "uosmo"), out_coin_reserve: coin(40, "uion") });
    assert_eq!(t.transmute(&s("user"), &[]), Err(ContractError::SingleCoinExpected));
}

#[test]
fn test_update_admin() {
    let mut t = setup();
    assert_eq!(t.update_admin(&s("mallory"), s("mallory")), Err(ContractError::Unauthorized));
    assert_eq!(t.admin(), Some(s("admin")));
    let resp = t.update_admin(&s("admin"), s("new")).unwrap();
    assert_eq!(resp.attributes, vec![attr("action", "update_admin"), attr("admin", "new"), attr("sender", "admin")]);
    assert_eq!(t.admin(), Some(s("new")));
    assert_eq!(t.update_admin(&s("admin"), s("x")), Err(ContractError::Unauthorized));
}

#[test]
fn test_withdraw() {
    let mut t = setup();
    t.supply(&s("admin"), &[coin(100, "uion")]).unwrap();
    t.supply(&s("lp"), &[coin(10, "uion")]).unwrap();
    t.transmute(&s("user"), &[coin(70, "uosmo")]).unwrap();
    assert_eq!(t.withdraw(&s("lp"), 5), Err(ContractError::Unauthorized));
    assert_eq!(t.withdraw(&s("admin"), 101), Err(ContractError::InsufficientShares { required: 101, available: 100 }));
    let resp = t.withdraw(&s("admin"), 60).unwrap();
    assert_eq!(resp.attributes, vec![attr("method", "withdraw")]);
    assert_eq!(
        resp.messages,
        vec![Message::BankSend { to_address: s("admin"), amount: vec![coin(40, "uion"), coin(20, "uosmo")] }]
    );
    assert_eq!(t.shares(&s("admin")).shares, 40);
    assert_eq!(t.pool().pool, TransmuterPool { in_coin: coin(50, "uosmo"), out_coin_reserve: coin(0, "uion") });
    let resp = t.withdraw(&s("admin"), 40).unwrap();
    assert_eq!(resp.messages, vec![Message::BankSend { to_address: s("admin"), amount: vec![coin(40, "uosmo")] }]);
}

#[test]
fn test_supply_then_withdraw_pays_back() {
    let mut t = setup();
    t.supply(&s("admin"), &[coin(25, "uion")]).unwrap();
    let before = t.pool().pool;
    t.supply(&s("admin"), &[coin(9, "uion")]).unwrap();
    let resp = t.withdraw(&s("admin"), 9).unwrap();
    assert_eq!(resp.messages, vec![Message::BankSend { to_address: s("admin"), amount: vec![coin(9, "uion")] }]);
    assert_eq!(t.pool().pool, before);
    assert_eq!(t.shares(&s("admin")).shares, 25);
}

#[test]
fn test_from_parts_checks_backing() {
    let pool = TransmuterPool { in_coin: coin(3, "a"), out_coin_reserve: coin(4, "b") };
    let entries = |amounts: &[u128]| -> Vec<ShareEntry> {
        amounts.iter().enumerate().map(|(i, a)| ShareEntry { address: format!("addr{}", i), amount: *a }).collect()
    };
    let t = Transmuter::from_parts(pool.clone(), entries(&[5, 2]), Some(s("adm"))).unwrap();
    assert_eq!(t.shares(&s("addr1")).shares, 2);
    let (p, e, a) = t.into_parts();
    assert_eq!(p, pool);
    assert_eq!(e, entries(&[5, 2]));
    assert_eq!(a, Some(s("adm")));
    assert!(Transmuter::from_parts(pool.clone(), entries(&[6]), None).is_none());
    assert!(Transmuter::from_parts(pool.clone(), entries(&[8]), None).is_none());
    assert!(Transmuter::from_parts(pool, entries(&[u128::MAX, u128::MAX]), None).is_none());
}

#[test]
fn test_shares_keep_backing_the_pool() {
    let mut t = setup();
    t.supply(&s("admin"), &[coin(40, "uion")]).unwrap();
    t.supply(&s("lp"), &[coin(60, "uion")]).unwrap();
    t.transmute(&s("user"), &[coin(75, "uosmo")]).unwrap();
    t.withdraw(&s("admin"), 30).unwrap();
    let _ = t.transmute(&s("user"), &[coin(1000, "uosmo")]);
    let (pool, entries, admin) = t.into_parts();
    let total: u128 = entries.iter().map(|e| e.amount).sum();
    assert_eq!(total, pool.in_coin.amount + pool.out_coin_reserve.amount);
    assert!(Transmuter::from_parts(pool, entries, admin).is_some());
}

#[test]
fn test_shares_query_after_supply() {
    let mut t = setup();
    assert_eq!(t.shares(&s("lp")).shares, 0);
    t.supply(&s("lp"), &[coin(30, "uion")]).unwrap();
    t.supply(&s("other"), &[coin(4, "uion")]).unwrap();
    t.supply(&s("lp"), &[coin(12, "uion")]).unwrap();
    assert_eq!(t.shares(&s("lp")), SharesResponse { shares: 42 });
    assert_eq!(t.shares(&s("other")), SharesResponse { shares: 4 });
    assert_eq!(t.shares(&s("never")), SharesResponse { shares: 0 });
}

#[test]
fn test_from_parts_rejects_repeated_addresses() {
    let pool = TransmuterPool { in_coin: coin(3, "a"), out_coin_reserve: coin(4, "b") };
    let entries = vec![
        ShareEntry { address: s("x"), amount: 5 },
        ShareEntry { address: s("x"), amount: 2 },
    ];
    assert!(Transmuter::from_parts(pool, entries, None).is_none());
}

#[test]
fn test_withdraw_keeps_other_shares() {
    let mut t = setup();
    t.supply(&s("admin"), &[coin(50, "uion")]).unwrap();
    t.supply(&s("lp"), &[coin(20, "uion")]).unwrap();
    t.withdraw(&s("admin"), 15).unwrap();
    assert_eq!(t.shares(&s("admin")).shares, 35);
    assert_eq!(t.shares(&s("lp")).shares, 20);
}
