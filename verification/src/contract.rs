//! The transmuter contract's state and its operations: instantiation,
//! supplying liquidity for shares, one-to-one transmutation, admin changes,
//! withdrawal of shares, and the queries.
use crate::coin::Coin;
use crate::error::ContractError;
use crate::response::{attribute_is, Message, Response};
use crate::shares::{
    addresses_distinct, entries_distinct, get_shares, lemma_set_keeps_distinct, lemma_shares_of_le_total, lemma_total_prefix, lemma_shares_of_set, lemma_total_set, put_shares,
    set_shares, shares_of, shares_total, ShareEntry,
};
use crate::transmuter_pool::{
    pool_total, supply_result, transmute_result, withdraw_result, withdrawing_coins,
    TransmuterPool,
};
use vstd::prelude::*;

verus! {

/// The state of one transmuter contract: its pool, the shares of each
/// liquidity provider, and its admin.
pub struct Transmuter {
    pool: TransmuterPool,
    shares: Vec<ShareEntry>,
    admin: Option<String>,
}

/// The answer to a pool query.
#[derive(Debug, PartialEq, Eq)]
pub struct PoolResponse {
    pub pool: TransmuterPool,
}

/// The answer to a shares query.
#[derive(Debug, Clone, Copy, PartialEq, Eq)]
pub struct SharesResponse {
    pub shares: u128,
}

/// `sender` is the admin.
pub open spec fn is_admin(admin: Option<String>, sender: Seq<char>) -> bool {
    match admin {
        Some(a) => a@ == sender,
        None => false,
    }
}

/// The sum of the amounts of `coins`.
pub open spec fn coins_total(coins: Seq<Coin>) -> int
    decreases coins.len(),
{
    if coins.len() == 0 {
        0
    } else {
        coins_total(coins.drop_last()) + coins.last().amount
    }
}

/// `resp` carries no message and no data, and logs exactly `method: name`.
pub open spec fn method_response(resp: Response, name: Seq<char>) -> bool {
    &&& resp.messages@.len() == 0
    &&& resp.attributes@.len() == 1
    &&& attribute_is(resp.attributes@[0], "method"@, name)
    &&& resp.data is None
}

/// `resp` logs exactly `method: name`, carries no data, and sends `coins` to
/// `to` in its one message.
pub open spec fn send_response(resp: Response, name: Seq<char>, to: String, coins: Seq<Coin>) -> bool {
    &&& resp.messages@.len() == 1
    &&& resp.messages@[0] matches Message::BankSend { to_address, amount } && to_address == to
        && amount@ == coins
    &&& resp.attributes@.len() == 1
    &&& attribute_is(resp.attributes@[0], "method"@, name)
    &&& resp.data is None
}

/// `resp` logs the admin change to `new_admin` by `sender`, and carries no
/// message and no data.
pub open spec fn admin_update_response(resp: Response, new_admin: Seq<char>, sender: Seq<char>) -> bool {
    &&& resp.messages@.len() == 0
    &&& resp.data is None
    &&& resp.attributes@.len() == 3
    &&& attribute_is(resp.attributes@[0], "action"@, "update_admin"@)
    &&& attribute_is(resp.attributes@[1], "admin"@, new_admin)
    &&& attribute_is(resp.attributes@[2], "sender"@, sender)
}

/// What a withdrawal of `shares` by `sender` does: only the admin may
/// withdraw, only shares it holds, and it is paid out in the coins that
/// `withdrawing_coins` gives. On success: the new pool, the new share
/// entries, and the coins paid out.
pub open spec fn withdraw_outcome(
    pool: TransmuterPool,
    entries: Seq<ShareEntry>,
    admin: Option<String>,
    sender: String,
    shares: u128,
) -> Result<(TransmuterPool, Seq<ShareEntry>, Seq<Coin>), ContractError> {
    let held = shares_of(entries, sender@);
    if !is_admin(admin, sender@) {
        Err(ContractError::Unauthorized)
    } else if held < shares {
        Err(ContractError::InsufficientShares { required: shares, available: held as u128 })
    } else {
        match withdrawing_coins(pool, shares as int) {
            Err(e) => Err(e),
            Ok(coins) => match withdraw_result(pool, coins) {
                Err(e) => Err(e),
                Ok(p) => Ok((p, set_shares(entries, sender, (held - shares) as u128), coins)),
            },
        }
    }
}

impl Transmuter {
    /// The pool.
    pub closed spec fn pool_state(&self) -> TransmuterPool {
        self.pool
    }

    /// The share entries.
    pub closed spec fn share_entries(&self) -> Seq<ShareEntry> {
        self.shares@
    }

    /// The admin.
    pub closed spec fn admin_state(&self) -> Option<String> {
        self.admin
    }

    /// The shares of all providers together are worth exactly what the pool
    /// holds, and each address has at most one entry.
    pub open spec fn wf(&self) -> bool {
        &&& shares_total(self.share_entries()) == pool_total(self.pool_state())
        &&& addresses_distinct(self.share_entries())
    }

    /// A fresh contract: an empty pool that transmutes `in_denom` into
    /// `out_denom`, no shares, and `admin` as admin.
    pub fn instantiate(in_denom: String, out_denom: String, admin: String, contract_version: String) -> (r: (
        Transmuter,
        Response,
    ))
        ensures
            r.0.wf(),
            r.0.pool_state() == TransmuterPool::new_spec(in_denom, out_denom),
            r.0.share_entries() == Seq::<ShareEntry>::empty(),
            forall|a: Seq<char>| #[trigger] shares_of(r.0.share_entries(), a) == 0,
            r.0.admin_state() == Some(admin),
            r.1.messages@.len() == 0,
            r.1.data is None,
            r.1.attributes@.len() == 3,
            attribute_is(r.1.attributes@[0], "method"@, "instantiate"@),
            attribute_is(r.1.attributes@[1], "contract_name"@, "crates.io:transmuter"@),
            attribute_is(r.1.attributes@[2], "contract_version"@, contract_version@),
    {
        let t = Transmuter {
            pool: TransmuterPool::new(in_denom, out_denom),
            shares: Vec::new(),
            admin: Some(admin),
        };
        let resp = Response::new().add_attribute("method".to_string(), "instantiate".to_string()).add_attribute(
            "contract_name".to_string(),
            "crates.io:transmuter".to_string(),
        ).add_attribute("contract_version".to_string(), contract_version);
        (t, resp)
    }

    /// Supplies the one attached coin, which must be of the out-denomination,
    /// to the pool; the sender gets as many shares as the coin's amount.
    pub fn supply(&mut self, sender: &String, funds: &[Coin]) -> (r: Result<Response, ContractError>)
        requires
            old(self).wf(),
            funds.len() == 1 ==> shares_of(old(self).share_entries(), sender@) + funds[0].amount
                <= u128::MAX,
        ensures
            final(self).wf(),
            final(self).admin_state() == old(self).admin_state(),
            funds.len() != 1 ==> r == Err::<Response, ContractError>(
                ContractError::SingleCoinExpected,
            ) && *final(self) == *old(self),
            funds.len() == 1 ==> match supply_result(old(self).pool_state(), funds[0]) {
                Err(e) => r == Err::<Response, ContractError>(e) && *final(self) == *old(self),
                Ok(p) => r matches Ok(resp) && method_response(resp, "supply"@)
                    && final(self).pool_state() == p && final(self).share_entries() == set_shares(
                    old(self).share_entries(),
                    *sender,
                    (shares_of(old(self).share_entries(), sender@) + funds[0].amount) as u128,
                ) && shares_of(final(self).share_entries(), sender@) == shares_of(
                    old(self).share_entries(),
                    sender@,
                ) + funds[0].amount && (forall|a: Seq<char>|
                    a != sender@ ==> #[trigger] shares_of(final(self).share_entries(), a)
                        == shares_of(old(self).share_entries(), a)),
            },
    {
        if funds.len() != 1 {
            return Err(ContractError::SingleCoinExpected);
        }
        let coin = &funds[0];
        let mut pool = self.pool.clone();
        match pool.supply(coin) {
            Err(e) => {
                return Err(e);
            },
            Ok(()) => {},
        }
        let held = get_shares(&self.shares, sender);
        proof {
            lemma_total_set(self.shares@, *sender, (held + coin.amount) as u128);
            lemma_set_keeps_distinct(self.shares@, *sender, (held + coin.amount) as u128);
        }
        proof {
            lemma_shares_of_set(self.shares@, *sender, (held + coin.amount) as u128, sender@);
            assert forall|a: Seq<char>| a != sender@ implies #[trigger] shares_of(
                set_shares(self.shares@, *sender, (held + coin.amount) as u128),
                a,
            ) == shares_of(self.shares@, a) by {
                lemma_shares_of_set(self.shares@, *sender, (held + coin.amount) as u128, a);
            }
        }
        put_shares(&mut self.shares, sender, held + coin.amount);
        self.pool = pool;
        Ok(Response::new().add_attribute("method".to_string(), "supply".to_string()))
    }

    /// Transmutes the one attached coin, which must be of the
    /// in-denomination, into as many coins of the out-denomination, sent back
    /// to the sender.
    pub fn transmute(&mut self, sender: &String, funds: &[Coin]) -> (r: Result<Response, ContractError>)
        requires
            old(self).wf(),
        ensures
            final(self).wf(),
            final(self).admin_state() == old(self).admin_state(),
            final(self).share_entries() == old(self).share_entries(),
            funds.len() != 1 ==> r == Err::<Response, ContractError>(
                ContractError::SingleCoinExpected,
            ) && *final(self) == *old(self),
            funds.len() == 1 ==> match transmute_result(old(self).pool_state(), funds[0]) {
                Err(e) => r == Err::<Response, ContractError>(e) && *final(self) == *old(self),
                Ok((p, out)) => r matches Ok(resp) && send_response(
                    resp,
                    "transmute"@,
                    *sender,
                    seq![out],
                ) && final(self).pool_state() == p,
            },
    {
        if funds.len() != 1 {
            return Err(ContractError::SingleCoinExpected);
        }
        let coin = &funds[0];
        let mut pool = self.pool.clone();
        let out = match pool.transmute(coin) {
            Err(e) => {
                return Err(e);
            },
            Ok(out) => out,
        };
        self.pool = pool;
        let mut amount: Vec<Coin> = Vec::new();
        amount.push(out);
        assert(amount@ =~= seq![out]);
        Ok(
            Response::new().add_attribute("method".to_string(), "transmute".to_string()).add_message(
                Message::BankSend { to_address: sender.clone(), amount },
            ),
        )
    }

    /// Makes `new_admin` the admin; only the admin may.
    pub fn update_admin(&mut self, sender: &String, new_admin: String) -> (r: Result<
        Response,
        ContractError,
    >)
        requires
            old(self).wf(),
        ensures
            final(self).wf(),
            final(self).pool_state() == old(self).pool_state(),
            final(self).share_entries() == old(self).share_entries(),
            !is_admin(old(self).admin_state(), sender@) ==> r == Err::<Response, ContractError>(
                ContractError::Unauthorized,
            ) && *final(self) == *old(self),
            is_admin(old(self).admin_state(), sender@) ==> (r matches Ok(resp)
                && final(self).admin_state() == Some(new_admin) && admin_update_response(
                resp,
                new_admin@,
                sender@,
            )),
    {
        if !self.sender_is_admin(sender) {
            return Err(ContractError::Unauthorized);
        }
        let resp = Response::new().add_attribute("action".to_string(), "update_admin".to_string()).add_attribute(
            "admin".to_string(),
            new_admin.clone(),
        ).add_attribute("sender".to_string(), sender.clone());
        self.admin = Some(new_admin);
        Ok(resp)
    }

    fn sender_is_admin(&self, sender: &String) -> (b: bool)
        ensures
            b == is_admin(self.admin, sender@),
    {
        match &self.admin {
            Some(a) => *a == *sender,
            None => false,
        }
    }

    /// Withdraws `shares` of the sender's shares; only the admin may. The
    /// coins are taken from the out-reserve first, then from the in-coins,
    /// and sent to the sender.
    pub fn withdraw(&mut self, sender: &String, shares: u128) -> (r: Result<Response, ContractError>)
        requires
            old(self).wf(),
        ensures
            final(self).wf(),
            final(self).admin_state() == old(self).admin_state(),
            match withdraw_outcome(
                old(self).pool_state(),
                old(self).share_entries(),
                old(self).admin_state(),
                *sender,
                shares,
            ) {
                Err(e) => r == Err::<Response, ContractError>(e) && *final(self) == *old(self),
                Ok((p, entries, coins)) => r matches Ok(resp) && send_response(
                    resp,
                    "withdraw"@,
                    *sender,
                    coins,
                ) && final(self).pool_state() == p && final(self).share_entries() == entries
                    && coins_total(coins) == shares && shares_of(entries, sender@) == shares_of(
                    old(self).share_entries(),
                    sender@,
                ) - shares && (forall|a: Seq<char>|
                    a != sender@ ==> #[trigger] shares_of(entries, a) == shares_of(
                        old(self).share_entries(),
                        a,
                    )),
            },
    {
        if !self.sender_is_admin(sender) {
            return Err(ContractError::Unauthorized);
        }
        let held = get_shares(&self.shares, sender);
        if held < shares {
            return Err(ContractError::InsufficientShares { required: shares, available: held });
        }
        let coins = match self.pool.calc_withdrawing_coins(shares) {
            Err(e) => {
                return Err(e);
            },
            Ok(coins) => coins,
        };
        let mut pool = self.pool.clone();
        match pool.withdraw(coins.as_slice()) {
            Err(e) => {
                return Err(e);
            },
            Ok(()) => {},
        }
        proof {
            lemma_withdrawing_coins_total(self.pool, shares as int);
            lemma_withdraw_total(self.pool, coins@);
            lemma_total_set(self.shares@, *sender, (held - shares) as u128);
            lemma_set_keeps_distinct(self.shares@, *sender, (held - shares) as u128);
            lemma_shares_of_set(self.shares@, *sender, (held - shares) as u128, sender@);
            assert forall|a: Seq<char>| a != sender@ implies #[trigger] shares_of(
                set_shares(self.shares@, *sender, (held - shares) as u128),
                a,
            ) == shares_of(self.shares@, a) by {
                lemma_shares_of_set(self.shares@, *sender, (held - shares) as u128, a);
            }
        }
        put_shares(&mut self.shares, sender, held - shares);
        self.pool = pool;
        Ok(
            Response::new().add_attribute("method".to_string(), "withdraw".to_string()).add_message(
                Message::BankSend { to_address: sender.clone(), amount: coins },
            ),
        )
    }

    /// A contract state from its parts, if the shares back the pool exactly.
    pub fn from_parts(pool: TransmuterPool, shares: Vec<ShareEntry>, admin: Option<String>) -> (r:
        Option<Transmuter>)
        ensures
            r is Some <==> (shares_total(shares@) == pool_total(pool) && addresses_distinct(shares@)),
            r matches Some(t) ==> t.wf() && t.pool_state() == pool && t.share_entries() == shares@
                && t.admin_state() == admin,
    {
        let mut rem_in = pool.in_coin.amount;
        let mut rem_out = pool.out_coin_reserve.amount;
        let n = shares.len();
        for i in 0..n
            invariant
                n == shares@.len(),
                rem_in + rem_out + shares_total(shares@.take(i as int)) == pool_total(pool),
        {
            assert(shares@.take(i as int + 1).drop_last() =~= shares@.take(i as int));
            let a = shares[i].amount;
            if a <= rem_out {
                rem_out = rem_out - a;
            } else {
                let rest = a - rem_out;
                rem_out = 0;
                if rest <= rem_in {
                    rem_in = rem_in - rest;
                } else {
                    proof { lemma_total_prefix(shares@, i as int + 1); }
                    return None;
                }
            }
        }
        assert(shares@.take(n as int) =~= shares@);
        if rem_in != 0 || rem_out != 0 {
            return None;
        }
        if !entries_distinct(&shares) {
            return None;
        }
        Some(Transmuter { pool, shares, admin })
    }

    /// The parts of the contract state.
    pub fn into_parts(self) -> (r: (TransmuterPool, Vec<ShareEntry>, Option<String>))
        ensures
            r.0 == self.pool_state(),
            r.1@ == self.share_entries(),
            r.2 == self.admin_state(),
    {
        (self.pool, self.shares, self.admin)
    }

    /// The admin, if there is one.
    pub fn admin(&self) -> (r: Option<String>)
        ensures
            r == self.admin_state(),
    {
        self.admin.clone()
    }

    /// The pool.
    pub fn pool(&self) -> (r: PoolResponse)
        ensures
            r.pool == self.pool_state(),
    {
        PoolResponse { pool: self.pool.clone() }
    }

    /// The shares held by `address`.
    pub fn shares(&self, address: &String) -> (r: SharesResponse)
        ensures
            r.shares == shares_of(self.share_entries(), address@),
    {
        SharesResponse { shares: get_shares(&self.shares, address) }
    }
}

/// The coins for `shares` units add up to `shares`.
proof fn lemma_withdrawing_coins_total(pool: TransmuterPool, shares: int)
    requires
        shares >= 0,
    ensures
        withdrawing_coins(pool, shares) matches Ok(coins) ==> coins_total(coins) == shares,
{
    if let Ok(coins) = withdrawing_coins(pool, shares) {
        let out_amount = if shares <= pool.out_coin_reserve.amount {
            shares
        } else {
            pool.out_coin_reserve.amount as int
        };
        let in_amount = shares - out_amount;
        let o = Coin { denom: pool.out_coin_reserve.denom, amount: out_amount as u128 };
        let i = Coin { denom: pool.in_coin.denom, amount: in_amount as u128 };
        reveal_with_fuel(coins_total, 3);
        if out_amount > 0 && in_amount > 0 {
            assert(coins =~= seq![o, i]);
            assert(coins.drop_last() =~= seq![o]);
            assert(coins.drop_last().drop_last() =~= Seq::<Coin>::empty());
        } else if out_amount > 0 {
            assert(coins =~= seq![o]);
            assert(coins.drop_last() =~= Seq::<Coin>::empty());
        } else if in_amount > 0 {
            assert(coins =~= seq![i]);
            assert(coins.drop_last() =~= Seq::<Coin>::empty());
        } else {
            assert(coins =~= Seq::<Coin>::empty());
        }
    }
}

/// A withdrawal that succeeds lowers the pool's value by the coins' total.
proof fn lemma_withdraw_total(pool: TransmuterPool, coins: Seq<Coin>)
    ensures
        withdraw_result(pool, coins) matches Ok(p) ==> pool_total(p) == pool_total(pool)
            - coins_total(coins),
    decreases coins.len(),
{
    if coins.len() > 0 {
        lemma_withdraw_total(pool, coins.drop_last());
    }
}

/// A transmutation pays out exactly as much as it takes in, in the
/// out-denomination, and leaves the pool's value unchanged.
pub proof fn law_transmute_one_to_one(pool: TransmuterPool, coin: Coin)
    ensures
        transmute_result(pool, coin) matches Ok((p, out)) ==> {
            &&& out.amount == coin.amount
            &&& out.denom == pool.out_coin_reserve.denom
            &&& p.in_coin.amount == pool.in_coin.amount + coin.amount
            &&& p.out_coin_reserve.amount == pool.out_coin_reserve.amount - coin.amount
            &&& pool_total(p) == pool_total(pool)
        },
{
}

/// Supplying a coin and then withdrawing as many shares pays the same coin
/// back, leaves the pool as it was, and leaves the sender with the shares it
/// held before. It holds where the in- and out-denominations differ.
pub proof fn law_supply_then_withdraw(
    pool: TransmuterPool,
    entries: Seq<ShareEntry>,
    admin: Option<String>,
    sender: String,
    coin: Coin,
)
    requires
        is_admin(admin, sender@),
        pool.in_coin.denom@ != pool.out_coin_reserve.denom@,
        shares_of(entries, sender@) + coin.amount <= u128::MAX,
    ensures
        supply_result(pool, coin) matches Ok(supplied) ==> {
            let held = shares_of(entries, sender@);
            let after_supply = set_shares(entries, sender, (held + coin.amount) as u128);
            withdraw_outcome(supplied, after_supply, admin, sender, coin.amount) matches Ok(
                (p, after_withdraw, paid),
            ) && p == pool && shares_of(after_withdraw, sender@) == held && (coin.amount > 0
                ==> paid == seq![Coin { denom: pool.out_coin_reserve.denom, amount: coin.amount }])
        },
{
    if let Ok(supplied) = supply_result(pool, coin) {
        let held = shares_of(entries, sender@);
        let after_supply = set_shares(entries, sender, (held + coin.amount) as u128);
        lemma_shares_of_set(entries, sender, (held + coin.amount) as u128, sender@);
        lemma_shares_of_set(after_supply, sender, held as u128, sender@);
        let a = coin.amount;
        let c = Coin { denom: pool.out_coin_reserve.denom, amount: a };
        reveal_with_fuel(withdraw_result, 2);
        if a > 0 {
            assert(seq![c].drop_last() =~= Seq::<Coin>::empty());
            assert(withdrawing_coins(supplied, a as int) == Ok::<Seq<Coin>, ContractError>(seq![c])) by {
                assert(seq![c] + Seq::<Coin>::empty() =~= seq![c]);
            }
        } else {
            assert(withdrawing_coins(supplied, 0) == Ok::<Seq<Coin>, ContractError>(Seq::<Coin>::empty())) by {
                assert(Seq::<Coin>::empty() + Seq::<Coin>::empty() =~= Seq::<Coin>::empty());
            }
        }
    }
}

/// Where the shares back the pool and its two denominations differ, a
/// withdrawal succeeds exactly when the sender is the admin and holds the
/// shares, and pays out exactly that many units.
pub proof fn law_withdraw_succeeds(
    pool: TransmuterPool,
    entries: Seq<ShareEntry>,
    admin: Option<String>,
    sender: String,
    shares: u128,
)
    requires
        shares_total(entries) == pool_total(pool),
        pool.in_coin.denom@ != pool.out_coin_reserve.denom@,
    ensures
        withdraw_outcome(pool, entries, admin, sender, shares) is Ok <==> (is_admin(admin, sender@)
            && shares_of(entries, sender@) >= shares),
        withdraw_outcome(pool, entries, admin, sender, shares) matches Ok((p, _, coins)) ==> (
        coins_total(coins) == shares && pool_total(p) == pool_total(pool) - shares),
{
    lemma_shares_of_le_total(entries, sender@);
    lemma_withdrawing_coins_total(pool, shares as int);
    if is_admin(admin, sender@) && shares_of(entries, sender@) >= shares {
        let out_amount = if shares <= pool.out_coin_reserve.amount {
            shares as int
        } else {
            pool.out_coin_reserve.amount as int
        };
        let in_amount = shares - out_amount;
        let o = Coin { denom: pool.out_coin_reserve.denom, amount: out_amount as u128 };
        let i = Coin { denom: pool.in_coin.denom, amount: in_amount as u128 };
        reveal_with_fuel(withdraw_result, 3);
        if out_amount > 0 && in_amount > 0 {
            let cs = seq![o, i];
            assert(seq![o] + seq![i] =~= cs);
            assert(cs.drop_last() =~= seq![o]);
            assert(cs.drop_last().drop_last() =~= Seq::<Coin>::empty());
        } else if out_amount > 0 {
            assert(seq![o] + Seq::<Coin>::empty() =~= seq![o]);
            assert(seq![o].drop_last() =~= Seq::<Coin>::empty());
        } else if in_amount > 0 {
            assert(Seq::<Coin>::empty() + seq![i] =~= seq![i]);
            assert(seq![i].drop_last() =~= Seq::<Coin>::empty());
        } else {
            assert(Seq::<Coin>::empty() + Seq::<Coin>::empty() =~= Seq::<Coin>::empty());
        }
    }
    if let Ok((p, _, coins)) = withdraw_outcome(pool, entries, admin, sender, shares) {
        lemma_withdraw_total(pool, coins);
    }
}

} // verus!
