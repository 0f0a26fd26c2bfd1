//! Share accounting of liquidity providers: one entry per address.
use vstd::prelude::*;

verus! {

/// The shares held by one address.
#[derive(Debug, PartialEq, Eq)]
pub struct ShareEntry {
    pub address: String,
    pub amount: u128,
}

/// Index of the entry of `address`, the last one if several match; -1 if none.
pub open spec fn share_index(entries: Seq<ShareEntry>, address: Seq<char>) -> int
    decreases entries.len(),
{
    if entries.len() == 0 {
        -1
    } else if entries.last().address@ == address {
        entries.len() - 1
    } else {
        share_index(entries.drop_last(), address)
    }
}

/// The shares of `address`; zero where it has no entry.
pub open spec fn shares_of(entries: Seq<ShareEntry>, address: Seq<char>) -> nat {
    let i = share_index(entries, address);
    if i < 0 {
        0
    } else {
        entries[i].amount as nat
    }
}

/// The sum of all entries.
pub open spec fn shares_total(entries: Seq<ShareEntry>) -> int
    decreases entries.len(),
{
    if entries.len() == 0 {
        0
    } else {
        shares_total(entries.drop_last()) + entries.last().amount
    }
}

/// `entries` where `address` holds `amount`: its entry is overwritten, or a new
/// entry is added at the end.
pub open spec fn set_shares(entries: Seq<ShareEntry>, address: String, amount: u128) -> Seq<
    ShareEntry,
> {
    let i = share_index(entries, address@);
    if i < 0 {
        entries.push(ShareEntry { address, amount })
    } else {
        entries.update(i, ShareEntry { address: entries[i].address, amount })
    }
}

pub proof fn lemma_share_index_bounds(entries: Seq<ShareEntry>, address: Seq<char>)
    ensures
        -1 <= share_index(entries, address) < entries.len(),
        share_index(entries, address) >= 0 ==> entries[share_index(entries, address)].address@
            == address,
    decreases entries.len(),
{
    if entries.len() > 0 {
        lemma_share_index_bounds(entries.drop_last(), address);
    }
}

/// Overwriting one entry changes the total by the difference.
proof fn lemma_total_update(entries: Seq<ShareEntry>, i: int, e: ShareEntry)
    requires
        0 <= i < entries.len(),
    ensures
        shares_total(entries.update(i, e)) == shares_total(entries) - entries[i].amount
            + e.amount,
    decreases entries.len(),
{
    let u = entries.update(i, e);
    if i == entries.len() - 1 {
        assert(u.drop_last() =~= entries.drop_last());
    } else {
        lemma_total_update(entries.drop_last(), i, e);
        assert(u.drop_last() =~= entries.drop_last().update(i, e));
    }
}

/// Setting the shares of one address changes the total by the difference.
pub proof fn lemma_total_set(entries: Seq<ShareEntry>, address: String, amount: u128)
    ensures
        shares_total(set_shares(entries, address, amount)) == shares_total(entries) - shares_of(
            entries,
            address@,
        ) + amount,
{
    lemma_share_index_bounds(entries, address@);
    let i = share_index(entries, address@);
    if i < 0 {
        assert(entries.push(ShareEntry { address, amount }).drop_last() =~= entries);
    } else {
        lemma_total_update(entries, i, ShareEntry { address: entries[i].address, amount });
    }
}

/// After setting, `address` holds `amount`, and every other address keeps
/// what it held.
pub proof fn lemma_shares_of_set(
    entries: Seq<ShareEntry>,
    address: String,
    amount: u128,
    other: Seq<char>,
)
    ensures
        shares_of(set_shares(entries, address, amount), address@) == amount,
        other != address@ ==> shares_of(set_shares(entries, address, amount), other)
            == shares_of(entries, other),
{
    lemma_share_index_bounds(entries, address@);
    lemma_share_index_bounds(entries, other);
    let i = share_index(entries, address@);
    let s = set_shares(entries, address, amount);
    if i < 0 {
        assert(s.drop_last() =~= entries);
    } else {
        lemma_index_update(entries, i, ShareEntry { address: entries[i].address, amount }, other);
        lemma_index_update(entries, i, ShareEntry { address: entries[i].address, amount }, address@);
    }
}

/// Overwriting an entry with one of the same address keeps every index.
proof fn lemma_index_update(entries: Seq<ShareEntry>, i: int, e: ShareEntry, a: Seq<char>)
    requires
        0 <= i < entries.len(),
        e.address@ == entries[i].address@,
    ensures
        share_index(entries.update(i, e), a) == share_index(entries, a),
    decreases entries.len(),
{
    let u = entries.update(i, e);
    if i == entries.len() - 1 {
        assert(u.drop_last() =~= entries.drop_last());
    } else {
        lemma_index_update(entries.drop_last(), i, e, a);
        assert(u.drop_last() =~= entries.drop_last().update(i, e));
    }
}

/// Finds the entry of `address`, the last one if several match.
pub fn find_share_index(entries: &Vec<ShareEntry>, address: &String) -> (r: Option<usize>)
    ensures
        r is None <==> share_index(entries@, address@) < 0,
        r matches Some(i) ==> i == share_index(entries@, address@),
{
    let mut j = entries.len();
    assert(entries@.take(j as int) =~= entries@);
    while j > 0
        invariant
            j <= entries@.len(),
            share_index(entries@, address@) == share_index(entries@.take(j as int), address@),
        decreases j,
    {
        assert(entries@.take(j as int).drop_last() =~= entries@.take(j as int - 1));
        if entries[j - 1].address == *address {
            return Some(j - 1);
        }
        j = j - 1;
    }
    None
}

/// The shares of `address`.
pub fn get_shares(entries: &Vec<ShareEntry>, address: &String) -> (r: u128)
    ensures
        r == shares_of(entries@, address@),
{
    proof { lemma_share_index_bounds(entries@, address@); }
    match find_share_index(entries, address) {
        Some(i) => entries[i].amount,
        None => 0,
    }
}

/// Sets the shares of `address` to `amount`.
pub fn put_shares(entries: &mut Vec<ShareEntry>, address: &String, amount: u128)
    ensures
        final(entries)@ == set_shares(old(entries)@, *address, amount),
{
    proof { lemma_share_index_bounds(entries@, address@); }
    match find_share_index(entries, address) {
        Some(i) => {
            let a = entries[i].address.clone();
            entries.set(i, ShareEntry { address: a, amount });
        },
        None => {
            entries.push(ShareEntry { address: address.clone(), amount });
        },
    }
}

/// No address holds more than all addresses together.
pub proof fn lemma_shares_of_le_total(entries: Seq<ShareEntry>, address: Seq<char>)
    ensures
        shares_of(entries, address) <= shares_total(entries),
        shares_total(entries) >= 0,
    decreases entries.len(),
{
    if entries.len() > 0 {
        lemma_shares_of_le_total(entries.drop_last(), address);
        lemma_share_index_bounds(entries.drop_last(), address);
        if entries.last().address@ != address {
            let i = share_index(entries.drop_last(), address);
            if i >= 0 {
                assert(entries[i] == entries.drop_last()[i]);
            }
        }
    }
}

/// A prefix of the entries never adds up to more than all of them.
pub proof fn lemma_total_prefix(entries: Seq<ShareEntry>, k: int)
    requires
        0 <= k <= entries.len(),
    ensures
        shares_total(entries.take(k)) <= shares_total(entries),
    decreases entries.len() - k,
{
    if k < entries.len() {
        lemma_total_prefix(entries, k + 1);
        assert(entries.take(k + 1).drop_last() =~= entries.take(k));
    } else {
        assert(entries.take(k) =~= entries);
    }
}

/// No two entries belong to the same address.
pub open spec fn addresses_distinct(entries: Seq<ShareEntry>) -> bool {
    forall|i: int, j: int|
        0 <= i < j < entries.len() ==> #[trigger] entries[i].address@ != #[trigger] entries[j].address@
}

/// Where the search finds no entry, no entry belongs to the address.
pub proof fn lemma_share_index_absent(entries: Seq<ShareEntry>, address: Seq<char>)
    ensures
        share_index(entries, address) < 0 ==> forall|k: int|
            0 <= k < entries.len() ==> #[trigger] entries[k].address@ != address,
    decreases entries.len(),
{
    if entries.len() > 0 {
        lemma_share_index_absent(entries.drop_last(), address);
        if share_index(entries, address) < 0 {
            assert forall|k: int| 0 <= k < entries.len() implies #[trigger] entries[k].address@ != address by {
                if k < entries.len() - 1 {
                    assert(entries[k] == entries.drop_last()[k]);
                }
            }
        }
    }
}

/// An address that has no entry holds no shares.
pub proof fn law_never_credited_holds_nothing(entries: Seq<ShareEntry>, address: Seq<char>)
    requires
        forall|k: int| 0 <= k < entries.len() ==> #[trigger] entries[k].address@ != address,
    ensures
        shares_of(entries, address) == 0,
{
    lemma_share_index_bounds(entries, address);
}

/// Setting the shares of an address keeps the addresses distinct.
pub proof fn lemma_set_keeps_distinct(entries: Seq<ShareEntry>, address: String, amount: u128)
    requires
        addresses_distinct(entries),
    ensures
        addresses_distinct(set_shares(entries, address, amount)),
{
    lemma_share_index_bounds(entries, address@);
    lemma_share_index_absent(entries, address@);
    let s = set_shares(entries, address, amount);
    assert forall|i: int, j: int| 0 <= i < j < s.len() implies #[trigger] s[i].address@ != #[trigger] s[j].address@ by {
        if share_index(entries, address@) < 0 {
            if j == entries.len() {
                assert(entries[i].address@ != address@);
            } else {
                assert(entries[i].address@ != entries[j].address@);
            }
        } else {
            assert(entries[i].address@ != entries[j].address@);
        }
    }
}

/// Whether no two entries belong to the same address.
pub fn entries_distinct(entries: &Vec<ShareEntry>) -> (r: bool)
    ensures
        r == addresses_distinct(entries@),
{
    let n = entries.len();
    for i in 0..n
        invariant
            n == entries@.len(),
            addresses_distinct(entries@.take(i as int)),
    {
        for j in 0..i
            invariant
                n == entries@.len(),
                i < n,
                addresses_distinct(entries@.take(i as int)),
                forall|k: int| 0 <= k < j ==> #[trigger] entries@[k].address@ != entries@[i as int].address@,
        {
            if entries[j].address == entries[i].address {
                assert(entries@[j as int].address@ == entries@[i as int].address@);
                return false;
            }
        }
        assert forall|a: int, b: int| 0 <= a < b < entries@.take(i as int + 1).len() implies
            #[trigger] entries@.take(i as int + 1)[a].address@ != #[trigger] entries@.take(i as int + 1)[b].address@ by {
            if b < i {
                assert(entries@.take(i as int)[a] == entries@[a]);
                assert(entries@.take(i as int)[b] == entries@[b]);
            }
        }
    }
    assert(entries@.take(n as int) =~= entries@);
    true
}

} // verus!
