use crate::keys::{same_address, Address};
use vstd::prelude::*;

verus! {

/// One row of a snapshot file, as text and number.
#[derive(Debug, Clone, PartialEq, Eq)]
pub struct SnapshotEntryRaw {
    pub wallet_pubkey: String,
    pub token_balance_atomic: u64,
}

/// The balance that one holder had when the snapshot was taken.
#[derive(Debug, Clone, Copy, PartialEq, Eq)]
pub struct SnapshotEntry {
    pub wallet_pubkey: Address,
    pub token_balance_atomic: u64,
}

/// The balances of all holders, one entry per holder.
#[derive(Debug)]
pub struct Snapshot(pub Vec<SnapshotEntry>);

/// The sum of the balances of `s`.
pub open spec fn balance_sum(s: Seq<SnapshotEntry>) -> nat
    decreases s.len(),
{
    if s.len() == 0 {
        0
    } else {
        balance_sum(s.drop_last()) + s.last().token_balance_atomic as nat
    }
}

/// Length of the owner address at the start of a token account's data slice.
pub const OWNER_LENGTH: usize = 32;

/// Length of the little-endian balance that follows the owner address.
pub const AMOUNT_LENGTH: usize = 8;

/// The value of the little-endian bytes `b`.
pub open spec fn le_value(b: Seq<u8>) -> nat
    decreases b.len(),
{
    if b.len() == 0 {
        0
    } else {
        b[0] as nat + 256 * le_value(b.drop_first())
    }
}

/// The owner address of a token account's data slice.
pub open spec fn owner_of(data: Seq<u8>) -> Seq<u8> {
    data.subrange(0, 32)
}

/// The balance of a token account's data slice.
pub open spec fn amount_of(data: Seq<u8>) -> nat {
    le_value(data.subrange(32, 40))
}

/// Whether `owner` is one of the addresses of `blacklist`.
pub open spec fn blacklisted(owner: Seq<u8>, blacklist: Seq<Address>) -> bool {
    exists|k: int| 0 <= k < blacklist.len() && blacklist[k].bytes@ == owner
}

/// Whether the token account with data slice `data` counts towards the snapshot:
/// it holds an owner and a balance, and its owner is not blacklisted.
pub open spec fn counts_for(data: Seq<u8>, blacklist: Seq<Address>) -> bool {
    &&& data.len() >= 40
    &&& !blacklisted(owner_of(data), blacklist)
}

/// The sum of the balances of the accounts of `accounts` owned by `owner` that
/// count towards the snapshot.
pub open spec fn holder_total(owner: Seq<u8>, accounts: Seq<Seq<u8>>, blacklist: Seq<Address>) -> nat
    decreases accounts.len(),
{
    if accounts.len() == 0 {
        0
    } else {
        holder_total(owner, accounts.drop_last(), blacklist) + if counts_for(
            accounts.last(),
            blacklist,
        ) && owner_of(accounts.last()) == owner {
            amount_of(accounts.last())
        } else {
            0
        }
    }
}

/// Whether `owner` is a holder of the snapshot: it owns an account that counts,
/// and its accounts together hold at least `minimum`.
pub open spec fn is_holder(owner: Seq<u8>, accounts: Seq<Seq<u8>>, minimum: u64, blacklist: Seq<Address>) -> bool {
    owns_account(owner, accounts, blacklist) && holder_total(owner, accounts, blacklist) >= minimum
}

/// Whether `owner` owns an account of `accounts` that counts towards the snapshot.
pub open spec fn owns_account(owner: Seq<u8>, accounts: Seq<Seq<u8>>, blacklist: Seq<Address>) -> bool {
    exists|k: int| 0 <= k < accounts.len() && counts_for(accounts[k], blacklist) && owner_of(accounts[k]) == owner
}

/// The views of the data slices `accounts`.
pub open spec fn data_views(accounts: Seq<Vec<u8>>) -> Seq<Seq<u8>> {
    accounts.map_values(|a: Vec<u8>| a@)
}

/// `n` capped at the largest `u64`.
pub open spec fn capped(n: nat) -> nat {
    if n > u64::MAX { u64::MAX as nat } else { n }
}

fn read_owner(data: &Vec<u8>) -> (r: Address)
    requires
        data@.len() >= 32,
    ensures
        r.bytes@ == owner_of(data@),
{
    let r = Address { bytes: [data[0], data[1], data[2], data[3], data[4], data[5], data[6], data[7], data[8], data[9], data[10], data[11], data[12], data[13], data[14], data[15], data[16], data[17], data[18], data[19], data[20], data[21], data[22], data[23], data[24], data[25], data[26], data[27], data[28], data[29], data[30], data[31]] };
    assert(r.bytes@ =~= owner_of(data@));
    r
}

proof fn lemma_le_value_bound(b: Seq<u8>)
    ensures
        le_value(b) < pow256(b.len()),
    decreases b.len(),
{
    if b.len() > 0 {
        lemma_le_value_bound(b.drop_first());
        let r = le_value(b.drop_first());
        let p = pow256((b.len() - 1) as nat);
        assert(b[0] as nat + 256 * r < 256 * p) by (nonlinear_arith)
            requires b[0] < 256, r < p, r + 1 <= p;
    }
}

/// 256 to the power `n`.
pub open spec fn pow256(n: nat) -> nat
    decreases n,
{
    if n == 0 { 1 } else { 256 * pow256((n - 1) as nat) }
}

fn read_amount(data: &Vec<u8>) -> (r: u64)
    requires
        data@.len() >= 40,
    ensures
        r == amount_of(data@),
{
    let ghost b = data@.subrange(32, 40);
    let mut v: u64 = 0;
    let mut i: usize = 40;
    while i > 32
        invariant
            32 <= i <= 40,
            data@.len() >= 40,
            b == data@.subrange(32, 40),
            v as nat == le_value(b.subrange(i - 32, 8)),
        decreases i,
    {
        let ghost rest = b.subrange(i - 32, 8);
        let ghost cur = b.subrange(i - 33, 8);
        assert(cur.drop_first() =~= rest);
        assert(cur[0] == data@[i - 1]);
        proof {
            lemma_le_value_bound(cur);
            assert(pow256(cur.len()) <= pow256(8)) by {
                lemma_pow256_mono(cur.len(), 8);
            }
            assert(pow256(8) == 0x1_0000_0000_0000_0000) by {
                reveal_with_fuel(pow256, 9);
            }
        }
        v = (data[i - 1] as u64) + 256 * v;
        i = i - 1;
    }
    assert(b.subrange(0, 8) =~= b);
    v
}

proof fn lemma_pow256_mono(a: nat, b: nat)
    requires
        a <= b,
    ensures
        pow256(a) <= pow256(b),
    decreases b,
{
    if a < b {
        lemma_pow256_mono(a, (b - 1) as nat);
    }
}

fn is_blacklisted(owner: &Address, blacklist: &Vec<Address>) -> (r: bool)
    ensures
        r == blacklisted(owner.bytes@, blacklist@),
{
    let mut k: usize = 0;
    while k < blacklist.len()
        invariant
            0 <= k <= blacklist@.len(),
            forall|j: int| 0 <= j < k ==> blacklist@[j].bytes@ != owner.bytes@,
        decreases blacklist@.len() - k,
    {
        if same_address(&blacklist[k], owner) {
            return true;
        }
        k = k + 1;
    }
    false
}

fn find_holder(entries: &Vec<SnapshotEntry>, owner: &Address) -> (r: Option<usize>)
    ensures
        match r {
            Some(j) => j < entries@.len() && entries@[j as int].wallet_pubkey.bytes@ == owner.bytes@,
            None => forall|j: int| 0 <= j < entries@.len() ==> entries@[j].wallet_pubkey.bytes@ != owner.bytes@,
        },
{
    let mut j: usize = 0;
    while j < entries.len()
        invariant
            0 <= j <= entries@.len(),
            forall|m: int| 0 <= m < j ==> entries@[m].wallet_pubkey.bytes@ != owner.bytes@,
        decreases entries@.len() - j,
    {
        if same_address(&entries[j].wallet_pubkey, owner) {
            return Some(j);
        }
        j = j + 1;
    }
    None
}

impl Snapshot {
    /// The snapshot is well formed: one entry per holder address.
    pub open spec fn wf(&self) -> bool {
        forall|i: int, j: int|
            0 <= i < j < self.0@.len() ==> self.0@[i].wallet_pubkey.bytes@ != self.0@[j].wallet_pubkey.bytes@
    }

    /// One entry per owner of a counted account, holding the sum of the balances
    /// of its counted accounts (capped at the largest `u64`).
    fn sum_by_owner(accounts: &Vec<Vec<u8>>, blacklist: &Vec<Address>) -> (r: Snapshot)
        ensures
            r.wf(),
            forall|i: int|
                0 <= i < r.0@.len() ==> owns_account(
                    (#[trigger] r.0@[i]).wallet_pubkey.bytes@,
                    data_views(accounts@),
                    blacklist@,
                ),
            forall|i: int|
                0 <= i < r.0@.len() ==> (#[trigger] r.0@[i]).token_balance_atomic == capped(
                    holder_total(r.0@[i].wallet_pubkey.bytes@, data_views(accounts@), blacklist@),
                ),
            forall|k: int|
                0 <= k < accounts@.len() && counts_for(#[trigger] accounts@[k]@, blacklist@)
                    ==> exists|i: int| 0 <= i < r.0@.len() && r.0@[i].wallet_pubkey.bytes@ == owner_of(accounts@[k]@),
    {
        let ghost all = data_views(accounts@);
        let mut out: Vec<SnapshotEntry> = Vec::new();
        let mut k: usize = 0;
        while k < accounts.len()
            invariant
                0 <= k <= accounts@.len(),
                all == data_views(accounts@),
                forall|i: int, j: int|
                    0 <= i < j < out@.len() ==> out@[i].wallet_pubkey.bytes@ != out@[j].wallet_pubkey.bytes@,
                forall|i: int|
                    0 <= i < out@.len() ==> owns_account(
                        (#[trigger] out@[i]).wallet_pubkey.bytes@,
                        all.take(k as int),
                        blacklist@,
                    ),
                forall|i: int|
                    0 <= i < out@.len() ==> (#[trigger] out@[i]).token_balance_atomic == capped(
                        holder_total(out@[i].wallet_pubkey.bytes@, all.take(k as int), blacklist@),
                    ),
                forall|o: Seq<u8>|
                    #[trigger] owns_account(o, all.take(k as int), blacklist@) ==> exists|i: int|
                        0 <= i < out@.len() && out@[i].wallet_pubkey.bytes@ == o,
            decreases accounts@.len() - k,
        {
            let ghost before = all.take(k as int);
            let ghost after = all.take(k + 1);
            assert(after.drop_last() =~= before);
            assert(after.last() == accounts@[k as int]@);
            assert forall|o: Seq<u8>| owns_account(o, before, blacklist@) implies owns_account(
                o,
                after,
                blacklist@,
            ) by {
                let m = choose|m: int|
                    0 <= m < before.len() && counts_for(before[m], blacklist@) && owner_of(before[m]) == o;
                assert(after[m] == before[m]);
            }
            let ghost old_out = out@;
            let data = &accounts[k];
            let mut counted = false;
            if data.len() >= 40 {
                let owner = read_owner(data);
                let amount = read_amount(data);
                if !is_blacklisted(&owner, blacklist) {
                    counted = true;
                    assert(counts_for(after.last(), blacklist@));
                    let ghost o = owner.bytes@;
                    assert(owns_account(o, after, blacklist@)) by {
                        assert(after[k as int] == after.last());
                    }
                    match find_holder(&out, &owner) {
                        Some(j) => {
                            let e = out[j];
                            let updated = SnapshotEntry {
                                wallet_pubkey: e.wallet_pubkey,
                                token_balance_atomic: e.token_balance_atomic.saturating_add(amount),
                            };
                            out.set(j, updated);
                            assert(out@[j as int].wallet_pubkey.bytes@ == o);
                        },
                        None => {
                            assert(holder_total(o, before, blacklist@) == 0) by {
                                lemma_not_holder_total(o, before, blacklist@);
                            }
                            out.push(SnapshotEntry { wallet_pubkey: owner, token_balance_atomic: amount });
                            assert(out@[out@.len() - 1].wallet_pubkey.bytes@ == o);
                        },
                    }
                    assert(exists|i: int| 0 <= i < out@.len() && out@[i].wallet_pubkey.bytes@ == o);
                    assert(o == owner_of(after.last()));
                }
            }
            assert(out@.len() >= old_out.len());
            assert(forall|i: int| 0 <= i < old_out.len() ==> out@[i].wallet_pubkey == old_out[i].wallet_pubkey);
            proof {
                assert(counted == counts_for(after.last(), blacklist@)) by {
                    if data@.len() >= 40 {
                        assert(after.last() == data@);
                    }
                }
                assert forall|o: Seq<u8>| #[trigger] owns_account(o, after, blacklist@) implies exists|i: int|
                    0 <= i < out@.len() && out@[i].wallet_pubkey.bytes@ == o by {
                    let m = choose|m: int|
                        0 <= m < after.len() && counts_for(after[m], blacklist@) && owner_of(after[m]) == o;
                    if m < before.len() {
                        assert(before[m] == after[m]);
                        assert(owns_account(o, before, blacklist@));
                        let i = choose|i: int| 0 <= i < old_out.len() && old_out[i].wallet_pubkey.bytes@ == o;
                        assert(out@[i].wallet_pubkey == old_out[i].wallet_pubkey);
                    } else {
                        assert(after[m] == after.last());
                    }
                }
            }
            k = k + 1;
        }
        assert(all.take(k as int) =~= all);
        proof {
            assert forall|m: int|
                0 <= m < accounts@.len() && counts_for(#[trigger] accounts@[m]@, blacklist@)
                    implies exists|i: int| 0 <= i < out@.len() && out@[i].wallet_pubkey.bytes@ == owner_of(accounts@[m]@) by {
                assert(all[m] == accounts@[m]@);
                assert(owns_account(owner_of(accounts@[m]@), all, blacklist@));
            }
        }
        Snapshot(out)
    }
}

impl Snapshot {
    /// The snapshot that a scan of token accounts gives, from each account's
    /// data slice (owner address, then little-endian balance): one entry per
    /// holder, holding the sum of the balances of its accounts (capped at the
    /// largest `u64`). Accounts of blacklisted owners, and slices too short to
    /// hold an owner and a balance, are skipped; a holder whose summed balance
    /// stays below `minimum_balance` is left out.
    pub fn from_token_accounts(accounts: &Vec<Vec<u8>>, minimum_balance: u64, blacklist: &Vec<Address>) -> (r: Snapshot)
        ensures
            r.wf(),
            forall|i: int|
                0 <= i < r.0@.len() ==> is_holder(
                    (#[trigger] r.0@[i]).wallet_pubkey.bytes@,
                    data_views(accounts@),
                    minimum_balance,
                    blacklist@,
                ),
            forall|i: int|
                0 <= i < r.0@.len() ==> (#[trigger] r.0@[i]).token_balance_atomic == capped(
                    holder_total(r.0@[i].wallet_pubkey.bytes@, data_views(accounts@), blacklist@),
                ),
            forall|o: Seq<u8>|
                #[trigger] owns_account(o, data_views(accounts@), blacklist@) && holder_total(
                    o,
                    data_views(accounts@),
                    blacklist@,
                ) >= minimum_balance ==> exists|i: int| 0 <= i < r.0@.len() && r.0@[i].wallet_pubkey.bytes@ == o,
    {
        let ghost all = data_views(accounts@);
        let sums = Snapshot::sum_by_owner(accounts, blacklist);
        assert forall|k: int| 0 <= k < all.len() implies #[trigger] all[k] == accounts@[k]@ by {}
        let mut out: Vec<SnapshotEntry> = Vec::new();
        let mut k: usize = 0;
        while k < sums.0.len()
            invariant
                0 <= k <= sums.0@.len(),
                all == data_views(accounts@),
                sums.wf(),
                forall|i: int|
                    0 <= i < sums.0@.len() ==> owns_account((#[trigger] sums.0@[i]).wallet_pubkey.bytes@, all, blacklist@),
                forall|i: int|
                    0 <= i < sums.0@.len() ==> (#[trigger] sums.0@[i]).token_balance_atomic == capped(
                        holder_total(sums.0@[i].wallet_pubkey.bytes@, all, blacklist@),
                    ),
                forall|o: Seq<u8>|
                    #[trigger] owns_account(o, all, blacklist@) ==> exists|i: int|
                        0 <= i < sums.0@.len() && sums.0@[i].wallet_pubkey.bytes@ == o,
                forall|i: int| 0 <= i < out@.len() ==> sums.0@.take(k as int).contains(#[trigger] out@[i]),
                forall|i: int, j: int|
                    0 <= i < j < out@.len() ==> out@[i].wallet_pubkey.bytes@ != out@[j].wallet_pubkey.bytes@,
                forall|i: int| 0 <= i < out@.len() ==> (#[trigger] out@[i]).token_balance_atomic >= minimum_balance,
                forall|j: int|
                    0 <= j < k && (#[trigger] sums.0@[j]).token_balance_atomic >= minimum_balance ==> out@.contains(
                        sums.0@[j],
                    ),
            decreases sums.0@.len() - k,
        {
            let e = sums.0[k];
            if e.token_balance_atomic >= minimum_balance {
                let ghost prev = out@;
                out.push(e);
                assert forall|i: int, j: int|
                    0 <= i < j < out@.len() implies out@[i].wallet_pubkey.bytes@ != out@[j].wallet_pubkey.bytes@ by {
                    if j == out@.len() - 1 {
                        assert(out@[i] == prev[i]);
                        assert(sums.0@.take(k as int).contains(prev[i]));
                        let m = choose|m: int| 0 <= m < k && sums.0@.take(k as int)[m] == prev[i];
                        assert(sums.0@[m] == prev[i]);
                    } else {
                        assert(out@[i] == prev[i] && out@[j] == prev[j]);
                    }
                }
                assert forall|i: int| 0 <= i < out@.len() implies sums.0@.take(k + 1).contains(#[trigger] out@[i]) by {
                    if i < prev.len() {
                        assert(out@[i] == prev[i]);
                        assert(sums.0@.take(k as int).contains(prev[i]));
                        let m = choose|m: int| 0 <= m < k && sums.0@.take(k as int)[m] == prev[i];
                        assert(sums.0@.take(k + 1)[m] == prev[i]);
                    } else {
                        assert(sums.0@.take(k + 1)[k as int] == out@[i]);
                    }
                }
                assert forall|j: int|
                    0 <= j < k + 1 && (#[trigger] sums.0@[j]).token_balance_atomic >= minimum_balance implies out@.contains(
                    sums.0@[j],
                ) by {
                    if j < k {
                        let t = choose|t: int| 0 <= t < prev.len() && prev[t] == sums.0@[j];
                        assert(out@[t] == prev[t]);
                    } else {
                        assert(out@[prev.len() as int] == sums.0@[j]);
                    }
                }
            }
            proof {
                if e.token_balance_atomic < minimum_balance {
                    assert forall|i: int| 0 <= i < out@.len() implies sums.0@.take(k + 1).contains(#[trigger] out@[i]) by {
                        let m = choose|m: int| 0 <= m < k && sums.0@.take(k as int)[m] == out@[i];
                        assert(sums.0@.take(k + 1)[m] == out@[i]);
                    }
                }
            }
            k = k + 1;
        }
        proof {
            assert forall|i: int| 0 <= i < out@.len() implies is_holder(
                (#[trigger] out@[i]).wallet_pubkey.bytes@,
                all,
                minimum_balance,
                blacklist@,
            ) && out@[i].token_balance_atomic == capped(
                holder_total(out@[i].wallet_pubkey.bytes@, all, blacklist@),
            ) by {
                assert(sums.0@.take(k as int).contains(out@[i]));
                let j = choose|j: int| 0 <= j < k && sums.0@.take(k as int)[j] == out@[i];
                assert(sums.0@[j] == out@[i]);
                assert(sums.0@[j].token_balance_atomic == capped(holder_total(sums.0@[j].wallet_pubkey.bytes@, all, blacklist@)));
            }
            assert forall|o: Seq<u8>| #[trigger] owns_account(o, all, blacklist@) && holder_total(o, all, blacklist@)
                >= minimum_balance implies exists|i: int| 0 <= i < out@.len() && out@[i].wallet_pubkey.bytes@ == o by {
                let j = choose|j: int| 0 <= j < sums.0@.len() && sums.0@[j].wallet_pubkey.bytes@ == o;
                assert(sums.0@[j].token_balance_atomic == capped(holder_total(o, all, blacklist@)));
                assert(out@.contains(sums.0@[j]));
                let t = choose|t: int| 0 <= t < out@.len() && out@[t] == sums.0@[j];
                assert(out@[t].wallet_pubkey.bytes@ == o);
            }
            assert(all == data_views(accounts@));
        }
        let r = Snapshot(out);
        assert forall|o: Seq<u8>|
            #[trigger] owns_account(o, data_views(accounts@), blacklist@) && holder_total(
                o,
                data_views(accounts@),
                blacklist@,
            ) >= minimum_balance implies exists|i: int| 0 <= i < r.0@.len() && r.0@[i].wallet_pubkey.bytes@ == o by {
            assert(owns_account(o, all, blacklist@));
            let i = choose|i: int| 0 <= i < out@.len() && out@[i].wallet_pubkey.bytes@ == o;
            assert(r.0@[i] == out@[i]);
        }
        r
    }
}

proof fn lemma_not_holder_total(owner: Seq<u8>, accounts: Seq<Seq<u8>>, blacklist: Seq<Address>)
    requires
        !owns_account(owner, accounts, blacklist),
    ensures
        holder_total(owner, accounts, blacklist) == 0,
    decreases accounts.len(),
{
    if accounts.len() > 0 {
        let p = accounts.drop_last();
        assert(!owns_account(owner, p, blacklist)) by {
            if owns_account(owner, p, blacklist) {
                let m = choose|m: int| 0 <= m < p.len() && counts_for(p[m], blacklist) && owner_of(p[m]) == owner;
                assert(accounts[m] == p[m]);
            }
        }
        lemma_not_holder_total(owner, p, blacklist);
        if counts_for(accounts.last(), blacklist) && owner_of(accounts.last()) == owner {
            assert(owns_account(owner, accounts, blacklist)) by {
                assert(accounts[accounts.len() - 1] == accounts.last());
            }
        }
    }
}

} // verus!
