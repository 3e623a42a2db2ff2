use crate::errors::Error;
use crate::keys::Address;
use crate::snapshot::{balance_sum, SnapshotEntry};
use crate::status::Status;
use crate::wallet_list::{addresses_unique, WalletList, WalletListEntry};
use vstd::prelude::*;

verus! {

/// The share of a holder with balance `b` in a pool of `total` split over
/// balances that sum to `sum`: `floor(b * total / sum)`.
pub open spec fn share(b: nat, total: nat, sum: nat) -> nat {
    (b * total) / sum
}

/// A new recipient entry, not checked yet and with no destination.
pub open spec fn fresh_entry(w: Address, amount: u64) -> WalletListEntry {
    WalletListEntry { wallet_pubkey: w, amount_to_airdrop: amount, ata: None, status: Status::Unprocessed }
}

/// The recipients that the balances `s` give when `total` is split over balances
/// summing to `sum`: one per holder, in order, leaving out those whose share is 0.
pub open spec fn allocated(s: Seq<SnapshotEntry>, total: nat, sum: nat) -> Seq<WalletListEntry>
    decreases s.len(),
{
    if s.len() == 0 {
        Seq::empty()
    } else {
        let prev = allocated(s.drop_last(), total, sum);
        let a = share(s.last().token_balance_atomic as nat, total, sum);
        if a == 0 {
            prev
        } else {
            prev.push(fresh_entry(s.last().wallet_pubkey, a as u64))
        }
    }
}

/// The sum of the amounts of `s`.
pub open spec fn amount_sum(s: Seq<WalletListEntry>) -> nat
    decreases s.len(),
{
    if s.len() == 0 {
        0
    } else {
        amount_sum(s.drop_last()) + s.last().amount_to_airdrop as nat
    }
}

proof fn lemma_balance_le_sum(s: Seq<SnapshotEntry>, i: int)
    requires
        0 <= i < s.len(),
    ensures
        s[i].token_balance_atomic <= balance_sum(s),
    decreases s.len(),
{
    if i < s.len() - 1 {
        lemma_balance_le_sum(s.drop_last(), i);
    }
}

proof fn lemma_balance_sum_bound(s: Seq<SnapshotEntry>)
    ensures
        balance_sum(s) <= s.len() * (u64::MAX as nat),
    decreases s.len(),
{
    if s.len() > 0 {
        lemma_balance_sum_bound(s.drop_last());
        assert((s.len() - 1) * (u64::MAX as nat) + u64::MAX as nat == s.len() * (u64::MAX as nat))
            by (nonlinear_arith);
    }
}

proof fn lemma_share_le_total(b: nat, total: nat, sum: nat)
    requires
        b <= sum,
        sum > 0,
    ensures
        share(b, total, sum) <= total,
{
    assert(b * total <= sum * total) by (nonlinear_arith)
        requires b <= sum;
    assert((b * total) / sum <= (sum * total) / sum) by (nonlinear_arith)
        requires b * total <= sum * total, sum > 0;
    assert((sum * total) / sum == total) by (nonlinear_arith)
        requires sum > 0;
}

/// Every recipient of an allocation has a positive amount.
proof fn lemma_allocated_positive(s: Seq<SnapshotEntry>, total: nat, sum: nat)
    requires
        sum > 0,
        forall|i: int| 0 <= i < s.len() ==> (#[trigger] s[i]).token_balance_atomic <= sum,
        total <= u64::MAX,
    ensures
        forall|k: int| 0 <= k < allocated(s, total, sum).len()
            ==> (#[trigger] allocated(s, total, sum)[k]).amount_to_airdrop > 0,
    decreases s.len(),
{
    if s.len() > 0 {
        let p = s.drop_last();
        assert forall|i: int| 0 <= i < p.len() implies (#[trigger] p[i]).token_balance_atomic <= sum by {
            assert(p[i] == s[i]);
        }
        lemma_allocated_positive(p, total, sum);
        lemma_share_le_total(s.last().token_balance_atomic as nat, total, sum);
    }
}

proof fn lemma_allocated_scaled(s: Seq<SnapshotEntry>, total: nat, sum: nat)
    requires
        sum > 0,
        forall|i: int| 0 <= i < s.len() ==> (#[trigger] s[i]).token_balance_atomic <= sum,
        total <= u64::MAX,
    ensures
        amount_sum(allocated(s, total, sum)) * sum <= total * balance_sum(s),
    decreases s.len(),
{
    if s.len() > 0 {
        let p = s.drop_last();
        assert forall|i: int| 0 <= i < p.len() implies (#[trigger] p[i]).token_balance_atomic <= sum by {
            assert(p[i] == s[i]);
        }
        lemma_allocated_scaled(p, total, sum);
        let b = s.last().token_balance_atomic as nat;
        let a = share(b, total, sum);
        assert(a * sum <= b * total) by (nonlinear_arith)
            requires a == (b * total) / sum, sum > 0;
        let prev = allocated(p, total, sum);
        lemma_share_le_total(b, total, sum);
        let x = amount_sum(prev);
        let bp = balance_sum(p);
        assert(balance_sum(s) == bp + b);
        if a != 0 {
            let cur = allocated(s, total, sum);
            assert(cur.drop_last() =~= prev);
            assert(cur.last().amount_to_airdrop == a);
            assert(amount_sum(cur) == x + a);
        } else {
            assert(amount_sum(allocated(s, total, sum)) == x);
        }
        assert((x + a) * sum <= total * (bp + b)) by (nonlinear_arith)
            requires x * sum <= total * bp, a * sum <= b * total;
        assert(x * sum <= total * (bp + b)) by (nonlinear_arith)
            requires x * sum <= total * bp;
        let y = amount_sum(allocated(s, total, sum));
        assert(y == x + a || y == x);
        assert(y * sum <= total * (bp + b));
    } else {
        assert(amount_sum(allocated(s, total, sum)) == 0);
        assert(balance_sum(s) == 0);
    }
}

/// Every recipient of an allocation is one of the holders it was made from.
proof fn lemma_allocated_from(s: Seq<SnapshotEntry>, total: nat, sum: nat)
    ensures
        forall|k: int| 0 <= k < allocated(s, total, sum).len() ==> exists|j: int|
            0 <= j < s.len() && (#[trigger] allocated(s, total, sum)[k]).wallet_pubkey == s[j].wallet_pubkey,
    decreases s.len(),
{
    if s.len() > 0 {
        let p = s.drop_last();
        lemma_allocated_from(p, total, sum);
        let prev = allocated(p, total, sum);
        let cur = allocated(s, total, sum);
        assert forall|k: int| 0 <= k < cur.len() implies exists|j: int|
            0 <= j < s.len() && (#[trigger] cur[k]).wallet_pubkey == s[j].wallet_pubkey by {
            if k < prev.len() {
                assert(cur[k] == prev[k]);
                let j = choose|j: int| 0 <= j < p.len() && prev[k].wallet_pubkey == p[j].wallet_pubkey;
                assert(p[j] == s[j]);
            } else {
                assert(cur[k].wallet_pubkey == s[s.len() - 1].wallet_pubkey);
            }
        }
    }
}

/// Holders with distinct addresses give recipients with distinct addresses.
proof fn lemma_allocated_unique(s: Seq<SnapshotEntry>, total: nat, sum: nat)
    requires
        forall|i: int, j: int| 0 <= i < j < s.len() ==> s[i].wallet_pubkey.bytes@ != s[j].wallet_pubkey.bytes@,
    ensures
        addresses_unique(allocated(s, total, sum)),
    decreases s.len(),
{
    if s.len() > 0 {
        let p = s.drop_last();
        assert forall|i: int, j: int| 0 <= i < j < p.len() implies p[i].wallet_pubkey.bytes@
            != p[j].wallet_pubkey.bytes@ by {
            assert(p[i] == s[i] && p[j] == s[j]);
        }
        lemma_allocated_unique(p, total, sum);
        lemma_allocated_from(p, total, sum);
        let prev = allocated(p, total, sum);
        let cur = allocated(s, total, sum);
        if cur.len() > prev.len() {
            assert forall|i: int, j: int| 0 <= i < j < cur.len() implies cur[i].wallet_pubkey.bytes@
                != cur[j].wallet_pubkey.bytes@ by {
                assert(cur[i] == prev[i]);
                if j < prev.len() {
                    assert(cur[j] == prev[j]);
                } else {
                    let m = choose|m: int| 0 <= m < p.len() && prev[i].wallet_pubkey == p[m].wallet_pubkey;
                    assert(p[m] == s[m]);
                    assert(cur[j].wallet_pubkey == s[s.len() - 1].wallet_pubkey);
                }
            }
        }
    }
}

/// Allocation conserves the pool: the amounts handed out never sum to more than
/// the total; the rounding dust stays unallocated.
pub proof fn lemma_allocation_conservation(s: Seq<SnapshotEntry>, total: u64)
    requires
        balance_sum(s) > 0,
    ensures
        amount_sum(allocated(s, total as nat, balance_sum(s))) <= total,
{
    let sum = balance_sum(s);
    assert forall|i: int| 0 <= i < s.len() implies (#[trigger] s[i]).token_balance_atomic <= sum by {
        lemma_balance_le_sum(s, i);
    }
    lemma_allocated_scaled(s, total as nat, sum);
    let a = amount_sum(allocated(s, total as nat, sum));
    assert(a <= total) by (nonlinear_arith)
        requires a * sum <= total * sum, sum > 0;
}

/// No recipient of an allocation has a zero share: a holder whose share rounds
/// down to 0 is left out of the list.
pub proof fn lemma_zero_share_excluded(s: Seq<SnapshotEntry>, total: u64)
    requires
        balance_sum(s) > 0,
    ensures
        forall|k: int| 0 <= k < allocated(s, total as nat, balance_sum(s)).len()
            ==> (#[trigger] allocated(s, total as nat, balance_sum(s))[k]).amount_to_airdrop != 0,
{
    assert forall|i: int| 0 <= i < s.len() implies (#[trigger] s[i]).token_balance_atomic <= balance_sum(s) by {
        lemma_balance_le_sum(s, i);
    }
    lemma_allocated_positive(s, total as nat, balance_sum(s));
}

/// Splits `total` over the holders of `balances` in proportion to their balances
/// (rounding each share down) and returns the recipients with a positive share,
/// in the order of `balances`, each unchecked and without a destination.
/// Fails with `EmptyPool` when the balances sum to zero.
pub fn allocate(balances: &Vec<SnapshotEntry>, total: u64) -> (r: Result<WalletList, Error>)
    ensures
        balance_sum(balances@) == 0 <==> r is Err,
        r is Err ==> r == Err::<WalletList, Error>(Error::EmptyPool),
        r is Ok ==> r->Ok_0.0@ == allocated(balances@, total as nat, balance_sum(balances@)),
        r is Ok ==> amount_sum(r->Ok_0.0@) <= total,
        r is Ok && (forall|i: int, j: int|
            0 <= i < j < balances@.len() ==> balances@[i].wallet_pubkey.bytes@ != balances@[j].wallet_pubkey.bytes@)
            ==> r->Ok_0.wf(),
{
    let mut sum: u128 = 0;
    let mut i: usize = 0;
    while i < balances.len()
        invariant
            0 <= i <= balances@.len(),
            sum == balance_sum(balances@.take(i as int)),
        decreases balances@.len() - i,
    {
        assert(balances@.take(i + 1).drop_last() =~= balances@.take(i as int));
        proof {
            lemma_balance_sum_bound(balances@.take(i + 1));
            assert((i + 1) * (u64::MAX as nat) < u128::MAX) by (nonlinear_arith)
                requires i < usize::MAX;
        }
        sum = sum + balances[i].token_balance_atomic as u128;
        i = i + 1;
    }
    assert(balances@.take(i as int) =~= balances@);
    if sum == 0 {
        return Err(Error::EmptyPool);
    }
    let ghost gsum = sum as nat;
    let mut out: Vec<WalletListEntry> = Vec::new();
    let mut j: usize = 0;
    while j < balances.len()
        invariant
            0 <= j <= balances@.len(),
            sum as nat == balance_sum(balances@),
            sum > 0,
            out@ == allocated(balances@.take(j as int), total as nat, sum as nat),
        decreases balances@.len() - j,
    {
        let e = balances[j];
        proof {
            lemma_balance_le_sum(balances@, j as int);
            lemma_share_le_total(e.token_balance_atomic as nat, total as nat, sum as nat);
            assert((e.token_balance_atomic as nat) * (total as nat) <= (u64::MAX as nat) * (u64::MAX as nat))
                by (nonlinear_arith)
                requires e.token_balance_atomic <= u64::MAX, total <= u64::MAX;
            assert(balances@.take(j + 1).drop_last() =~= balances@.take(j as int));
        }
        let a: u128 = (e.token_balance_atomic as u128) * (total as u128) / sum;
        if a != 0 {
            out.push(WalletListEntry {
                wallet_pubkey: e.wallet_pubkey,
                amount_to_airdrop: a as u64,
                ata: None,
                status: Status::Unprocessed,
            });
        }
        j = j + 1;
    }
    assert(balances@.take(j as int) =~= balances@);
    proof {
        lemma_allocation_conservation(balances@, total);
        if forall|i: int, j: int|
            0 <= i < j < balances@.len() ==> balances@[i].wallet_pubkey.bytes@ != balances@[j].wallet_pubkey.bytes@ {
            lemma_allocated_unique(balances@, total as nat, sum as nat);
        }
    }
    Ok(WalletList(out))
}

} // verus!
