use crate::keys::{Address, SubmissionId};
use crate::status::Status;
use vstd::prelude::*;

verus! {

/// One recipient: its holder address, its share, its cached destination and its status.
#[derive(Debug, Clone, PartialEq, Eq)]
pub struct WalletListEntry {
    pub wallet_pubkey: Address,
    pub amount_to_airdrop: u64,
    pub ata: Option<Address>,
    pub status: Status,
}

/// The recipients of one distribution, one entry per holder.
#[derive(Debug)]
pub struct WalletList(pub Vec<WalletListEntry>);

/// The entry `e` with the status `s`.
pub open spec fn with_status(e: WalletListEntry, s: Status) -> WalletListEntry {
    WalletListEntry { status: s, ..e }
}

/// `new` holds the same recipients as `old`, at the same places, and every entry
/// of `old` in a terminal status is unchanged in `new`.
pub open spec fn keeps_terminal(old: Seq<WalletListEntry>, new: Seq<WalletListEntry>) -> bool {
    &&& new.len() == old.len()
    &&& forall|i: int|
        0 <= i < old.len() ==> {
            &&& (#[trigger] new[i]).wallet_pubkey == old[i].wallet_pubkey
            &&& new[i].amount_to_airdrop == old[i].amount_to_airdrop
            &&& (old[i].status.is_terminal() ==> new[i] == old[i])
        }
}

/// No two entries of `s` share a holder address.
pub open spec fn addresses_unique(s: Seq<WalletListEntry>) -> bool {
    forall|i: int, j: int|
        0 <= i < j < s.len() ==> s[i].wallet_pubkey.bytes@ != s[j].wallet_pubkey.bytes@
}

/// Operations that keep every entry's holder in place keep holders unique: one
/// entry per recipient for the lifetime of a run.
pub proof fn lemma_keeps_terminal_unique(old: Seq<WalletListEntry>, new: Seq<WalletListEntry>)
    requires
        keeps_terminal(old, new),
        addresses_unique(old),
    ensures
        addresses_unique(new),
{
    assert forall|i: int, j: int| 0 <= i < j < new.len() implies new[i].wallet_pubkey.bytes@
        != new[j].wallet_pubkey.bytes@ by {
        assert(new[i].wallet_pubkey == old[i].wallet_pubkey);
        assert(new[j].wallet_pubkey == old[j].wallet_pubkey);
    }
}

/// The status after a `Failed` status is reset to `to`; any other status stays.
pub open spec fn reset_failed(s: Status, to: Status) -> Status {
    if s is Failed { to } else { s }
}

/// The status after a `Failed` status is set aside as `Excluded`, with its reason.
pub open spec fn exclude_failed(s: Status) -> Status {
    match s {
        Status::Failed(reason) => Status::Excluded(reason),
        _ => s,
    }
}

/// The reason recorded when the transfer under `id` could not be confirmed: the
/// identifier's text, then a fixed tag that tells it from a definite failure.
pub open spec fn unconfirmed_reason(id: SubmissionId) -> Seq<char> {
    crate::keys::text_of_submission_id(id.bytes@) + CONFIRM_TIMEOUT_TAG@
}

/// The tag that ends the reason of a transfer whose outcome was never observed.
pub const CONFIRM_TIMEOUT_TAG: &'static str = ": Could not confirm transaction";

/// Whether the failure reason `r` records a transfer whose outcome was never
/// observed: it ends with the confirmation time-out tag.
pub open spec fn is_unobserved_reason(r: Seq<char>) -> bool {
    r.len() >= CONFIRM_TIMEOUT_TAG@.len() && r.subrange(r.len() - CONFIRM_TIMEOUT_TAG@.len(), r.len() as int)
        == CONFIRM_TIMEOUT_TAG@
}

/// The status after a definite failure is put back in line for sending: a
/// `Failed` status whose reason is not an unobserved outcome becomes
/// `Qualified`; every other status stays.
pub open spec fn requeue_definite(s: Status) -> Status {
    match s {
        Status::Failed(reason) => if is_unobserved_reason(reason@) { s } else { Status::Qualified },
        _ => s,
    }
}

fn ends_with_text(s: &str, tail: &str) -> (r: bool)
    ensures
        r == (s@.len() >= tail@.len() && s@.subrange(s@.len() - tail@.len(), s@.len() as int) == tail@),
{
    let n = s.unicode_len();
    let m = tail.unicode_len();
    if m > n {
        return false;
    }
    let mut i: usize = 0;
    while i < m
        invariant
            n == s@.len(),
            m == tail@.len(),
            m <= n,
            0 <= i <= m,
            forall|k: int| 0 <= k < i ==> s@[n - m + k] == tail@[k],
        decreases m - i,
    {
        if s.get_char(n - m + i) != tail.get_char(i) {
            assert(s@.subrange(n - m, n as int)[i as int] != tail@[i as int]);
            return false;
        }
        i = i + 1;
    }
    assert(s@.subrange(n - m, n as int) =~= tail@);
    true
}

/// How many entries of `s` have a status that satisfies `p`.
pub open spec fn count_matching(s: Seq<WalletListEntry>, p: spec_fn(Status) -> bool) -> nat
    decreases s.len(),
{
    if s.len() == 0 {
        0
    } else {
        count_matching(s.drop_last(), p) + if p(s.last().status) { 1nat } else { 0nat }
    }
}

pub open spec fn is_qualified_status(s: Status) -> bool {
    s is Qualified
}

pub open spec fn is_failed_status(s: Status) -> bool {
    s is Failed
}

pub open spec fn is_unconfirmed_status(s: Status) -> bool {
    s is Unconfirmed
}

/// Any sequence of operations that each keep terminal entries keeps them too.
pub proof fn lemma_keeps_terminal_chain(
    a: Seq<WalletListEntry>,
    b: Seq<WalletListEntry>,
    c: Seq<WalletListEntry>,
)
    requires
        keeps_terminal(a, b),
        keeps_terminal(b, c),
    ensures
        keeps_terminal(a, c),
{
    assert forall|i: int| 0 <= i < a.len() implies {
        &&& (#[trigger] c[i]).wallet_pubkey == a[i].wallet_pubkey
        &&& c[i].amount_to_airdrop == a[i].amount_to_airdrop
        &&& (a[i].status.is_terminal() ==> c[i] == a[i])
    } by {
        assert(b[i].wallet_pubkey == a[i].wallet_pubkey);
        assert(c[i].wallet_pubkey == b[i].wallet_pubkey);
    }
}

impl WalletList {
    /// The list is well formed: one entry per holder address.
    pub open spec fn wf(&self) -> bool {
        addresses_unique(self.0@)
    }

    /// Sets the status of entry `i`, keeping its other fields.
    pub(crate) fn set_status(&mut self, i: usize, s: Status)
        requires
            i < old(self).0@.len(),
        ensures
            final(self).0@ == old(self).0@.update(i as int, with_status(old(self).0@[i as int], s)),
    {
        let e = &self.0[i];
        let updated = WalletListEntry {
            wallet_pubkey: e.wallet_pubkey,
            amount_to_airdrop: e.amount_to_airdrop,
            ata: e.ata,
            status: s,
        };
        self.0.set(i, updated);
    }

    /// Number of entries with a `Qualified` status.
    pub fn count_qualified(&self) -> (r: usize)
        ensures
            r == count_matching(self.0@, |s: Status| is_qualified_status(s)),
    {
        let mut n: usize = 0;
        let mut i: usize = 0;
        while i < self.0.len()
            invariant
                0 <= i <= self.0@.len(),
                n == count_matching(self.0@.take(i as int), |s: Status| is_qualified_status(s)),
                n <= i,
            decreases self.0@.len() - i,
        {
            assert(self.0@.take(i + 1).drop_last() =~= self.0@.take(i as int));
            if self.0[i].status.is_qualified() {
                n = n + 1;
            }
            i = i + 1;
        }
        assert(self.0@.take(i as int) =~= self.0@);
        n
    }

    /// Number of entries with a `Failed` status.
    pub fn count_failed(&self) -> (r: usize)
        ensures
            r == count_matching(self.0@, |s: Status| is_failed_status(s)),
    {
        let mut n: usize = 0;
        let mut i: usize = 0;
        while i < self.0.len()
            invariant
                0 <= i <= self.0@.len(),
                n == count_matching(self.0@.take(i as int), |s: Status| is_failed_status(s)),
                n <= i,
            decreases self.0@.len() - i,
        {
            assert(self.0@.take(i + 1).drop_last() =~= self.0@.take(i as int));
            if self.0[i].status.is_failed() {
                n = n + 1;
            }
            i = i + 1;
        }
        assert(self.0@.take(i as int) =~= self.0@);
        n
    }

    /// Number of entries with an `Unconfirmed` status.
    pub fn count_unconfirmed(&self) -> (r: usize)
        ensures
            r == count_matching(self.0@, |s: Status| is_unconfirmed_status(s)),
    {
        let mut n: usize = 0;
        let mut i: usize = 0;
        while i < self.0.len()
            invariant
                0 <= i <= self.0@.len(),
                n == count_matching(self.0@.take(i as int), |s: Status| is_unconfirmed_status(s)),
                n <= i,
            decreases self.0@.len() - i,
        {
            assert(self.0@.take(i + 1).drop_last() =~= self.0@.take(i as int));
            if self.0[i].status.is_unconfirmed() {
                n = n + 1;
            }
            i = i + 1;
        }
        assert(self.0@.take(i as int) =~= self.0@);
        n
    }

    /// Failed -> `to`, for every entry; every other entry is unchanged.
    fn set_failed_to(&mut self, to: &Status)
        ensures
            final(self).0@.len() == old(self).0@.len(),
            forall|i: int|
                0 <= i < old(self).0@.len() ==> #[trigger] final(self).0@[i] == with_status(
                    old(self).0@[i],
                    reset_failed(old(self).0@[i].status, *to),
                ),
    {
        let ghost start = self.0@;
        let mut i: usize = 0;
        while i < self.0.len()
            invariant
                0 <= i <= self.0@.len(),
                self.0@.len() == start.len(),
                forall|k: int| 0 <= k < i ==> #[trigger] self.0@[k] == with_status(
                    start[k],
                    reset_failed(start[k].status, *to),
                ),
                forall|k: int| i <= k < start.len() ==> #[trigger] self.0@[k] == start[k],
            decreases self.0@.len() - i,
        {
            if self.0[i].status.is_failed() {
                self.set_status(i, to.duplicate());
            } else {
                assert(self.0@[i as int] == with_status(start[i as int], start[i as int].status));
            }
            i = i + 1;
        }
    }

    /// Failed -> Unprocessed, for every entry: the check stage retries them.
    pub fn set_failed_to_unprocessed(&mut self)
        ensures
            keeps_terminal(old(self).0@, final(self).0@),
            forall|i: int|
                0 <= i < old(self).0@.len() ==> #[trigger] final(self).0@[i] == with_status(
                    old(self).0@[i],
                    reset_failed(old(self).0@[i].status, Status::Unprocessed),
                ),
    {
        self.set_failed_to(&Status::Unprocessed);
    }

    /// Failed -> Qualified, for every entry: the send stage retries them.
    pub fn set_failed_to_qualified(&mut self)
        ensures
            keeps_terminal(old(self).0@, final(self).0@),
            forall|i: int|
                0 <= i < old(self).0@.len() ==> #[trigger] final(self).0@[i] == with_status(
                    old(self).0@[i],
                    reset_failed(old(self).0@[i].status, Status::Qualified),
                ),
    {
        self.set_failed_to(&Status::Qualified);
    }

    /// Failed -> Excluded, keeping the reason, for every entry.
    pub fn set_failed_to_excluded(&mut self)
        ensures
            keeps_terminal(old(self).0@, final(self).0@),
            forall|i: int|
                0 <= i < old(self).0@.len() ==> #[trigger] final(self).0@[i] == with_status(
                    old(self).0@[i],
                    exclude_failed(old(self).0@[i].status),
                ),
    {
        let ghost start = self.0@;
        let mut i: usize = 0;
        while i < self.0.len()
            invariant
                0 <= i <= self.0@.len(),
                self.0@.len() == start.len(),
                forall|k: int| 0 <= k < i ==> #[trigger] self.0@[k] == with_status(
                    start[k],
                    exclude_failed(start[k].status),
                ),
                forall|k: int| i <= k < start.len() ==> #[trigger] self.0@[k] == start[k],
            decreases self.0@.len() - i,
        {
            let next = match &self.0[i].status {
                Status::Failed(reason) => Some(Status::Excluded(reason.clone())),
                _ => None,
            };
            match next {
                Some(s) => self.set_status(i, s),
                None => {
                    assert(self.0@[i as int] == with_status(start[i as int], start[i as int].status));
                },
            }
            i = i + 1;
        }
    }

    /// Unconfirmed -> Failed, for every entry, with a reason that names the
    /// identifier and tags the outcome as never observed: the transfer may in
    /// fact be final, so such an entry needs reconciling before it is sent again.
    pub fn set_unconfirmed_to_failed(&mut self)
        ensures
            keeps_terminal(old(self).0@, final(self).0@),
            forall|i: int|
                0 <= i < old(self).0@.len() ==> {
                    let before = old(self).0@[i];
                    let after = #[trigger] final(self).0@[i];
                    match before.status {
                        Status::Unconfirmed(id) => after.wallet_pubkey == before.wallet_pubkey
                            && after.amount_to_airdrop == before.amount_to_airdrop
                            && after.ata == before.ata
                            && after.status is Failed
                            && after.status->Failed_0@ == unconfirmed_reason(id),
                        _ => after == before,
                    }
                },
    {
        let ghost start = self.0@;
        let mut i: usize = 0;
        while i < self.0.len()
            invariant
                0 <= i <= self.0@.len(),
                self.0@.len() == start.len(),
                forall|k: int|
                    0 <= k < i ==> {
                        let before = start[k];
                        let after = #[trigger] self.0@[k];
                        match before.status {
                            Status::Unconfirmed(id) => after.wallet_pubkey == before.wallet_pubkey
                                && after.amount_to_airdrop == before.amount_to_airdrop
                                && after.ata == before.ata
                                && after.status is Failed
                                && after.status->Failed_0@ == unconfirmed_reason(id),
                            _ => after == before,
                        }
                    },
                forall|k: int| i <= k < start.len() ==> #[trigger] self.0@[k] == start[k],
            decreases self.0@.len() - i,
        {
            let next = match &self.0[i].status {
                Status::Unconfirmed(id) => {
                    let mut reason = crate::keys::submission_id_text(id);
                    reason.append(CONFIRM_TIMEOUT_TAG);
                    Some(Status::Failed(reason))
                },
                _ => None,
            };
            match next {
                Some(s) => self.set_status(i, s),
                None => {},
            }
            i = i + 1;
        }
    }

    /// Puts the definite failures of a transfer stage back in line: every
    /// `Failed` entry whose reason is not an unobserved outcome becomes
    /// `Qualified`. An entry whose transfer may have gone through unobserved
    /// stays `Failed` until it is reconciled by hand, so it is never paid twice.
    pub fn requeue_failed_transfers(&mut self)
        ensures
            keeps_terminal(old(self).0@, final(self).0@),
            forall|i: int|
                0 <= i < old(self).0@.len() ==> #[trigger] final(self).0@[i] == with_status(
                    old(self).0@[i],
                    requeue_definite(old(self).0@[i].status),
                ),
    {
        let ghost start = self.0@;
        let mut i: usize = 0;
        while i < self.0.len()
            invariant
                0 <= i <= self.0@.len(),
                self.0@.len() == start.len(),
                forall|k: int| 0 <= k < i ==> #[trigger] self.0@[k] == with_status(
                    start[k],
                    requeue_definite(start[k].status),
                ),
                forall|k: int| i <= k < start.len() ==> #[trigger] self.0@[k] == start[k],
            decreases self.0@.len() - i,
        {
            let definite = match &self.0[i].status {
                Status::Failed(reason) => !ends_with_text(reason.as_str(), CONFIRM_TIMEOUT_TAG),
                _ => false,
            };
            if definite {
                self.set_status(i, Status::Qualified);
            } else {
                assert(self.0@[i as int] == with_status(start[i as int], start[i as int].status));
            }
            i = i + 1;
        }
    }
}

} // verus!
