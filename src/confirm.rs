use crate::keys::{same_submission_id, SubmissionId};
use crate::status::Status;
use crate::wallet_list::{keeps_terminal, with_status, WalletList, WalletListEntry};
use vstd::prelude::*;

verus! {

/// Whether some entry of `s` waits, `Unconfirmed`, on the submission `id`.
pub open spec fn references(s: Seq<WalletListEntry>, id: SubmissionId) -> bool {
    exists|i: int| 0 <= i < s.len() && s[i].status == Status::Unconfirmed(id)
}

/// The distinct submissions that entries of `s` wait on.
pub open spec fn unconfirmed_ids(s: Seq<WalletListEntry>) -> Set<SubmissionId> {
    Set::new(|id: SubmissionId| references(s, id))
}

/// The status of an entry with status `s` once the submissions in `finalized`
/// are known to be final: an entry waiting on one of them succeeds, under the
/// same identifier; every other entry stays.
pub open spec fn confirm_outcome(s: Status, finalized: Seq<SubmissionId>) -> Status {
    match s {
        Status::Unconfirmed(id) => if finalized.contains(id) { Status::Succeeded(id) } else { s },
        _ => s,
    }
}

fn contains_id(v: &Vec<SubmissionId>, id: &SubmissionId) -> (r: bool)
    ensures
        r == v@.contains(*id),
{
    let mut j: usize = 0;
    while j < v.len()
        invariant
            0 <= j <= v@.len(),
            forall|k: int| 0 <= k < j ==> v@[k] != *id,
        decreases v@.len() - j,
    {
        if same_submission_id(&v[j], id) {
            assert(v@[j as int].bytes =~= id.bytes);
            return true;
        }
        j = j + 1;
    }
    false
}

impl WalletList {
    /// The distinct submission identifiers that `Unconfirmed` entries wait on,
    /// each once, in the order of their first entry.
    pub fn get_unconfirmed_sigs(&self) -> (r: Vec<SubmissionId>)
        ensures
            r@.no_duplicates(),
            forall|id: SubmissionId| #[trigger] r@.contains(id) <==> references(self.0@, id),
            r@.to_set() == unconfirmed_ids(self.0@),
            r@.len() == unconfirmed_ids(self.0@).len(),
    {
        let mut out: Vec<SubmissionId> = Vec::new();
        let mut i: usize = 0;
        while i < self.0.len()
            invariant
                0 <= i <= self.0@.len(),
                out@.no_duplicates(),
                forall|id: SubmissionId| #[trigger] out@.contains(id) <==> references(self.0@.take(i as int), id),
            decreases self.0@.len() - i,
        {
            let ghost before = self.0@.take(i as int);
            let ghost after = self.0@.take(i + 1);
            assert forall|id: SubmissionId| references(before, id) implies references(after, id) by {
                let j = choose|j: int| 0 <= j < before.len() && before[j].status == Status::Unconfirmed(id);
                assert(after[j] == before[j]);
            }
            let ghost old_out = out@;
            assert(forall|x: SubmissionId| old_out.contains(x) <==> references(before, x));
            assert forall|id: SubmissionId| references(after, id) <==> (references(before, id)
                || after[i as int].status == Status::Unconfirmed(id)) by {
                if references(after, id) {
                    let j = choose|j: int| 0 <= j < after.len() && after[j].status == Status::Unconfirmed(id);
                    if j < i {
                        assert(before[j] == after[j]);
                    }
                }
                if after[i as int].status == Status::Unconfirmed(id) {
                    assert(0 <= i < after.len());
                }
            }
            match &self.0[i].status {
                Status::Unconfirmed(id) => {
                    if !contains_id(&out, id) {
                        out.push(*id);
                        assert forall|x: SubmissionId| out@.contains(x) <==> (old_out.contains(x) || x == *id) by {
                            if out@.contains(x) {
                                let k = choose|k: int| 0 <= k < out@.len() && out@[k] == x;
                                if k < old_out.len() {
                                    assert(old_out[k] == x);
                                }
                            }
                            if old_out.contains(x) {
                                let k = choose|k: int| 0 <= k < old_out.len() && old_out[k] == x;
                                assert(out@[k] == x);
                            }
                            if x == *id {
                                assert(out@[old_out.len() as int] == x);
                            }
                        }
                    }
                    assert(after[i as int].status == Status::Unconfirmed(*id));
                    assert(out@.contains(*id));
                    assert forall|x: SubmissionId| #[trigger] out@.contains(x) <==> references(after, x) by {
                        assert(old_out.contains(x) <==> references(before, x));
                        if x != *id {
                            assert(after[i as int].status != Status::Unconfirmed(x));
                        }
                    }
                },
                _ => {
                    assert forall|x: SubmissionId| #[trigger] out@.contains(x) <==> references(after, x) by {
                        assert(after[i as int].status != Status::Unconfirmed(x));
                    }
                },
            }
            i = i + 1;
        }
        assert(self.0@.take(i as int) =~= self.0@);
        proof {
            out@.unique_seq_to_set();
            assert(out@.to_set() =~= unconfirmed_ids(self.0@));
        }
        out
    }

    /// Marks every entry that waits on a submission in `finalized` as
    /// `Succeeded` under that identifier, all entries of one submission together,
    /// and returns how many distinct submissions are still waited on.
    pub fn confirm(&mut self, finalized: &Vec<SubmissionId>) -> (r: usize)
        ensures
            keeps_terminal(old(self).0@, final(self).0@),
            final(self).0@.len() == old(self).0@.len(),
            forall|i: int|
                0 <= i < old(self).0@.len() ==> #[trigger] final(self).0@[i] == with_status(
                    old(self).0@[i],
                    confirm_outcome(old(self).0@[i].status, finalized@),
                ),
            r == unconfirmed_ids(final(self).0@).len(),
    {
        let ghost start = self.0@;
        let mut i: usize = 0;
        while i < self.0.len()
            invariant
                0 <= i <= self.0@.len(),
                self.0@.len() == start.len(),
                forall|k: int|
                    0 <= k < i ==> #[trigger] self.0@[k] == with_status(
                        start[k],
                        confirm_outcome(start[k].status, finalized@),
                    ),
                forall|k: int| i <= k < start.len() ==> #[trigger] self.0@[k] == start[k],
            decreases self.0@.len() - i,
        {
            let next = match &self.0[i].status {
                Status::Unconfirmed(id) => if contains_id(finalized, id) {
                    Some(Status::Succeeded(*id))
                } else {
                    None
                },
                _ => None,
            };
            match next {
                Some(s) => self.set_status(i, s),
                None => {
                    assert(self.0@[i as int] == with_status(start[i as int], start[i as int].status));
                },
            }
            i = i + 1;
        }
        let ids = self.get_unconfirmed_sigs();
        ids.len()
    }
}

} // verus!
