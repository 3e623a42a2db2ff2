use crate::batching::{is_chunking, is_piece_of, lemma_flatten_contains, lemma_piece_increasing, split_chunks, strictly_increasing};
use crate::keys::{same_address, Address, SubmissionId};
use crate::status::Status;
use crate::token::{derive_destination, destination_of};
use crate::wallet_list::{keeps_terminal, with_status, WalletList, WalletListEntry};
use vstd::prelude::*;

verus! {

/// The transfers of one transaction: the places of their entries in the list,
/// and the destination and amount of each, in the same order.
#[derive(Debug)]
pub struct TransferBatch {
    pub indices: Vec<usize>,
    pub destinations: Vec<Address>,
    pub amounts: Vec<u64>,
}

/// Whether the entry `e` is to be sent now: it is `Qualified` and is not the
/// funding wallet itself.
pub open spec fn to_send(e: WalletListEntry, payer: Address) -> bool {
    e.status is Qualified && e.wallet_pubkey.bytes@ != payer.bytes@
}

/// The places of the entries of `s` to send, in increasing order.
pub open spec fn transfer_positions(s: Seq<WalletListEntry>, payer: Address) -> Seq<usize>
    decreases s.len(),
{
    if s.len() == 0 {
        Seq::empty()
    } else {
        let prev = transfer_positions(s.drop_last(), payer);
        if to_send(s.last(), payer) {
            prev.push((s.len() - 1) as usize)
        } else {
            prev
        }
    }
}

/// The index views of the batches `bs`.
pub open spec fn batch_index_views(bs: Seq<TransferBatch>) -> Seq<Seq<usize>> {
    bs.map_values(|b: TransferBatch| b.indices@)
}

/// The entry `after` is `before` with its destination resolved when it is to be
/// sent and has none; a cached destination is never recomputed.
pub open spec fn resolved_for_send(
    before: WalletListEntry,
    after: WalletListEntry,
    mint: Address,
    token_program: Address,
    payer: Address,
) -> bool {
    &&& after.wallet_pubkey == before.wallet_pubkey
    &&& after.amount_to_airdrop == before.amount_to_airdrop
    &&& after.status == before.status
    &&& if to_send(before, payer) && before.ata is None {
        &&& after.ata is Some
        &&& after.ata->0.bytes@ == destination_of(
            before.wallet_pubkey.bytes@,
            mint.bytes@,
            token_program.bytes@,
        )
    } else {
        after.ata == before.ata
    }
}

/// The status of an entry with status `s` after its batch was submitted with
/// `outcome`: every `Qualified` entry of the batch becomes `Unconfirmed` under
/// the returned identifier, or `Failed` with the error's text. A synchronous
/// success is never taken as final.
pub open spec fn submission_outcome(s: Status, outcome: Result<SubmissionId, String>) -> Status {
    if s is Qualified {
        match outcome {
            Ok(id) => Status::Unconfirmed(id),
            Err(reason) => Status::Failed(reason),
        }
    } else {
        s
    }
}

/// `new` is `old` after the submission of the batch with entries at `indices`
/// gave `outcome`: each entry of the batch changes as `submission_outcome` says,
/// every other entry stays.
pub open spec fn submission_applied(
    old: Seq<WalletListEntry>,
    new: Seq<WalletListEntry>,
    indices: Seq<usize>,
    outcome: Result<SubmissionId, String>,
) -> bool {
    &&& new.len() == old.len()
    &&& forall|t: int|
        0 <= t < indices.len() ==> #[trigger] new[indices[t] as int] == with_status(
            old[indices[t] as int],
            submission_outcome(old[indices[t] as int].status, outcome),
        )
    &&& forall|i: int| 0 <= i < old.len() && !indices.contains(i as usize) ==> #[trigger] new[i] == old[i]
}

/// A batch's outcome reaches all of it: when every entry of a batch was
/// `Qualified`, a failed submission leaves every one of them `Failed` with the
/// same reason, and a successful one leaves every one `Unconfirmed` under the
/// same identifier; never a subset.
pub proof fn lemma_batch_fan_out(
    old: Seq<WalletListEntry>,
    new: Seq<WalletListEntry>,
    indices: Seq<usize>,
    outcome: Result<SubmissionId, String>,
)
    requires
        submission_applied(old, new, indices, outcome),
        forall|t: int| 0 <= t < indices.len() ==> (#[trigger] indices[t]) < old.len(),
        forall|t: int| 0 <= t < indices.len() ==> old[(#[trigger] indices[t]) as int].status is Qualified,
    ensures
        forall|t: int|
            0 <= t < indices.len() ==> match outcome {
                Ok(id) => new[(#[trigger] indices[t]) as int].status == Status::Unconfirmed(id),
                Err(reason) => new[(#[trigger] indices[t]) as int].status == Status::Failed(reason),
            },
{
    assert forall|t: int| 0 <= t < indices.len() implies match outcome {
        Ok(id) => new[(#[trigger] indices[t]) as int].status == Status::Unconfirmed(id),
        Err(reason) => new[(#[trigger] indices[t]) as int].status == Status::Failed(reason),
    } by {
        assert(new[indices[t] as int] == with_status(
            old[indices[t] as int],
            submission_outcome(old[indices[t] as int].status, outcome),
        ));
    }
}

proof fn lemma_transfer_positions(s: Seq<WalletListEntry>, payer: Address)
    requires
        s.len() <= usize::MAX,
    ensures
        forall|t: int| 0 <= t < transfer_positions(s, payer).len() ==> {
            &&& (#[trigger] transfer_positions(s, payer)[t]) < s.len()
            &&& to_send(s[transfer_positions(s, payer)[t] as int], payer)
        },
        strictly_increasing(transfer_positions(s, payer)),
    decreases s.len(),
{
    if s.len() > 0 {
        let p = s.drop_last();
        lemma_transfer_positions(p, payer);
        let q = transfer_positions(s, payer);
        let prev = transfer_positions(p, payer);
        assert forall|t: int| 0 <= t < q.len() implies {
            &&& (#[trigger] q[t]) < s.len()
            &&& to_send(s[q[t] as int], payer)
        } by {
            if t < prev.len() {
                assert(q[t] == prev[t]);
                assert(p[prev[t] as int] == s[prev[t] as int]);
            }
        }
        assert forall|i: int, j: int| 0 <= i < j < q.len() implies q[i] < q[j] by {
            if j < prev.len() {
                assert(q[i] == prev[i] && q[j] == prev[j]);
            } else {
                assert(q[i] == prev[i]);
                assert(prev[i] < p.len());
            }
        }
    }
}

impl WalletList {
    /// Resolves and caches the destination of every entry to send that has none,
    /// then cuts the entries to send (`Qualified`, other than `payer`), in list
    /// order, into groups of at most `group_size` transfers, one group per
    /// transaction.
    pub fn plan_transfers(
        &mut self,
        token_mint: &Address,
        token_program: &Address,
        payer: &Address,
        group_size: usize,
    ) -> (r: Vec<TransferBatch>)
        requires
            group_size > 0,
        ensures
            final(self).0@.len() == old(self).0@.len(),
            keeps_terminal(old(self).0@, final(self).0@),
            forall|i: int|
                0 <= i < old(self).0@.len() ==> resolved_for_send(
                    old(self).0@[i],
                    #[trigger] final(self).0@[i],
                    *token_mint,
                    *token_program,
                    *payer,
                ),
            is_chunking(batch_index_views(r@), transfer_positions(old(self).0@, *payer), group_size as nat),
            forall|k: int| 0 <= k < r@.len() ==> strictly_increasing((#[trigger] r@[k]).indices@),
            forall|k: int|
                0 <= k < r@.len() ==> {
                    &&& (#[trigger] r@[k]).destinations@.len() == r@[k].indices@.len()
                    &&& r@[k].amounts@.len() == r@[k].indices@.len()
                },
            forall|k: int, t: int|
                0 <= k < r@.len() && 0 <= t < r@[k].indices@.len() ==> {
                    &&& (#[trigger] r@[k].indices@[t]) < final(self).0@.len()
                    &&& final(self).0@[r@[k].indices@[t] as int].ata == Some(r@[k].destinations@[t])
                    &&& final(self).0@[r@[k].indices@[t] as int].amount_to_airdrop == r@[k].amounts@[t]
                },
    {
        let ghost start = self.0@;
        let len0 = self.0.len();
        assert(start.len() == len0);
        let mut positions: Vec<usize> = Vec::new();
        let mut i: usize = 0;
        while i < self.0.len()
            invariant
                0 <= i <= self.0@.len(),
                self.0@.len() == start.len(),
                positions@ == transfer_positions(start.take(i as int), *payer),
                forall|k: int|
                    0 <= k < i ==> resolved_for_send(start[k], #[trigger] self.0@[k], *token_mint, *token_program, *payer),
                forall|k: int| i <= k < start.len() ==> #[trigger] self.0@[k] == start[k],
            decreases self.0@.len() - i,
        {
            assert(start.take(i + 1).drop_last() =~= start.take(i as int));
            if self.0[i].status.is_qualified() && !same_address(&self.0[i].wallet_pubkey, payer) {
                if self.0[i].ata.is_none() {
                    let dest = derive_destination(&self.0[i].wallet_pubkey, token_mint, token_program);
                    let e = &self.0[i];
                    let updated = WalletListEntry {
                        wallet_pubkey: e.wallet_pubkey,
                        amount_to_airdrop: e.amount_to_airdrop,
                        ata: Some(dest),
                        status: e.status.duplicate(),
                    };
                    self.0.set(i, updated);
                }
                positions.push(i);
            }
            i = i + 1;
        }
        assert(start.take(i as int) =~= start);
        proof {
            lemma_transfer_positions(start, *payer);
        }
        let index_chunks = split_chunks(&positions, group_size);
        let ghost views = crate::batching::chunk_views(index_chunks@);
        let mut out: Vec<TransferBatch> = Vec::new();
        let mut k: usize = 0;
        while k < index_chunks.len()
            invariant
                0 <= k <= index_chunks@.len(),
                self.0@.len() == start.len(),
                start.len() <= usize::MAX,
                views == crate::batching::chunk_views(index_chunks@),
                is_chunking(views, positions@, group_size as nat),
                positions@ == transfer_positions(start, *payer),
                forall|j: int|
                    0 <= j < start.len() ==> resolved_for_send(start[j], #[trigger] self.0@[j], *token_mint, *token_program, *payer),
                out@.len() == k,
                strictly_increasing(positions@),
                forall|m: int| 0 <= m < index_chunks@.len() ==> is_piece_of((#[trigger] index_chunks@[m])@, positions@),
                forall|m: int| 0 <= m < k ==> strictly_increasing((#[trigger] out@[m]).indices@),
                forall|m: int| 0 <= m < k ==> (#[trigger] out@[m]).indices@ == views[m],
                forall|m: int|
                    0 <= m < k ==> {
                        &&& (#[trigger] out@[m]).destinations@.len() == out@[m].indices@.len()
                        &&& out@[m].amounts@.len() == out@[m].indices@.len()
                    },
                forall|m: int, t: int|
                    0 <= m < k && 0 <= t < out@[m].indices@.len() ==> {
                        &&& (#[trigger] out@[m].indices@[t]) < self.0@.len()
                        &&& self.0@[out@[m].indices@[t] as int].ata == Some(out@[m].destinations@[t])
                        &&& self.0@[out@[m].indices@[t] as int].amount_to_airdrop == out@[m].amounts@[t]
                    },
            decreases index_chunks@.len() - k,
        {
            let chunk = &index_chunks[k];
            let mut dests: Vec<Address> = Vec::new();
            let mut amounts: Vec<u64> = Vec::new();
            let mut t: usize = 0;
            while t < chunk.len()
                invariant
                    0 <= t <= chunk@.len(),
                    k < index_chunks@.len(),
                    chunk@ == views[k as int],
                    views == crate::batching::chunk_views(index_chunks@),
                    is_chunking(views, positions@, group_size as nat),
                    positions@ == transfer_positions(start, *payer),
                    self.0@.len() == start.len(),
                    start.len() <= usize::MAX,
                    forall|j: int|
                        0 <= j < start.len() ==> resolved_for_send(start[j], #[trigger] self.0@[j], *token_mint, *token_program, *payer),
                    dests@.len() == t,
                    amounts@.len() == t,
                    forall|u: int|
                        0 <= u < t ==> {
                            &&& (#[trigger] chunk@[u]) < self.0@.len()
                            &&& self.0@[chunk@[u] as int].ata == Some(dests@[u])
                            &&& self.0@[chunk@[u] as int].amount_to_airdrop == amounts@[u]
                        },
                decreases chunk@.len() - t,
            {
                proof {
                    lemma_flatten_contains(views, k as int, t as int);
                    lemma_transfer_positions(start, *payer);
                }
                let idx = chunk[t];
                assert(idx < self.0@.len());
                assert(to_send(start[idx as int], *payer));
                let dest = self.0[idx].ata.unwrap();
                dests.push(dest);
                amounts.push(self.0[idx].amount_to_airdrop);
                t = t + 1;
            }
            proof {
                lemma_piece_increasing(chunk@, positions@);
            }
            let indices = chunk.clone();
            out.push(TransferBatch { indices, destinations: dests, amounts });
            k = k + 1;
        }
        assert(batch_index_views(out@) =~= views);
        out
    }

    /// Fans the outcome of one batch's submission out to every entry of the
    /// batch: all its `Qualified` entries become `Unconfirmed` under the same
    /// identifier, or all become `Failed`; never a subset. Entries outside the
    /// batch are unchanged.
    pub fn apply_submission(&mut self, batch: &TransferBatch, outcome: &Result<SubmissionId, String>)
        requires
            forall|t: int| 0 <= t < batch.indices@.len() ==> (#[trigger] batch.indices@[t]) < old(self).0@.len(),
            forall|t1: int, t2: int|
                0 <= t1 < t2 < batch.indices@.len() ==> batch.indices@[t1] != batch.indices@[t2],
        ensures
            keeps_terminal(old(self).0@, final(self).0@),
            submission_applied(old(self).0@, final(self).0@, batch.indices@, *outcome),
    {
        let ghost start = self.0@;
        let len0 = self.0.len();
        assert(start.len() <= usize::MAX) by {
            assert(start.len() == len0);
        }
        let mut t: usize = 0;
        while t < batch.indices.len()
            invariant
                0 <= t <= batch.indices@.len(),
                self.0@.len() == start.len(),
                start.len() <= usize::MAX,
                forall|u: int| 0 <= u < batch.indices@.len() ==> (#[trigger] batch.indices@[u]) < start.len(),
                forall|t1: int, t2: int|
                    0 <= t1 < t2 < batch.indices@.len() ==> batch.indices@[t1] != batch.indices@[t2],
                forall|u: int|
                    0 <= u < t ==> #[trigger] self.0@[batch.indices@[u] as int] == with_status(
                        start[batch.indices@[u] as int],
                        submission_outcome(start[batch.indices@[u] as int].status, *outcome),
                    ),
                forall|i: int|
                    0 <= i < start.len() && !batch.indices@.take(t as int).contains(i as usize)
                        ==> #[trigger] self.0@[i] == start[i],
            decreases batch.indices@.len() - t,
        {
            let idx = batch.indices[t];
            assert(!batch.indices@.take(t as int).contains(idx)) by {
                if batch.indices@.take(t as int).contains(idx) {
                    let u = choose|u: int| 0 <= u < t && batch.indices@.take(t as int)[u] == idx;
                    assert(batch.indices@[u] == batch.indices@[t as int]);
                }
            }
            if self.0[idx].status.is_qualified() {
                let next = match outcome {
                    Ok(id) => Status::Unconfirmed(*id),
                    Err(reason) => Status::Failed(reason.clone()),
                };
                self.set_status(idx, next);
            } else {
                assert(self.0@[idx as int] == with_status(start[idx as int], start[idx as int].status));
            }
            assert forall|u: int| 0 <= u < t implies #[trigger] self.0@[batch.indices@[u] as int] == with_status(
                start[batch.indices@[u] as int],
                submission_outcome(start[batch.indices@[u] as int].status, *outcome),
            ) by {
                assert(batch.indices@[u] != batch.indices@[t as int]);
            }
            assert forall|i: int|
                0 <= i < start.len() && !batch.indices@.take(t + 1).contains(i as usize)
                    implies #[trigger] self.0@[i] == start[i] by {
                assert(batch.indices@.take(t + 1)[t as int] == idx);
                if batch.indices@.take(t as int).contains(i as usize) {
                    let u = choose|u: int| 0 <= u < t && batch.indices@.take(t as int)[u] == i as usize;
                    assert(batch.indices@.take(t + 1)[u] == i as usize);
                }
            }
            t = t + 1;
        }
        assert(batch.indices@.take(t as int) =~= batch.indices@);
        assert forall|i: int| 0 <= i < start.len() implies {
            &&& (#[trigger] self.0@[i]).wallet_pubkey == start[i].wallet_pubkey
            &&& self.0@[i].amount_to_airdrop == start[i].amount_to_airdrop
            &&& (start[i].status.is_terminal() ==> self.0@[i] == start[i])
        } by {
            assert(i as usize as int == i);
            if batch.indices@.contains(i as usize) {
                let u = choose|u: int| 0 <= u < batch.indices@.len() && batch.indices@[u] == i as usize;
                assert(self.0@[batch.indices@[u] as int] == with_status(
                    start[batch.indices@[u] as int],
                    submission_outcome(start[batch.indices@[u] as int].status, *outcome),
                ));
                assert(batch.indices@[u] as int == i);
            } else {
                assert(self.0@[i] == start[i]);
            }
        }
    }
}

} // verus!
