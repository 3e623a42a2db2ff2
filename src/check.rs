use crate::batching::{is_chunking, is_piece_of, lemma_flatten_contains, lemma_piece_increasing, split_chunks, strictly_increasing};
use crate::keys::Address;
use crate::status::Status;
use crate::token::{derive_destination, destination_of, is_token_account_data, token_account_unpacks};
use crate::wallet_list::{keeps_terminal, with_status, WalletList, WalletListEntry};
use vstd::prelude::*;

verus! {

/// The entries of one multi-address lookup: their places in the list and the
/// destinations to look up, in the same order.
#[derive(Debug)]
pub struct LookupChunk {
    pub indices: Vec<usize>,
    pub destinations: Vec<Address>,
}

/// The places of the `Unprocessed` entries of `s`, in increasing order.
pub open spec fn unprocessed_positions(s: Seq<WalletListEntry>) -> Seq<usize>
    decreases s.len(),
{
    if s.len() == 0 {
        Seq::empty()
    } else {
        let prev = unprocessed_positions(s.drop_last());
        if s.last().status is Unprocessed {
            prev.push((s.len() - 1) as usize)
        } else {
            prev
        }
    }
}

/// The index views of the chunks `cs`.
pub open spec fn lookup_index_views(cs: Seq<LookupChunk>) -> Seq<Seq<usize>> {
    cs.map_values(|c: LookupChunk| c.indices@)
}

/// The entry `after` is `before` with its destination resolved when it is
/// unchecked and has none; a cached destination is never recomputed.
pub open spec fn resolved_for_check(
    before: WalletListEntry,
    after: WalletListEntry,
    mint: Address,
    token_program: Address,
) -> bool {
    &&& after.wallet_pubkey == before.wallet_pubkey
    &&& after.amount_to_airdrop == before.amount_to_airdrop
    &&& after.status == before.status
    &&& if before.status is Unprocessed && before.ata is None {
        &&& after.ata is Some
        &&& after.ata->0.bytes@ == destination_of(
            before.wallet_pubkey.bytes@,
            mint.bytes@,
            token_program.bytes@,
        )
    } else {
        after.ata == before.ata
    }
}

/// The status that a lookup result gives: a destination that unpacks as a token
/// account qualifies; a missing or malformed one disqualifies.
pub open spec fn qualification(account: Option<Vec<u8>>) -> Status {
    match account {
        Some(data) => if is_token_account_data(data@) { Status::Qualified } else { Status::Disqualified },
        None => Status::Disqualified,
    }
}

/// The status of the entry at place `t` of a chunk, with status `s`, after the
/// chunk's lookup gave `result`: a failed lookup fails the whole chunk; only
/// `Unprocessed` entries change.
pub open spec fn check_outcome(s: Status, result: Result<Vec<Option<Vec<u8>>>, String>, t: int) -> Status {
    if !(s is Unprocessed) {
        s
    } else {
        match result {
            Err(reason) => Status::Failed(reason),
            Ok(accounts) => if t < accounts@.len() { qualification(accounts@[t]) } else { s },
        }
    }
}

proof fn lemma_unprocessed_positions(s: Seq<WalletListEntry>)
    requires
        s.len() <= usize::MAX,
    ensures
        forall|t: int| 0 <= t < unprocessed_positions(s).len() ==> {
            &&& (#[trigger] unprocessed_positions(s)[t]) < s.len()
            &&& s[unprocessed_positions(s)[t] as int].status is Unprocessed
        },
        strictly_increasing(unprocessed_positions(s)),
    decreases s.len(),
{
    if s.len() > 0 {
        let p = s.drop_last();
        lemma_unprocessed_positions(p);
        assert forall|j: int| 0 <= j < p.len() implies #[trigger] p[j] == s[j] by {}
        let q = unprocessed_positions(s);
        let prev = unprocessed_positions(p);
        assert forall|i: int, j: int| 0 <= i < j < q.len() implies q[i] < q[j] by {
            if j < prev.len() {
                assert(q[i] == prev[i] && q[j] == prev[j]);
            } else {
                assert(q[i] == prev[i]);
                assert(prev[i] < p.len());
            }
        }
    }
}

impl WalletList {
    /// Resolves and caches the destination of every `Unprocessed` entry that has
    /// none, then cuts the `Unprocessed` entries, in list order, into lookup
    /// chunks of at most `chunk_size` entries.
    pub fn check_chunks(&mut self, token_mint: &Address, token_program: &Address, chunk_size: usize) -> (r: Vec<
        LookupChunk,
    >)
        requires
            chunk_size > 0,
        ensures
            final(self).0@.len() == old(self).0@.len(),
            keeps_terminal(old(self).0@, final(self).0@),
            forall|i: int|
                0 <= i < old(self).0@.len() ==> resolved_for_check(
                    old(self).0@[i],
                    #[trigger] final(self).0@[i],
                    *token_mint,
                    *token_program,
                ),
            is_chunking(lookup_index_views(r@), unprocessed_positions(old(self).0@), chunk_size as nat),
            forall|k: int| 0 <= k < r@.len() ==> strictly_increasing((#[trigger] r@[k]).indices@),
            forall|k: int|
                0 <= k < r@.len() ==> (#[trigger] r@[k]).destinations@.len() == r@[k].indices@.len(),
            forall|k: int, t: int|
                0 <= k < r@.len() && 0 <= t < r@[k].indices@.len() ==> {
                    &&& (#[trigger] r@[k].indices@[t]) < final(self).0@.len()
                    &&& final(self).0@[r@[k].indices@[t] as int].ata == Some(r@[k].destinations@[t])
                },
    {
        let ghost start = self.0@;
        let len0 = self.0.len();
        assert(start.len() == len0);
        let mut positions: Vec<usize> = Vec::new();
        let mut i: usize = 0;
        while i < self.0.len()
            invariant
                0 <= i <= self.0@.len(),
                self.0@.len() == start.len(),
                positions@ == unprocessed_positions(start.take(i as int)),
                forall|k: int|
                    0 <= k < i ==> resolved_for_check(start[k], #[trigger] self.0@[k], *token_mint, *token_program),
                forall|k: int| i <= k < start.len() ==> #[trigger] self.0@[k] == start[k],
            decreases self.0@.len() - i,
        {
            assert(start.take(i + 1).drop_last() =~= start.take(i as int));
            if self.0[i].status.is_unprocessed() {
                if self.0[i].ata.is_none() {
                    let dest = derive_destination(&self.0[i].wallet_pubkey, token_mint, token_program);
                    let e = &self.0[i];
                    let updated = WalletListEntry {
                        wallet_pubkey: e.wallet_pubkey,
                        amount_to_airdrop: e.amount_to_airdrop,
                        ata: Some(dest),
                        status: e.status.duplicate(),
                    };
                    self.0.set(i, updated);
                }
                positions.push(i);
            }
            i = i + 1;
        }
        assert(start.take(i as int) =~= start);
        proof {
            lemma_unprocessed_positions(start);
        }
        let index_chunks = split_chunks(&positions, chunk_size);
        let ghost views = crate::batching::chunk_views(index_chunks@);
        let mut out: Vec<LookupChunk> = Vec::new();
        let mut k: usize = 0;
        while k < index_chunks.len()
            invariant
                0 <= k <= index_chunks@.len(),
                self.0@.len() == start.len(),
                start.len() <= usize::MAX,
                views == crate::batching::chunk_views(index_chunks@),
                is_chunking(views, positions@, chunk_size as nat),
                positions@ == unprocessed_positions(start),
                forall|j: int|
                    0 <= j < start.len() ==> resolved_for_check(start[j], #[trigger] self.0@[j], *token_mint, *token_program),
                out@.len() == k,
                strictly_increasing(positions@),
                forall|m: int| 0 <= m < index_chunks@.len() ==> is_piece_of((#[trigger] index_chunks@[m])@, positions@),
                forall|m: int| 0 <= m < k ==> strictly_increasing((#[trigger] out@[m]).indices@),
                forall|m: int| 0 <= m < k ==> (#[trigger] out@[m]).indices@ == views[m],
                forall|m: int| 0 <= m < k ==> (#[trigger] out@[m]).destinations@.len() == out@[m].indices@.len(),
                forall|m: int, t: int|
                    0 <= m < k && 0 <= t < out@[m].indices@.len() ==> {
                        &&& (#[trigger] out@[m].indices@[t]) < self.0@.len()
                        &&& self.0@[out@[m].indices@[t] as int].ata == Some(out@[m].destinations@[t])
                    },
            decreases index_chunks@.len() - k,
        {
            let chunk = &index_chunks[k];
            let mut dests: Vec<Address> = Vec::new();
            let mut t: usize = 0;
            while t < chunk.len()
                invariant
                    0 <= t <= chunk@.len(),
                    k < index_chunks@.len(),
                    chunk@ == views[k as int],
                    views == crate::batching::chunk_views(index_chunks@),
                    is_chunking(views, positions@, chunk_size as nat),
                    positions@ == unprocessed_positions(start),
                    self.0@.len() == start.len(),
                    start.len() <= usize::MAX,
                    forall|j: int|
                        0 <= j < start.len() ==> resolved_for_check(start[j], #[trigger] self.0@[j], *token_mint, *token_program),
                    dests@.len() == t,
                    forall|u: int|
                        0 <= u < t ==> {
                            &&& (#[trigger] chunk@[u]) < self.0@.len()
                            &&& self.0@[chunk@[u] as int].ata == Some(dests@[u])
                        },
                decreases chunk@.len() - t,
            {
                proof {
                    lemma_flatten_contains(views, k as int, t as int);
                    lemma_unprocessed_positions(start);
                }
                let idx = chunk[t];
                assert(idx < self.0@.len());
                assert(start[idx as int].status is Unprocessed);
                let dest = self.0[idx].ata.unwrap();
                dests.push(dest);
                t = t + 1;
            }
            proof {
                lemma_piece_increasing(chunk@, positions@);
            }
            let indices = chunk.clone();
            out.push(LookupChunk { indices, destinations: dests });
            k = k + 1;
        }
        assert(lookup_index_views(out@) =~= views);
        out
    }

    /// Applies the outcome of one chunk's lookup: a failed lookup sets every
    /// `Unprocessed` entry of the chunk to `Failed` with the error's text; a
    /// successful one qualifies or disqualifies each `Unprocessed` entry by its
    /// own result. Entries outside the chunk are unchanged.
    pub fn apply_check_result(&mut self, chunk: &LookupChunk, result: &Result<Vec<Option<Vec<u8>>>, String>)
        requires
            forall|t: int| 0 <= t < chunk.indices@.len() ==> (#[trigger] chunk.indices@[t]) < old(self).0@.len(),
            forall|t1: int, t2: int|
                0 <= t1 < t2 < chunk.indices@.len() ==> chunk.indices@[t1] != chunk.indices@[t2],
        ensures
            keeps_terminal(old(self).0@, final(self).0@),
            final(self).0@.len() == old(self).0@.len(),
            forall|t: int|
                0 <= t < chunk.indices@.len() ==> #[trigger] final(self).0@[chunk.indices@[t] as int]
                    == with_status(
                    old(self).0@[chunk.indices@[t] as int],
                    check_outcome(old(self).0@[chunk.indices@[t] as int].status, *result, t),
                ),
            forall|i: int|
                0 <= i < old(self).0@.len() && !chunk.indices@.contains(i as usize)
                    ==> #[trigger] final(self).0@[i] == old(self).0@[i],
    {
        let ghost start = self.0@;
        let len0 = self.0.len();
        assert(start.len() <= usize::MAX) by {
            assert(start.len() == len0);
        }
        let mut t: usize = 0;
        while t < chunk.indices.len()
            invariant
                0 <= t <= chunk.indices@.len(),
                self.0@.len() == start.len(),
                start.len() <= usize::MAX,
                forall|u: int| 0 <= u < chunk.indices@.len() ==> (#[trigger] chunk.indices@[u]) < start.len(),
                forall|t1: int, t2: int|
                    0 <= t1 < t2 < chunk.indices@.len() ==> chunk.indices@[t1] != chunk.indices@[t2],
                forall|u: int|
                    0 <= u < t ==> #[trigger] self.0@[chunk.indices@[u] as int] == with_status(
                        start[chunk.indices@[u] as int],
                        check_outcome(start[chunk.indices@[u] as int].status, *result, u),
                    ),
                forall|i: int|
                    0 <= i < start.len() && !chunk.indices@.take(t as int).contains(i as usize)
                        ==> #[trigger] self.0@[i] == start[i],
            decreases chunk.indices@.len() - t,
        {
            let idx = chunk.indices[t];
            assert(!chunk.indices@.take(t as int).contains(idx)) by {
                if chunk.indices@.take(t as int).contains(idx) {
                    let u = choose|u: int| 0 <= u < t && chunk.indices@.take(t as int)[u] == idx;
                    assert(chunk.indices@[u] == chunk.indices@[t as int]);
                }
            }
            if self.0[idx].status.is_unprocessed() {
                let next = match result {
                    Err(reason) => Some(Status::Failed(reason.clone())),
                    Ok(accounts) => {
                        if t < accounts.len() {
                            match &accounts[t] {
                                Some(data) => if token_account_unpacks(data) {
                                    Some(Status::Qualified)
                                } else {
                                    Some(Status::Disqualified)
                                },
                                None => Some(Status::Disqualified),
                            }
                        } else {
                            None
                        }
                    },
                };
                match next {
                    Some(s) => self.set_status(idx, s),
                    None => {
                        assert(self.0@[idx as int] == with_status(start[idx as int], start[idx as int].status));
                    },
                }
            } else {
                assert(self.0@[idx as int] == with_status(start[idx as int], start[idx as int].status));
            }
            assert forall|u: int| 0 <= u < t implies #[trigger] self.0@[chunk.indices@[u] as int] == with_status(
                start[chunk.indices@[u] as int],
                check_outcome(start[chunk.indices@[u] as int].status, *result, u),
            ) by {
                assert(chunk.indices@[u] != chunk.indices@[t as int]);
            }
            assert forall|i: int|
                0 <= i < start.len() && !chunk.indices@.take(t + 1).contains(i as usize)
                    implies #[trigger] self.0@[i] == start[i] by {
                assert(chunk.indices@.take(t + 1)[t as int] == idx);
                if chunk.indices@.take(t as int).contains(i as usize) {
                    let u = choose|u: int| 0 <= u < t && chunk.indices@.take(t as int)[u] == i as usize;
                    assert(chunk.indices@.take(t + 1)[u] == i as usize);
                }
            }
            t = t + 1;
        }
        assert(chunk.indices@.take(t as int) =~= chunk.indices@);
        assert forall|i: int| 0 <= i < start.len() implies {
            &&& (#[trigger] self.0@[i]).wallet_pubkey == start[i].wallet_pubkey
            &&& self.0@[i].amount_to_airdrop == start[i].amount_to_airdrop
            &&& (start[i].status.is_terminal() ==> self.0@[i] == start[i])
        } by {
            assert(i as usize as int == i);
            if chunk.indices@.contains(i as usize) {
                let u = choose|u: int| 0 <= u < chunk.indices@.len() && chunk.indices@[u] == i as usize;
                assert(self.0@[chunk.indices@[u] as int] == with_status(
                    start[chunk.indices@[u] as int],
                    check_outcome(start[chunk.indices@[u] as int].status, *result, u),
                ));
                assert(chunk.indices@[u] as int == i);
            } else {
                assert(self.0@[i] == start[i]);
            }
        }
    }
}

} // verus!
