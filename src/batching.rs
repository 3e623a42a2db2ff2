use vstd::prelude::*;

verus! {

/// The views of the chunks `cs`.
pub open spec fn chunk_views(cs: Seq<Vec<usize>>) -> Seq<Seq<usize>> {
    cs.map_values(|c: Vec<usize>| c@)
}

/// `cs` cuts `s` into consecutive chunks, in order, each holding between 1 and
/// `size` items, and all but the last exactly `size`.
pub open spec fn is_chunking(cs: Seq<Seq<usize>>, s: Seq<usize>, size: nat) -> bool {
    &&& cs.flatten() == s
    &&& forall|k: int|
        0 <= k < cs.len() ==> {
            &&& 0 < (#[trigger] cs[k]).len() <= size
            &&& (k + 1 < cs.len() ==> cs[k].len() == size)
        }
}

/// `c` is a contiguous piece of `s`.
pub open spec fn is_piece_of(c: Seq<usize>, s: Seq<usize>) -> bool {
    exists|a: int| 0 <= a && a + c.len() <= s.len() && c == #[trigger] s.subrange(a, a + c.len())
}

/// The items of `s` increase strictly.
pub open spec fn strictly_increasing(s: Seq<usize>) -> bool {
    forall|i: int, j: int| 0 <= i < j < s.len() ==> s[i] < s[j]
}

/// A contiguous piece of a strictly increasing sequence increases strictly.
pub proof fn lemma_piece_increasing(c: Seq<usize>, s: Seq<usize>)
    requires
        is_piece_of(c, s),
        strictly_increasing(s),
    ensures
        strictly_increasing(c),
{
    let a = choose|a: int| 0 <= a && a + c.len() <= s.len() && c == #[trigger] s.subrange(a, a + c.len());
    assert forall|i: int, j: int| 0 <= i < j < c.len() implies c[i] < c[j] by {
        assert(c[i] == s[a + i] && c[j] == s[a + j]);
    }
}

/// Every item of a chunk is an item of the flattened sequence.
pub proof fn lemma_flatten_contains(cs: Seq<Seq<usize>>, k: int, t: int)
    requires
        0 <= k < cs.len(),
        0 <= t < cs[k].len(),
    ensures
        cs.flatten().contains(cs[k][t]),
    decreases cs.len(),
{
    if k == 0 {
        assert(cs.flatten() == cs[0] + cs.drop_first().flatten());
        assert((cs[0] + cs.drop_first().flatten())[t] == cs[0][t]);
    } else {
        let rest = cs.drop_first();
        assert(rest[k - 1] == cs[k]);
        lemma_flatten_contains(rest, k - 1, t);
        let j = choose|j: int| 0 <= j < rest.flatten().len() && rest.flatten()[j] == cs[k][t];
        assert(cs.flatten() == cs[0] + rest.flatten());
        assert((cs[0] + rest.flatten())[cs[0].len() + j] == cs[k][t]);
    }
}

/// Cuts `s` into consecutive chunks of `size` items, the last one possibly shorter.
pub fn split_chunks(s: &Vec<usize>, size: usize) -> (r: Vec<Vec<usize>>)
    requires
        size > 0,
    ensures
        is_chunking(chunk_views(r@), s@, size as nat),
        forall|k: int| 0 <= k < r@.len() ==> is_piece_of((#[trigger] r@[k])@, s@),
{
    let mut done: Vec<Vec<usize>> = Vec::new();
    let mut cur: Vec<usize> = Vec::new();
    let mut i: usize = 0;
    while i < s.len()
        invariant
            0 <= i <= s@.len(),
            size > 0,
            chunk_views(done@).flatten() + cur@ == s@.take(i as int),
            cur@.len() < size,
            cur@.len() <= i,
            cur@ == s@.subrange(i - cur@.len(), i as int),
            forall|k: int| 0 <= k < done@.len() ==> (#[trigger] done@[k])@.len() == size,
            forall|k: int| 0 <= k < done@.len() ==> is_piece_of((#[trigger] done@[k])@, s@),
        decreases s@.len() - i,
    {
        cur.push(s[i]);
        assert(s@.take(i + 1) =~= s@.take(i as int).push(s@[i as int]));
        assert(cur@ =~= s@.subrange(i + 1 - cur@.len(), i + 1));
        assert(is_piece_of(cur@, s@)) by {
            assert(cur@ == s@.subrange(i + 1 - cur@.len(), (i + 1 - cur@.len()) + cur@.len()));
        }
        if cur.len() == size {
            proof {
                chunk_views(done@).lemma_flatten_push(cur@);
                assert(chunk_views(done@.push(cur)) =~= chunk_views(done@).push(cur@));
            }
            done.push(cur);
            cur = Vec::new();
            assert(chunk_views(done@).flatten() + cur@ =~= chunk_views(done@).flatten());
        }
        i = i + 1;
    }
    assert(s@.take(i as int) =~= s@);
    if cur.len() > 0 {
        assert(is_piece_of(cur@, s@)) by {
            assert(cur@ == s@.subrange(i - cur@.len(), (i - cur@.len()) + cur@.len()));
        }
        proof {
            chunk_views(done@).lemma_flatten_push(cur@);
            assert(chunk_views(done@.push(cur)) =~= chunk_views(done@).push(cur@));
        }
        done.push(cur);
    } else {
        assert(chunk_views(done@).flatten() + cur@ =~= chunk_views(done@).flatten());
    }
    done
}

} // verus!
