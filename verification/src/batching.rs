//! Batching utilities for memory-efficient operations
//!
//! Provides Django-style batching for large querysets to prevent OOM errors.

use vstd::prelude::*;

verus! {

/// Default batch size for bulk operations
pub const DEFAULT_BATCH_SIZE: usize = 1000;

/// Maximum batch size allowed (safety guard)
pub const MAX_BATCH_SIZE: usize = 10000;

/// Chunk size for iterator streaming
pub const DEFAULT_CHUNK_SIZE: usize = 100;

/// The batch size used for a requested one: the default when none or zero is
/// asked for, at most the maximum.
pub open spec fn batch_size_for(size: Option<usize>) -> usize {
    match size {
        Some(s) => if s == 0 {
            DEFAULT_BATCH_SIZE
        } else if s > MAX_BATCH_SIZE {
            MAX_BATCH_SIZE
        } else {
            s
        },
        None => DEFAULT_BATCH_SIZE,
    }
}

/// Validates batch size and returns safe value
pub fn validate_batch_size(size: Option<usize>) -> (res: usize)
    ensures
        res == batch_size_for(size),
        1 <= res <= MAX_BATCH_SIZE,
{
    match size {
        Some(s) => if s == 0 {
            DEFAULT_BATCH_SIZE
        } else if s > MAX_BATCH_SIZE {
            MAX_BATCH_SIZE
        } else {
            s
        },
        None => DEFAULT_BATCH_SIZE,
    }
}

/// Consecutive pieces of `s` of length `b`, the last one possibly shorter.
pub open spec fn chunks<T>(s: Seq<T>, b: nat) -> Seq<Seq<T>>
    recommends
        b > 0,
    decreases s.len(),
{
    if s.len() == 0 || b == 0 {
        Seq::empty()
    } else if s.len() <= b {
        seq![s]
    } else {
        seq![s.take(b as int)] + chunks(s.skip(b as int), b)
    }
}

pub open spec fn vec_views<T>(v: Seq<Vec<T>>) -> Seq<Seq<T>> {
    v.map_values(|x: Vec<T>| x@)
}

/// Split a vector into batches
pub fn batch_vec<T: Clone>(items: Vec<T>, batch_size: usize) -> (res: Vec<Vec<T>>)
    ensures
        vec_views(res@) == chunks(items@, batch_size_for(Some(batch_size)) as nat),
{
    let b = validate_batch_size(Some(batch_size));
    let ghost all = items@;
    let mut rest = items;
    let mut res: Vec<Vec<T>> = Vec::new();
    while rest.len() > 0
        invariant
            1 <= b,
            b == batch_size_for(Some(batch_size)),
            vec_views(res@) + chunks(rest@, b as nat) == chunks(all, b as nat),
        decreases rest@.len(),
    {
        let ghost r0 = rest@;
        let ghost v0 = res@;
        if rest.len() <= b {
            let last = rest;
            rest = Vec::new();
            res.push(last);
            proof {
                assert(chunks(r0, b as nat) == seq![r0]);
                assert(vec_views(res@) =~= vec_views(v0).push(r0));
                assert(chunks(rest@, b as nat) =~= Seq::<Seq<T>>::empty());
                assert(vec_views(res@) + chunks(rest@, b as nat) =~= vec_views(v0) + chunks(r0, b as nat));
            }
        } else {
            let tail = rest.split_off(b);
            let head = rest;
            rest = tail;
            res.push(head);
            proof {
                assert(head@ =~= r0.take(b as int));
                assert(rest@ =~= r0.skip(b as int));
                assert(vec_views(res@) =~= vec_views(v0).push(r0.take(b as int)));
                assert(vec_views(res@) + chunks(rest@, b as nat) =~= vec_views(v0) + chunks(r0, b as nat));
            }
        }
    }
    proof {
        assert(chunks(rest@, b as nat) =~= Seq::<Seq<T>>::empty());
        assert(vec_views(res@) =~= vec_views(res@) + chunks(rest@, b as nat));
    }
    res
}

/// The pieces laid end to end.
pub open spec fn concat<T>(parts: Seq<Seq<T>>) -> Seq<T>
    decreases parts.len(),
{
    if parts.len() == 0 {
        Seq::empty()
    } else {
        parts[0] + concat(parts.drop_first())
    }
}

/// Batching loses and reorders nothing: the batches laid end to end are the
/// items, every batch is non-empty and at most the batch size long, and only
/// the last one may be shorter.
pub proof fn law_batches_reassemble<T>(s: Seq<T>, b: nat)
    requires
        b > 0,
    ensures
        concat(chunks(s, b)) == s,
        forall|k: int| 0 <= k < chunks(s, b).len() ==> 0 < (#[trigger] chunks(s, b)[k]).len() <= b,
        forall|k: int| 0 <= k < chunks(s, b).len() - 1 ==> (#[trigger] chunks(s, b)[k]).len() == b,
    decreases s.len(),
{
    if s.len() == 0 {
    } else if s.len() <= b {
        assert(chunks(s, b) == seq![s]);
        assert(seq![s].drop_first() =~= Seq::<Seq<T>>::empty());
        assert(concat(seq![s].drop_first()) == Seq::<T>::empty());
        assert(concat(chunks(s, b)) =~= s);
    } else {
        let rest = s.skip(b as int);
        law_batches_reassemble(rest, b);
        let c = chunks(s, b);
        assert(c == seq![s.take(b as int)] + chunks(rest, b));
        assert(c.drop_first() =~= chunks(rest, b));
        assert(s.take(b as int) + rest =~= s);
        assert forall|k: int| 0 <= k < c.len() implies 0 < (#[trigger] c[k]).len() <= b by {
            if k > 0 {
                assert(c[k] == chunks(rest, b)[k - 1]);
            }
        }
        assert forall|k: int| 0 <= k < c.len() - 1 implies (#[trigger] c[k]).len() == b by {
            if k > 0 {
                assert(c[k] == chunks(rest, b)[k - 1]);
            }
        }
    }
}

} // verus!
