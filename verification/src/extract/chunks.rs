//! Splitting a work list into contiguous chunks, one per worker.

use vstd::prelude::*;

verus! {

/// The size of a full chunk when `total` items are shared among `workers`:
/// the quotient, rounded up.
pub open spec fn chunk_len(total: nat, workers: nat) -> nat {
    if workers == 0 {
        0
    } else if total % workers == 0 {
        total / workers
    } else {
        total / workers + 1
    }
}

/// The items cut into runs of `size`, in order; the last run may be shorter.
/// Nothing where there are no items.
pub open spec fn chunks_of<T>(items: Seq<T>, size: nat) -> Seq<Seq<T>>
    decreases items.len(),
{
    if items.len() == 0 || size == 0 {
        Seq::empty()
    } else if items.len() <= size {
        seq![items]
    } else {
        seq![items.take(size as int)] + chunks_of(items.skip(size as int), size)
    }
}

/// The contents of each chunk.
pub open spec fn chunk_views<T>(chunks: Seq<Vec<T>>) -> Seq<Seq<T>> {
    chunks.map_values(|chunk: Vec<T>| chunk@)
}

/// The size of a full chunk is the least number that, taken `workers` times,
/// covers all items.
pub proof fn lemma_chunk_len_is_ceiling(total: nat, workers: nat)
    requires
        workers > 0,
    ensures
        chunk_len(total, workers) * workers >= total,
        total > 0 ==> (chunk_len(total, workers) - 1) * workers < total,
        total > 0 ==> chunk_len(total, workers) > 0,
        total == 0 ==> chunk_len(total, workers) == 0,
{
    let q = total / workers;
    let r = total % workers;
    assert(total == q * workers + r && 0 <= r < workers) by (nonlinear_arith)
        requires
            workers > 0,
            q == total / workers,
            r == total % workers,
    ;
    if r != 0 {
        assert((q + 1) * workers == q * workers + workers) by (nonlinear_arith);
    } else {
        if total > 0 {
            assert(q > 0) by (nonlinear_arith)
                requires
                    total == q * workers + r,
                    r == 0,
                    total > 0,
                    q >= 0,
            ;
            assert((q - 1) * workers == q * workers - workers) by (nonlinear_arith);
        }
    }
}

/// Joined end to end, the chunks give the items back: every item is in one
/// chunk, once, and in its old place.
pub proof fn lemma_chunks_flatten<T>(items: Seq<T>, size: nat)
    requires
        size > 0,
    ensures
        chunks_of(items, size).flatten() == items,
    decreases items.len(),
{
    if items.len() == 0 {
    } else if items.len() <= size {
        seq![items].lemma_flatten_one_element();
    } else {
        let head = items.take(size as int);
        let tail = items.skip(size as int);
        lemma_chunks_flatten(tail, size);
        let all = seq![head] + chunks_of(tail, size);
        assert(all.first() == head);
        assert(all.drop_first() =~= chunks_of(tail, size));
        assert(head + tail =~= items);
    }
}

/// No chunk is empty, none is longer than `size`, and all but the last are
/// exactly that long.
pub proof fn lemma_chunks_bounded<T>(items: Seq<T>, size: nat)
    requires
        size > 0,
    ensures
        forall|i: int|
            0 <= i < chunks_of(items, size).len() ==> 0 < (#[trigger] chunks_of(
                items,
                size,
            )[i]).len() <= size,
        forall|i: int|
            0 <= i < chunks_of(items, size).len() - 1 ==> (#[trigger] chunks_of(
                items,
                size,
            )[i]).len() == size,
    decreases items.len(),
{
    if items.len() > size {
        let tail = items.skip(size as int);
        lemma_chunks_bounded(tail, size);
        let rest = chunks_of(tail, size);
        let all = chunks_of(items, size);
        assert forall|i: int| 0 <= i < all.len() implies 0 < (#[trigger] all[i]).len() <= size by {
            if i > 0 {
                assert(all[i] == rest[i - 1]);
            }
        }
        assert forall|i: int| 0 <= i < all.len() - 1 implies (#[trigger] all[i]).len() == size by {
            if i > 0 {
                assert(all[i] == rest[i - 1]);
            }
        }
    }
}

/// There are as many chunks as the items need at `size` apiece.
pub proof fn lemma_chunk_count<T>(items: Seq<T>, size: nat)
    requires
        size > 0,
    ensures
        chunks_of(items, size).len() == chunk_len(items.len(), size),
    decreases items.len(),
{
    let n = items.len();
    if n == 0 {
        assert(0nat % size == 0 && 0nat / size == 0) by (nonlinear_arith)
            requires
                size > 0,
        ;
    } else if n <= size {
        if n == size {
            assert(n % size == 0 && n / size == 1) by (nonlinear_arith)
                requires
                    n == size,
                    size > 0,
            ;
        } else {
            assert(n % size == n && n / size == 0) by (nonlinear_arith)
                requires
                    0 < n < size,
            ;
        }
    } else {
        let tail = items.skip(size as int);
        lemma_chunk_count(tail, size);
        let m = tail.len();
        assert(m == n - size);
        assert(n % size == m % size && n / size == m / size + 1) by (nonlinear_arith)
            requires
                m == n - size,
                size > 0,
                m >= 0,
        ;
    }
}

/// Shared among `workers` workers, the items make at most `workers` chunks.
pub proof fn lemma_chunk_count_within_workers(total: nat, workers: nat)
    requires
        workers > 0,
        total > 0,
    ensures
        chunk_len(total, chunk_len(total, workers)) <= workers,
{
    lemma_chunk_len_is_ceiling(total, workers);
    let size = chunk_len(total, workers);
    lemma_chunk_len_is_ceiling(total, size);
    let count = chunk_len(total, size);
    // (count - 1) * size < total <= workers * size
    assert(count <= workers) by (nonlinear_arith)
        requires
            (count - 1) * size < total,
            size * workers >= total,
            size > 0,
            workers > 0,
    ;
}

/// Chunk completeness: however many workers there are, the chunks hold every
/// item exactly once and in order, there are no more chunks than workers, and
/// no chunk is empty or longer than the rounded-up share of one worker.
pub proof fn law_chunks_complete<T>(items: Seq<T>, workers: nat)
    requires
        workers > 0,
    ensures
        ({
            let size = chunk_len(items.len(), workers);
            let chunks = chunks_of(items, size);
            &&& chunks.flatten() == items
            &&& chunks.len() <= workers
            &&& items.len() == 0 ==> chunks.len() == 0
            &&& forall|i: int| 0 <= i < chunks.len() ==> 0 < (#[trigger] chunks[i]).len() <= size
            &&& forall|i: int| 0 <= i < chunks.len() - 1 ==> (#[trigger] chunks[i]).len() == size
        }),
{
    let size = chunk_len(items.len(), workers);
    lemma_chunk_len_is_ceiling(items.len(), workers);
    if items.len() > 0 {
        lemma_chunks_flatten(items, size);
        lemma_chunks_bounded(items, size);
        lemma_chunk_count(items, size);
        lemma_chunk_count_within_workers(items.len(), workers);
    } else {
        assert(chunks_of(items, size).flatten() =~= items);
    }
}

/// The size of a full chunk when `total` items are shared among `workers`.
pub fn chunk_size(total: usize, workers: usize) -> (size: usize)
    requires
        workers > 0,
    ensures
        size == chunk_len(total as nat, workers as nat),
{
    let quotient = total / workers;
    if total % workers == 0 {
        quotient
    } else {
        proof {
            lemma_chunk_len_is_ceiling(total as nat, workers as nat);
            assert(quotient + 1 <= total) by (nonlinear_arith)
                requires
                    quotient == total / workers,
                    total % workers != 0,
                    workers > 0,
                    total >= 0,
            ;
        }
        quotient + 1
    }
}

/// Splits a work list into contiguous chunks for `workers` workers.
///
/// Each chunk but the last has the rounded-up share of one worker; an empty
/// list gives no chunk at all.
pub fn split_into_chunks<T>(items: Vec<T>, workers: usize) -> (chunks: Vec<Vec<T>>)
    requires
        workers > 0,
    ensures
        chunk_views(chunks@) == chunks_of(
            items@,
            chunk_len(items@.len() as nat, workers as nat),
        ),
{
    let size = chunk_size(items.len(), workers);
    let ghost all = items@;
    proof {
        lemma_chunk_len_is_ceiling(all.len(), workers as nat);
    }
    let mut rest = items;
    let mut chunks: Vec<Vec<T>> = Vec::new();
    assert(chunk_views(chunks@) =~= Seq::<Seq<T>>::empty());
    while rest.len() > size
        invariant
            chunks_of(all, size as nat) == chunk_views(chunks@) + chunks_of(rest@, size as nat),
            size > 0 || rest@.len() == 0,
        decreases rest@.len(),
    {
        let ghost before = rest@;
        let tail = rest.split_off(size);
        assert(rest@ =~= before.take(size as int));
        assert(tail@ =~= before.skip(size as int));
        let ghost done = chunk_views(chunks@);
        chunks.push(rest);
        assert(chunk_views(chunks@) =~= done.push(before.take(size as int)));
        assert(done + (seq![before.take(size as int)] + chunks_of(tail@, size as nat))
            =~= chunk_views(chunks@) + chunks_of(tail@, size as nat));
        rest = tail;
    }
    if rest.len() > 0 {
        let ghost done = chunk_views(chunks@);
        let ghost last = rest@;
        chunks.push(rest);
        assert(chunk_views(chunks@) =~= done.push(last));
        assert(done + seq![last] =~= chunk_views(chunks@));
    } else {
        assert(chunk_views(chunks@) + Seq::<Seq<T>>::empty() =~= chunk_views(chunks@));
    }
    chunks
}

} // verus!
