//! Chunked scheduling of the sample indices.
//!
//! A scan over `n` sample points is split into contiguous chunks of at
//! most `chunk_size` indices. Chunks are handed out for parallel
//! evaluation, but their results are emitted chunk by chunk, in plan
//! order; the lemmas here show that the resulting sample order is
//! `0, 1, ..., n - 1` whatever chunk size the plan was built with, so the
//! chunk size can be tuned freely without changing the output.

use vstd::prelude::*;

verus! {

/// One contiguous block of sample indices, covering `start .. end`.
#[derive(Clone, Copy, PartialEq, Eq, Structural, Debug)]
pub struct Chunk {
    pub start: usize,
    pub end: usize,
}

/// Where the chunk that begins at `lo` ends: `chunk_size` indices later,
/// or at `n` for the final, possibly shorter chunk.
pub open spec fn chunk_end(lo: usize, n: usize, c: usize) -> usize {
    if n - lo <= c {
        n
    } else {
        (lo + c) as usize
    }
}

/// The chunk plan for sample indices `lo .. n` with chunk size `c`:
/// full chunks of `c` indices, then one final chunk holding whatever
/// remains.
pub open spec fn spec_chunks(lo: usize, n: usize, c: usize) -> Seq<Chunk>
    decreases n - lo,
    when c >= 1
{
    if lo >= n {
        Seq::empty()
    } else {
        seq![Chunk { start: lo, end: chunk_end(lo, n, c) }] + spec_chunks(chunk_end(lo, n, c), n, c)
    }
}

/// The sample indices `lo`, `lo + 1`, ..., `hi - 1`, in increasing order.
pub open spec fn range_seq(lo: usize, hi: usize) -> Seq<usize> {
    Seq::new(if lo <= hi { (hi - lo) as nat } else { 0 }, |i: int| (lo + i) as usize)
}

/// The sample indices a plan visits: each chunk's index range, chunk by
/// chunk, in plan order.
pub open spec fn plan_indices(chunks: Seq<Chunk>) -> Seq<usize>
    decreases chunks.len(),
{
    if chunks.len() == 0 {
        Seq::empty()
    } else {
        range_seq(chunks[0].start, chunks[0].end) + plan_indices(chunks.drop_first())
    }
}

/// Adjacent index ranges concatenate to one range.
proof fn lemma_range_seq_concat(lo: usize, mid: usize, hi: usize)
    requires
        lo <= mid <= hi,
    ensures
        range_seq(lo, mid) + range_seq(mid, hi) == range_seq(lo, hi),
{
    assert(range_seq(lo, mid) + range_seq(mid, hi) =~= range_seq(lo, hi));
}

/// A plan over `lo .. n` visits exactly the indices `lo .. n`, in
/// increasing order, whatever its chunk size.
pub proof fn lemma_plan_indices(lo: usize, n: usize, c: usize)
    requires
        c >= 1,
        lo <= n,
    ensures
        plan_indices(spec_chunks(lo, n, c)) == range_seq(lo, n),
    decreases n - lo,
{
    if lo >= n {
        assert(plan_indices(spec_chunks(lo, n, c)) =~= range_seq(lo, n));
    } else {
        let hi = chunk_end(lo, n, c);
        let head = Chunk { start: lo, end: hi };
        let rest = spec_chunks(hi, n, c);
        assert((seq![head] + rest).drop_first() =~= rest);
        lemma_plan_indices(hi, n, c);
        lemma_range_seq_concat(lo, hi, n);
    }
}

/// The shape of a chunk plan: chunks are nonempty, hold at most `c`
/// indices each, start at `lo`, end at `n`, and follow one another with
/// no gap.
pub proof fn lemma_chunks_shape(lo: usize, n: usize, c: usize)
    requires
        c >= 1,
        lo <= n,
    ensures
        spec_chunks(lo, n, c).len() == 0 <==> lo == n,
        spec_chunks(lo, n, c).len() > 0 ==> spec_chunks(lo, n, c)[0].start == lo,
        spec_chunks(lo, n, c).len() > 0 ==> spec_chunks(lo, n, c).last().end == n,
        forall|k: int|
            0 <= k < spec_chunks(lo, n, c).len() ==> (#[trigger] spec_chunks(lo, n, c)[k]).start
                < spec_chunks(lo, n, c)[k].end,
        forall|k: int|
            0 <= k < spec_chunks(lo, n, c).len() ==> (#[trigger] spec_chunks(lo, n, c)[k]).end
                - spec_chunks(lo, n, c)[k].start <= c,
        forall|k: int|
            0 <= k < spec_chunks(lo, n, c).len() ==> (#[trigger] spec_chunks(lo, n, c)[k]).end
                <= n,
        forall|k: int|
            0 <= k && k + 1 < spec_chunks(lo, n, c).len() ==> (#[trigger] spec_chunks(lo, n, c)[
                k]).end == spec_chunks(lo, n, c)[k + 1].start,
    decreases n - lo,
{
    if lo < n {
        let hi = chunk_end(lo, n, c);
        let head = Chunk { start: lo, end: hi };
        let rest = spec_chunks(hi, n, c);
        let whole = spec_chunks(lo, n, c);
        lemma_chunks_shape(hi, n, c);
        assert(whole == seq![head] + rest);
        assert forall|k: int| 0 <= k < whole.len() implies (#[trigger] whole[k]).start < whole[k].end
            && whole[k].end - whole[k].start <= c && whole[k].end <= n by {
            if k > 0 {
                assert(whole[k] == rest[k - 1]);
            }
        }
        assert forall|k: int| 0 <= k && k + 1 < whole.len() implies (#[trigger] whole[k]).end
            == whole[k + 1].start by {
            if k > 0 {
                assert(whole[k] == rest[k - 1]);
                assert(whole[k + 1] == rest[k]);
            } else {
                assert(whole[1] == rest[0]);
            }
        }
        if rest.len() > 0 {
            assert(whole.last() == rest.last());
        }
    }
}

/// Builds the chunk plan for `n` sample indices: chunks of `chunk_size`
/// indices each, in increasing index order, the last one shortened to end
/// exactly at `n`. Walking the plan's chunks in order visits the sample
/// indices `0, 1, ..., n - 1` exactly once, in increasing order.
pub fn chunk_plan(n: usize, chunk_size: usize) -> (plan: Vec<Chunk>)
    requires
        chunk_size >= 1,
    ensures
        plan@ == spec_chunks(0, n, chunk_size),
        plan_indices(plan@) == range_seq(0, n),
        plan@.len() == 0 <==> n == 0,
        plan@.len() > 0 ==> plan@[0].start == 0 && plan@.last().end == n,
        forall|k: int|
            0 <= k < plan@.len() ==> (#[trigger] plan@[k]).start < plan@[k].end && plan@[k].end
                <= n && plan@[k].end - plan@[k].start <= chunk_size,
        forall|k: int|
            0 <= k && k + 1 < plan@.len() ==> (#[trigger] plan@[k]).end == plan@[k + 1].start,
{
    let mut plan: Vec<Chunk> = Vec::new();
    let mut lo: usize = 0;
    while lo < n
        invariant
            lo <= n,
            chunk_size >= 1,
            plan@ + spec_chunks(lo, n, chunk_size) == spec_chunks(0, n, chunk_size),
        decreases n - lo,
    {
        let hi = if n - lo <= chunk_size {
            n
        } else {
            lo + chunk_size
        };
        proof {
            assert(hi == chunk_end(lo, n, chunk_size));
            assert(plan@ + seq![Chunk { start: lo, end: hi }] + spec_chunks(hi, n, chunk_size)
                =~= plan@ + spec_chunks(lo, n, chunk_size));
        }
        plan.push(Chunk { start: lo, end: hi });
        lo = hi;
    }
    proof {
        assert(plan@ =~= plan@ + spec_chunks(lo, n, chunk_size));
        lemma_plan_indices(0, n, chunk_size);
        lemma_chunks_shape(0, n, chunk_size);
    }
    plan
}

/// The emitted sample order does not depend on the chunk size: plans for
/// the same `n` built with any two chunk sizes visit the same indices
/// `0, 1, ..., n - 1` in the same increasing order.
pub proof fn lemma_plan_order_independent(n: usize, c1: usize, c2: usize)
    requires
        c1 >= 1,
        c2 >= 1,
    ensures
        plan_indices(spec_chunks(0, n, c1)) == plan_indices(spec_chunks(0, n, c2)),
        plan_indices(spec_chunks(0, n, c1)) == range_seq(0, n),
        forall|i: int| 0 <= i < n ==> #[trigger] range_seq(0, n)[i] == i,
{
    lemma_plan_indices(0, n, c1);
    lemma_plan_indices(0, n, c2);
}

} // verus!
