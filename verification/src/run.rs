//! The step-by-step driver of one evaluation run.
//!
//! The run's outside work — evaluating a chunk's samples and writing
//! their records, flushing the sink — is the caller's; the order of that
//! work is decided here. [`ChunkRun::advance`] hands out every chunk of
//! the plan exactly once, in plan order, then the flush exactly once,
//! then only [`RunStep::Done`]. A caller that performs each step as it is
//! handed out therefore writes all records in increasing sample order and
//! flushes once, at the end; a caller that stops at a failed write never
//! reaches the flush.

use vstd::prelude::*;

verus! {

use crate::schedule::Chunk;
use crate::schedule::chunk_plan;
use crate::schedule::spec_chunks;

/// What the driver of an evaluation run must do next.
#[derive(Clone, Copy, PartialEq, Eq, Structural, Debug)]
pub enum RunStep {
    /// Evaluate this chunk's samples and write their records.
    Evaluate(Chunk),
    /// Every chunk is written: flush the sink.
    Flush,
    /// The run is over.
    Done,
}

/// The state of one evaluation run: the fixed chunk plan, how many of its
/// chunks have been handed out, and whether the flush has been.
pub struct ChunkRun {
    /// The chunk plan, fixed for the run.
    pub plan: Vec<Chunk>,
    /// How many chunks have been handed out so far.
    pub next: usize,
    /// Whether the flush step has been handed out.
    pub flushed: bool,
}

impl ChunkRun {
    /// The state is consistent: no chunk beyond the plan was handed out,
    /// and the flush comes only after the last chunk.
    pub open spec fn wf(&self) -> bool {
        &&& self.next <= self.plan@.len()
        &&& (self.flushed ==> self.next == self.plan@.len())
    }

    /// Starts a run over `n` sample indices, chunked by `chunk_size`.
    pub fn new(n: usize, chunk_size: usize) -> (run: ChunkRun)
        requires
            chunk_size >= 1,
        ensures
            run.wf(),
            run.plan@ == spec_chunks(0, n, chunk_size),
            run.next == 0,
            !run.flushed,
    {
        ChunkRun { plan: chunk_plan(n, chunk_size), next: 0, flushed: false }
    }

    /// Hands out the next step of the run: each chunk of the plan once,
    /// in plan order; after the last chunk the flush, once; after the
    /// flush only `Done`, with the state no longer changing.
    pub fn advance(&mut self) -> (step: RunStep)
        requires
            old(self).wf(),
        ensures
            final(self).wf(),
            final(self).plan@ == old(self).plan@,
            old(self).next < old(self).plan@.len() ==> ({
                &&& step == RunStep::Evaluate(old(self).plan@[old(self).next as int])
                &&& final(self).next == old(self).next + 1
                &&& final(self).flushed == old(self).flushed
            }),
            old(self).next == old(self).plan@.len() && !old(self).flushed ==> ({
                &&& step == RunStep::Flush
                &&& final(self).flushed
                &&& final(self).next == old(self).next
            }),
            old(self).next == old(self).plan@.len() && old(self).flushed ==> ({
                &&& step == RunStep::Done
                &&& *final(self) == *old(self)
            }),
    {
        if self.next < self.plan.len() {
            let chunk = self.plan[self.next];
            self.next = self.next + 1;
            RunStep::Evaluate(chunk)
        } else if !self.flushed {
            self.flushed = true;
            RunStep::Flush
        } else {
            RunStep::Done
        }
    }
}

} // verus!
