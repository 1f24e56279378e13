use vstd::prelude::*;

verus! {

/// Indices of the chunks of a block that are new at `height`, in order, given
/// the height at which each chunk was included.
pub open spec fn new_chunks(heights: Seq<u64>, height: u64) -> Seq<usize>
    decreases heights.len(),
{
    if heights.len() == 0 {
        Seq::empty()
    } else {
        let prev = new_chunks(heights.drop_last(), height);
        if heights.last() == height {
            prev.push((heights.len() - 1) as usize)
        } else {
            prev
        }
    }
}

/// Progress through a block: how many of its chunks are done, and how many
/// of those failed.
pub struct RunState {
    pub done: nat,
    pub failures: nat,
    /// Whether fetching a chunk failed, which stops the block.
    pub fetch_failed: bool,
}

/// Why the shadow validation of a block stopped.
#[derive(Debug, Clone, Copy, PartialEq, Eq, Structural)]
pub enum BlockError {
    /// A chunk of the block could not be fetched.
    FetchFailed,
}

/// The result of a block: an error only when a fetch failed.
pub open spec fn block_result(s: RunState) -> Result<(), BlockError> {
    if s.fetch_failed {
        Err(BlockError::FetchFailed)
    } else {
        Ok(())
    }
}

/// The progress after one more chunk, which succeeded when `ok`.
pub open spec fn after_chunk(s: RunState, ok: bool) -> RunState {
    RunState {
        done: s.done + 1,
        failures: s.failures + if ok {
            0nat
        } else {
            1nat
        },
        fetch_failed: s.fetch_failed,
    }
}

/// The progress after chunks with the outcomes `oks`, in order.
pub open spec fn after_chunks(s: RunState, oks: Seq<bool>) -> RunState
    decreases oks.len(),
{
    if oks.len() == 0 {
        s
    } else {
        after_chunk(after_chunks(s, oks.drop_last()), oks.last())
    }
}

/// The number of failures among `oks`.
pub open spec fn failures_in(oks: Seq<bool>) -> nat
    decreases oks.len(),
{
    if oks.len() == 0 {
        0
    } else {
        failures_in(oks.drop_last()) + if oks.last() {
            0nat
        } else {
            1nat
        }
    }
}

/// The progress of a run that has just started.
pub open spec fn run_start() -> RunState {
    RunState { done: 0, failures: 0, fetch_failed: false }
}

proof fn lemma_after_chunks(oks: Seq<bool>)
    ensures
        after_chunks(run_start(), oks) == (RunState {
            done: oks.len(),
            failures: failures_in(oks),
            fetch_failed: false,
        }),
    decreases oks.len(),
{
    if oks.len() > 0 {
        lemma_after_chunks(oks.drop_last());
    }
}

/// A failed chunk stops no chunk after it and does not change the result of
/// the block: whatever the outcomes, every chunk is processed, the block
/// succeeds as it does when every chunk succeeds, and the outcomes change only
/// the count of failures.
pub proof fn lemma_failure_isolation(oks: Seq<bool>)
    ensures
        after_chunks(run_start(), oks).done == oks.len(),
        after_chunks(run_start(), oks).failures == failures_in(oks),
        block_result(after_chunks(run_start(), oks)) == Ok::<(), BlockError>(()),
        block_result(after_chunks(run_start(), oks)) == block_result(
            after_chunks(run_start(), Seq::new(oks.len(), |i: int| true)),
        ),
{
    lemma_after_chunks(oks);
    lemma_after_chunks(Seq::new(oks.len(), |i: int| true));
}

/// Shadow validation of the chunks of one block: which chunks to process, in
/// order, and how many have failed. The failure of a chunk never stops the
/// block.
pub struct BlockShadowRun {
    chunks: Vec<usize>,
    next: usize,
    failures: usize,
    fetch_failed: bool,
}

impl BlockShadowRun {
    /// Indices of the chunks to process, in order.
    pub closed spec fn chunks(&self) -> Seq<usize> {
        self.chunks@
    }

    /// Progress so far.
    pub closed spec fn state(&self) -> RunState {
        RunState {
            done: self.next as nat,
            failures: self.failures as nat,
            fetch_failed: self.fetch_failed,
        }
    }

    pub closed spec fn wf(&self) -> bool {
        self.failures <= self.next <= self.chunks@.len()
    }

    /// A run over the chunks new at `height`, whose inclusion heights are
    /// `heights`; a run with nothing to do when shadow validation is disabled.
    pub fn start(enabled: bool, heights: &Vec<u64>, height: u64) -> (r: Self)
        ensures
            r.wf(),
            r.chunks() == (if enabled {
                new_chunks(heights@, height)
            } else {
                Seq::empty()
            }),
            r.state() == run_start(),
    {
        let mut chunks: Vec<usize> = Vec::new();
        if enabled {
            let n = heights.len();
            let mut i: usize = 0;
            assert(heights@.take(0) =~= Seq::<u64>::empty());
            while i < n
                invariant
                    n == heights@.len(),
                    i <= n,
                    chunks@ == new_chunks(heights@.take(i as int), height),
                decreases n - i,
            {
                assert(heights@.take(i + 1).drop_last() =~= heights@.take(i as int));
                if heights[i] == height {
                    chunks.push(i);
                }
                i += 1;
            }
            assert(heights@.take(n as int) =~= heights@);
        }
        BlockShadowRun { chunks, next: 0, failures: 0, fetch_failed: false }
    }

    /// The chunk to process next, or `None` when all are done or a fetch
    /// failed.
    pub fn next_chunk(&self) -> (r: Option<usize>)
        requires
            self.wf(),
        ensures
            r == (if !self.state().fetch_failed && self.state().done < self.chunks().len() {
                Some(self.chunks()[self.state().done as int])
            } else {
                None::<usize>
            }),
    {
        if !self.fetch_failed && self.next < self.chunks.len() {
            Some(self.chunks[self.next])
        } else {
            None
        }
    }

    /// Records that the current chunk is done, successfully when `ok`.
    pub fn chunk_done(&mut self, ok: bool)
        requires
            old(self).wf(),
            old(self).state().done < old(self).chunks().len(),
        ensures
            final(self).wf(),
            final(self).chunks() == old(self).chunks(),
            final(self).state() == after_chunk(old(self).state(), ok),
    {
        let n = self.chunks.len();
        assert(self.next < n);
        self.next = self.next + 1;
        if !ok {
            self.failures = self.failures + 1;
        }
    }

    /// Records that the current chunk could not be fetched: the block stops.
    pub fn fetch_failed(&mut self)
        requires
            old(self).wf(),
        ensures
            final(self).wf(),
            final(self).chunks() == old(self).chunks(),
            final(self).state() == (RunState { fetch_failed: true, ..old(self).state() }),
    {
        self.fetch_failed = true;
    }

    /// The result of the block so far: success unless a fetch failed,
    /// whatever became of the chunks.
    pub fn finish(&self) -> (r: Result<(), BlockError>)
        ensures
            r == block_result(self.state()),
    {
        if self.fetch_failed {
            Err(BlockError::FetchFailed)
        } else {
            Ok(())
        }
    }

    /// Number of chunks done.
    pub fn processed(&self) -> (r: usize)
        ensures
            r == self.state().done,
    {
        self.next
    }

    /// Number of chunks that failed.
    pub fn failures(&self) -> (r: usize)
        ensures
            r == self.state().failures,
    {
        self.failures
    }
}

} // verus!
