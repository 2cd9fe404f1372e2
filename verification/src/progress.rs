//! Advisory throughput sampling.
//!
//! The reporter only counts processed records and says when a sample is due;
//! it holds no pipeline state and nothing in the pipeline reads it, so it
//! cannot affect dispatch, queueing or correctness. Turning a due sample and
//! a clock reading into a records-per-second figure is the host's concern.

use vstd::prelude::*;

verus! {

/// Counts processed records and flags every `interval`-th one as a sampling
/// point.
#[derive(Clone, Copy, Debug, PartialEq, Eq, Structural)]
pub struct ProgressReporter {
    pub interval: usize,
    pub processed: usize,
}

impl ProgressReporter {
    /// The sampling interval is positive.
    pub open spec fn wf(self) -> bool {
        self.interval > 0
    }

    /// A reporter that samples every `interval` records.
    pub fn new(interval: usize) -> (r: Self)
        requires
            interval > 0,
        ensures
            r.wf(),
            r.interval == interval,
            r.processed == 0,
    {
        ProgressReporter { interval, processed: 0 }
    }

    /// Count one processed record; true exactly when a throughput sample is
    /// due, every `interval` records.
    pub fn record_one(&mut self) -> (due: bool)
        requires
            old(self).wf(),
            old(self).processed < usize::MAX,
        ensures
            final(self).wf(),
            final(self).interval == old(self).interval,
            final(self).processed == old(self).processed + 1,
            due == (final(self).processed % final(self).interval == 0),
    {
        self.processed = self.processed + 1;
        self.processed % self.interval == 0
    }
}

} // verus!
