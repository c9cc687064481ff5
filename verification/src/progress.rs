//! Progress accounting: how many of the `n!` orderings have been evaluated.

use vstd::prelude::*;

verus! {

/// A monotonically growing count of completed evaluations, against a fixed
/// total. Completion is detected from the counter itself, not from sampled
/// reports. A caller that shares the counter across parallel workers guards
/// each `record` with the same lock as the increment's observers.
pub struct ProgressCounter {
    evaluated: u64,
    total: u64,
}

impl ProgressCounter {
    pub closed spec fn spec_evaluated(&self) -> u64 {
        self.evaluated
    }

    pub closed spec fn spec_total(&self) -> u64 {
        self.total
    }

    /// A fresh counter awaiting `total` evaluations.
    pub fn new(total: u64) -> (r: Self)
        ensures
            r.spec_evaluated() == 0,
            r.spec_total() == total,
    {
        ProgressCounter { evaluated: 0, total }
    }

    /// Records one completed evaluation; the count only ever grows.
    pub fn record(&mut self)
        requires
            old(self).spec_evaluated() < old(self).spec_total(),
        ensures
            final(self).spec_evaluated() == old(self).spec_evaluated() + 1,
            final(self).spec_total() == old(self).spec_total(),
    {
        self.evaluated = self.evaluated + 1;
    }

    pub fn evaluated(&self) -> (r: u64)
        ensures
            r == self.spec_evaluated(),
    {
        self.evaluated
    }

    pub fn total(&self) -> (r: u64)
        ensures
            r == self.spec_total(),
    {
        self.total
    }

    /// Every ordering has been evaluated.
    pub fn is_complete(&self) -> (r: bool)
        ensures
            r == (self.spec_evaluated() == self.spec_total()),
    {
        self.evaluated == self.total
    }

    /// The reporting cadence check: true once every `interval` evaluations.
    pub fn at_interval(&self, interval: u64) -> (r: bool)
        requires
            interval > 0,
        ensures
            r == (self.spec_evaluated() % interval == 0),
    {
        self.evaluated % interval == 0
    }
}

} // verus!
