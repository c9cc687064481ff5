//! The best-solution tracker: a running minimum over all evaluated orderings.

use vstd::prelude::*;

use crate::cost::TourMetrics;

verus! {

/// One evaluated candidate: an ordering together with its scores.
pub struct BestRecord {
    /// The ordering, as indices into the waypoint list.
    pub ordering: Vec<usize>,
    /// The scores this ordering was evaluated to.
    pub metrics: TourMetrics,
}

/// Keeps the offered candidate with the smallest comparison metric.
///
/// One `offer` call compares and replaces in a single step, so a reader never
/// sees a metric paired with another candidate's ordering. Ties keep the
/// incumbent: of two candidates with equal metrics, the first offered wins.
/// A caller that shares a tracker across parallel workers wraps it in one
/// lock and performs each whole `offer` inside the critical section, so the
/// compound update stays atomic.
pub struct BestTracker {
    best: Option<BestRecord>,
}

impl BestTracker {
    pub closed spec fn spec_best(&self) -> Option<BestRecord> {
        self.best
    }

    /// A tracker that has seen no candidate.
    pub fn new() -> (r: Self)
        ensures
            r.spec_best() is None,
    {
        BestTracker { best: None }
    }

    /// Offers one evaluated ordering. Afterwards the tracker holds whichever
    /// of the incumbent and the candidate has the smaller comparison metric,
    /// the incumbent on a tie; the held metric never increases.
    pub fn offer(&mut self, candidate: BestRecord)
        ensures
            final(self).spec_best() is Some,
            match (old(self).spec_best(), final(self).spec_best()) {
                (None, Some(nb)) => nb == candidate,
                (Some(ob), Some(nb)) => {
                    &&& if candidate.metrics.comparison_metric < ob.metrics.comparison_metric {
                        nb == candidate
                    } else {
                        nb == ob
                    }
                    &&& nb.metrics.comparison_metric <= ob.metrics.comparison_metric
                    &&& nb.metrics.comparison_metric <= candidate.metrics.comparison_metric
                },
                _ => false,
            },
    {
        let replace = match &self.best {
            None => true,
            Some(ob) => candidate.metrics.comparison_metric < ob.metrics.comparison_metric,
        };
        if replace {
            self.best = Some(candidate);
        }
    }

    /// The best candidate seen so far, if any; readable at any time,
    /// including mid-search.
    pub fn current_best(&self) -> (r: &Option<BestRecord>)
        ensures
            *r == self.spec_best(),
    {
        &self.best
    }

    /// Surrenders the best candidate.
    pub fn into_best(self) -> (r: Option<BestRecord>)
        ensures
            r == self.spec_best(),
    {
        self.best
    }
}

} // verus!
