//! The exhaustive tour search: every ordering of the waypoint set is scored
//! and the one with the smallest comparison metric wins.

use vstd::prelude::*;

use crate::cost::{
    comparison_metric, complete, has_entry, metrics_match, CostMatrix, MatrixModel, TourMetrics,
    MAX_WAYPOINTS,
};
use crate::itinerary::Itinerary;
use crate::perm::{
    appears, clone_indices, factorial, is_permutation, lemma_factorial_monotonic,
    lemma_factorial_pos, permutations, spec_factorial,
};
use crate::progress::ProgressCounter;
use crate::tracker::{BestRecord, BestTracker};

verus! {

/// Why a search could not start. The cost matrix must be complete before the
/// search begins, and an empty waypoint set has nothing to order.
#[derive(Debug, PartialEq, Eq, Structural)]
pub enum SearchError {
    /// The waypoint set is empty.
    EmptyWaypointSet,
    /// The matrix lacks the itinerary for the ordered waypoint pair
    /// `(from, to)`.
    MissingItinerary { from: usize, to: usize },
}

/// The winning tour: the ordering with the globally minimum comparison
/// metric, with its itinerary sequence and scores.
pub struct Solution {
    /// Waypoint names in best visiting order.
    pub addresses: Vec<String>,
    /// The same ordering, as indices into the waypoint list.
    pub ordering: Vec<usize>,
    /// The itinerary for each consecutive pair of the ordering.
    pub itineraries: Vec<Itinerary>,
    /// The scores of the winning ordering.
    pub metrics: TourMetrics,
}

/// `sol` is internally consistent for the given waypoints and matrix: its
/// ordering is a permutation of the full waypoint set, its metrics are
/// exactly the re-scored values of that ordering, and names and itineraries
/// follow the ordering.
pub open spec fn solution_matches(
    mm: MatrixModel,
    waypoints: Seq<String>,
    sol: Solution,
) -> bool {
    let n = waypoints.len() as int;
    &&& is_permutation(sol.ordering@, waypoints.len())
    &&& metrics_match(mm, n, sol.ordering@, sol.metrics)
    &&& sol.addresses@.len() == n
    &&& forall|k: int|
        0 <= k < n ==> sol.addresses@[k] == waypoints[#[trigger] sol.ordering@[k] as int]
    &&& sol.itineraries@.len() == n - 1
    &&& forall|k: int|
        0 <= k < n - 1 ==> Some(#[trigger] sol.itineraries@[k]@) == mm[sol.ordering@[k] as int][sol.ordering@[
            k + 1
        ] as int]
}

/// What the search promises: on success a consistent, globally optimal
/// solution; an error exactly when the waypoint set is empty or the matrix
/// misses a required pair, naming such a pair.
pub open spec fn search_result_matches(
    mm: MatrixModel,
    waypoints: Seq<String>,
    r: Result<Solution, SearchError>,
) -> bool {
    &&& match r {
        Ok(sol) => {
            &&& waypoints.len() >= 1
            &&& complete(mm, waypoints.len() as int)
            &&& solution_matches(mm, waypoints, sol)
            &&& forall|q: Seq<usize>|
                is_permutation(q, waypoints.len()) ==> sol.metrics.comparison_metric
                    <= comparison_metric(mm, waypoints.len() as int, q)
        },
        Err(SearchError::EmptyWaypointSet) => waypoints.len() == 0,
        Err(SearchError::MissingItinerary { from, to }) => {
            &&& waypoints.len() >= 1
            &&& from < waypoints.len()
            &&& to < waypoints.len()
            &&& from != to
            &&& !has_entry(mm, from as int, to as int)
        },
    }
    &&& (r is Ok <==> (waypoints.len() >= 1 && complete(mm, waypoints.len() as int)))
}

/// Waypoint names rearranged into the given order.
fn ordered_names(waypoints: &Vec<String>, order: &Vec<usize>) -> (r: Vec<String>)
    requires
        forall|k: int| 0 <= k < order@.len() ==> (#[trigger] order@[k]) < waypoints@.len(),
    ensures
        r@.len() == order@.len(),
        forall|k: int| 0 <= k < order@.len() ==> r@[k] == waypoints@[#[trigger] order@[k] as int],
{
    let mut r: Vec<String> = Vec::new();
    let mut i: usize = 0;
    while i < order.len()
        invariant
            i <= order@.len(),
            forall|k: int| 0 <= k < order@.len() ==> (#[trigger] order@[k]) < waypoints@.len(),
            r@.len() == i,
            forall|k: int| 0 <= k < i ==> r@[k] == waypoints@[#[trigger] order@[k] as int],
        decreases order@.len() - i,
    {
        r.push(waypoints[order[i]].clone());
        i = i + 1;
    }
    r
}

/// `11!`, the largest ordering count the search can meet.
proof fn lemma_factorial_ceiling()
    ensures
        spec_factorial(MAX_WAYPOINTS as nat) == 39916800,
{
    assert(spec_factorial(0) == 1);
    assert(spec_factorial(1) == 1);
    assert(spec_factorial(2) == 2);
    assert(spec_factorial(3) == 6);
    assert(spec_factorial(4) == 24);
    assert(spec_factorial(5) == 120);
    assert(spec_factorial(6) == 720);
    assert(spec_factorial(7) == 5040);
    assert(spec_factorial(8) == 40320);
    assert(spec_factorial(9) == 362880);
    assert(spec_factorial(10) == 3628800);
    assert(spec_factorial(11) == 39916800);
}

/// Finds the ordering of the full waypoint set with the minimum comparison
/// metric, by exhaustive enumeration of all `n!` orderings.
///
/// The matrix must pair rows and columns with `waypoints` by index, and the
/// waypoint count must stay at or below `MAX_WAYPOINTS`, the documented
/// practical ceiling for a factorial search.
pub fn find_best_tour(waypoints: &Vec<String>, matrix: &CostMatrix) -> (r: Result<
    Solution,
    SearchError,
>)
    requires
        matrix.wf(),
        matrix@.len() == waypoints@.len(),
        waypoints@.len() <= MAX_WAYPOINTS,
    ensures
        search_result_matches(matrix@, waypoints@, r),
{
    let ghost mm = matrix@;
    let n = waypoints.len();
    if n == 0 {
        return Err(SearchError::EmptyWaypointSet);
    }

    // Validate completeness once at entry, rather than mid-search.
    let mut i: usize = 0;
    while i < n
        invariant
            i <= n,
            n == mm.len(),
            n == waypoints@.len(),
            n >= 1,
            mm == matrix@,
            matrix.wf(),
            forall|a: int, b: int| 0 <= a < i && 0 <= b < n as int && a != b ==> has_entry(mm, a, b),
        decreases n - i,
    {
        let mut j: usize = 0;
        while j < n
            invariant
                j <= n,
                i < n,
                n == mm.len(),
                n == waypoints@.len(),
                n >= 1,
                mm == matrix@,
                matrix.wf(),
                forall|a: int, b: int| 0 <= a < i && 0 <= b < n as int && a != b ==> has_entry(
                    mm,
                    a,
                    b,
                ),
                forall|b: int| 0 <= b < j && b != i as int ==> has_entry(mm, i as int, b),
            decreases n - j,
        {
            if i != j {
                match matrix.get(i, j) {
                    Some(_) => {},
                    None => {
                        proof {
                            assert(!complete(mm, n as int));
                        }
                        return Err(SearchError::MissingItinerary { from: i, to: j });
                    },
                }
            }
            j = j + 1;
        }
        i = i + 1;
    }
    proof {
        assert(complete(mm, n as int));
        lemma_factorial_ceiling();
        lemma_factorial_monotonic(n as nat, MAX_WAYPOINTS as nat);
    }

    let total128 = factorial(n as u128);
    let total = total128 as u64;
    let perms = permutations(n);
    let mut tracker = BestTracker::new();
    let mut progress = ProgressCounter::new(total);
    let mut idx: usize = 0;
    while idx < perms.len()
        invariant
            mm == matrix@,
            matrix.wf(),
            complete(mm, n as int),
            n == mm.len(),
            1 <= n <= MAX_WAYPOINTS,
            perms@.len() == spec_factorial(n as nat),
            spec_factorial(n as nat) <= 39916800,
            forall|k: int| 0 <= k < perms@.len() ==> is_permutation(#[trigger] perms@[k]@, n as nat),
            forall|s: Seq<usize>| is_permutation(s, n as nat) ==> appears(perms@, s),
            idx <= perms@.len(),
            total == spec_factorial(n as nat),
            progress.spec_total() == total,
            progress.spec_evaluated() == idx as u64,
            match tracker.spec_best() {
                None => idx == 0,
                Some(b) => {
                    &&& is_permutation(b.ordering@, n as nat)
                    &&& metrics_match(mm, n as int, b.ordering@, b.metrics)
                    &&& forall|k: int|
                        0 <= k < idx ==> b.metrics.comparison_metric <= comparison_metric(
                            mm,
                            n as int,
                            #[trigger] perms@[k]@,
                        )
                },
            },
        decreases perms@.len() - idx,
    {
        let tm = crate::cost::evaluate_tour(matrix, &perms[idx]);
        let ordering = clone_indices(&perms[idx]);
        tracker.offer(BestRecord { ordering, metrics: tm });
        progress.record();
        idx = idx + 1;
    }

    match tracker.into_best() {
        Some(b) => {
            proof {
                lemma_factorial_pos(n as nat);
                assert forall|q: Seq<usize>|
                    is_permutation(q, n as nat) implies b.metrics.comparison_metric
                    <= comparison_metric(mm, n as int, q) by {
                    assert(appears(perms@, q));
                    let k = choose|k: int| 0 <= k < perms@.len() && perms@[k]@ == q;
                    assert(b.metrics.comparison_metric <= comparison_metric(
                        mm,
                        n as int,
                        perms@[k]@,
                    ));
                }
            }
            let itineraries = crate::cost::tour_itineraries(matrix, &b.ordering);
            let addresses = ordered_names(waypoints, &b.ordering);
            Ok(Solution { addresses, ordering: b.ordering, itineraries, metrics: b.metrics })
        },
        None => {
            proof {
                lemma_factorial_pos(n as nat);
                assert(false);
            }
            Err(SearchError::EmptyWaypointSet)
        },
    }
}

/// Finds the shortest route that visits all waypoints; the same search as
/// `find_best_tour`, under its route-centric name.
pub fn find_shortest_route(waypoints: &Vec<String>, matrix: &CostMatrix) -> (r: Result<
    Solution,
    SearchError,
>)
    requires
        matrix.wf(),
        matrix@.len() == waypoints@.len(),
        waypoints@.len() <= MAX_WAYPOINTS,
    ensures
        search_result_matches(matrix@, waypoints@, r),
{
    find_best_tour(waypoints, matrix)
}

/// A single-waypoint set has a zero comparison metric and the trivial
/// ordering: with nobody else to reach the tour's start or be reached from
/// its end, every term of the metric is an empty sum.
pub proof fn lemma_single_waypoint_metric(mm: MatrixModel, p: Seq<usize>)
    requires
        is_permutation(p, 1),
    ensures
        p == seq![0usize],
        comparison_metric(mm, 1, p) == 0,
{
    assert(p[0] < 1);
    assert(p =~= seq![0usize]);
    assert(crate::cost::path_duration(mm, p) == 0);
    assert(crate::cost::into_first_upto(mm, 0, 0) == 0);
    assert(crate::cost::into_first_upto(mm, 1, 0) == 0);
    assert(crate::cost::from_last_upto(mm, 0, 0) == 0);
    assert(crate::cost::from_last_upto(mm, 1, 0) == 0);
}

/// Two optimal orderings carry the same comparison metric: re-running the
/// search on the same waypoints and matrix can pick a different tie, never a
/// different score.
pub proof fn lemma_optimal_metric_unique(
    mm: MatrixModel,
    n: nat,
    p1: Seq<usize>,
    p2: Seq<usize>,
)
    requires
        is_permutation(p1, n),
        is_permutation(p2, n),
        forall|q: Seq<usize>|
            is_permutation(q, n) ==> comparison_metric(mm, n as int, p1) <= comparison_metric(
                mm,
                n as int,
                q,
            ),
        forall|q: Seq<usize>|
            is_permutation(q, n) ==> comparison_metric(mm, n as int, p2) <= comparison_metric(
                mm,
                n as int,
                q,
            ),
    ensures
        comparison_metric(mm, n as int, p1) == comparison_metric(mm, n as int, p2),
{
    assert(comparison_metric(mm, n as int, p1) <= comparison_metric(mm, n as int, p2));
    assert(comparison_metric(mm, n as int, p2) <= comparison_metric(mm, n as int, p1));
}

} // verus!
