//! The cost matrix and the tour cost model.
//!
//! The matrix maps every ordered pair of distinct waypoint indices to the
//! best known itinerary between them. A tour (an ordering of all waypoints)
//! is scored by the sum of the itinerary durations along consecutive pairs,
//! plus two boundary terms: the cost for every other waypoint to reach the
//! tour's first waypoint, and the cost for the tour's last waypoint to reach
//! every other one. The comparison metric that ranks tours is the sum of all
//! three; the plain path duration is also reported on its own, as the simpler
//! cost-model variant without boundary terms.

use vstd::prelude::*;

use crate::itinerary::{itinerary_wf, Itinerary, ItineraryModel, LegModel};
use crate::perm::is_permutation;

verus! {

/// Practical ceiling on the waypoint count: exhaustive search enumerates
/// `n!` orderings, so anything beyond this is out of reach anyway, and the
/// bound keeps every summed metric comfortably inside `u64`.
pub const MAX_WAYPOINTS: usize = 11;

/// Mathematical image of a cost matrix: row `i`, column `j` holds the
/// itinerary from waypoint `i` to waypoint `j`, if one is known.
pub type MatrixModel = Seq<Seq<Option<ItineraryModel>>>;

pub open spec fn opt_model(o: Option<Itinerary>) -> Option<ItineraryModel> {
    match o {
        Some(it) => Some(it@),
        None => None,
    }
}

/// The matrix is square and every itinerary it holds is well formed.
pub open spec fn matrix_wf(mm: MatrixModel) -> bool {
    &&& forall|i: int| 0 <= i < mm.len() ==> #[trigger] mm[i].len() == mm.len()
    &&& forall|i: int, j: int|
        0 <= i < mm.len() && 0 <= j < mm.len() && mm[i][j] is Some ==> itinerary_wf(
            #[trigger] mm[i][j]->0,
        )
}

/// An itinerary is on file for the ordered pair `(i, j)`.
pub open spec fn has_entry(mm: MatrixModel, i: int, j: int) -> bool {
    &&& 0 <= i < mm.len()
    &&& 0 <= j < mm.len()
    &&& mm[i][j] is Some
}

/// The matrix has an itinerary for every ordered pair of distinct waypoints
/// below `n`.
pub open spec fn complete(mm: MatrixModel, n: int) -> bool {
    forall|i: int, j: int| 0 <= i < n && 0 <= j < n && i != j ==> has_entry(mm, i, j)
}

pub open spec fn entry_duration(mm: MatrixModel, i: int, j: int) -> int {
    mm[i][j]->0.duration as int
}

pub open spec fn entry_walk_distance(mm: MatrixModel, i: int, j: int) -> int {
    mm[i][j]->0.walk_distance as int
}

/// Total distance covered by a sequence of legs.
pub open spec fn legs_distance(legs: Seq<LegModel>) -> int
    decreases legs.len(),
{
    if legs.len() == 0 {
        0
    } else {
        legs_distance(legs.drop_last()) + legs.last().distance
    }
}

pub open spec fn entry_distance(mm: MatrixModel, i: int, j: int) -> int {
    legs_distance(mm[i][j]->0.legs)
}

/// Sum of itinerary durations along consecutive pairs of the ordering.
pub open spec fn path_duration(mm: MatrixModel, p: Seq<usize>) -> int
    decreases p.len(),
{
    if p.len() <= 1 {
        0
    } else {
        path_duration(mm, p.drop_last()) + entry_duration(
            mm,
            p[p.len() - 2] as int,
            p[p.len() - 1] as int,
        )
    }
}

/// Sum of all leg distances along consecutive pairs of the ordering.
pub open spec fn path_distance(mm: MatrixModel, p: Seq<usize>) -> int
    decreases p.len(),
{
    if p.len() <= 1 {
        0
    } else {
        path_distance(mm, p.drop_last()) + entry_distance(
            mm,
            p[p.len() - 2] as int,
            p[p.len() - 1] as int,
        )
    }
}

/// Sum of itinerary walking distances along consecutive pairs of the ordering.
pub open spec fn path_walk_distance(mm: MatrixModel, p: Seq<usize>) -> int
    decreases p.len(),
{
    if p.len() <= 1 {
        0
    } else {
        path_walk_distance(mm, p.drop_last()) + entry_walk_distance(
            mm,
            p[p.len() - 2] as int,
            p[p.len() - 1] as int,
        )
    }
}

/// Sum of the durations from every waypoint below `k` other than `first`
/// to `first`.
pub open spec fn into_first_upto(mm: MatrixModel, k: int, first: int) -> int
    decreases k,
{
    if k <= 0 {
        0
    } else {
        into_first_upto(mm, k - 1, first) + if k - 1 == first {
            0
        } else {
            entry_duration(mm, k - 1, first)
        }
    }
}

/// Cost for every other waypoint in the set of size `n` to reach the tour's
/// first waypoint.
pub open spec fn start_duration(mm: MatrixModel, n: int, first: int) -> int {
    into_first_upto(mm, n, first)
}

/// Sum of the durations from `last` to every waypoint below `k` other than
/// `last`.
pub open spec fn from_last_upto(mm: MatrixModel, k: int, last: int) -> int
    decreases k,
{
    if k <= 0 {
        0
    } else {
        from_last_upto(mm, k - 1, last) + if k - 1 == last {
            0
        } else {
            entry_duration(mm, last, k - 1)
        }
    }
}

/// Cost for the tour's last waypoint to reach every other waypoint in the
/// set of size `n`.
pub open spec fn end_duration(mm: MatrixModel, n: int, last: int) -> int {
    from_last_upto(mm, n, last)
}

/// The scalar that ranks orderings: path duration plus both boundary terms.
pub open spec fn comparison_metric(mm: MatrixModel, n: int, p: Seq<usize>) -> int
    recommends
        p.len() >= 1,
{
    path_duration(mm, p) + start_duration(mm, n, p[0] as int) + end_duration(
        mm,
        n,
        p[p.len() - 1] as int,
    )
}

/// The scalar metrics derived from one ordering.
///
/// `path_duration` on its own is the simpler cost-model variant that ignores
/// the boundary terms; `comparison_metric` is the value the search minimizes.
pub struct TourMetrics {
    /// Sum of itinerary durations between consecutive waypoints, in seconds.
    pub path_duration: u64,
    /// Sum of all leg distances between consecutive waypoints, in meters.
    pub path_distance: u64,
    /// Sum of itinerary walking distances, in meters.
    pub walk_distance: u64,
    /// Cost of every other waypoint reaching the tour's start, in seconds.
    pub start_duration: u64,
    /// Cost of the tour's end reaching every other waypoint, in seconds.
    pub end_duration: u64,
    /// `path_duration + start_duration + end_duration`.
    pub comparison_metric: u64,
}

/// `tm` holds exactly the metrics of ordering `p` under matrix `mm` for a
/// waypoint set of size `n`.
pub open spec fn metrics_match(mm: MatrixModel, n: int, p: Seq<usize>, tm: TourMetrics) -> bool {
    &&& tm.path_duration == path_duration(mm, p)
    &&& tm.path_distance == path_distance(mm, p)
    &&& tm.walk_distance == path_walk_distance(mm, p)
    &&& tm.start_duration == start_duration(mm, n, p[0] as int)
    &&& tm.end_duration == end_duration(mm, n, p[p.len() - 1] as int)
    &&& tm.comparison_metric == comparison_metric(mm, n, p)
}

/// The complete directed mapping from ordered waypoint pairs to itineraries.
/// Row `i`, column `j` holds the itinerary from waypoint `i` to waypoint `j`;
/// the diagonal stays empty.
pub struct CostMatrix {
    entries: Vec<Vec<Option<Itinerary>>>,
}

impl View for CostMatrix {
    type V = MatrixModel;

    closed spec fn view(&self) -> MatrixModel {
        Seq::new(
            self.entries@.len(),
            |i: int|
                Seq::new(
                    self.entries@[i]@.len(),
                    |j: int| opt_model(self.entries@[i]@[j]),
                ),
        )
    }
}

impl CostMatrix {
    pub open spec fn wf(&self) -> bool {
        matrix_wf(self@)
    }

    /// An empty square matrix for `n` waypoints.
    pub fn new(n: usize) -> (r: Self)
        ensures
            r.wf(),
            r@.len() == n,
            forall|i: int, j: int| 0 <= i < n && 0 <= j < n ==> !(#[trigger] r@[i][j] is Some),
    {
        let mut entries: Vec<Vec<Option<Itinerary>>> = Vec::new();
        let mut i: usize = 0;
        while i < n
            invariant
                i <= n,
                entries@.len() == i,
                forall|a: int| 0 <= a < i ==> #[trigger] entries@[a]@.len() == n,
                forall|a: int, b: int|
                    0 <= a < i && 0 <= b < n ==> !(#[trigger] entries@[a]@[b] is Some),
            decreases n - i,
        {
            let mut row: Vec<Option<Itinerary>> = Vec::new();
            let mut j: usize = 0;
            while j < n
                invariant
                    j <= n,
                    row@.len() == j,
                    forall|b: int| 0 <= b < j ==> !(#[trigger] row@[b] is Some),
                decreases n - j,
            {
                row.push(None);
                j = j + 1;
            }
            entries.push(row);
            i = i + 1;
        }
        let r = CostMatrix { entries };
        r
    }

    /// Number of waypoints the matrix covers.
    pub fn len(&self) -> (r: usize)
        ensures
            r == self@.len(),
    {
        self.entries.len()
    }

    /// Records the itinerary for the ordered pair `(from, to)`.
    pub fn set(&mut self, from: usize, to: usize, it: Itinerary)
        requires
            old(self).wf(),
            from < old(self)@.len(),
            to < old(self)@.len(),
            itinerary_wf(it@),
        ensures
            final(self).wf(),
            final(self)@.len() == old(self)@.len(),
            final(self)@[from as int][to as int] == Some(it@),
            forall|i: int, j: int|
                0 <= i < old(self)@.len() && 0 <= j < old(self)@.len() && !(i == from && j == to)
                    ==> final(self)@[i][j] == #[trigger] old(self)@[i][j],
    {
        let ghost before = self@;
        let ghost e0 = self.entries@;
        proof {
            assert(before.len() == e0.len());
            assert(before[from as int].len() == e0[from as int]@.len());
            assert(before[from as int].len() == before.len());
            assert(to < e0[from as int]@.len());
        }
        self.entries[from][to] = Some(it);
        proof {
            assert(self.entries@[from as int]@ == e0[from as int]@.update(to as int, Some(it)));
            assert forall|i: int, j: int|
                0 <= i < before.len() && 0 <= j < before.len() && !(i == from && j == to) implies self
                @[i][j] == #[trigger] before[i][j] by {
                if i == from {
                    assert(self.entries@[i]@[j] == e0[i]@[j]);
                } else {
                    assert(self.entries@[i] == e0[i]);
                }
            }
            assert(self@[from as int][to as int] == Some(it@));
            assert(self@.len() == before.len());
            assert forall|i: int| 0 <= i < self@.len() implies #[trigger] self@[i].len()
                == self@.len() by {
                assert(self@[i].len() == self.entries@[i]@.len());
                if i != from {
                    assert(self.entries@[i] == e0[i]);
                }
                assert(before[i].len() == e0[i]@.len());
                assert(before[i].len() == before.len());
            }
            assert forall|i: int, j: int|
                0 <= i < self@.len() && 0 <= j < self@.len() && self@[i][j] is Some implies itinerary_wf(
                #[trigger] self@[i][j]->0,
            ) by {
                if i == from && j == to {
                    assert(self@[i][j] == Some(it@));
                } else {
                    assert(self@[i][j] == before[i][j]);
                }
            }
        }
    }

    /// The itinerary for the ordered pair `(from, to)`, if one is on file.
    pub fn get(&self, from: usize, to: usize) -> (r: Option<&Itinerary>)
        requires
            self.wf(),
        ensures
            match r {
                Some(it) => has_entry(self@, from as int, to as int) && self@[from as int][to
                    as int] == Some(it@),
                None => !has_entry(self@, from as int, to as int),
            },
    {
        proof {
            assert(self@.len() == self.entries@.len());
        }
        if from < self.entries.len() && to < self.entries.len() {
            proof {
                assert(self@[from as int].len() == self@.len());
                assert(self@[from as int][to as int] == opt_model(
                    self.entries@[from as int]@[to as int],
                ));
            }
            let row = &self.entries[from];
            match &row[to] {
                Some(it) => Some(it),
                None => None,
            }
        } else {
            None
        }
    }

    /// The itinerary for an ordered pair that is known to be on file.
    pub fn get_required(&self, from: usize, to: usize) -> (r: &Itinerary)
        requires
            self.wf(),
            has_entry(self@, from as int, to as int),
        ensures
            Some(r@) == self@[from as int][to as int],
    {
        proof {
            assert(self@.len() == self.entries@.len());
            assert(self@[from as int].len() == self@.len());
            assert(self@[from as int][to as int] == opt_model(
                self.entries@[from as int]@[to as int],
            ));
        }
        let row = &self.entries[from];
        row[to].as_ref().unwrap()
    }
}

/// Total distance covered by the legs of one itinerary, summed without
/// overflow thanks to the well-formedness ceiling on the leg count.
pub fn itinerary_distance(it: &Itinerary) -> (d: u64)
    requires
        itinerary_wf(it@),
    ensures
        d == legs_distance(it@.legs),
        d <= 0xffff_ffff_0000u64,
{
    let mut d: u64 = 0;
    let mut k: usize = 0;
    while k < it.legs.len()
        invariant
            k <= it.legs@.len(),
            it@.legs.len() == it.legs@.len(),
            it.legs@.len() <= crate::itinerary::MAX_LEGS_PER_ITINERARY,
            d == legs_distance(it@.legs.subrange(0, k as int)),
            d as int <= k as int * 0xffff_ffff,
        decreases it.legs@.len() - k,
    {
        let leg = &it.legs[k];
        proof {
            let pre = it@.legs.subrange(0, k as int);
            let cur = it@.legs.subrange(0, k as int + 1);
            assert(cur.drop_last() =~= pre);
            assert(cur.last() == it@.legs[k as int]);
            assert(it@.legs[k as int] == it.legs@[k as int]@);
        }
        d = d + leg.distance as u64;
        k = k + 1;
    }
    proof {
        assert(it@.legs.subrange(0, it.legs@.len() as int) =~= it@.legs);
    }
    d
}

/// Scores one ordering of the full waypoint set: a pure function of the
/// ordering and the matrix, with no shared state.
pub fn evaluate_tour(matrix: &CostMatrix, order: &Vec<usize>) -> (tm: TourMetrics)
    requires
        matrix.wf(),
        complete(matrix@, matrix@.len() as int),
        is_permutation(order@, matrix@.len()),
        1 <= matrix@.len() <= MAX_WAYPOINTS,
    ensures
        metrics_match(matrix@, matrix@.len() as int, order@, tm),
{
    let ghost mm = matrix@;
    let n = matrix.len();

    let mut dur_acc: u64 = 0;
    let mut dist_acc: u64 = 0;
    let mut walk_acc: u64 = 0;
    let mut i: usize = 1;
    while i < n
        invariant
            1 <= i <= n,
            mm == matrix@,
            matrix.wf(),
            complete(mm, n as int),
            is_permutation(order@, n as nat),
            n == mm.len(),
            n <= MAX_WAYPOINTS,
            dur_acc == path_duration(mm, order@.subrange(0, i as int)),
            dur_acc as int <= (i as int - 1) * 0xffff_ffff,
            dist_acc == path_distance(mm, order@.subrange(0, i as int)),
            dist_acc as int <= (i as int - 1) * 0xffff_ffff_0000,
            walk_acc == path_walk_distance(mm, order@.subrange(0, i as int)),
            walk_acc as int <= (i as int - 1) * 0xffff_ffff,
        decreases n - i,
    {
        let from = order[i - 1];
        let to = order[i];
        proof {
            assert(order@[i as int - 1] != order@[i as int]);
            assert(has_entry(mm, from as int, to as int));
        }
        let it = matrix.get_required(from, to);
        proof {
            assert(itinerary_wf(mm[from as int][to as int]->0));
        }
        let d = itinerary_distance(it);
        proof {
            let pre = order@.subrange(0, i as int);
            let cur = order@.subrange(0, i as int + 1);
            assert(cur.drop_last() =~= pre);
            assert(cur[i as int] == order@[i as int]);
            assert(cur[i as int - 1] == order@[i as int - 1]);
        }
        dur_acc = dur_acc + it.duration as u64;
        dist_acc = dist_acc + d;
        walk_acc = walk_acc + it.walk_distance as u64;
        i = i + 1;
    }
    proof {
        assert(order@.subrange(0, n as int) =~= order@);
    }

    let first = order[0];
    let mut start_acc: u64 = 0;
    let mut j: usize = 0;
    while j < n
        invariant
            j <= n,
            mm == matrix@,
            matrix.wf(),
            complete(mm, n as int),
            is_permutation(order@, n as nat),
            n == mm.len(),
            n <= MAX_WAYPOINTS,
            first == order@[0],
            first < n,
            start_acc == into_first_upto(mm, j as int, first as int),
            start_acc as int <= j as int * 0xffff_ffff,
        decreases n - j,
    {
        if j != first {
            proof {
                assert(has_entry(mm, j as int, first as int));
            }
            let it = matrix.get_required(j, first);
            start_acc = start_acc + it.duration as u64;
        }
        j = j + 1;
    }

    let last = order[n - 1];
    let mut end_acc: u64 = 0;
    let mut k: usize = 0;
    while k < n
        invariant
            k <= n,
            mm == matrix@,
            matrix.wf(),
            complete(mm, n as int),
            is_permutation(order@, n as nat),
            n == mm.len(),
            n <= MAX_WAYPOINTS,
            last == order@[n - 1],
            last < n,
            end_acc == from_last_upto(mm, k as int, last as int),
            end_acc as int <= k as int * 0xffff_ffff,
        decreases n - k,
    {
        if k != last {
            proof {
                assert(has_entry(mm, last as int, k as int));
            }
            let it = matrix.get_required(last, k);
            end_acc = end_acc + it.duration as u64;
        }
        k = k + 1;
    }

    let cmp = dur_acc + start_acc + end_acc;
    TourMetrics {
        path_duration: dur_acc,
        path_distance: dist_acc,
        walk_distance: walk_acc,
        start_duration: start_acc,
        end_duration: end_acc,
        comparison_metric: cmp,
    }
}

/// The itinerary sequence along consecutive pairs of an ordering: the
/// snapshot that accompanies a winning tour.
pub fn tour_itineraries(matrix: &CostMatrix, order: &Vec<usize>) -> (r: Vec<Itinerary>)
    requires
        matrix.wf(),
        complete(matrix@, matrix@.len() as int),
        is_permutation(order@, matrix@.len()),
        matrix@.len() >= 1,
    ensures
        r@.len() == order@.len() - 1,
        forall|k: int|
            0 <= k < r@.len() ==> Some(#[trigger] r@[k]@) == matrix@[order@[k] as int][order@[k
                + 1] as int],
{
    let ghost mm = matrix@;
    let n = matrix.len();
    let mut r: Vec<Itinerary> = Vec::new();
    let mut i: usize = 1;
    while i < n
        invariant
            1 <= i <= n,
            mm == matrix@,
            matrix.wf(),
            complete(mm, n as int),
            is_permutation(order@, n as nat),
            n == mm.len(),
            r@.len() == i - 1,
            forall|k: int|
                0 <= k < r@.len() ==> Some(#[trigger] r@[k]@) == mm[order@[k] as int][order@[k
                    + 1] as int],
        decreases n - i,
    {
        proof {
            assert(order@[i as int - 1] != order@[i as int]);
            assert(has_entry(mm, order@[i as int - 1] as int, order@[i as int] as int));
        }
        let it = matrix.get_required(order[i - 1], order[i]).clone();
        r.push(it);
        i = i + 1;
    }
    r
}

} // verus!
