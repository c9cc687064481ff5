//! The data carried by the cost matrix: itineraries and their legs.
//!
//! Durations are whole time units (seconds) and distances whole length units
//! (meters); the search only adds and compares them, so integer values are
//! exact. Callers that receive fractional measurements round them before
//! building the matrix.

use vstd::prelude::*;

verus! {

/// One segment of an itinerary: a walk or a ride on one transit line.
pub struct ItineraryLeg {
    /// Transit mode label, e.g. a walking or bus marker.
    pub mode: String,
    /// Duration of this leg, in whole seconds.
    pub duration: u32,
    /// Distance covered by this leg, in whole meters.
    pub distance: u32,
    /// Route identifier (a line short name); present only for transit legs.
    pub trip: Option<String>,
}

/// Mathematical image of one leg.
pub ghost struct LegModel {
    pub mode: Seq<char>,
    pub duration: u32,
    pub distance: u32,
    pub trip: Option<Seq<char>>,
}

impl View for ItineraryLeg {
    type V = LegModel;

    open spec fn view(&self) -> LegModel {
        LegModel {
            mode: self.mode@,
            duration: self.duration,
            distance: self.distance,
            trip: match self.trip {
                Some(t) => Some(t@),
                None => None,
            },
        }
    }
}

/// The best known way to travel from one waypoint to another.
///
/// `duration` is the aggregate for the whole itinerary; it may carry
/// waiting or transfer time and is not required to equal the sum of the
/// per-leg durations.
pub struct Itinerary {
    pub legs: Vec<ItineraryLeg>,
    /// Aggregate duration in whole seconds.
    pub duration: u32,
    /// Aggregate walking distance in whole meters.
    pub walk_distance: u32,
}

/// Mathematical image of one itinerary.
pub ghost struct ItineraryModel {
    pub legs: Seq<LegModel>,
    pub duration: u32,
    pub walk_distance: u32,
}

impl View for Itinerary {
    type V = ItineraryModel;

    open spec fn view(&self) -> ItineraryModel {
        ItineraryModel {
            legs: self.legs@.map_values(|l: ItineraryLeg| l@),
            duration: self.duration,
            walk_distance: self.walk_distance,
        }
    }
}

/// Ceiling on the number of legs one itinerary may carry, so that summed leg
/// distances provably stay inside the accumulator type.
pub const MAX_LEGS_PER_ITINERARY: usize = 65536;

pub open spec fn itinerary_wf(it: ItineraryModel) -> bool {
    it.legs.len() <= MAX_LEGS_PER_ITINERARY
}

/// Index of the fastest candidate itinerary: the first one with the minimum
/// aggregate duration. Callers apply this selection to each candidate list
/// before an entry goes into the cost matrix.
pub fn select_fastest(itins: &Vec<Itinerary>) -> (r: Option<usize>)
    ensures
        match r {
            Some(i) => {
                &&& itins@.len() > 0
                &&& i < itins@.len()
                &&& forall|j: int|
                    0 <= j < itins@.len() ==> itins@[i as int].duration <= (
                    #[trigger] itins@[j]).duration
                &&& forall|j: int|
                    0 <= j < i ==> itins@[i as int].duration < (#[trigger] itins@[j]).duration
            },
            None => itins@.len() == 0,
        },
{
    if itins.len() == 0 {
        return None;
    }
    let mut best: usize = 0;
    let mut i: usize = 1;
    while i < itins.len()
        invariant
            itins@.len() > 0,
            best < i,
            i <= itins@.len(),
            forall|j: int|
                0 <= j < i ==> itins@[best as int].duration <= (#[trigger] itins@[j]).duration,
            forall|j: int|
                0 <= j < best ==> itins@[best as int].duration < (#[trigger] itins@[j]).duration,
        decreases itins@.len() - i,
    {
        if itins[i].duration < itins[best].duration {
            best = i;
        }
        i = i + 1;
    }
    Some(best)
}

impl Clone for ItineraryLeg {
    fn clone(&self) -> (res: Self)
        ensures
            res == *self,
    {
        ItineraryLeg {
            mode: self.mode.clone(),
            duration: self.duration,
            distance: self.distance,
            trip: match &self.trip {
                Some(t) => Some(t.clone()),
                None => None,
            },
        }
    }
}

impl Clone for Itinerary {
    fn clone(&self) -> (res: Self)
        ensures
            res@ == self@,
    {
        let legs = self.legs.clone();
        proof {
            assert(legs@.map_values(|l: ItineraryLeg| l@) =~= self.legs@.map_values(
                |l: ItineraryLeg| l@,
            ));
        }
        Itinerary { legs, duration: self.duration, walk_distance: self.walk_distance }
    }
}

} // verus!
