//! Exact minimum-travel-time tour search over a small set of named waypoints.
//!
//! Given a complete pairwise cost matrix of precomputed itineraries, the
//! library enumerates every ordering of the waypoint set, scores each ordering
//! under a cost model that also charges for reaching the tour's start from all
//! other waypoints and returning from the tour's end to all other waypoints,
//! and keeps the ordering with the smallest comparison metric.

pub mod cost;
pub mod itinerary;
pub mod perm;
pub mod progress;
pub mod search;
pub mod tracker;
