use transit_tsp::cost::{evaluate_tour, CostMatrix};
use transit_tsp::itinerary::{Itinerary, ItineraryLeg};
use transit_tsp::perm::permutations;
use transit_tsp::search::{find_best_tour, find_shortest_route, SearchError};

fn plain(duration: u32) -> Itinerary {
    Itinerary { legs: Vec::new(), duration, walk_distance: 0 }
}

fn symmetric_names() -> Vec<String> {
    vec!["A".to_string(), "B".to_string(), "C".to_string()]
}

fn symmetric_matrix() -> CostMatrix {
    let mut m = CostMatrix::new(3);
    m.set(0, 1, plain(600));
    m.set(1, 0, plain(600));
    m.set(1, 2, plain(300));
    m.set(2, 1, plain(300));
    m.set(0, 2, plain(1200));
    m.set(2, 0, plain(1200));
    m
}

#[test]
fn three_waypoint_symmetric_metric() {
    // A-B 600s, B-C 300s, A-C 1200s, symmetric, no distances: every ordering
    // scores path + start + end = the sum over all six directed pairs, 4200.
    let names = symmetric_names();
    let matrix = symmetric_matrix();
    let sol = find_best_tour(&names, &matrix).unwrap();
    assert_eq!(sol.metrics.comparison_metric, 4200);
    assert_eq!(sol.metrics.path_distance, 0);
    assert_eq!(sol.metrics.walk_distance, 0);
    let perms = permutations(3);
    assert_eq!(perms.len(), 6);
    for p in &perms {
        let tm = evaluate_tour(&matrix, p);
        assert_eq!(tm.comparison_metric, 4200);
        assert_eq!(
            tm.path_duration + tm.start_duration + tm.end_duration,
            tm.comparison_metric
        );
    }
}

#[test]
fn returned_ordering_is_permutation() {
    let names = symmetric_names();
    let matrix = symmetric_matrix();
    let sol = find_best_tour(&names, &matrix).unwrap();
    let mut seen = sol.ordering.clone();
    seen.sort();
    assert_eq!(seen, vec![0, 1, 2]);
    assert_eq!(sol.addresses.len(), 3);
    for k in 0..3 {
        assert_eq!(sol.addresses[k], names[sol.ordering[k]]);
    }
    assert_eq!(sol.itineraries.len(), 2);
}

#[test]
fn metric_matches_rescoring() {
    let names = symmetric_names();
    let matrix = symmetric_matrix();
    let sol = find_best_tour(&names, &matrix).unwrap();
    let tm = evaluate_tour(&matrix, &sol.ordering);
    assert_eq!(tm.comparison_metric, sol.metrics.comparison_metric);
    assert_eq!(tm.path_duration, sol.metrics.path_duration);
    assert_eq!(tm.path_distance, sol.metrics.path_distance);
    assert_eq!(tm.walk_distance, sol.metrics.walk_distance);
    assert_eq!(tm.start_duration, sol.metrics.start_duration);
    assert_eq!(tm.end_duration, sol.metrics.end_duration);
}

#[test]
fn repeated_search_same_metric() {
    let names = symmetric_names();
    let matrix = symmetric_matrix();
    let first = find_best_tour(&names, &matrix).unwrap();
    let second = find_best_tour(&names, &matrix).unwrap();
    assert_eq!(first.metrics.comparison_metric, second.metrics.comparison_metric);
    assert_eq!(first.ordering, second.ordering);
}

#[test]
fn single_waypoint_trivial() {
    let names = vec!["Home".to_string()];
    let matrix = CostMatrix::new(1);
    let sol = find_best_tour(&names, &matrix).unwrap();
    assert_eq!(sol.metrics.comparison_metric, 0);
    assert_eq!(sol.ordering, vec![0]);
    assert_eq!(sol.addresses, vec!["Home".to_string()]);
    assert_eq!(sol.itineraries.len(), 0);
}

#[test]
fn empty_waypoint_set_rejected() {
    let names: Vec<String> = Vec::new();
    let matrix = CostMatrix::new(0);
    let r = find_best_tour(&names, &matrix);
    assert_eq!(r.err().unwrap(), SearchError::EmptyWaypointSet);
}

#[test]
fn missing_pair_rejected() {
    let names = symmetric_names();
    let mut m = CostMatrix::new(3);
    m.set(0, 1, plain(600));
    m.set(1, 0, plain(600));
    // (1, 2) left out on purpose
    m.set(2, 1, plain(300));
    m.set(0, 2, plain(1200));
    m.set(2, 0, plain(1200));
    let r = find_best_tour(&names, &m);
    assert_eq!(r.err().unwrap(), SearchError::MissingItinerary { from: 1, to: 2 });
}

#[test]
fn asymmetric_pair_picks_cheaper_orientation() {
    // 0 -> 1 costs 100, 1 -> 0 costs 50.
    // [0, 1]: path 100, start 50 (1 -> 0), end 50 (1 -> 0) = 200.
    // [1, 0]: path 50, start 100 (0 -> 1), end 100 (1 ... 0 -> 1) = 250.
    let names = vec!["P".to_string(), "Q".to_string()];
    let mut m = CostMatrix::new(2);
    m.set(0, 1, plain(100));
    m.set(1, 0, plain(50));
    let sol = find_best_tour(&names, &m).unwrap();
    assert_eq!(sol.ordering, vec![0, 1]);
    assert_eq!(sol.metrics.comparison_metric, 200);
    assert_eq!(sol.metrics.path_duration, 100);
    assert_eq!(sol.metrics.start_duration, 50);
    assert_eq!(sol.metrics.end_duration, 50);
}

#[test]
fn distances_follow_winning_ordering() {
    let leg = |distance: u32| ItineraryLeg {
        mode: "BUS".to_string(),
        duration: 10,
        distance,
        trip: Some("55".to_string()),
    };
    let names = vec!["P".to_string(), "Q".to_string()];
    let mut m = CostMatrix::new(2);
    m.set(
        0,
        1,
        Itinerary { legs: vec![leg(40), leg(60)], duration: 100, walk_distance: 7 },
    );
    m.set(1, 0, Itinerary { legs: vec![leg(10)], duration: 50, walk_distance: 9 });
    let sol = find_best_tour(&names, &m).unwrap();
    assert_eq!(sol.ordering, vec![0, 1]);
    assert_eq!(sol.metrics.path_distance, 100);
    assert_eq!(sol.metrics.walk_distance, 7);
    assert_eq!(sol.itineraries.len(), 1);
    assert_eq!(sol.itineraries[0].duration, 100);
}

#[test]
fn find_shortest_route_agrees_with_find_best_tour() {
    let names = symmetric_names();
    let matrix = symmetric_matrix();
    let a = find_best_tour(&names, &matrix).unwrap();
    let b = find_shortest_route(&names, &matrix).unwrap();
    assert_eq!(a.metrics.comparison_metric, b.metrics.comparison_metric);
    assert_eq!(a.ordering, b.ordering);
}
