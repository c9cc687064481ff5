use rayon::iter::{IntoParallelIterator, ParallelIterator};
use std::sync::Mutex;
use transit_tsp::cost::{itinerary_distance, CostMatrix};
use transit_tsp::itinerary::{select_fastest, Itinerary, ItineraryLeg};
use transit_tsp::perm::{factorial, permutations};
use transit_tsp::progress::ProgressCounter;
use transit_tsp::tracker::{BestRecord, BestTracker};

fn plain(duration: u32) -> Itinerary {
    Itinerary { legs: Vec::new(), duration, walk_distance: 0 }
}

fn record(ordering: Vec<usize>, comparison_metric: u64) -> BestRecord {
    BestRecord {
        ordering,
        metrics: transit_tsp::cost::TourMetrics {
            path_duration: comparison_metric,
            path_distance: 0,
            walk_distance: 0,
            start_duration: 0,
            end_duration: 0,
            comparison_metric,
        },
    }
}

#[test]
fn factorial_values() {
    assert_eq!(factorial(0), 1);
    assert_eq!(factorial(1), 1);
    assert_eq!(factorial(5), 120);
    assert_eq!(factorial(11), 39916800);
    assert_eq!(factorial(20), 2432902008176640000);
}

#[test]
fn permutations_are_exhaustive_and_distinct() {
    let perms = permutations(3);
    assert_eq!(perms.len(), 6);
    for p in &perms {
        let mut q = p.clone();
        q.sort();
        assert_eq!(q, vec![0, 1, 2]);
    }
    for a in 0..perms.len() {
        for b in 0..a {
            assert_ne!(perms[a], perms[b]);
        }
    }
    assert_eq!(permutations(5).len(), 120);
}

#[test]
fn permutations_of_empty_and_single() {
    let none = permutations(0);
    assert_eq!(none.len(), 1);
    assert_eq!(none[0].len(), 0);
    let one = permutations(1);
    assert_eq!(one.len(), 1);
    assert_eq!(one[0], vec![0]);
}

#[test]
fn tracker_best_is_monotone() {
    let mut t = BestTracker::new();
    assert!(t.current_best().is_none());
    let mut observed: Vec<u64> = Vec::new();
    for metric in [500u64, 300, 400, 200] {
        t.offer(record(vec![0], metric));
        observed.push(t.current_best().as_ref().unwrap().metrics.comparison_metric);
    }
    assert_eq!(observed, vec![500, 300, 300, 200]);
    for w in observed.windows(2) {
        assert!(w[1] <= w[0]);
    }
}

#[test]
fn tracker_tie_keeps_first() {
    let mut t = BestTracker::new();
    t.offer(record(vec![0, 1], 700));
    t.offer(record(vec![1, 0], 700));
    let best = t.current_best().as_ref().unwrap();
    assert_eq!(best.ordering, vec![0, 1]);
    let taken = t.into_best().unwrap();
    assert_eq!(taken.ordering, vec![0, 1]);
    assert_eq!(taken.metrics.comparison_metric, 700);
}

#[test]
fn tracker_concurrent_stress_stays_consistent() {
    let tracker = Mutex::new(BestTracker::new());
    let n: usize = 5000;
    let metric_of = |k: usize| (((k * 7919) % 1000) + 1) as u64;
    (0..n).into_par_iter().for_each(|k| {
        // The metric is a function of the ordering, so a torn update
        // would leave the stored pair mismatched.
        tracker.lock().unwrap().offer(record(vec![k], metric_of(k)));
    });
    let best = tracker.into_inner().unwrap().into_best().unwrap();
    let k = best.ordering[0];
    assert_eq!(best.metrics.comparison_metric, metric_of(k));
    let min = (0..n).map(metric_of).min().unwrap();
    assert_eq!(best.metrics.comparison_metric, min);
}

#[test]
fn select_fastest_picks_first_minimum() {
    let itins = vec![plain(300), plain(100), plain(100), plain(400)];
    assert_eq!(select_fastest(&itins), Some(1));
    let empty: Vec<Itinerary> = Vec::new();
    assert_eq!(select_fastest(&empty), None);
    let single = vec![plain(42)];
    assert_eq!(select_fastest(&single), Some(0));
}

#[test]
fn itinerary_distance_sums_legs() {
    let leg = |distance: u32| ItineraryLeg {
        mode: "WALK".to_string(),
        duration: 60,
        distance,
        trip: None,
    };
    let it = Itinerary { legs: vec![leg(100), leg(250), leg(3)], duration: 500, walk_distance: 103 };
    assert_eq!(itinerary_distance(&it), 353);
    let bare = plain(10);
    assert_eq!(itinerary_distance(&bare), 0);
}

#[test]
fn cost_matrix_get_and_set() {
    let mut m = CostMatrix::new(2);
    assert_eq!(m.len(), 2);
    assert!(m.get(0, 1).is_none());
    m.set(0, 1, plain(77));
    assert_eq!(m.get(0, 1).unwrap().duration, 77);
    assert!(m.get(1, 0).is_none());
    assert!(m.get(5, 0).is_none());
}

#[test]
fn progress_counter_counts_to_total() {
    let mut p = ProgressCounter::new(6);
    assert_eq!(p.evaluated(), 0);
    assert_eq!(p.total(), 6);
    assert!(!p.is_complete());
    assert!(p.at_interval(2));
    for _ in 0..6 {
        p.record();
    }
    assert_eq!(p.evaluated(), 6);
    assert!(p.is_complete());
    assert!(p.at_interval(2));
    assert!(p.at_interval(3));
}
