use std::sync::Arc;

use multiexp::{DensityTracker, FullDensity, QueryDensity};

#[test]
fn full_density_has_no_size_and_every_slot_active() {
    assert_eq!(FullDensity.get_query_size(), None);
    assert!(FullDensity.is_active(0));
    assert!(FullDensity.is_active(1_000_000));
}

#[test]
fn new_tracker_has_no_slot() {
    let tracker = DensityTracker::new();

    assert_eq!(tracker.get_query_size(), Some(0));
    assert_eq!(tracker.get_total_density(), 0);
}

#[test]
fn added_slots_are_inactive() {
    let mut tracker = DensityTracker::new();
    tracker.add_element();
    tracker.add_element();
    tracker.add_element();

    assert_eq!(tracker.get_query_size(), Some(3));
    assert_eq!(tracker.get_total_density(), 0);
    assert!(!tracker.is_active(0));
    assert!(!tracker.is_active(1));
    assert!(!tracker.is_active(2));
}

#[test]
fn activation_sets_one_slot() {
    let mut tracker = DensityTracker::new();
    for _ in 0..4 {
        tracker.add_element();
    }
    tracker.inc(2);

    assert_eq!(tracker.get_total_density(), 1);
    assert!(!tracker.is_active(0));
    assert!(!tracker.is_active(1));
    assert!(tracker.is_active(2));
    assert!(!tracker.is_active(3));
    assert_eq!(tracker.get_query_size(), Some(4));
}

#[test]
fn activating_twice_counts_once() {
    let mut tracker = DensityTracker::new();
    for _ in 0..3 {
        tracker.add_element();
    }
    tracker.inc(1);
    tracker.inc(1);

    assert_eq!(tracker.get_total_density(), 1);
    assert!(tracker.is_active(1));

    tracker.inc(0);
    tracker.inc(1);
    tracker.inc(0);

    assert_eq!(tracker.get_total_density(), 2);
}

#[test]
fn slots_added_after_an_activation_keep_it() {
    let mut tracker = DensityTracker::new();
    tracker.add_element();
    tracker.inc(0);
    for _ in 0..40 {
        tracker.add_element();
    }
    tracker.inc(40);

    assert_eq!(tracker.get_query_size(), Some(41));
    assert_eq!(tracker.get_total_density(), 2);
    assert!(tracker.is_active(0));
    assert!(!tracker.is_active(33));
    assert!(tracker.is_active(40));
}

#[test]
fn cloned_tracker_has_the_same_slots() {
    let mut tracker = DensityTracker::new();
    for _ in 0..3 {
        tracker.add_element();
    }
    tracker.inc(2);

    let mut copy = tracker.clone();

    assert_eq!(copy.get_query_size(), Some(3));
    assert_eq!(copy.get_total_density(), 1);
    assert!(copy.is_active(2));
    assert!(!copy.is_active(0));

    copy.inc(0);
    assert_eq!(copy.get_total_density(), 2);
    assert_eq!(tracker.get_total_density(), 1);
    assert!(!tracker.is_active(0));
}

#[test]
fn full_density_refers_to_itself() {
    let density = FullDensity;
    let same: &FullDensity = density.as_ref();

    assert_eq!(same.get_query_size(), None);
    assert!(same.is_active(7));

    let copy = density.clone();
    assert!(copy.is_active(0));
}

#[test]
fn shared_tracker_answers_as_the_tracker() {
    let mut tracker = DensityTracker::new();
    for _ in 0..3 {
        tracker.add_element();
    }
    tracker.inc(1);
    let shared = Arc::new(tracker);

    assert_eq!(shared.get_query_size(), Some(3));
    assert!(!shared.is_active(0));
    assert!(shared.is_active(1));
    assert!(!shared.is_active(2));
    assert_eq!(shared.get_total_density(), 1);

    let full = Arc::new(FullDensity);
    assert_eq!(QueryDensity::get_query_size(&full), None);
    assert!(QueryDensity::is_active(&full, 9));
}
