use pad_bridge::tracker::MissingLogTracker;

#[test]
fn new_tracker_is_empty() {
    let tracker = MissingLogTracker::new();
    assert_eq!(tracker.len(), 0);
    assert_eq!(tracker.snapshot_for_request(), Vec::<u32>::new());
    assert!(!tracker.contains(0));
}

#[test]
fn record_gap_appends_the_range_ascending() {
    let mut tracker = MissingLogTracker::new();
    tracker.record_gap(3, 7);
    assert_eq!(tracker.snapshot_for_request(), vec![3, 4, 5, 6]);
    tracker.record_gap(10, 12);
    assert_eq!(tracker.snapshot_for_request(), vec![3, 4, 5, 6, 10, 11]);
    assert_eq!(tracker.len(), 6);
    assert!(tracker.contains(5));
    assert!(!tracker.contains(7));
}

#[test]
fn empty_and_reversed_ranges_record_nothing() {
    let mut tracker = MissingLogTracker::new();
    tracker.record_gap(5, 5);
    tracker.record_gap(9, 2);
    tracker.record_gap(u32::MAX, 0);
    assert_eq!(tracker.snapshot_for_request(), Vec::<u32>::new());
}

#[test]
fn record_gap_reaches_the_highest_ids() {
    let mut tracker = MissingLogTracker::new();
    tracker.record_gap(u32::MAX - 2, u32::MAX);
    assert_eq!(tracker.snapshot_for_request(), vec![u32::MAX - 2, u32::MAX - 1]);
}

#[test]
fn an_id_is_recorded_once() {
    let mut tracker = MissingLogTracker::new();
    tracker.record_gap(2, 5);
    tracker.record_gap(0, 7);
    assert_eq!(tracker.snapshot_for_request(), vec![2, 3, 4, 0, 1, 5, 6]);
    tracker.record_gap(0, 7);
    assert_eq!(tracker.snapshot_for_request(), vec![2, 3, 4, 0, 1, 5, 6]);
}

#[test]
fn resolve_removes_only_that_id() {
    let mut tracker = MissingLogTracker::new();
    tracker.record_gap(0, 5);
    tracker.resolve(2);
    assert_eq!(tracker.snapshot_for_request(), vec![0, 1, 3, 4]);
    tracker.resolve(0);
    tracker.resolve(4);
    assert_eq!(tracker.snapshot_for_request(), vec![1, 3]);
    assert!(!tracker.contains(2));
    assert!(tracker.contains(3));
}

#[test]
fn resolve_of_an_unknown_id_changes_nothing() {
    let mut tracker = MissingLogTracker::new();
    tracker.resolve(1);
    assert_eq!(tracker.snapshot_for_request(), Vec::<u32>::new());
    tracker.record_gap(0, 3);
    tracker.resolve(3);
    tracker.resolve(u32::MAX);
    tracker.resolve(1);
    tracker.resolve(1);
    assert_eq!(tracker.snapshot_for_request(), vec![0, 2]);
}

#[test]
fn snapshot_leaves_the_record() {
    let mut tracker = MissingLogTracker::new();
    tracker.record_gap(4, 6);
    let mut first = tracker.snapshot_for_request();
    first.push(99);
    first[0] = 77;
    assert_eq!(tracker.snapshot_for_request(), vec![4, 5]);
    assert_eq!(tracker.len(), 2);
}

#[test]
fn a_resolved_id_can_be_recorded_again() {
    let mut tracker = MissingLogTracker::new();
    tracker.record_gap(0, 3);
    tracker.resolve(0);
    tracker.record_gap(0, 2);
    assert_eq!(tracker.snapshot_for_request(), vec![1, 2, 0]);
}
