use pad_bridge::reorder::{Delivery, Entry, ReorderBuffer};
use pad_bridge::tracker::MissingLogTracker;

fn payload(id: u32) -> Vec<u8> {
    vec![id as u8, 0xa0, (id * 3) as u8]
}

fn data(id: u32) -> Delivery {
    Delivery { id, entry: Entry::Data(payload(id)) }
}

fn lost(id: u32) -> Delivery {
    Delivery { id, entry: Entry::Lost }
}

fn missed(id: u32) -> Delivery {
    Delivery { id, entry: Entry::Missed }
}

fn permutations(items: Vec<u32>) -> Vec<Vec<u32>> {
    if items.len() <= 1 {
        return vec![items];
    }
    let mut all = Vec::new();
    for i in 0..items.len() {
        let mut rest = items.clone();
        let first = rest.remove(i);
        for mut tail in permutations(rest) {
            tail.insert(0, first);
            all.push(tail);
        }
    }
    all
}

#[test]
fn new_buffer_expects_id_zero() {
    let mut buffer = ReorderBuffer::new();
    assert_eq!(buffer.next_expected_id(), 0);
    assert_eq!(buffer.window_len(), 0);
    assert_eq!(buffer.drain_ready(), Vec::<Delivery>::new());
    assert_eq!(buffer.flush_remaining(), Vec::<Delivery>::new());
}

#[test]
fn any_permutation_of_four_drains_in_order() {
    let all = permutations(vec![0, 1, 2, 3]);
    assert_eq!(all.len(), 24);
    for order in all {
        let mut buffer = ReorderBuffer::new();
        let mut tracker = MissingLogTracker::new();
        for id in &order {
            buffer.observe(*id, payload(*id), &mut tracker);
        }
        assert_eq!(buffer.next_expected_id(), 4);
        assert_eq!(buffer.drain_ready(), vec![data(0), data(1), data(2), data(3)]);
        assert_eq!(buffer.window_len(), 0);
        assert_eq!(tracker.snapshot_for_request(), Vec::<u32>::new());
        assert_eq!(buffer.flush_remaining(), Vec::<Delivery>::new());
    }
}

#[test]
fn any_permutation_of_five_drains_in_order_with_draining_in_between() {
    for order in permutations(vec![0, 1, 2, 3, 4]) {
        let mut buffer = ReorderBuffer::new();
        let mut tracker = MissingLogTracker::new();
        let mut handed_on = Vec::new();
        for id in &order {
            buffer.observe(*id, payload(*id), &mut tracker);
            handed_on.append(&mut buffer.drain_ready());
        }
        assert_eq!(handed_on, vec![data(0), data(1), data(2), data(3), data(4)]);
        assert_eq!(tracker.len(), 0);
    }
}

#[test]
fn a_skipped_range_is_recorded_and_holds_back_the_rest() {
    let mut buffer = ReorderBuffer::new();
    let mut tracker = MissingLogTracker::new();
    buffer.observe(5, payload(5), &mut tracker);
    assert_eq!(tracker.snapshot_for_request(), vec![0, 1, 2, 3, 4]);
    assert_eq!(buffer.next_expected_id(), 6);
    assert_eq!(buffer.window_len(), 6);
    assert_eq!(buffer.drain_ready(), Vec::<Delivery>::new());
    for id in [4, 2, 3, 1] {
        buffer.observe(id, payload(id), &mut tracker);
        assert_eq!(buffer.drain_ready(), Vec::<Delivery>::new());
    }
    assert_eq!(tracker.snapshot_for_request(), vec![0]);
    buffer.observe(0, payload(0), &mut tracker);
    assert_eq!(tracker.snapshot_for_request(), Vec::<u32>::new());
    assert_eq!(
        buffer.drain_ready(),
        vec![data(0), data(1), data(2), data(3), data(4), data(5)]
    );
    assert_eq!(buffer.window_len(), 0);
    assert_eq!(buffer.next_expected_id(), 6);
}

#[test]
fn draining_stops_at_the_first_empty_slot() {
    let mut buffer = ReorderBuffer::new();
    let mut tracker = MissingLogTracker::new();
    for id in [0, 1, 3, 4] {
        buffer.observe(id, payload(id), &mut tracker);
    }
    assert_eq!(buffer.drain_ready(), vec![data(0), data(1)]);
    assert_eq!(buffer.window_len(), 3);
    assert_eq!(buffer.drain_ready(), Vec::<Delivery>::new());
    assert_eq!(tracker.snapshot_for_request(), vec![2]);
    buffer.observe(2, payload(2), &mut tracker);
    assert_eq!(buffer.drain_ready(), vec![data(2), data(3), data(4)]);
}

#[test]
fn a_lost_packet_is_handed_on_as_lost() {
    let mut buffer = ReorderBuffer::new();
    let mut tracker = MissingLogTracker::new();
    for id in [0, 1, 2, 4, 5] {
        buffer.observe(id, payload(id), &mut tracker);
    }
    assert_eq!(tracker.snapshot_for_request(), vec![3]);
    buffer.mark_lost(3, &mut tracker);
    assert_eq!(tracker.snapshot_for_request(), Vec::<u32>::new());
    assert_eq!(
        buffer.drain_ready(),
        vec![data(0), data(1), data(2), lost(3), data(4), data(5)]
    );
    assert_eq!(buffer.window_len(), 0);
}

#[test]
fn mark_lost_of_unknown_or_filled_ids_changes_nothing() {
    let mut buffer = ReorderBuffer::new();
    let mut tracker = MissingLogTracker::new();
    buffer.mark_lost(0, &mut tracker);
    buffer.mark_lost(9, &mut tracker);
    assert_eq!(buffer.next_expected_id(), 0);
    assert_eq!(buffer.window_len(), 0);
    buffer.observe(2, payload(2), &mut tracker);
    buffer.mark_lost(2, &mut tracker);
    buffer.mark_lost(3, &mut tracker);
    buffer.mark_lost(u32::MAX, &mut tracker);
    assert_eq!(tracker.snapshot_for_request(), vec![0, 1]);
    buffer.mark_lost(0, &mut tracker);
    buffer.mark_lost(0, &mut tracker);
    assert_eq!(tracker.snapshot_for_request(), vec![1]);
    assert_eq!(buffer.drain_ready(), vec![lost(0)]);
    buffer.mark_lost(0, &mut tracker);
    assert_eq!(buffer.flush_remaining(), vec![missed(1), data(2)]);
}

#[test]
fn the_first_packet_of_an_id_wins() {
    let mut buffer = ReorderBuffer::new();
    let mut tracker = MissingLogTracker::new();
    buffer.observe(1, payload(1), &mut tracker);
    buffer.observe(1, vec![0xff], &mut tracker);
    buffer.mark_lost(0, &mut tracker);
    buffer.observe(0, vec![0xee], &mut tracker);
    assert_eq!(buffer.drain_ready(), vec![lost(0), data(1)]);
    buffer.observe(0, vec![0xdd], &mut tracker);
    buffer.observe(1, vec![0xcc], &mut tracker);
    assert_eq!(buffer.drain_ready(), Vec::<Delivery>::new());
    assert_eq!(buffer.window_len(), 0);
    assert_eq!(buffer.next_expected_id(), 2);
}

#[test]
fn a_late_packet_is_taken_out_of_the_record() {
    let mut buffer = ReorderBuffer::new();
    let mut tracker = MissingLogTracker::new();
    tracker.record_gap(0, 1);
    buffer.observe(0, payload(0), &mut tracker);
    assert_eq!(tracker.snapshot_for_request(), vec![0]);
    buffer.observe(0, payload(0), &mut tracker);
    assert_eq!(tracker.snapshot_for_request(), Vec::<u32>::new());
}

#[test]
fn flush_hands_on_every_slot_once() {
    let mut buffer = ReorderBuffer::new();
    let mut tracker = MissingLogTracker::new();
    for id in [1, 4, 6] {
        buffer.observe(id, payload(id), &mut tracker);
    }
    buffer.mark_lost(2, &mut tracker);
    assert_eq!(
        buffer.flush_remaining(),
        vec![missed(0), data(1), lost(2), missed(3), data(4), missed(5), data(6)]
    );
    assert_eq!(buffer.window_len(), 0);
    assert_eq!(buffer.next_expected_id(), 7);
    assert_eq!(buffer.flush_remaining(), Vec::<Delivery>::new());
    assert_eq!(buffer.drain_ready(), Vec::<Delivery>::new());
}

#[test]
fn draining_and_flushing_together_hand_on_each_id_once() {
    let mut buffer = ReorderBuffer::new();
    let mut tracker = MissingLogTracker::new();
    let mut handed_on = Vec::new();
    for id in [0, 3, 1, 7, 5, 9] {
        buffer.observe(id, payload(id), &mut tracker);
        handed_on.append(&mut buffer.drain_ready());
    }
    buffer.mark_lost(2, &mut tracker);
    buffer.mark_lost(8, &mut tracker);
    handed_on.append(&mut buffer.drain_ready());
    assert_eq!(handed_on, vec![data(0), data(1), lost(2), data(3)]);
    handed_on.append(&mut buffer.flush_remaining());
    assert_eq!(
        handed_on,
        vec![
            data(0),
            data(1),
            lost(2),
            data(3),
            missed(4),
            data(5),
            missed(6),
            data(7),
            lost(8),
            data(9)
        ]
    );
    assert_eq!(tracker.snapshot_for_request(), vec![4, 6]);
}

#[test]
fn an_id_below_the_window_is_not_taken_in_again() {
    let mut buffer = ReorderBuffer::new();
    let mut tracker = MissingLogTracker::new();
    for id in [0, 1, 2] {
        buffer.observe(id, payload(id), &mut tracker);
    }
    assert_eq!(buffer.drain_ready().len(), 3);
    buffer.observe(4, payload(4), &mut tracker);
    buffer.observe(1, payload(1), &mut tracker);
    buffer.mark_lost(1, &mut tracker);
    assert_eq!(buffer.window_len(), 2);
    assert_eq!(buffer.flush_remaining(), vec![missed(3), data(4)]);
}

#[test]
fn observing_after_a_flush_goes_on_from_the_next_id() {
    let mut buffer = ReorderBuffer::new();
    let mut tracker = MissingLogTracker::new();
    buffer.observe(1, payload(1), &mut tracker);
    assert_eq!(buffer.flush_remaining(), vec![missed(0), data(1)]);
    buffer.observe(3, payload(3), &mut tracker);
    assert_eq!(tracker.snapshot_for_request(), vec![0, 2]);
    assert_eq!(buffer.flush_remaining(), vec![missed(2), data(3)]);
}

#[test]
fn the_highest_id_can_be_expected() {
    let mut buffer = ReorderBuffer::new();
    let mut tracker = MissingLogTracker::new();
    buffer.observe(0, payload(0), &mut tracker);
    assert_eq!(buffer.next_expected_id(), 1);
    assert_eq!(buffer.drain_ready(), vec![data(0)]);
}
