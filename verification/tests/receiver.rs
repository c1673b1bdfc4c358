use pad_bridge::controller::ControllerState;
use pad_bridge::message::Message;
use pad_bridge::receiver::Receiver;
use pad_bridge::reorder::{Delivery, Entry};
use pad_bridge::sender::Sender;
use pad_bridge::tracker::MissingLogTracker;

fn pack(messages: &[Message]) -> Vec<u8> {
    let mut bytes = Vec::new();
    for message in messages {
        message.append_to(&mut bytes);
    }
    bytes
}

fn data(id: u32, payload: &[u8]) -> Delivery {
    Delivery { id, entry: Entry::Data(payload.to_vec()) }
}

#[test]
fn log_data_in_order_is_handed_on_at_once() {
    let mut receiver = Receiver::new();
    let mut tracker = MissingLogTracker::new();
    let received = receiver.handle_datagram(&pack(&[Message::LogData(0, &[1, 0])]), &mut tracker);
    assert_eq!(received.entries, vec![data(0, &[1, 0])]);
    assert_eq!(received.wrong_direction, 0);
    let received = receiver.handle_datagram(
        &pack(&[Message::LogData(1, &[2, 0]), Message::LogData(2, &[3, 0])]),
        &mut tracker,
    );
    assert_eq!(received.entries, vec![data(1, &[2, 0]), data(2, &[3, 0])]);
    assert_eq!(tracker.len(), 0);
}

#[test]
fn a_gap_is_requested_and_filled_later() {
    let mut receiver = Receiver::new();
    let mut tracker = MissingLogTracker::new();
    let received = receiver.handle_datagram(&pack(&[Message::LogData(2, &[9])]), &mut tracker);
    assert_eq!(received.entries, Vec::<Delivery>::new());
    assert_eq!(tracker.snapshot_for_request(), vec![0, 1]);

    let mut sender = Sender::new();
    let state = ControllerState::default();
    let request = sender
        .build_datagram(state, state, &tracker.snapshot_for_request(), 508)
        .unwrap();
    assert_eq!(request.len(), 60);

    let received = receiver.handle_datagram(
        &pack(&[Message::LogData(1, &[8]), Message::ForgotLogData(0)]),
        &mut tracker,
    );
    assert_eq!(
        received.entries,
        vec![Delivery { id: 0, entry: Entry::Lost }, data(1, &[8]), data(2, &[9])]
    );
    assert_eq!(tracker.snapshot_for_request(), Vec::<u32>::new());
}

#[test]
fn messages_for_the_device_are_counted_and_dropped() {
    let mut receiver = Receiver::new();
    let mut tracker = MissingLogTracker::new();
    let state = ControllerState::default();
    let datagram = pack(&[
        Message::ControllerData(5, state, state),
        Message::LogData(0, &[7]),
        Message::MissedLogData(0),
        Message::MissedLogData(1),
    ]);
    let received = receiver.handle_datagram(&datagram, &mut tracker);
    assert_eq!(received.wrong_direction, 3);
    assert_eq!(received.entries, vec![data(0, &[7])]);
    assert_eq!(tracker.len(), 0);
}

#[test]
fn handle_message_tells_what_is_expected() {
    let mut receiver = Receiver::new();
    let mut tracker = MissingLogTracker::new();
    let state = ControllerState::default();
    assert!(!receiver.handle_message(&Message::ControllerData(0, state, state), &mut tracker));
    assert!(!receiver.handle_message(&Message::MissedLogData(3), &mut tracker));
    assert!(receiver.handle_message(&Message::ForgotLogData(3), &mut tracker));
    assert!(receiver.handle_message(&Message::LogData(1, &[4]), &mut tracker));
    assert_eq!(tracker.snapshot_for_request(), vec![0]);
    assert_eq!(
        receiver.shutdown(),
        vec![Delivery { id: 0, entry: Entry::Missed }, data(1, &[4])]
    );
}

#[test]
fn a_malformed_datagram_is_read_up_to_the_damage() {
    let mut receiver = Receiver::new();
    let mut tracker = MissingLogTracker::new();
    let mut datagram = pack(&[Message::LogData(0, &[1])]);
    datagram.extend_from_slice(&[200, 1, 2, 3, 4, 5, 6, 7, 8, 9, 10, 11, 12, 13]);
    datagram.extend_from_slice(&pack(&[Message::LogData(1, &[2])]));
    let received = receiver.handle_datagram(&datagram, &mut tracker);
    assert_eq!(received.entries, vec![data(0, &[1])]);
    let received = receiver.handle_datagram(&[1, 2, 3], &mut tracker);
    assert_eq!(received.entries, Vec::<Delivery>::new());
    assert_eq!(received.wrong_direction, 0);
}

#[test]
fn a_truncated_log_packet_is_taken_in_as_far_as_it_came() {
    let mut receiver = Receiver::new();
    let mut tracker = MissingLogTracker::new();
    let datagram = pack(&[Message::LogData(0, &[1, 2, 3, 4])]);
    let received = receiver.handle_datagram(&datagram[..14], &mut tracker);
    assert_eq!(received.entries, vec![data(0, &[1, 2])]);
}

#[test]
fn shutdown_hands_on_what_is_left() {
    let mut receiver = Receiver::new();
    let mut tracker = MissingLogTracker::new();
    let received = receiver.handle_datagram(
        &pack(&[Message::LogData(1, &[1]), Message::LogData(3, &[3]), Message::ForgotLogData(2)]),
        &mut tracker,
    );
    assert_eq!(received.entries, Vec::<Delivery>::new());
    assert_eq!(
        receiver.shutdown(),
        vec![
            Delivery { id: 0, entry: Entry::Missed },
            data(1, &[1]),
            Delivery { id: 2, entry: Entry::Lost },
            data(3, &[3]),
        ]
    );
    assert_eq!(receiver.shutdown(), Vec::<Delivery>::new());
    assert_eq!(tracker.snapshot_for_request(), vec![0]);
}
