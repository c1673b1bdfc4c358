use pad_bridge::controller::{Button, ControllerState};
use pad_bridge::datagram::unpack;
use pad_bridge::message::Message;

fn pack(messages: &[Message]) -> Vec<u8> {
    let mut bytes = Vec::new();
    for message in messages {
        message.append_to(&mut bytes);
    }
    bytes
}

#[test]
fn packed_messages_come_back_in_order() {
    let mut pressed = ControllerState::default();
    pressed.set(Button::Circle);
    let first = [1u8, 2, 0];
    let second = [3u8, 0, 4, 5, 0];
    let messages = vec![
        Message::ControllerData(0, pressed, ControllerState::default()),
        Message::MissedLogData(4),
        Message::LogData(1, &first),
        Message::ForgotLogData(u32::MAX),
        Message::LogData(2, &second),
        Message::LogData(3, &[]),
        Message::MissedLogData(0),
    ];
    let bytes = pack(&messages);
    assert_eq!(bytes.len(), 36 + 12 + 15 + 12 + 17 + 12 + 12);
    assert_eq!(unpack(&bytes), messages);
}

#[test]
fn packing_grows_with_each_message() {
    for n in 0..20u32 {
        let messages: Vec<Message> = (0..n).map(Message::MissedLogData).collect();
        let bytes = pack(&messages);
        assert_eq!(bytes.len(), 12 * n as usize);
        assert_eq!(unpack(&bytes), messages);
    }
}

#[test]
fn empty_datagram_holds_nothing() {
    assert_eq!(unpack(&[]), Vec::<Message>::new());
    assert_eq!(unpack(&[1, 2, 3]), Vec::<Message>::new());
}

#[test]
fn reading_stops_where_no_message_can_be_read() {
    let mut bytes = pack(&[Message::MissedLogData(1), Message::ForgotLogData(2)]);
    bytes.extend_from_slice(&[9, 0, 0, 0, 12, 0, 0, 0, 3, 0, 0, 0]);
    bytes.extend_from_slice(&pack(&[Message::MissedLogData(4)]));
    assert_eq!(unpack(&bytes), vec![Message::MissedLogData(1), Message::ForgotLogData(2)]);
}

#[test]
fn truncated_log_data_is_the_last_message() {
    let data = [1u8, 2, 3, 4, 5, 6];
    let bytes = pack(&[Message::ForgotLogData(2), Message::LogData(7, &data)]);
    let cut = &bytes[..bytes.len() - 2];
    assert_eq!(unpack(cut), vec![Message::ForgotLogData(2), Message::LogData(7, &data[..4])]);
}

#[test]
fn a_message_that_uses_up_nothing_ends_the_reading() {
    let mut bytes = vec![2, 0, 0, 0, 0, 0, 0, 0, 5, 0, 0, 0];
    bytes.extend_from_slice(&pack(&[Message::MissedLogData(6)]));
    assert_eq!(unpack(&bytes), vec![Message::MissedLogData(5)]);
}

#[test]
fn a_message_that_declares_too_much_ends_the_reading() {
    let mut bytes = vec![3, 0, 0, 0, 200, 0, 0, 0, 5, 0, 0, 0];
    bytes.extend_from_slice(&pack(&[Message::MissedLogData(6)]));
    assert_eq!(unpack(&bytes), vec![Message::ForgotLogData(5)]);
}

#[test]
fn a_declared_length_skips_padding() {
    let mut bytes = vec![3, 0, 0, 0, 14, 0, 0, 0, 5, 0, 0, 0, 0xaa, 0xbb];
    bytes.extend_from_slice(&pack(&[Message::MissedLogData(6)]));
    assert_eq!(unpack(&bytes), vec![Message::ForgotLogData(5), Message::MissedLogData(6)]);
}
