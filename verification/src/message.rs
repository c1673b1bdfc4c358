//! The message envelope: four kinds of message behind one 12-byte header.
//!
//! Header, all little-endian: 4-byte discriminant, 4-byte total length (header
//! and payload), 4-byte sequence id. The payload follows. A datagram may hold
//! several messages back to back.

use crate::bytes::{lemma_u32_round_trip, pack_u32, u32_at, u32_le, unpack_u32};
use crate::controller::ControllerState;
use vstd::prelude::*;
use vstd::slice::slice_subrange;

verus! {

/// Discriminant of a controller-data message.
pub const TAG_CONTROLLER_DATA: u32 = 0;

/// Discriminant of a log-data message.
pub const TAG_LOG_DATA: u32 = 1;

/// Discriminant of a request to send a log packet again.
pub const TAG_MISSED_LOG_DATA: u32 = 2;

/// Discriminant of a notice that a log packet is gone for good.
pub const TAG_FORGOT_LOG_DATA: u32 = 3;

/// One message of the protocol. The first field of each variant is the
/// sequence id.
#[derive(Clone, Copy, Debug, PartialEq, Eq)]
pub enum Message<'a> {
    /// The state of the primary and of the secondary controller.
    ControllerData(u32, ControllerState, ControllerState),
    /// One packet of the device's log: zero-terminated records.
    LogData(u32, &'a [u8]),
    /// A request to the device to send log packet `id` again.
    MissedLogData(u32),
    /// A notice from the device that log packet `id` will never be sent again.
    ForgotLogData(u32),
}

/// What a [`Message`] holds, with the log payload as a sequence of bytes.
pub ghost enum MessageView {
    ControllerData(u32, ControllerState, ControllerState),
    LogData(u32, Seq<u8>),
    MissedLogData(u32),
    ForgotLogData(u32),
}

impl<'a> View for Message<'a> {
    type V = MessageView;

    open spec fn view(&self) -> MessageView {
        match *self {
            Message::ControllerData(id, primary, secondary) => MessageView::ControllerData(
                id,
                primary,
                secondary,
            ),
            Message::LogData(id, data) => MessageView::LogData(id, data@),
            Message::MissedLogData(id) => MessageView::MissedLogData(id),
            Message::ForgotLogData(id) => MessageView::ForgotLogData(id),
        }
    }
}

impl MessageView {
    /// The discriminant that announces this kind of message.
    pub open spec fn discriminant(self) -> u32 {
        match self {
            MessageView::ControllerData(..) => TAG_CONTROLLER_DATA,
            MessageView::LogData(..) => TAG_LOG_DATA,
            MessageView::MissedLogData(..) => TAG_MISSED_LOG_DATA,
            MessageView::ForgotLogData(..) => TAG_FORGOT_LOG_DATA,
        }
    }

    /// The sequence id of the message.
    pub open spec fn id(self) -> u32 {
        match self {
            MessageView::ControllerData(id, _, _) => id,
            MessageView::LogData(id, _) => id,
            MessageView::MissedLogData(id) => id,
            MessageView::ForgotLogData(id) => id,
        }
    }

    /// The bytes that follow the header: both controllers, primary first, for
    /// controller data; the log bytes for log data; nothing otherwise.
    pub open spec fn payload(self) -> Seq<u8> {
        match self {
            MessageView::ControllerData(_, primary, secondary) => primary.wire()
                + secondary.wire(),
            MessageView::LogData(_, data) => data,
            MessageView::MissedLogData(_) => Seq::empty(),
            MessageView::ForgotLogData(_) => Seq::empty(),
        }
    }

    /// Number of bytes of the whole message, header and payload.
    pub open spec fn wire_len(self) -> nat {
        match self {
            MessageView::ControllerData(..) => 36,
            MessageView::LogData(_, data) => 12 + data.len(),
            MessageView::MissedLogData(_) => 12,
            MessageView::ForgotLogData(_) => 12,
        }
    }

    /// Whether the length of the message fits the header's length field.
    pub open spec fn fits(self) -> bool {
        self.wire_len() <= u32::MAX
    }

    /// The bytes of the whole message.
    pub open spec fn wire(self) -> Seq<u8> {
        u32_le(self.discriminant()) + u32_le(self.wire_len() as u32) + u32_le(self.id())
            + self.payload()
    }
}

/// The discriminant that the header in `buffer` holds.
pub open spec fn header_tag(buffer: Seq<u8>) -> u32
    recommends
        buffer.len() >= 12,
{
    u32_at(buffer, 0)
}

/// The total length that the header in `buffer` declares.
pub open spec fn header_len(buffer: Seq<u8>) -> u32
    recommends
        buffer.len() >= 12,
{
    u32_at(buffer, 4)
}

/// The sequence id that the header in `buffer` holds.
pub open spec fn header_id(buffer: Seq<u8>) -> u32
    recommends
        buffer.len() >= 12,
{
    u32_at(buffer, 8)
}

/// What reading one message from the start of `buffer` gives: the number of
/// bytes used up, and the message if there is one.
///
/// Nothing is read, and the whole buffer is used up, where the buffer is
/// shorter than a header, where the discriminant is unknown, where controller
/// data is announced and fewer than 36 bytes are there, and where log data
/// declares a length shorter than its own header. Log data that declares more
/// bytes than are there is cut off at the end of the buffer, which is used up
/// whole. In every other case the declared length is used up.
pub open spec fn decoded(buffer: Seq<u8>) -> (int, Option<MessageView>) {
    if buffer.len() < 12 {
        (buffer.len() as int, None)
    } else {
        let tag = header_tag(buffer);
        let declared = header_len(buffer) as int;
        let id = header_id(buffer);
        if tag == TAG_CONTROLLER_DATA {
            if buffer.len() >= 36 {
                (
                    declared,
                    Some(
                        MessageView::ControllerData(
                            id,
                            ControllerState::of_wire(buffer.subrange(12, 24)),
                            ControllerState::of_wire(buffer.subrange(24, 36)),
                        ),
                    ),
                )
            } else {
                (buffer.len() as int, None)
            }
        } else if tag == TAG_LOG_DATA {
            if declared > buffer.len() {
                (
                    buffer.len() as int,
                    Some(MessageView::LogData(id, buffer.subrange(12, buffer.len() as int))),
                )
            } else if declared >= 12 {
                (declared, Some(MessageView::LogData(id, buffer.subrange(12, declared))))
            } else {
                (buffer.len() as int, None)
            }
        } else if tag == TAG_MISSED_LOG_DATA {
            (declared, Some(MessageView::MissedLogData(id)))
        } else if tag == TAG_FORGOT_LOG_DATA {
            (declared, Some(MessageView::ForgotLogData(id)))
        } else {
            (buffer.len() as int, None)
        }
    }
}

/// The view of a message that may be absent.
pub open spec fn view_of(message: Option<Message>) -> Option<MessageView> {
    match message {
        Some(m) => Some(m@),
        None => None,
    }
}

/// Copies `src` into `buffer` from position `at` on.
fn put(buffer: &mut [u8], at: usize, src: &[u8])
    requires
        at + src@.len() <= old(buffer)@.len(),
    ensures
        final(buffer)@ == old(buffer)@.subrange(0, at as int) + src@ + old(buffer)@.subrange(
            at + src@.len(),
            old(buffer)@.len() as int,
        ),
{
    let n = src.len();
    let room = buffer.len();
    let mut i: usize = 0;
    while i < n
        invariant
            n == src@.len(),
            i <= n,
            room == buffer@.len(),
            at + n <= room,
            buffer@.len() == old(buffer)@.len(),
            buffer@ == old(buffer)@.subrange(0, at as int) + src@.subrange(0, i as int) + old(
                buffer,
            )@.subrange(at + i, old(buffer)@.len() as int),
        decreases n - i,
    {
        buffer[at + i] = src[i];
        i += 1;
    }
    assert(src@.subrange(0, n as int) =~= src@);
}

impl<'a> Message<'a> {
    /// The discriminant that announces this kind of message.
    pub fn discriminant(&self) -> (tag: u32)
        ensures
            tag == self@.discriminant(),
    {
        match self {
            Message::ControllerData(..) => TAG_CONTROLLER_DATA,
            Message::LogData(..) => TAG_LOG_DATA,
            Message::MissedLogData(..) => TAG_MISSED_LOG_DATA,
            Message::ForgotLogData(..) => TAG_FORGOT_LOG_DATA,
        }
    }

    /// The sequence id of the message.
    pub fn id(&self) -> (id: u32)
        ensures
            id == self@.id(),
    {
        match self {
            Message::ControllerData(id, _, _) => *id,
            Message::LogData(id, _) => *id,
            Message::MissedLogData(id) => *id,
            Message::ForgotLogData(id) => *id,
        }
    }

    /// Number of bytes that the message takes in a buffer.
    pub fn buffer_len(&self) -> (len: usize)
        requires
            self@.wire_len() <= usize::MAX,
        ensures
            len == self@.wire_len(),
    {
        match self {
            Message::ControllerData(..) => 36,
            Message::LogData(_, data) => 12 + data.len(),
            Message::MissedLogData(..) => 12,
            Message::ForgotLogData(..) => 12,
        }
    }

    /// Writes the message at the start of `buffer` and returns the number of
    /// bytes written. The rest of the buffer stays as it was.
    pub fn to_le_bytes(&self, buffer: &mut [u8]) -> (written: u32)
        requires
            self@.fits(),
            old(buffer)@.len() >= self@.wire_len(),
        ensures
            written == self@.wire_len(),
            final(buffer)@ == self@.wire() + old(buffer)@.subrange(
                written as int,
                old(buffer)@.len() as int,
            ),
    {
        let tag = pack_u32(self.discriminant());
        put(buffer, 0, tag.as_slice());
        let len: u32 = match self {
            Message::ControllerData(id, primary, secondary) => {
                let id_bytes = pack_u32(*id);
                put(buffer, 8, id_bytes.as_slice());
                let first = primary.to_le_bytes();
                put(buffer, 12, first.as_slice());
                let second = secondary.to_le_bytes();
                put(buffer, 24, second.as_slice());
                36
            },
            Message::LogData(id, data) => {
                let id_bytes = pack_u32(*id);
                put(buffer, 8, id_bytes.as_slice());
                put(buffer, 12, data);
                12 + data.len() as u32
            },
            Message::MissedLogData(id) => {
                let id_bytes = pack_u32(*id);
                put(buffer, 8, id_bytes.as_slice());
                12
            },
            Message::ForgotLogData(id) => {
                let id_bytes = pack_u32(*id);
                put(buffer, 8, id_bytes.as_slice());
                12
            },
        };
        let len_bytes = pack_u32(len);
        put(buffer, 4, len_bytes.as_slice());
        assert(buffer@ =~= self@.wire() + old(buffer)@.subrange(
            len as int,
            old(buffer)@.len() as int,
        ));
        len
    }

    /// Appends the message to `out`.
    pub fn append_to(&self, out: &mut Vec<u8>)
        requires
            self@.fits(),
        ensures
            final(out)@ == old(out)@ + self@.wire(),
    {
        let tag = pack_u32(self.discriminant());
        let id = pack_u32(self.id());
        match self {
            Message::ControllerData(_, primary, secondary) => {
                let len = pack_u32(36);
                push_all(out, tag.as_slice());
                push_all(out, len.as_slice());
                push_all(out, id.as_slice());
                let first = primary.to_le_bytes();
                push_all(out, first.as_slice());
                let second = secondary.to_le_bytes();
                push_all(out, second.as_slice());
            },
            Message::LogData(_, data) => {
                let len = pack_u32(12 + data.len() as u32);
                push_all(out, tag.as_slice());
                push_all(out, len.as_slice());
                push_all(out, id.as_slice());
                push_all(out, data);
            },
            Message::MissedLogData(_) => {
                let len = pack_u32(12);
                push_all(out, tag.as_slice());
                push_all(out, len.as_slice());
                push_all(out, id.as_slice());
            },
            Message::ForgotLogData(_) => {
                let len = pack_u32(12);
                push_all(out, tag.as_slice());
                push_all(out, len.as_slice());
                push_all(out, id.as_slice());
            },
        }
        assert(out@ =~= old(out)@ + self@.wire());
    }

    /// Reads one message from the start of `buffer`. Returns the number of
    /// bytes used up and the message, if there is one; see [`decoded`].
    pub fn from_le_bytes(buffer: &'a [u8]) -> (result: (usize, Option<Message<'a>>))
        ensures
            result.0 == decoded(buffer@).0,
            view_of(result.1) == decoded(buffer@).1,
    {
        if buffer.len() < 12 {
            return (buffer.len(), None);
        }
        let tag = unpack_u32(buffer[0], buffer[1], buffer[2], buffer[3]);
        let len = unpack_u32(buffer[4], buffer[5], buffer[6], buffer[7]) as usize;
        let id = unpack_u32(buffer[8], buffer[9], buffer[10], buffer[11]);
        if tag == TAG_CONTROLLER_DATA {
            if buffer.len() >= 36 {
                let primary = ControllerState::from_le_bytes(&twelve(buffer, 12));
                let secondary = ControllerState::from_le_bytes(&twelve(buffer, 24));
                (len, Some(Message::ControllerData(id, primary, secondary)))
            } else {
                (buffer.len(), None)
            }
        } else if tag == TAG_LOG_DATA {
            if len > buffer.len() {
                (buffer.len(), Some(Message::LogData(id, slice_subrange(buffer, 12, buffer.len()))))
            } else if len >= 12 {
                (len, Some(Message::LogData(id, slice_subrange(buffer, 12, len))))
            } else {
                (buffer.len(), None)
            }
        } else if tag == TAG_MISSED_LOG_DATA {
            (len, Some(Message::MissedLogData(id)))
        } else if tag == TAG_FORGOT_LOG_DATA {
            (len, Some(Message::ForgotLogData(id)))
        } else {
            (buffer.len(), None)
        }
    }
}

/// Appends every byte of `src` to `out`.
fn push_all(out: &mut Vec<u8>, src: &[u8])
    ensures
        final(out)@ == old(out)@ + src@,
{
    let n = src.len();
    let mut i: usize = 0;
    while i < n
        invariant
            n == src@.len(),
            i <= n,
            out@ == old(out)@ + src@.subrange(0, i as int),
        decreases n - i,
    {
        out.push(src[i]);
        i += 1;
    }
    assert(src@.subrange(0, n as int) =~= src@);
}

/// The twelve bytes of `buffer` from position `at` on.
fn twelve(buffer: &[u8], at: usize) -> (bytes: [u8; 12])
    requires
        at + 12 <= buffer@.len(),
    ensures
        bytes@ == buffer@.subrange(at as int, at + 12),
{
    let bytes = [
        buffer[at],
        buffer[at + 1],
        buffer[at + 2],
        buffer[at + 3],
        buffer[at + 4],
        buffer[at + 5],
        buffer[at + 6],
        buffer[at + 7],
        buffer[at + 8],
        buffer[at + 9],
        buffer[at + 10],
        buffer[at + 11],
    ];
    assert(bytes@ =~= buffer@.subrange(at as int, at + 12));
    bytes
}

/// Reading a message that was written gives it back, with its length as the
/// number of bytes used up, whatever follows it in the buffer.
pub proof fn lemma_message_round_trip(message: MessageView, rest: Seq<u8>)
    requires
        message.fits(),
    ensures
        message.wire().len() == message.wire_len(),
        decoded(message.wire() + rest) == (message.wire_len() as int, Some(message)),
{
    let w = message.wire();
    let b = w + rest;
    lemma_u32_round_trip(message.discriminant(), 0, 0, 0, 0);
    lemma_u32_round_trip(message.wire_len() as u32, 0, 0, 0, 0);
    lemma_u32_round_trip(message.id(), 0, 0, 0, 0);
    match message {
        MessageView::ControllerData(id, primary, secondary) => {
            primary.lemma_wire_round_trip();
            secondary.lemma_wire_round_trip();
            assert(b.subrange(12, 24) =~= primary.wire());
            assert(b.subrange(24, 36) =~= secondary.wire());
        },
        MessageView::LogData(id, data) => {
            assert(b.subrange(12, 12 + data.len() as int) =~= data);
        },
        MessageView::MissedLogData(id) => {},
        MessageView::ForgotLogData(id) => {},
    }
}

} // verus!
