//! The sending side: one datagram for each new state of the controllers.
//!
//! A datagram holds the controller data first and then, as far as there is
//! room, one request for each log packet that is outstanding.

use crate::controller::ControllerState;
use crate::datagram::{lemma_packing_round_trip, messages_in, packed};
use crate::message::{Message, MessageView};
use vstd::prelude::*;

verus! {

/// The requests to send the log packets `ids` again, in the same order.
pub open spec fn requests(ids: Seq<u32>) -> Seq<MessageView> {
    ids.map_values(|id: u32| MessageView::MissedLogData(id))
}

/// The number of requests that a datagram of at most `max_payload` bytes has
/// room for behind the controller data, out of `wanted`.
pub open spec fn request_room(max_payload: int, wanted: int) -> int {
    if max_payload < 36 {
        0
    } else if (max_payload - 36) / 12 < wanted {
        (max_payload - 36) / 12
    } else {
        wanted
    }
}

/// The messages of the datagram with sequence id `id`: the data of both
/// controllers, then the requests for the first outstanding log packets, as
/// many as there is room for.
pub open spec fn datagram_messages(
    id: u32,
    primary: ControllerState,
    secondary: ControllerState,
    missing: Seq<u32>,
    max_payload: int,
) -> Seq<MessageView> {
    seq![MessageView::ControllerData(id, primary, secondary)] + requests(
        missing.take(request_room(max_payload, missing.len() as int)),
    )
}

/// The id that follows `id`. After the highest id the count starts again at
/// zero.
pub open spec fn following(id: u32) -> u32 {
    if id == u32::MAX {
        0
    } else {
        (id + 1) as u32
    }
}

/// A datagram that was built is read back as the messages it was built
/// from, and it is no longer than allowed.
pub proof fn lemma_datagram_round_trip(
    id: u32,
    primary: ControllerState,
    secondary: ControllerState,
    missing: Seq<u32>,
    max_payload: int,
)
    requires
        max_payload >= 36,
    ensures
        messages_in(packed(datagram_messages(id, primary, secondary, missing, max_payload)))
            == datagram_messages(id, primary, secondary, missing, max_payload),
        packed(datagram_messages(id, primary, secondary, missing, max_payload)).len() == 36 + 12
            * request_room(max_payload, missing.len() as int),
        packed(datagram_messages(id, primary, secondary, missing, max_payload)).len()
            <= max_payload,
{
    let messages = datagram_messages(id, primary, secondary, missing, max_payload);
    lemma_packing_round_trip(messages);
    let room = request_room(max_payload, missing.len() as int);
    lemma_datagram_len(id, primary, secondary, missing.take(room));
    assert(room * 12 <= max_payload - 36);
}

/// Controller data followed by requests takes 36 bytes and 12 for each
/// request.
proof fn lemma_datagram_len(
    id: u32,
    primary: ControllerState,
    secondary: ControllerState,
    asked: Seq<u32>,
)
    ensures
        packed(seq![MessageView::ControllerData(id, primary, secondary)] + requests(asked)).len()
            == 36 + 12 * asked.len(),
    decreases asked.len(),
{
    let head = seq![MessageView::ControllerData(id, primary, secondary)];
    let all = head + requests(asked);
    primary.lemma_wire_round_trip();
    secondary.lemma_wire_round_trip();
    if asked.len() == 0 {
        assert(all.drop_last() =~= Seq::<MessageView>::empty());
        assert(packed(all.drop_last()) =~= Seq::<u8>::empty());
    } else {
        lemma_datagram_len(id, primary, secondary, asked.drop_last());
        assert(all.drop_last() =~= head + requests(asked.drop_last()));
        assert(all.last() == MessageView::MissedLogData(asked.last()));
    }
}

/// The sending side: it numbers the datagrams.
pub struct Sender {
    next_id: u32,
}

impl View for Sender {
    type V = u32;

    /// The sequence id of the next datagram.
    closed spec fn view(&self) -> u32 {
        self.next_id
    }
}

impl Sender {
    /// A sender whose first datagram has the sequence id 0.
    pub fn new() -> (sender: Self)
        ensures
            sender@ == 0,
    {
        Sender { next_id: 0 }
    }

    /// The sequence id of the next datagram.
    pub fn next_id(&self) -> (id: u32)
        ensures
            id == self@,
    {
        self.next_id
    }

    /// Builds the next datagram: the data of both controllers under the next
    /// sequence id, then one request for each id of `missing`, in their
    /// order, as far as `max_payload` bytes have room for them. The sequence
    /// id moves on. Where `max_payload` has no room for the controller data,
    /// nothing is built and the sequence id stays.
    pub fn build_datagram(
        &mut self,
        primary: ControllerState,
        secondary: ControllerState,
        missing: &[u32],
        max_payload: usize,
    ) -> (datagram: Option<Vec<u8>>)
        ensures
            match datagram {
                Some(bytes) => {
                    &&& max_payload >= 36
                    &&& bytes@ == packed(
                        datagram_messages(
                            old(self)@,
                            primary,
                            secondary,
                            missing@,
                            max_payload as int,
                        ),
                    )
                    &&& bytes@.len() <= max_payload
                    &&& final(self)@ == following(old(self)@)
                },
                None => max_payload < 36 && final(self)@ == old(self)@,
            },
    {
        if max_payload < 36 {
            return None;
        }
        let id = self.next_id;
        let room = (max_payload - 36) / 12;
        let count = if room < missing.len() {
            room
        } else {
            missing.len()
        };
        let ghost asked = missing@.take(count as int);
        let ghost head = seq![MessageView::ControllerData(id, primary, secondary)];
        let mut bytes: Vec<u8> = Vec::new();
        Message::ControllerData(id, primary, secondary).append_to(&mut bytes);
        proof {
            assert(head.drop_last() =~= Seq::<MessageView>::empty());
            assert(packed(head.drop_last()) =~= Seq::<u8>::empty());
            assert(bytes@ =~= packed(head));
            assert(head + requests(missing@.take(0)) =~= head);
        }
        let mut i: usize = 0;
        while i < count
            invariant
                i <= count <= missing@.len(),
                head == seq![MessageView::ControllerData(id, primary, secondary)],
                bytes@ == packed(head + requests(missing@.take(i as int))),
            decreases count - i,
        {
            let ghost so_far = head + requests(missing@.take(i as int));
            Message::MissedLogData(missing[i]).append_to(&mut bytes);
            proof {
                let longer = head + requests(missing@.take(i + 1));
                assert(longer.drop_last() =~= so_far);
                assert(longer.last() == MessageView::MissedLogData(missing@[i as int]));
            }
            i += 1;
        }
        proof {
            lemma_datagram_round_trip(id, primary, secondary, missing@, max_payload as int);
        }
        self.next_id = if id == u32::MAX {
            0
        } else {
            id + 1
        };
        Some(bytes)
    }
}

} // verus!
