//! Several messages in one datagram, back to back.

use crate::message::{decoded, lemma_message_round_trip, Message, MessageView};
use vstd::prelude::*;
use vstd::slice::slice_subrange;

verus! {

/// The views of a sequence of messages, in the same order.
pub open spec fn views(messages: Seq<Message>) -> Seq<MessageView> {
    messages.map_values(|m: Message| m@)
}

/// The bytes of `messages` written one after the other.
pub open spec fn packed(messages: Seq<MessageView>) -> Seq<u8>
    decreases messages.len(),
{
    if messages.len() == 0 {
        Seq::empty()
    } else {
        packed(messages.drop_last()) + messages.last().wire()
    }
}

/// The messages that a datagram holds, in the order in which they stand.
///
/// Messages are read one after the other, each from where the last one
/// ended. Reading stops at the end of the buffer, at the first place where no
/// message can be read, and after a message that uses up the rest of the
/// buffer or more, or nothing at all; such a message is still the last one
/// of the result.
pub open spec fn messages_in(buffer: Seq<u8>) -> Seq<MessageView>
    decreases buffer.len(),
{
    if buffer.len() == 0 {
        Seq::empty()
    } else {
        let (used, message) = decoded(buffer);
        match message {
            None => Seq::empty(),
            Some(m) => if 0 < used < buffer.len() {
                seq![m] + messages_in(buffer.subrange(used, buffer.len() as int))
            } else {
                seq![m]
            },
        }
    }
}

/// Reads every message of a datagram; see [`messages_in`].
pub fn unpack<'a>(datagram: &'a [u8]) -> (messages: Vec<Message<'a>>)
    ensures
        views(messages@) == messages_in(datagram@),
{
    let n = datagram.len();
    let mut messages: Vec<Message<'a>> = Vec::new();
    let mut at: usize = 0;
    assert(datagram@.subrange(0, n as int) =~= datagram@);
    assert(views(messages@) =~= Seq::empty());
    while at < n
        invariant
            n == datagram@.len(),
            at <= n,
            messages_in(datagram@) == views(messages@) + messages_in(
                datagram@.subrange(at as int, n as int),
            ),
        decreases n - at,
    {
        let rest = slice_subrange(datagram, at, n);
        let (used, message) = Message::from_le_bytes(rest);
        let ghost before = messages@;
        match message {
            None => {
                at = n;
            },
            Some(m) => {
                messages.push(m);
                assert(views(messages@) =~= views(before) + seq![m@]);
                if used == 0 || used >= n - at {
                    at = n;
                } else {
                    assert(rest@.subrange(used as int, rest@.len() as int) =~= datagram@.subrange(
                        at + used,
                        n as int,
                    ));
                    at = at + used;
                }
            },
        }
    }
    assert(views(messages@) + Seq::<MessageView>::empty() =~= views(messages@));
    messages
}

/// The bytes of a list of messages have the length of all of them together,
/// and each message has at least its header.
pub proof fn lemma_packed_len(messages: Seq<MessageView>)
    requires
        forall|i: int| 0 <= i < messages.len() ==> (#[trigger] messages[i]).fits(),
    ensures
        packed(messages).len() >= 12 * messages.len(),
    decreases messages.len(),
{
    if messages.len() > 0 {
        lemma_packed_len(messages.drop_last());
        lemma_message_round_trip(messages.last(), Seq::empty());
    }
}

/// Writing a message in front of a list writes its bytes in front of the
/// bytes of the list.
pub proof fn lemma_packed_front(first: MessageView, rest: Seq<MessageView>)
    ensures
        packed(seq![first] + rest) == first.wire() + packed(rest),
    decreases rest.len(),
{
    let all = seq![first] + rest;
    if rest.len() == 0 {
        assert(all.drop_last() =~= Seq::<MessageView>::empty());
        assert(packed(all.drop_last()) =~= Seq::<u8>::empty());
        assert(packed(all) =~= first.wire() + packed(rest));
    } else {
        lemma_packed_front(first, rest.drop_last());
        assert(all.drop_last() =~= seq![first] + rest.drop_last());
        assert(all.last() == rest.last());
        assert(packed(all) =~= first.wire() + packed(rest));
    }
}

/// Messages written into one buffer one after the other are read back as
/// the same messages in the same order.
pub proof fn lemma_packing_round_trip(messages: Seq<MessageView>)
    requires
        forall|i: int| 0 <= i < messages.len() ==> (#[trigger] messages[i]).fits(),
    ensures
        messages_in(packed(messages)) == messages,
    decreases messages.len(),
{
    if messages.len() == 0 {
        assert(messages_in(packed(messages)) =~= messages);
    } else {
        let first = messages[0];
        let rest = messages.subrange(1, messages.len() as int);
        assert(messages =~= seq![first] + rest);
        lemma_packed_front(first, rest);
        let buffer = packed(messages);
        lemma_message_round_trip(first, packed(rest));
        lemma_packed_len(rest);
        lemma_packing_round_trip(rest);
        if rest.len() == 0 {
            assert(packed(rest) =~= Seq::<u8>::empty());
            assert(messages_in(buffer) =~= messages);
        } else {
            assert(buffer.subrange(first.wire_len() as int, buffer.len() as int) =~= packed(rest));
            assert(messages_in(buffer) =~= messages);
        }
    }
}

} // verus!
