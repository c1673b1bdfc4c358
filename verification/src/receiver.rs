//! The receiving side: what each message of a datagram does to the reorder
//! buffer and to the record of outstanding packets, and what is handed on
//! after the datagram.
//!
//! Log data goes into the reorder buffer; a notice of loss marks its slot.
//! Controller data and requests for log packets only ever go to the device:
//! where one of them comes in, it is counted and dropped.

use crate::datagram::{messages_in, unpack, views};
use crate::message::{Message, MessageView};
use crate::reorder::{delivery_views, Delivery, ReorderBuffer, Window};
use crate::tracker::MissingLogTracker;
use vstd::prelude::*;
use vstd::slice::slice_to_vec;

verus! {

/// The window of the reorder buffer together with the ids of the outstanding
/// log packets.
pub ghost struct Link {
    pub window: Window,
    pub missing: Seq<u32>,
}

/// Whether a message is one that only ever goes to the device.
pub open spec fn wrong_direction(message: MessageView) -> bool {
    message is ControllerData || message is MissedLogData
}

/// The number of messages of `messages` that only ever go to the device.
pub open spec fn wrong_direction_count(messages: Seq<MessageView>) -> nat
    decreases messages.len(),
{
    if messages.len() == 0 {
        0
    } else {
        wrong_direction_count(messages.drop_last()) + if wrong_direction(messages.last()) {
            1nat
        } else {
            0nat
        }
    }
}

impl Link {
    /// The state after one message has come in.
    pub open spec fn accept(self, message: MessageView) -> Link {
        match message {
            MessageView::LogData(id, payload) => Link {
                window: self.window.observe(id, payload),
                missing: self.window.missing_after_observe(self.missing, id),
            },
            MessageView::ForgotLogData(id) => Link {
                window: self.window.mark_lost(id),
                missing: self.window.missing_after_mark_lost(self.missing, id),
            },
            MessageView::ControllerData(..) => self,
            MessageView::MissedLogData(_) => self,
        }
    }

    /// The state after the messages of `messages` have come in, in their
    /// order.
    pub open spec fn accept_all(self, messages: Seq<MessageView>) -> Link
        decreases messages.len(),
    {
        if messages.len() == 0 {
            self
        } else {
            self.accept_all(messages.drop_last()).accept(messages.last())
        }
    }
}

/// What came of one datagram.
pub struct Received {
    /// What the reorder buffer hands on after the datagram, in the order of
    /// the ids.
    pub entries: Vec<Delivery>,
    /// The number of messages that only ever go to the device.
    pub wrong_direction: usize,
}

/// The receiving side: it owns the reorder buffer.
pub struct Receiver {
    buffer: ReorderBuffer,
}

impl View for Receiver {
    type V = Window;

    /// The window of the reorder buffer.
    closed spec fn view(&self) -> Window {
        self.buffer@
    }
}

impl Receiver {
    /// A receiver that has seen nothing.
    pub fn new() -> (receiver: Self)
        ensures
            receiver@ == Window::empty(),
    {
        Receiver { buffer: ReorderBuffer::new() }
    }

    /// Takes in one message; see [`Link::accept`]. Tells whether the message
    /// is one that a receiver expects: `false` for a message that only ever
    /// goes to the device, which changes nothing.
    pub fn handle_message(&mut self, message: &Message, tracker: &mut MissingLogTracker) -> (expected:
        bool)
        ensures
            old(self)@.wf(),
            final(self)@.wf(),
            (Link { window: final(self)@, missing: final(tracker)@ }) == (Link {
                window: old(self)@,
                missing: old(tracker)@,
            }).accept(message@),
            expected == !wrong_direction(message@),
    {
        // Reading the buffer brings to light that its window is well formed.
        let _ = self.buffer.window_len();
        match message {
            Message::LogData(id, payload) => {
                self.buffer.observe(*id, slice_to_vec(payload), tracker);
                true
            },
            Message::ForgotLogData(id) => {
                self.buffer.mark_lost(*id, tracker);
                true
            },
            Message::ControllerData(..) => false,
            Message::MissedLogData(_) => false,
        }
    }

    /// Takes in one datagram: every message of it in turn, then hands on
    /// what is ready. Reading stops at the first place of the datagram where
    /// no message can be read.
    pub fn handle_datagram(&mut self, datagram: &[u8], tracker: &mut MissingLogTracker) -> (received:
        Received)
        ensures
            old(self)@.wf(),
            final(self)@.wf(),
            final(self)@ == (Link { window: old(self)@, missing: old(tracker)@ }).accept_all(
                messages_in(datagram@),
            ).window.drained(),
            final(tracker)@ == (Link { window: old(self)@, missing: old(tracker)@ }).accept_all(
                messages_in(datagram@),
            ).missing,
            delivery_views(received.entries@) == (Link {
                window: old(self)@,
                missing: old(tracker)@,
            }).accept_all(messages_in(datagram@)).window.ready(),
            received.wrong_direction == wrong_direction_count(messages_in(datagram@)),
    {
        let _ = self.buffer.window_len();
        let messages = unpack(datagram);
        let ghost start = Link { window: self@, missing: tracker@ };
        let ghost all = views(messages@);
        let mut wrong: usize = 0;
        let mut i: usize = 0;
        assert(all.take(0) =~= Seq::<MessageView>::empty());
        while i < messages.len()
            invariant
                i <= messages@.len(),
                all == views(messages@),
                wrong <= i,
                wrong == wrong_direction_count(all.take(i as int)),
                (Link { window: self@, missing: tracker@ }) == start.accept_all(all.take(i as int)),
            decreases messages@.len() - i,
        {
            proof {
                assert(all.take(i + 1).drop_last() =~= all.take(i as int));
                assert(all.take(i + 1).last() == messages@[i as int]@);
            }
            let expected = self.handle_message(&messages[i], tracker);
            if !expected {
                wrong += 1;
            }
            i += 1;
        }
        assert(all.take(i as int) =~= all);
        let entries = self.buffer.drain_ready();
        Received { entries, wrong_direction: wrong }
    }

    /// Empties the reorder buffer at the end: hands on every slot of the
    /// window, in the order of the ids, with the remark that nothing came for
    /// each slot that is still empty.
    pub fn shutdown(&mut self) -> (entries: Vec<Delivery>)
        ensures
            old(self)@.wf(),
            final(self)@.wf(),
            final(self)@ == old(self)@.flushed(),
            delivery_views(entries@) == old(self)@.remaining(),
            entries@.len() == old(self)@.slots.len(),
    {
        self.buffer.flush_remaining()
    }
}

} // verus!
