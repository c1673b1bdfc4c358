//! The reorder buffer: log packets come in any order and leave in the order
//! of their ids.
//!
//! The buffer is a window of slots, one for each id from the oldest that has
//! not been handed on yet up to the newest that was seen. A slot is empty
//! until its packet comes or the device gives notice that the packet is lost.
//! Slots leave the window from the oldest end, and only when they are no
//! longer empty, so no packet is handed on before all packets with lower ids.

use crate::tracker::{with_gap, without, MissingLogTracker};
use std::collections::VecDeque;
use vstd::prelude::*;

verus! {

/// What stands in one slot of the window.
pub ghost enum SlotView {
    /// Nothing has come for this id yet.
    Empty,
    /// The payload of the packet with this id.
    Filled(Seq<u8>),
    /// The device will never send this packet again.
    Lost,
}

/// What is handed on for one id.
pub ghost enum EntryView {
    /// The payload of the packet.
    Data(Seq<u8>),
    /// The device gave notice that the packet is lost.
    Lost,
    /// Nothing had come for this id when the buffer was emptied.
    Missed,
}

/// One id together with what is handed on for it.
pub ghost struct DeliveryView {
    pub id: u32,
    pub entry: EntryView,
}

impl SlotView {
    /// What is handed on for a slot: its payload, the notice of its loss, or
    /// the remark that nothing came.
    pub open spec fn entry(self) -> EntryView {
        match self {
            SlotView::Empty => EntryView::Missed,
            SlotView::Filled(payload) => EntryView::Data(payload),
            SlotView::Lost => EntryView::Lost,
        }
    }
}

/// The number of slots at the old end of `slots` that are no longer empty,
/// up to the first that is.
pub open spec fn leading(slots: Seq<SlotView>) -> nat
    decreases slots.len(),
{
    if slots.len() == 0 || slots[0] is Empty {
        0
    } else {
        1 + leading(slots.skip(1))
    }
}

/// What is handed on for `slots`, the first of which has the id `base`.
pub open spec fn deliveries(base: int, slots: Seq<SlotView>) -> Seq<DeliveryView> {
    Seq::new(
        slots.len(),
        |i: int| DeliveryView { id: (base + i) as u32, entry: slots[i].entry() },
    )
}

/// `count` empty slots.
pub open spec fn empties(count: int) -> Seq<SlotView> {
    Seq::new(
        if count >= 0 {
            count as nat
        } else {
            0
        },
        |i: int| SlotView::Empty,
    )
}

/// The window of a reorder buffer: the id that is expected next, and the
/// slots of the ids below it that have not been handed on, oldest first.
pub ghost struct Window {
    pub next: int,
    pub slots: Seq<SlotView>,
}

impl Window {
    /// The window that has seen nothing.
    pub open spec fn empty() -> Window {
        Window { next: 0, slots: Seq::empty() }
    }

    /// The slots stand for the ids just below `next`, and ids have 32 bits.
    pub open spec fn wf(self) -> bool {
        self.slots.len() <= self.next <= 0x1_0000_0000
    }

    /// The id of the oldest slot. Every id below it has been handed on.
    pub open spec fn base(self) -> int {
        self.next - self.slots.len()
    }

    /// Whether the window has a slot for `id`.
    pub open spec fn holds(self, id: int) -> bool {
        self.base() <= id < self.next
    }

    /// The slot of `id`.
    pub open spec fn slot(self, id: int) -> SlotView
        recommends
            self.holds(id),
    {
        self.slots[id - self.base()]
    }

    /// Whether the window has a slot for `id` that is still empty.
    pub open spec fn awaits(self, id: int) -> bool {
        self.holds(id) && self.slot(id) is Empty
    }

    /// The window after the packet `id` has come with `payload`.
    ///
    /// An id at or above `next` extends the window up to it: the ids in
    /// between get empty slots, and `next` becomes `id + 1`. An id whose slot
    /// is still empty fills it. Any other id, one that was handed on before
    /// or whose slot is no longer empty, changes nothing.
    pub open spec fn observe(self, id: u32, payload: Seq<u8>) -> Window {
        if id >= self.next {
            Window {
                next: id + 1,
                slots: (self.slots + empties(id - self.next)).push(SlotView::Filled(payload)),
            }
        } else if self.awaits(id as int) {
            Window { slots: self.slots.update(id - self.base(), SlotView::Filled(payload)), ..self }
        } else {
            self
        }
    }

    /// The outstanding ids after the packet `id` has come: the ids that the
    /// packet skipped are recorded where it extends the window; otherwise
    /// its own id is taken out.
    pub open spec fn missing_after_observe(self, missing: Seq<u32>, id: u32) -> Seq<u32> {
        if id >= self.next {
            with_gap(missing, self.next, id as int)
        } else {
            without(missing, id)
        }
    }

    /// The window after the device gave notice that packet `id` is lost: a
    /// slot that is still empty is marked lost, and nothing else changes.
    pub open spec fn mark_lost(self, id: u32) -> Window {
        if self.awaits(id as int) {
            Window { slots: self.slots.update(id - self.base(), SlotView::Lost), ..self }
        } else {
            self
        }
    }

    /// The outstanding ids after the device gave notice that packet `id` is
    /// lost: the id is taken out where its slot was marked.
    pub open spec fn missing_after_mark_lost(self, missing: Seq<u32>, id: u32) -> Seq<u32> {
        if self.awaits(id as int) {
            without(missing, id)
        } else {
            missing
        }
    }

    /// The number of slots that can be handed on now.
    pub open spec fn ready_len(self) -> nat {
        leading(self.slots)
    }

    /// What is handed on now: the slots at the old end that are no longer
    /// empty, in the order of their ids.
    pub open spec fn ready(self) -> Seq<DeliveryView> {
        deliveries(self.base(), self.slots.take(self.ready_len() as int))
    }

    /// The window after what is ready has been handed on.
    pub open spec fn drained(self) -> Window {
        Window { slots: self.slots.skip(self.ready_len() as int), ..self }
    }

    /// What is handed on when the buffer is emptied: every slot, in the
    /// order of the ids.
    pub open spec fn remaining(self) -> Seq<DeliveryView> {
        deliveries(self.base(), self.slots)
    }

    /// The window after the buffer has been emptied.
    pub open spec fn flushed(self) -> Window {
        Window { slots: Seq::empty(), ..self }
    }
}

/// The slots that are ready really are so: there are no more of them than
/// slots, none of them is empty, and the slot after them, if there is one, is
/// empty.
pub proof fn lemma_leading(slots: Seq<SlotView>)
    ensures
        leading(slots) <= slots.len(),
        forall|i: int| 0 <= i < leading(slots) ==> !(#[trigger] slots[i] is Empty),
        leading(slots) < slots.len() ==> slots[leading(slots) as int] is Empty,
    decreases slots.len(),
{
    if slots.len() > 0 && !(slots[0] is Empty) {
        let rest = slots.skip(1);
        lemma_leading(rest);
        assert forall|i: int| 0 <= i < leading(slots) implies !(#[trigger] slots[i] is Empty) by {
            if i > 0 {
                assert(rest[i - 1] == slots[i]);
            }
        }
        if leading(slots) < slots.len() {
            assert(rest[leading(rest) as int] == slots[leading(slots) as int]);
        }
    }
}

/// What stands in one slot of the window.
enum Slot {
    Empty,
    Filled(Vec<u8>),
    Lost,
}

impl View for Slot {
    type V = SlotView;

    closed spec fn view(&self) -> SlotView {
        match self {
            Slot::Empty => SlotView::Empty,
            Slot::Filled(payload) => SlotView::Filled(payload@),
            Slot::Lost => SlotView::Lost,
        }
    }
}

impl Slot {
    fn is_empty(&self) -> (empty: bool)
        ensures
            empty == (self@ is Empty),
    {
        match self {
            Slot::Empty => true,
            _ => false,
        }
    }
}

/// What is handed on for one id.
#[derive(Debug, PartialEq, Eq)]
pub enum Entry {
    /// The payload of the packet.
    Data(Vec<u8>),
    /// The device gave notice that the packet is lost.
    Lost,
    /// Nothing had come for this id when the buffer was emptied.
    Missed,
}

impl View for Entry {
    type V = EntryView;

    open spec fn view(&self) -> EntryView {
        match self {
            Entry::Data(payload) => EntryView::Data(payload@),
            Entry::Lost => EntryView::Lost,
            Entry::Missed => EntryView::Missed,
        }
    }
}

/// One id together with what is handed on for it.
#[derive(Debug, PartialEq, Eq)]
pub struct Delivery {
    pub id: u32,
    pub entry: Entry,
}

impl View for Delivery {
    type V = DeliveryView;

    open spec fn view(&self) -> DeliveryView {
        DeliveryView { id: self.id, entry: self.entry@ }
    }
}

/// The views of a sequence of deliveries, in the same order.
pub open spec fn delivery_views(entries: Seq<Delivery>) -> Seq<DeliveryView> {
    entries.map_values(|d: Delivery| d@)
}

/// The views of a sequence of slots, in the same order.
spec fn slot_views(slots: Seq<Slot>) -> Seq<SlotView> {
    slots.map_values(|s: Slot| s@)
}

/// The reorder buffer.
pub struct ReorderBuffer {
    /// The slots of the window, oldest first.
    window: VecDeque<Slot>,
    /// The id that is expected next: one more than the highest id seen.
    next_expected_id: u64,
}

impl View for ReorderBuffer {
    type V = Window;

    closed spec fn view(&self) -> Window {
        Window { next: self.next_expected_id as int, slots: slot_views(self.window@) }
    }
}

impl ReorderBuffer {
    #[verifier::type_invariant]
    spec fn well_formed(&self) -> bool {
        self.window@.len() <= self.next_expected_id <= 0x1_0000_0000
    }

    /// A buffer that has seen nothing: id 0 is expected next.
    pub fn new() -> (buffer: Self)
        ensures
            buffer@ == Window::empty(),
    {
        let buffer = ReorderBuffer { window: VecDeque::new(), next_expected_id: 0 };
        assert(buffer@.slots =~= Seq::empty());
        buffer
    }

    /// The id that is expected next: one more than the highest id seen.
    pub fn next_expected_id(&self) -> (next: u64)
        ensures
            next == self@.next,
            self@.wf(),
    {
        proof {
            use_type_invariant(self);
        }
        self.next_expected_id
    }

    /// Number of slots in the window.
    pub fn window_len(&self) -> (len: usize)
        ensures
            len == self@.slots.len(),
            self@.wf(),
    {
        proof {
            use_type_invariant(self);
        }
        self.window.len()
    }

    /// Takes the slots out of the buffer to work on them.
    fn take_slots(&mut self) -> (slots: VecDeque<Slot>)
        ensures
            slot_views(slots@) == old(self)@.slots,
            slots@.len() <= old(self)@.next <= 0x1_0000_0000,
            final(self).window@.len() == 0,
            final(self).next_expected_id == old(self).next_expected_id,
    {
        proof {
            use_type_invariant(&*self);
        }
        let mut slots: VecDeque<Slot> = VecDeque::new();
        core::mem::swap(&mut slots, &mut self.window);
        slots
    }

    /// Puts slots back into a buffer that holds none, together with the id
    /// that is expected next.
    fn put_slots(&mut self, slots: VecDeque<Slot>, next: u64)
        requires
            old(self).window@.len() == 0,
            slots@.len() <= next <= 0x1_0000_0000,
        ensures
            final(self)@ == (Window { next: next as int, slots: slot_views(slots@) }),
    {
        let mut slots = slots;
        self.next_expected_id = next;
        core::mem::swap(&mut slots, &mut self.window);
    }

    /// Takes in the packet `id` with its payload; see [`Window::observe`] and
    /// [`Window::missing_after_observe`].
    pub fn observe(&mut self, id: u32, payload: Vec<u8>, tracker: &mut MissingLogTracker)
        ensures
            old(self)@.wf(),
            final(self)@.wf(),
            final(self)@ == old(self)@.observe(id, payload@),
            final(tracker)@ == old(self)@.missing_after_observe(old(tracker)@, id),
    {
        let id64 = id as u64;
        let next = self.next_expected_id;
        let mut slots = self.take_slots();
        let ghost before = slot_views(slots@);
        if id64 >= next {
            tracker.record_gap(next as u32, id);
            let mut at: u64 = next;
            assert(slot_views(slots@) =~= before + empties(0));
            while at < id64
                invariant
                    next <= at <= id64,
                    before.len() == slots@.len() - (at - next),
                    slot_views(slots@) == before + empties(at - next),
                decreases id64 - at,
            {
                let ghost shorter = slot_views(slots@);
                slots.push_back(Slot::Empty);
                at += 1;
                assert(slot_views(slots@) =~= shorter.push(SlotView::Empty));
                assert(shorter.push(SlotView::Empty) =~= before + empties(at - next));
            }
            let ghost gap = slot_views(slots@);
            slots.push_back(Slot::Filled(payload));
            assert(slot_views(slots@) =~= gap.push(SlotView::Filled(payload@)));
            self.put_slots(slots, id64 + 1);
        } else {
            tracker.resolve(id);
            let base = next - slots.len() as u64;
            if id64 >= base {
                let at = (id64 - base) as usize;
                if slots[at].is_empty() {
                    slots.remove(at);
                    slots.insert(at, Slot::Filled(payload));
                    assert(slot_views(slots@) =~= before.update(
                        at as int,
                        SlotView::Filled(payload@),
                    ));
                }
            }
            self.put_slots(slots, next);
        }
    }

    /// Takes in the notice that packet `id` is lost; see
    /// [`Window::mark_lost`] and [`Window::missing_after_mark_lost`].
    pub fn mark_lost(&mut self, id: u32, tracker: &mut MissingLogTracker)
        ensures
            old(self)@.wf(),
            final(self)@.wf(),
            final(self)@ == old(self)@.mark_lost(id),
            final(tracker)@ == old(self)@.missing_after_mark_lost(old(tracker)@, id),
    {
        let id64 = id as u64;
        let next = self.next_expected_id;
        let mut slots = self.take_slots();
        let ghost before = slot_views(slots@);
        if id64 < next {
            let base = next - slots.len() as u64;
            if id64 >= base {
                let at = (id64 - base) as usize;
                if slots[at].is_empty() {
                    slots.remove(at);
                    slots.insert(at, Slot::Lost);
                    assert(slot_views(slots@) =~= before.update(at as int, SlotView::Lost));
                    tracker.resolve(id);
                }
            }
        }
        self.put_slots(slots, next);
    }

    /// Hands on the slots at the old end of the window, in the order of
    /// their ids: all of them where `all` is set, and otherwise those up to
    /// the first empty slot.
    fn hand_on(&mut self, all: bool) -> (entries: Vec<Delivery>)
        ensures
            old(self)@.wf(),
            final(self)@.wf(),
            final(self)@.next == old(self)@.next,
            all ==> final(self)@.slots =~= Seq::<SlotView>::empty() && delivery_views(entries@)
                == old(self)@.remaining(),
            !all ==> final(self)@ == old(self)@.drained() && delivery_views(entries@) == old(
                self,
            )@.ready(),
    {
        let next = self.next_expected_id;
        let mut slots = self.take_slots();
        let ghost before = slot_views(slots@);
        let base = next - slots.len() as u64;
        let mut entries: Vec<Delivery> = Vec::new();
        assert(before.skip(0) =~= before);
        assert(delivery_views(entries@) =~= deliveries(base as int, before.take(0)));
        while slots.len() > 0 && (all || !slots[0].is_empty())
            invariant
                base + before.len() == next <= 0x1_0000_0000,
                entries@.len() <= before.len(),
                slot_views(slots@) == before.skip(entries@.len() as int),
                !all ==> leading(before) == entries@.len() + leading(slot_views(slots@)),
                delivery_views(entries@) == deliveries(
                    base as int,
                    before.take(entries@.len() as int),
                ),
            decreases slots@.len(),
        {
            let ghost done = entries@;
            let ghost left = slot_views(slots@);
            let id = (base + entries.len() as u64) as u32;
            let entry = match slots.pop_front() {
                Some(Slot::Filled(payload)) => Entry::Data(payload),
                Some(Slot::Lost) => Entry::Lost,
                _ => Entry::Missed,
            };
            assert(slot_views(slots@) =~= left.skip(1));
            entries.push(Delivery { id, entry });
            assert(left.skip(1) =~= before.skip(entries@.len() as int));
            assert(delivery_views(entries@) =~= deliveries(
                base as int,
                before.take(entries@.len() as int),
            )) by {
                assert(delivery_views(done.push(Delivery { id, entry })) =~= delivery_views(
                    done,
                ).push(DeliveryView { id, entry: entry@ }));
                assert(before[done.len() as int] == left[0]);
            }
        }
        proof {
            if all {
                assert(before.take(before.len() as int) =~= before);
                assert(slot_views(slots@) =~= Seq::<SlotView>::empty());
            } else {
                lemma_leading(before);
            }
        }
        self.put_slots(slots, next);
        entries
    }

    /// Hands on what is ready: the slots at the old end of the window that
    /// are no longer empty, in the order of their ids, up to the first
    /// empty slot. They leave the window.
    pub fn drain_ready(&mut self) -> (entries: Vec<Delivery>)
        ensures
            old(self)@.wf(),
            final(self)@.wf(),
            final(self)@ == old(self)@.drained(),
            delivery_views(entries@) == old(self)@.ready(),
            entries@.len() == old(self)@.ready_len(),
    {
        let entries = self.hand_on(false);
        proof {
            lemma_leading(old(self)@.slots);
            assert(delivery_views(entries@).len() == entries@.len());
        }
        entries
    }

    /// Empties the buffer: hands on every slot of the window, in the order
    /// of the ids, with the remark that nothing came for each slot that is
    /// still empty. The id that is expected next stays.
    pub fn flush_remaining(&mut self) -> (entries: Vec<Delivery>)
        ensures
            old(self)@.wf(),
            final(self)@.wf(),
            final(self)@ == old(self)@.flushed(),
            delivery_views(entries@) == old(self)@.remaining(),
            entries@.len() == old(self)@.slots.len(),
    {
        let entries = self.hand_on(true);
        assert(delivery_views(entries@).len() == entries@.len());
        entries
    }
}

} // verus!
