//! What holds of the reorder buffer over whole runs: packets leave in the
//! order of their ids whatever the order in which they came, every id leaves
//! exactly once, and the ids on record as outstanding are those whose slots
//! are empty.

use crate::reorder::{leading, lemma_leading, DeliveryView, EntryView, SlotView, Window};
use crate::tracker::{id_range, lemma_with_fresh_gap, lemma_with_gap, lemma_without};
use vstd::prelude::*;

verus! {

/// One packet as it comes in: its id and its payload.
pub ghost struct Arrival {
    pub id: u32,
    pub payload: Seq<u8>,
}

/// The window of a new buffer after the packets of `arrivals` have come in
/// that order.
pub open spec fn after_arrivals(arrivals: Seq<Arrival>) -> Window
    decreases arrivals.len(),
{
    if arrivals.len() == 0 {
        Window::empty()
    } else {
        after_arrivals(arrivals.drop_last()).observe(arrivals.last().id, arrivals.last().payload)
    }
}

/// Whether a packet with the id `id` is among the first `count` of
/// `arrivals`.
pub open spec fn comes(arrivals: Seq<Arrival>, count: int, id: int) -> bool {
    exists|j: int| 0 <= j < count && (#[trigger] arrivals[j]).id == id
}

/// The ids of `arrivals` are the ids below their number, each of them once,
/// in any order.
pub open spec fn each_id_once(arrivals: Seq<Arrival>) -> bool {
    &&& forall|j: int| 0 <= j < arrivals.len() ==> (#[trigger] arrivals[j]).id < arrivals.len()
    &&& forall|j: int, k: int|
        0 <= j < arrivals.len() && 0 <= k < arrivals.len() && j != k ==> (#[trigger] arrivals[j]).id
            != (#[trigger] arrivals[k]).id
    &&& forall|id: int|
        0 <= id < arrivals.len() ==> #[trigger] comes(arrivals, arrivals.len() as int, id)
}

/// What holds of the window while packets with distinct ids come into a new
/// buffer: nothing has left it, every packet that came stands in its slot,
/// and every other slot is empty.
spec fn filling(arrivals: Seq<Arrival>, count: int, window: Window) -> bool {
    &&& window.slots.len() == window.next
    &&& window.next <= arrivals.len()
    &&& forall|j: int|
        0 <= j < count ==> (#[trigger] arrivals[j]).id < window.next && window.slots[arrivals[j].id as int]
            == SlotView::Filled(arrivals[j].payload)
    &&& forall|id: int|
        0 <= id < window.next ==> (#[trigger] window.slots[id]) is Empty || comes(
            arrivals,
            count,
            id,
        )
}

proof fn lemma_filling(arrivals: Seq<Arrival>, count: int)
    requires
        each_id_once(arrivals),
        0 <= count <= arrivals.len(),
    ensures
        filling(arrivals, count, after_arrivals(arrivals.take(count))),
    decreases count,
{
    let seen = arrivals.take(count);
    if count == 0 {
    } else {
        lemma_filling(arrivals, count - 1);
        assert(seen.drop_last() =~= arrivals.take(count - 1));
        let before = after_arrivals(arrivals.take(count - 1));
        let new = arrivals[count - 1];
        assert(seen.last() == new);
        let after = before.observe(new.id, new.payload);
        assert(after == after_arrivals(seen));
        if new.id >= before.next {
            assert forall|j: int| 0 <= j < count implies (#[trigger] arrivals[j]).id < after.next
                && after.slots[arrivals[j].id as int] == SlotView::Filled(arrivals[j].payload) by {
                if j < count - 1 {
                    assert(after.slots[arrivals[j].id as int] == before.slots[arrivals[j].id as int]);
                }
            }
            assert forall|id: int| 0 <= id < after.next implies (#[trigger] after.slots[id])
                is Empty || comes(arrivals, count, id) by {
                if id < before.next {
                    assert(after.slots[id] == before.slots[id]);
                    if !(before.slots[id] is Empty) {
                        let j = choose|j: int| 0 <= j < count - 1 && (#[trigger] arrivals[j]).id == id;
                        assert(0 <= j < count && arrivals[j].id == id);
                    }
                } else if id < new.id {
                } else {
                    assert(arrivals[count - 1].id == id);
                }
            }
        } else {
            let at = new.id as int;
            if !(before.slots[at] is Empty) {
                let j = choose|j: int| 0 <= j < count - 1 && (#[trigger] arrivals[j]).id == at;
                assert(arrivals[j].id != arrivals[count - 1].id);
            }
            assert(before.awaits(at));
            assert forall|j: int| 0 <= j < count implies (#[trigger] arrivals[j]).id < after.next
                && after.slots[arrivals[j].id as int] == SlotView::Filled(arrivals[j].payload) by {
                if j < count - 1 {
                    assert(arrivals[j].id != arrivals[count - 1].id);
                }
            }
            assert forall|id: int| 0 <= id < after.next implies (#[trigger] after.slots[id])
                is Empty || comes(arrivals, count, id) by {
                if id == at {
                    assert(arrivals[count - 1].id == id);
                } else {
                    assert(after.slots[id] == before.slots[id]);
                    if !(before.slots[id] is Empty) {
                        let j = choose|j: int| 0 <= j < count - 1 && (#[trigger] arrivals[j]).id == id;
                        assert(0 <= j < count && arrivals[j].id == id);
                    }
                }
            }
        }
    }
}

/// Where no slot is empty, all of them are ready.
pub proof fn lemma_all_ready(slots: Seq<SlotView>)
    requires
        forall|i: int| 0 <= i < slots.len() ==> !(#[trigger] slots[i] is Empty),
    ensures
        leading(slots) == slots.len(),
{
    lemma_leading(slots);
}

/// Packets with the ids 0 to n - 1 that come into a new buffer in any order
/// leave it in the order 0, 1, ..., n - 1, each with the payload it came
/// with, and leave the window empty.
pub proof fn lemma_any_order_leaves_in_order(arrivals: Seq<Arrival>)
    requires
        each_id_once(arrivals),
    ensures
        after_arrivals(arrivals).wf(),
        after_arrivals(arrivals).next == arrivals.len(),
        after_arrivals(arrivals).ready().len() == arrivals.len(),
        forall|i: int| 0 <= i < arrivals.len() ==> (#[trigger] after_arrivals(arrivals).ready()[i]).id == i,
        forall|j: int|
            0 <= j < arrivals.len() ==> after_arrivals(arrivals).ready()[(#[trigger] arrivals[j]).id as int].entry
                == EntryView::Data(arrivals[j].payload),
        after_arrivals(arrivals).drained().slots.len() == 0,
{
    let n = arrivals.len() as int;
    lemma_filling(arrivals, n);
    assert(arrivals.take(n) =~= arrivals);
    let window = after_arrivals(arrivals);
    if n > 0 {
        assert(comes(arrivals, n, n - 1));
        let j = choose|j: int| 0 <= j < n && (#[trigger] arrivals[j]).id == n - 1;
        assert(arrivals[j].id < window.next);
    }
    assert(window.next == n);
    assert forall|i: int| 0 <= i < window.slots.len() implies !(#[trigger] window.slots[i]
        is Empty) by {
        assert(comes(arrivals, n, i));
        let j = choose|j: int| 0 <= j < n && (#[trigger] arrivals[j]).id == i;
        assert(window.slots[arrivals[j].id as int] == SlotView::Filled(arrivals[j].payload));
    }
    lemma_all_ready(window.slots);
    assert(window.slots.take(n) =~= window.slots);
    assert forall|j: int| 0 <= j < n implies window.ready()[(#[trigger] arrivals[j]).id as int].entry
        == EntryView::Data(arrivals[j].payload) by {
        assert(window.slots[arrivals[j].id as int] == SlotView::Filled(arrivals[j].payload));
    }
}

/// One step in the life of a reorder buffer.
pub ghost enum Step {
    /// The packet with this id and payload comes.
    Observe(u32, Seq<u8>),
    /// The device gives notice that the packet with this id is lost.
    MarkLost(u32),
    /// What is ready is handed on.
    Drain,
}

/// A reorder buffer, the record of outstanding ids that goes with it, and
/// everything that the buffer has handed on so far.
pub ghost struct Run {
    pub window: Window,
    pub missing: Seq<u32>,
    pub handed_on: Seq<DeliveryView>,
}

/// The state of a new buffer and a new record after `steps`.
pub open spec fn run(steps: Seq<Step>) -> Run
    decreases steps.len(),
{
    if steps.len() == 0 {
        Run { window: Window::empty(), missing: Seq::empty(), handed_on: Seq::empty() }
    } else {
        let before = run(steps.drop_last());
        match steps.last() {
            Step::Observe(id, payload) => Run {
                window: before.window.observe(id, payload),
                missing: before.window.missing_after_observe(before.missing, id),
                ..before
            },
            Step::MarkLost(id) => Run {
                window: before.window.mark_lost(id),
                missing: before.window.missing_after_mark_lost(before.missing, id),
                ..before
            },
            Step::Drain => Run {
                window: before.window.drained(),
                handed_on: before.handed_on + before.window.ready(),
                ..before
            },
        }
    }
}

/// Every step keeps the window well formed.
pub proof fn lemma_steps_keep_wf(window: Window, id: u32, payload: Seq<u8>)
    requires
        window.wf(),
    ensures
        window.observe(id, payload).wf(),
        window.mark_lost(id).wf(),
        window.drained().wf(),
        window.flushed().wf(),
        window.observe(id, payload).base() == window.base(),
        window.mark_lost(id).base() == window.base(),
        window.drained().base() == window.base() + window.ready_len(),
        window.flushed().base() == window.next,
{
    lemma_leading(window.slots);
}

/// At any time, what a buffer has handed on is one entry for each id below
/// the oldest id of its window, in the order of the ids, and none of these
/// entries says that nothing came.
pub proof fn lemma_handed_on(steps: Seq<Step>)
    ensures
        run(steps).window.wf(),
        run(steps).handed_on.len() == run(steps).window.base(),
        forall|i: int| 0 <= i < run(steps).handed_on.len() ==> (#[trigger] run(steps).handed_on[i]).id == i,
        forall|i: int|
            0 <= i < run(steps).handed_on.len() ==> !((#[trigger] run(steps).handed_on[i]).entry is Missed),
    decreases steps.len(),
{
    if steps.len() > 0 {
        let before = run(steps.drop_last());
        lemma_handed_on(steps.drop_last());
        match steps.last() {
            Step::Observe(id, payload) => {
                lemma_steps_keep_wf(before.window, id, payload);
            },
            Step::MarkLost(id) => {
                lemma_steps_keep_wf(before.window, id, Seq::empty());
            },
            Step::Drain => {
                lemma_steps_keep_wf(before.window, 0, Seq::empty());
                lemma_leading(before.window.slots);
                let after = run(steps);
                assert forall|i: int| 0 <= i < after.handed_on.len() implies (
                #[trigger] after.handed_on[i]).id == i && !(after.handed_on[i].entry is Missed) by {
                    if i >= before.handed_on.len() {
                        let k = i - before.handed_on.len();
                        assert(after.handed_on[i] == before.window.ready()[k]);
                        assert(!(before.window.slots[k] is Empty));
                    } else {
                        assert(after.handed_on[i] == before.handed_on[i]);
                    }
                }
            },
        }
    }
}

/// When a buffer is emptied at the end of any run, what it handed on during
/// the run and what it hands on then hold together exactly one entry for
/// each id that was ever seen or skipped, in the order of the ids. The entry
/// of an id says that nothing came exactly if its slot was still empty at
/// the end.
pub proof fn lemma_every_id_leaves_once(steps: Seq<Step>)
    ensures
        (run(steps).handed_on + run(steps).window.remaining()).len() == run(steps).window.next,
        forall|id: int|
            0 <= id < run(steps).window.next ==> (#[trigger] (run(steps).handed_on + run(
                steps,
            ).window.remaining())[id]).id == id,
        forall|id: int|
            0 <= id < run(steps).window.next ==> ((#[trigger] (run(steps).handed_on + run(
                steps,
            ).window.remaining())[id]).entry is Missed <==> run(steps).window.awaits(id)),
        run(steps).window.flushed().slots.len() == 0,
{
    lemma_handed_on(steps);
    let end = run(steps);
    let all = end.handed_on + end.window.remaining();
    assert forall|id: int| 0 <= id < end.window.next implies (#[trigger] all[id]).id == id && (
    all[id].entry is Missed <==> end.window.awaits(id)) by {
        if id < end.handed_on.len() {
            assert(all[id] == end.handed_on[id]);
        } else {
            let k = id - end.handed_on.len();
            assert(all[id] == end.window.remaining()[k]);
        }
    }
}

/// At any time, the ids on record as outstanding are exactly the ids whose
/// slots in the window are still empty, and none of them is on record twice.
pub proof fn lemma_missing_is_awaited(steps: Seq<Step>)
    ensures
        run(steps).missing.no_duplicates(),
        forall|id: u32| #[trigger]
            run(steps).missing.contains(id) <==> run(steps).window.awaits(id as int),
    decreases steps.len(),
{
    let after = run(steps);
    if steps.len() == 0 {
    } else {
        let before = run(steps.drop_last());
        lemma_missing_is_awaited(steps.drop_last());
        lemma_handed_on(steps.drop_last());
        let old = before.window;
        match steps.last() {
            Step::Observe(new, payload) => {
                lemma_steps_keep_wf(old, new, payload);
                if new >= old.next {
                    lemma_with_gap(before.missing, old.next, new as int);
                    assert forall|id: u32| #[trigger]
                        after.missing.contains(id) <==> after.window.awaits(id as int) by {
                        assert(before.missing.contains(id) <==> old.awaits(id as int));
                        if old.base() <= id < old.next {
                            assert(after.window.slot(id as int) == old.slot(id as int));
                        }
                    }
                } else {
                    lemma_without(before.missing, new);
                    assert forall|id: u32| #[trigger]
                        after.missing.contains(id) <==> after.window.awaits(id as int) by {
                        assert(before.missing.contains(id) <==> old.awaits(id as int));
                        assert(before.missing.contains(new) <==> old.awaits(new as int));
                    }
                }
            },
            Step::MarkLost(lost) => {
                lemma_steps_keep_wf(old, lost, Seq::empty());
                lemma_without(before.missing, lost);
                assert forall|id: u32| #[trigger]
                    after.missing.contains(id) <==> after.window.awaits(id as int) by {
                    assert(before.missing.contains(id) <==> old.awaits(id as int));
                }
            },
            Step::Drain => {
                lemma_steps_keep_wf(old, 0, Seq::empty());
                lemma_leading(old.slots);
                assert forall|id: u32| #[trigger]
                    after.missing.contains(id) <==> after.window.awaits(id as int) by {
                    assert(before.missing.contains(id) <==> old.awaits(id as int));
                    if old.holds(id as int) {
                        let at = id - old.base();
                        if at >= old.ready_len() {
                            assert(after.window.slot(id as int) == old.slots[at]);
                        } else {
                            assert(!(old.slots[at] is Empty));
                        }
                    }
                }
            },
        }
    }
}

/// At any time, a packet whose id is at or above the id that is expected
/// next puts exactly the ids that it skips on record, behind those that were
/// on record, in ascending order. The slots of the skipped ids are empty,
/// and where an id was skipped, nothing from the first of them on is ready.
pub proof fn lemma_skipped_ids_are_recorded(steps: Seq<Step>, id: u32, payload: Seq<u8>)
    requires
        id >= run(steps).window.next,
    ensures
        run(steps.push(Step::Observe(id, payload))).missing == run(steps).missing + id_range(
            run(steps).window.next,
            id as int,
        ),
        forall|skipped: int|
            run(steps).window.next <= skipped < id ==> run(
                steps.push(Step::Observe(id, payload)),
            ).window.awaits(skipped),
        id > run(steps).window.next ==> run(
            steps.push(Step::Observe(id, payload)),
        ).window.ready_len() <= run(steps).window.slots.len(),
{
    let before = run(steps);
    let longer = steps.push(Step::Observe(id, payload));
    assert(longer.drop_last() =~= steps);
    lemma_missing_is_awaited(steps);
    lemma_handed_on(steps);
    assert forall|other: u32| before.window.next <= other < id implies !before.missing.contains(
        other,
    ) by {
        assert(before.missing.contains(other) <==> before.window.awaits(other as int));
    }
    lemma_with_fresh_gap(before.missing, before.window.next, id as int);
    let after = run(longer).window;
    lemma_leading(after.slots);
    if before.window.next < id {
        assert(after.slots[before.window.slots.len() as int] is Empty);
    }
}

/// What is handed on is in the strict order of the ids, without a hole:
/// each entry has the id that follows the id of the entry before it.
pub proof fn lemma_ready_in_order(window: Window)
    requires
        window.wf(),
    ensures
        window.ready().len() == window.ready_len(),
        forall|i: int|
            0 <= i < window.ready().len() ==> (#[trigger] window.ready()[i]).id == window.base() + i,
        forall|i: int|
            0 <= i < window.ready().len() ==> !((#[trigger] window.ready()[i]).entry is Missed),
        window.ready_len() < window.slots.len() ==> window.awaits(window.base() + window.ready_len()),
{
    lemma_leading(window.slots);
    assert forall|i: int| 0 <= i < window.ready().len() implies !((#[trigger] window.ready()[i]).entry
        is Missed) by {
        assert(!(window.slots[i] is Empty));
    }
}

} // verus!
