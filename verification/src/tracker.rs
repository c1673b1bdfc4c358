//! The log packets that are known to be outstanding.
//!
//! The receiving side records a gap when it sees a packet whose predecessors
//! have not come; the sending side asks the device for each outstanding packet
//! again with every datagram it sends. An id leaves the record when its data
//! comes or when the device gives notice that it is gone.

use vstd::prelude::*;

verus! {

/// `ids` followed by every id of `from..to` that `ids` does not hold yet, in
/// ascending order.
pub open spec fn with_gap(ids: Seq<u32>, from: int, to: int) -> Seq<u32>
    decreases to - from,
{
    if from >= to {
        ids
    } else {
        let before = with_gap(ids, from, to - 1);
        if before.contains((to - 1) as u32) {
            before
        } else {
            before.push((to - 1) as u32)
        }
    }
}

/// `ids` without `id`, the others in the order they had.
pub open spec fn without(ids: Seq<u32>, id: u32) -> Seq<u32> {
    ids.filter(|other: u32| other != id)
}

/// The ids `from`, `from + 1`, ..., `to - 1`.
pub open spec fn id_range(from: int, to: int) -> Seq<u32> {
    Seq::new(
        if to >= from {
            (to - from) as nat
        } else {
            0
        },
        |i: int| (from + i) as u32,
    )
}

/// Recording a gap keeps what was recorded in place, adds nothing outside
/// the gap, holds every id of the gap afterwards, and repeats none.
pub proof fn lemma_with_gap(ids: Seq<u32>, from: int, to: int)
    requires
        0 <= from,
        to <= u32::MAX + 1,
        ids.no_duplicates(),
    ensures
        with_gap(ids, from, to).no_duplicates(),
        with_gap(ids, from, to).len() >= ids.len(),
        with_gap(ids, from, to).take(ids.len() as int) == ids,
        forall|id: u32|
            #[trigger] with_gap(ids, from, to).contains(id) <==> (ids.contains(id) || from <= id
                < to),
    decreases to - from,
{
    let after = with_gap(ids, from, to);
    if from >= to {
        assert(after.take(ids.len() as int) =~= ids);
    } else {
        lemma_with_gap(ids, from, to - 1);
        let before = with_gap(ids, from, to - 1);
        let last = (to - 1) as u32;
        assert(before.take(ids.len() as int) == ids);
        assert(after.take(ids.len() as int) =~= before.take(ids.len() as int));
        assert forall|id: u32| #[trigger]
            after.contains(id) <==> (ids.contains(id) || from <= id < to) by {
            assert(before.contains(id) <==> (ids.contains(id) || from <= id < to - 1));
            if before.contains(last) {
            } else {
                if after.contains(id) {
                    let i = choose|i: int| 0 <= i < after.len() && after[i] == id;
                    if i < before.len() {
                        assert(before[i] == id);
                    }
                }
                if ids.contains(id) || from <= id < to - 1 {
                    let i = choose|i: int| 0 <= i < before.len() && before[i] == id;
                    assert(after[i] == id);
                }
                if id == last {
                    assert(after[before.len() as int] == id);
                }
            }
        }
        if !before.contains(last) {
            assert forall|i: int, j: int|
                0 <= i < after.len() && 0 <= j < after.len() && i != j implies after[i]
                != after[j] by {
                if i < before.len() && j < before.len() {
                    assert(before[i] != before[j]);
                } else if i < before.len() {
                    assert(before[i] == after[i]);
                } else {
                    assert(before[j] == after[j]);
                }
            }
        }
    }
}

/// Where no id of the gap is recorded yet, recording it appends the whole
/// gap, in ascending order.
pub proof fn lemma_with_fresh_gap(ids: Seq<u32>, from: int, to: int)
    requires
        0 <= from <= to,
        to <= u32::MAX + 1,
        ids.no_duplicates(),
        forall|id: u32| from <= id < to ==> !ids.contains(id),
    ensures
        with_gap(ids, from, to) == ids + id_range(from, to),
    decreases to - from,
{
    if from >= to {
        assert(with_gap(ids, from, to) =~= ids + id_range(from, to));
    } else {
        lemma_with_fresh_gap(ids, from, to - 1);
        lemma_with_gap(ids, from, to - 1);
        let before = with_gap(ids, from, to - 1);
        assert(!before.contains((to - 1) as u32));
        assert(before.push((to - 1) as u32) =~= ids + id_range(from, to));
    }
}

/// Taking out an id that stands at one place only removes that place.
pub proof fn lemma_without_is_remove(ids: Seq<u32>, at: int)
    requires
        ids.no_duplicates(),
        0 <= at < ids.len(),
    ensures
        without(ids, ids[at]) == ids.remove(at),
    decreases ids.len(),
{
    let id = ids[at];
    let keep = |other: u32| other != id;
    let front = ids.drop_last();
    reveal(Seq::filter);
    if at == ids.len() - 1 {
        lemma_without_absent(front, id);
        assert(ids.remove(at) =~= front);
    } else {
        lemma_without_is_remove(front, at);
        assert(ids.last() != id);
        assert(ids.remove(at) =~= front.remove(at).push(ids.last()));
    }
}

/// Taking out an id that is not recorded changes nothing.
pub proof fn lemma_without_absent(ids: Seq<u32>, id: u32)
    requires
        !ids.contains(id),
    ensures
        without(ids, id) == ids,
    decreases ids.len(),
{
    reveal(Seq::filter);
    if ids.len() > 0 {
        let front = ids.drop_last();
        assert forall|i: int| 0 <= i < front.len() implies front[i] != id by {
            assert(ids[i] == front[i]);
        }
        lemma_without_absent(front, id);
        assert(ids[ids.len() - 1] != id);
        assert(front.push(ids.last()) =~= ids);
    }
}

/// After an id is taken out it is no longer recorded; every other id is
/// recorded exactly if it was; and none is repeated.
pub proof fn lemma_without(ids: Seq<u32>, id: u32)
    requires
        ids.no_duplicates(),
    ensures
        without(ids, id).no_duplicates(),
        !without(ids, id).contains(id),
        forall|other: u32| other != id ==> (without(ids, id).contains(other) <==> ids.contains(other)),
{
    if ids.contains(id) {
        let at = choose|i: int| 0 <= i < ids.len() && ids[i] == id;
        lemma_without_is_remove(ids, at);
        let rest = ids.remove(at);
        assert forall|other: u32| other != id implies (rest.contains(other) <==> ids.contains(
            other,
        )) by {
            if rest.contains(other) {
                let i = choose|i: int| 0 <= i < rest.len() && rest[i] == other;
                if i < at {
                    assert(ids[i] == other);
                } else {
                    assert(ids[i + 1] == other);
                }
            }
            if ids.contains(other) {
                let i = choose|i: int| 0 <= i < ids.len() && ids[i] == other;
                if i < at {
                    assert(rest[i] == other);
                } else {
                    assert(rest[i - 1] == other);
                }
            }
        }
        if rest.contains(id) {
            let i = choose|i: int| 0 <= i < rest.len() && rest[i] == id;
            if i < at {
                assert(ids[i] == id);
            } else {
                assert(ids[i + 1] == id);
            }
        }
    } else {
        lemma_without_absent(ids, id);
    }
}

/// The record of outstanding log packets: their ids, each at most once, in
/// the order in which they were recorded.
pub struct MissingLogTracker {
    ids: Vec<u32>,
}

impl View for MissingLogTracker {
    type V = Seq<u32>;

    closed spec fn view(&self) -> Seq<u32> {
        self.ids@
    }
}

impl MissingLogTracker {
    #[verifier::type_invariant]
    spec fn no_id_twice(&self) -> bool {
        self.ids@.no_duplicates()
    }

    /// A record with nothing outstanding.
    pub fn new() -> (tracker: Self)
        ensures
            tracker@ == Seq::<u32>::empty(),
    {
        MissingLogTracker { ids: Vec::new() }
    }

    /// Takes the ids out of the record to work on them.
    fn take_ids(&mut self) -> (ids: Vec<u32>)
        ensures
            ids@ == old(self)@,
            ids@.no_duplicates(),
            final(self)@.len() == 0,
    {
        proof {
            use_type_invariant(&*self);
        }
        let mut ids: Vec<u32> = Vec::new();
        core::mem::swap(&mut ids, &mut self.ids);
        ids
    }

    /// Puts ids back into a record that holds none.
    fn put_ids(&mut self, ids: Vec<u32>)
        requires
            old(self)@.len() == 0,
            ids@.no_duplicates(),
        ensures
            final(self)@ == ids@,
    {
        let mut ids = ids;
        core::mem::swap(&mut ids, &mut self.ids);
    }

    /// Tells whether `id` is outstanding.
    pub fn contains(&self, id: u32) -> (found: bool)
        ensures
            found == self@.contains(id),
            self@.no_duplicates(),
    {
        proof {
            use_type_invariant(self);
        }
        holds(&self.ids, id)
    }

    /// Number of outstanding packets.
    pub fn len(&self) -> (len: usize)
        ensures
            len == self@.len(),
            self@.no_duplicates(),
    {
        proof {
            use_type_invariant(self);
        }
        self.ids.len()
    }

    /// Records every id of `from_id..to_id_exclusive` as outstanding, in
    /// ascending order. An id that is recorded already stays where it is.
    pub fn record_gap(&mut self, from_id: u32, to_id_exclusive: u32)
        ensures
            old(self)@.no_duplicates(),
            final(self)@.no_duplicates(),
            final(self)@ == with_gap(old(self)@, from_id as int, to_id_exclusive as int),
    {
        let mut ids = self.take_ids();
        let ghost before = ids@;
        proof {
            lemma_with_gap(before, from_id as int, to_id_exclusive as int);
        }
        let mut id: u32 = from_id;
        while id < to_id_exclusive
            invariant
                from_id <= id,
                id <= to_id_exclusive || id == from_id,
                ids@ == with_gap(before, from_id as int, id as int),
            decreases to_id_exclusive - id,
        {
            if !holds(&ids, id) {
                ids.push(id);
            }
            id += 1;
        }
        self.put_ids(ids);
    }

    /// Takes `id` out of the record. Nothing happens if it is not there.
    pub fn resolve(&mut self, id: u32)
        ensures
            old(self)@.no_duplicates(),
            final(self)@.no_duplicates(),
            final(self)@ == without(old(self)@, id),
    {
        let ids = self.take_ids();
        proof {
            lemma_without(ids@, id);
        }
        let mut kept: Vec<u32> = Vec::new();
        let mut i: usize = 0;
        proof {
            reveal(Seq::filter);
            assert(ids@.take(0) =~= Seq::<u32>::empty());
        }
        while i < ids.len()
            invariant
                i <= ids@.len(),
                kept@ == without(ids@.take(i as int), id),
            decreases ids@.len() - i,
        {
            proof {
                reveal(Seq::filter);
                assert(ids@.take(i + 1).drop_last() =~= ids@.take(i as int));
            }
            if ids[i] != id {
                kept.push(ids[i]);
            }
            i += 1;
        }
        assert(ids@.take(i as int) =~= ids@);
        self.put_ids(kept);
    }

    /// A copy of the outstanding ids, in the order of the record, for the
    /// requests of the next datagram. The record stays as it is.
    pub fn snapshot_for_request(&self) -> (ids: Vec<u32>)
        ensures
            ids@ == self@,
            ids@.no_duplicates(),
    {
        proof {
            use_type_invariant(self);
        }
        let mut ids: Vec<u32> = Vec::new();
        let mut i: usize = 0;
        while i < self.ids.len()
            invariant
                i <= self.ids@.len(),
                ids@ == self.ids@.take(i as int),
            decreases self.ids@.len() - i,
        {
            ids.push(self.ids[i]);
            assert(self.ids@.take(i + 1) =~= self.ids@.take(i as int).push(self.ids@[i as int]));
            i += 1;
        }
        assert(self.ids@.take(i as int) =~= self.ids@);
        ids
    }
}

/// Tells whether `id` is among `ids`.
fn holds(ids: &Vec<u32>, id: u32) -> (found: bool)
    ensures
        found == ids@.contains(id),
{
    let mut i: usize = 0;
    while i < ids.len()
        invariant
            i <= ids@.len(),
            forall|j: int| 0 <= j < i ==> ids@[j] != id,
        decreases ids@.len() - i,
    {
        if ids[i] == id {
            return true;
        }
        i += 1;
    }
    false
}

} // verus!
