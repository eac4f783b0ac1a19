//! What is kept per roster slot, in the order of the slots.

use vstd::prelude::*;

verus! {

/// Values that start out blank.
pub trait Blank: View + Sized {
    spec fn blank_view() -> Self::V;

    fn blank() -> (value: Self)
        ensures
            value@ == Self::blank_view(),
    ;
}

/// The slots of a table stand in increasing order, each once.
pub open spec fn in_slot_order<W>(entries: Seq<(usize, W)>) -> bool {
    forall|i: int, j: int| 0 <= i < j < entries.len() ==> (#[trigger] entries[i]).0 < (
    #[trigger] entries[j]).0
}

/// What a slot holds, if the table has the slot.
#[verifier::opaque]
pub open spec fn lookup<W>(entries: Seq<(usize, W)>, slot: usize) -> Option<W>
    decreases entries.len(),
{
    if entries.len() == 0 {
        None
    } else if entries[0].0 == slot {
        Some(entries[0].1)
    } else {
        lookup(entries.drop_first(), slot)
    }
}

/// How many slots of the table come before a slot.
pub open spec fn slots_before<W>(entries: Seq<(usize, W)>, slot: usize) -> int
    decreases entries.len(),
{
    if entries.len() == 0 || entries[0].0 >= slot {
        0
    } else {
        1 + slots_before(entries.drop_first(), slot)
    }
}

/// Whether the table has the slot.
pub open spec fn has_slot<W>(entries: Seq<(usize, W)>, slot: usize) -> bool {
    let k = slots_before(entries, slot);
    k < entries.len() && entries[k].0 == slot
}

/// The table with a value in a slot.
#[verifier::opaque]
pub open spec fn put<W>(entries: Seq<(usize, W)>, slot: usize, value: W) -> Seq<(usize, W)> {
    let k = slots_before(entries, slot);
    if has_slot(entries, slot) {
        entries.update(k, (slot, value))
    } else {
        entries.insert(k, (slot, value))
    }
}

pub proof fn lemma_slots_before<W>(entries: Seq<(usize, W)>, slot: usize)
    requires
        in_slot_order(entries),
    ensures
        0 <= slots_before(entries, slot) <= entries.len(),
        forall|i: int| 0 <= i < slots_before(entries, slot) ==> (#[trigger] entries[i]).0 < slot,
        forall|i: int|
            slots_before(entries, slot) <= i < entries.len() ==> (#[trigger] entries[i]).0 >= slot,
    decreases entries.len(),
{
    if entries.len() > 0 && entries[0].0 < slot {
        let rest = entries.drop_first();
        assert(in_slot_order(rest)) by {
            assert forall|i: int, j: int| 0 <= i < j < rest.len() implies (#[trigger] rest[i]).0 < (
            #[trigger] rest[j]).0 by {
                assert(entries[i + 1].0 < entries[j + 1].0);
            }
        }
        lemma_slots_before(rest, slot);
        assert forall|i: int| 0 <= i < slots_before(entries, slot) implies (
        #[trigger] entries[i]).0 < slot by {
            if i > 0 {
                assert(rest[i - 1].0 < slot);
            }
        }
        assert forall|i: int| slots_before(entries, slot) <= i < entries.len() implies (
        #[trigger] entries[i]).0 >= slot by {
            assert(rest[i - 1].0 >= slot);
        }
    }
}

pub proof fn lemma_lookup<W>(entries: Seq<(usize, W)>, slot: usize)
    requires
        in_slot_order(entries),
    ensures
        lookup(entries, slot) == (if has_slot(entries, slot) {
            Some(entries[slots_before(entries, slot)].1)
        } else {
            None
        }),
        has_slot(entries, slot) <==> exists|i: int|
            0 <= i < entries.len() && (#[trigger] entries[i]).0 == slot,
    decreases entries.len(),
{
    reveal(lookup);
    lemma_slots_before(entries, slot);
    if entries.len() > 0 && entries[0].0 != slot {
        let rest = entries.drop_first();
        assert(in_slot_order(rest)) by {
            assert forall|i: int, j: int| 0 <= i < j < rest.len() implies (#[trigger] rest[i]).0 < (
            #[trigger] rest[j]).0 by {
                assert(entries[i + 1].0 < entries[j + 1].0);
            }
        }
        lemma_lookup(rest, slot);
        lemma_slots_before(rest, slot);
        if entries[0].0 > slot {
            if rest.len() > 0 {
                assert(entries[0].0 < entries[1].0);
                assert(rest[0] == entries[1]);
            }
            assert(slots_before(rest, slot) == 0);
        }
    }
    if has_slot(entries, slot) {
        assert(entries[slots_before(entries, slot)].0 == slot);
    }
    assert forall|i: int| 0 <= i < entries.len() && (#[trigger] entries[i]).0 == slot implies has_slot(
        entries,
        slot,
    ) by {
        let k = slots_before(entries, slot);
        assert(i >= k);
        if i > k {
            assert(entries[k].0 < entries[i].0);
        }
    }
}

/// A table stays in order, and a slot is looked up as what was last put there; the
/// other slots keep what they hold.
pub proof fn law_put_then_lookup<W>(
    entries: Seq<(usize, W)>,
    slot: usize,
    value: W,
    other: usize,
)
    requires
        in_slot_order(entries),
    ensures
        in_slot_order(put(entries, slot, value)),
        lookup(put(entries, slot, value), other) == (if other == slot {
            Some(value)
        } else {
            lookup(entries, other)
        }),
{
    reveal(put);
    let after = put(entries, slot, value);
    let k = slots_before(entries, slot);
    lemma_slots_before(entries, slot);
    assert(in_slot_order(after)) by {
        assert forall|i: int, j: int| 0 <= i < j < after.len() implies (#[trigger] after[i]).0 < (
        #[trigger] after[j]).0 by {
            if has_slot(entries, slot) {
                assert(after[i].0 == entries[i].0 && after[j].0 == entries[j].0);
            } else {
                let a = if i < k {
                    i
                } else {
                    i - 1
                };
                let b = if j < k {
                    j
                } else {
                    j - 1
                };
                if i != k {
                    assert(after[i] == entries[a]);
                }
                if j != k {
                    assert(after[j] == entries[b]);
                }
                if i == k {
                    assert(entries[b].0 >= slot && (b == k ==> entries[b].0 != slot));
                    if b > k {
                        assert(entries[k].0 < entries[b].0);
                    }
                }
            }
        }
    }
    lemma_lookup(after, other);
    lemma_lookup(entries, other);
    if other == slot {
        assert(after[k] == (slot, value));
        lemma_slots_before(after, slot);
        let m = slots_before(after, slot);
        if m < k {
            assert(after[m].0 < after[k].0);
        }
        if k < m {
            assert(after[k].0 < slot);
        }
    } else {
        if has_slot(entries, other) {
            let p = slots_before(entries, other);
            lemma_slots_before(entries, other);
            let q = if has_slot(entries, slot) || p < k {
                p
            } else {
                p + 1
            };
            assert(after[q] == entries[p]);
            let m = slots_before(after, other);
            lemma_slots_before(after, other);
            if m < q {
                assert(after[m].0 < after[q].0);
            }
            if q < m {
                assert(after[q].0 < other);
            }
        } else if has_slot(after, other) {
            let m = slots_before(after, other);
            assert(after[m].0 == other);
            let p = if has_slot(entries, slot) || m < k {
                m
            } else {
                m - 1
            };
            assert(m != k);
            assert(entries[p] == after[m]);
        }
    }
}

proof fn lemma_rest_in_order<W>(entries: Seq<(usize, W)>)
    requires
        in_slot_order(entries),
        entries.len() > 0,
    ensures
        in_slot_order(entries.drop_first()),
        lookup(entries.drop_first(), entries[0].0) is None,
{
    let rest = entries.drop_first();
    assert forall|i: int, j: int| 0 <= i < j < rest.len() implies (#[trigger] rest[i]).0 < (
    #[trigger] rest[j]).0 by {
        assert(entries[i + 1].0 < entries[j + 1].0);
    }
    lemma_lookup(rest, entries[0].0);
    if has_slot(rest, entries[0].0) {
        let k = choose|k: int| 0 <= k < rest.len() && (#[trigger] rest[k]).0 == entries[0].0;
        assert(entries[0].0 < entries[k + 1].0);
    }
}

/// Tables in which every slot holds the same are the same.
pub proof fn law_tables_are_their_slots<W>(left: Seq<(usize, W)>, right: Seq<(usize, W)>)
    requires
        in_slot_order(left),
        in_slot_order(right),
        forall|slot: usize| #[trigger] lookup(left, slot) == lookup(right, slot),
    ensures
        left == right,
    decreases left.len(),
{
    reveal(lookup);
    if left.len() > 0 {
        lemma_rest_in_order(left);
        assert(lookup(left, left[0].0) == lookup(right, left[0].0));
    }
    if right.len() > 0 {
        lemma_rest_in_order(right);
        assert(lookup(left, right[0].0) == lookup(right, right[0].0));
    }
    if left.len() > 0 && right.len() > 0 {
        lemma_lookup(left, right[0].0);
        lemma_lookup(right, left[0].0);
        lemma_slots_before(left, right[0].0);
        lemma_slots_before(right, left[0].0);
        assert(left[0].0 == right[0].0);
        let l = left.drop_first();
        let r = right.drop_first();
        assert forall|slot: usize| #[trigger] lookup(l, slot) == lookup(r, slot) by {
            assert(lookup(left, slot) == lookup(right, slot));
        }
        law_tables_are_their_slots(l, r);
        assert(left =~= seq![left[0]] + l);
        assert(right =~= seq![right[0]] + r);
    } else {
        assert(left =~= right);
    }
}

/// The contents of a list of slots with their values.
pub open spec fn entry_contents<T: View>(entries: Seq<(usize, T)>) -> Seq<(usize, T::V)> {
    Seq::new(entries.len(), |i: int| (entries[i].0, entries[i].1@))
}

/// Values by slot.
#[derive(Debug)]
pub struct SlotTable<T> {
    entries: Vec<(usize, T)>,
}

impl<T: View> View for SlotTable<T> {
    type V = Seq<(usize, T::V)>;

    closed spec fn view(&self) -> Seq<(usize, T::V)> {
        entry_contents(self.entries@)
    }
}

/// What a slot of a table holds: blank, where nothing was put.
pub open spec fn held<T: Blank>(entries: Seq<(usize, T::V)>, slot: usize) -> T::V {
    match lookup(entries, slot) {
        Some(value) => value,
        None => T::blank_view(),
    }
}

impl<T: Blank> SlotTable<T> {
    /// The slots stand in order.
    pub open spec fn wf(&self) -> bool {
        in_slot_order(self@)
    }

    pub fn new() -> (table: Self)
        ensures
            table.wf(),
            table@ == Seq::<(usize, T::V)>::empty(),
    {
        let table = SlotTable { entries: Vec::new() };
        assert(table@ =~= Seq::<(usize, T::V)>::empty());
        table
    }

    /// How many slots the table has.
    pub fn len(&self) -> (count: usize)
        ensures
            count == self@.len(),
    {
        self.entries.len()
    }

    /// The slot at a place of the order.
    pub fn slot_at(&self, index: usize) -> (slot: usize)
        requires
            index < self@.len(),
        ensures
            slot == self@[index as int].0,
    {
        self.entries[index].0
    }

    /// What stands at a place of the order.
    pub fn value_at(&self, index: usize) -> (value: &T)
        requires
            index < self@.len(),
        ensures
            value@ == self@[index as int].1,
    {
        &self.entries[index].1
    }

    fn place(&self, slot: usize) -> (index: usize)
        requires
            self.wf(),
        ensures
            index == slots_before(self@, slot),
            index <= self@.len(),
    {
        let mut index: usize = 0;
        proof {
            lemma_slots_before(self@, slot);
        }
        while index < self.entries.len() && self.entries[index].0 < slot
            invariant
                self.wf(),
                index <= self.entries@.len(),
                forall|i: int| 0 <= i < index ==> (#[trigger] self@[i]).0 < slot,
                forall|i: int| 0 <= i < slots_before(self@, slot) ==> (#[trigger] self@[i]).0 < slot,
                forall|i: int|
                    slots_before(self@, slot) <= i < self@.len() ==> (#[trigger] self@[i]).0
                        >= slot,
                0 <= slots_before(self@, slot) <= self@.len(),
            decreases self.entries@.len() - index,
        {
            assert(self@[index as int].0 == self.entries@[index as int].0);
            index = index + 1;
        }
        proof {
            if index < self@.len() {
                assert(self@[index as int].0 == self.entries@[index as int].0);
            }
            if index > slots_before(self@, slot) {
                assert(self@[slots_before(self@, slot)].0 < slot);
            }
        }
        index
    }

    /// What a slot holds, if anything was ever put there.
    pub fn get(&self, slot: usize) -> (value: Option<&T>)
        requires
            self.wf(),
        ensures
            match value {
                Some(found) => lookup(self@, slot) == Some(found@),
                None => lookup(self@, slot) is None,
            },
    {
        proof {
            lemma_lookup(self@, slot);
        }
        let index = self.place(slot);
        if index < self.entries.len() && self.entries[index].0 == slot {
            assert(self@[index as int] == (slot, self.entries@[index as int].1@));
            Some(&self.entries[index].1)
        } else {
            proof {
                if index < self.entries@.len() {
                    assert(self@[index as int].0 == self.entries@[index as int].0);
                }
            }
            None
        }
    }

    /// The value of a slot, to be changed in place.
    pub fn slot(&mut self, slot: usize) -> (value: &mut T)
        requires
            old(self).wf(),
        ensures
            value@ == held::<T>(old(self)@, slot),
            final(self).wf(),
            final(self)@ == put(old(self)@, slot, (*final(value))@),
    {
        let ghost before = self@;
        let index = self.place(slot);
        proof {
            lemma_lookup(before, slot);
            lemma_slots_before(before, slot);
        }
        if !(index < self.entries.len() && self.entries[index].0 == slot) {
            proof {
                if index < self.entries@.len() {
                    assert(before[index as int].0 == self.entries@[index as int].0);
                }
            }
            self.entries.insert(index, (slot, T::blank()));
        } else {
            assert(before[index as int] == (slot, self.entries@[index as int].1@));
        }
        let ghost middle = self.entries@;
        let value = &mut self.entries[index].1;
        proof {
            reveal(put);
            let after = put(before, slot, (*final(value))@);
            law_put_then_lookup(before, slot, (*final(value))@, slot);
            assert(entry_contents(middle.update(index as int, (slot, *final(value)))) =~= after);
        }
        value
    }
}

} // verus!
