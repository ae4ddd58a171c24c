//! The slot map that holds the pattern instances currently sounding.
//!
//! `slotmap::SlotMap` is the engine's store of sounding patterns. Its slots and
//! its free list are described by the names [`slot_entries`] and
//! [`free_slots`], and every method the scheduler calls goes through a wrapper
//! whose contract states what the method does to them.
use vstd::prelude::*;
use vstd::multiset::Multiset;
use slotmap::{DefaultKey, SlotMap};
use crate::midi::Tick;

verus! {

/// A pattern instance that is sounding: where its parts are kept in the
/// project, when it started and how long it lasts.
#[derive(Clone, Copy, PartialEq, Eq, Debug, Structural)]
pub struct ActivePattern {
    /// Index of the instance in `Project::patterns`.
    pub instance: usize,
    /// Index of its pattern in `Registry::patterns`.
    pub pattern: usize,
    /// Index of its track in `Registry::tracks`.
    pub track: usize,
    pub start: Tick,
    pub duration: Tick,
}

/// The predicate "still sounds at `tick`", as a function.
pub open spec fn still_sounding(tick: Tick) -> spec_fn(ActivePattern) -> bool {
    |a: ActivePattern| a.sounds_at(tick)
}

impl ActivePattern {
    /// The instance still sounds at `tick`: it ends (start plus duration) after it.
    pub open spec fn sounds_at(self, tick: Tick) -> bool {
        self.start.0 + self.duration.0 > tick.0
    }

    /// Whether the instance still sounds at `tick`.
    pub fn is_sounding_at(&self, tick: Tick) -> (b: bool)
        ensures
            b == self.sounds_at(tick),
    {
        (self.start.0 as u128) + (self.duration.0 as u128) > (tick.0 as u128)
    }
}

/// The pattern instances currently sounding, held in a `slotmap::SlotMap` in a
/// private field; the wrappers below are the only code that touches the map.
#[verifier::external_body]
pub struct ActiveSlots {
    map: SlotMap<DefaultKey, ActivePattern>,
}

/// The slots of the map in index order (the map's reserved first slot left
/// out): a value, or `None` for a vacant slot.
pub uninterp spec fn slot_entries(slots: ActiveSlots) -> Seq<Option<ActivePattern>>;

/// The vacant slots the map reuses, in the order it reuses them (its free
/// list, head first), as indices into `slot_entries`.
pub uninterp spec fn free_slots(slots: ActiveSlots) -> Seq<usize>;

/// The free list names distinct vacant slots, and every vacant slot is on it.
pub open spec fn slots_wf(entries: Seq<Option<ActivePattern>>, free: Seq<usize>) -> bool {
    &&& forall|i: int| 0 <= i < free.len() ==> (#[trigger] free[i]) < entries.len() && entries[free[i] as int] is None
    &&& forall|i: int, j: int| 0 <= i < j < free.len() ==> free[i] != free[j]
    &&& forall|k: int| 0 <= k < entries.len() && (#[trigger] entries[k]) is None ==> free.contains(k as usize)
}

/// The values of `entries`, in slot order.
pub open spec fn present(entries: Seq<Option<ActivePattern>>) -> Seq<ActivePattern>
    decreases entries.len(),
{
    if entries.len() == 0 {
        seq![]
    } else {
        let rest = present(entries.drop_last());
        match entries.last() {
            Some(a) => rest.push(a),
            None => rest,
        }
    }
}

/// The values held by a slot map of sounding pattern instances.
pub open spec fn active_slots(slots: ActiveSlots) -> Multiset<ActivePattern> {
    present(slot_entries(slots)).to_multiset()
}

/// Slots and free list after inserting `v`: into the slot at the head of the
/// free list, or into a new slot at the end when the list is empty.
pub open spec fn after_insert(entries: Seq<Option<ActivePattern>>, free: Seq<usize>, v: ActivePattern) -> (Seq<Option<ActivePattern>>, Seq<usize>) {
    if free.len() > 0 {
        (entries.update(free[0] as int, Some(v)), free.drop_first())
    } else {
        (entries.push(Some(v)), free)
    }
}

/// Slots after dropping the values that no longer sound at `tick`.
pub open spec fn after_retain(entries: Seq<Option<ActivePattern>>, tick: Tick) -> Seq<Option<ActivePattern>> {
    Seq::new(
        entries.len(),
        |i: int|
            match entries[i] {
                Some(a) => if a.sounds_at(tick) {
                    Some(a)
                } else {
                    None
                },
                None => None,
            },
    )
}

/// The slots emptied by dropping the values that no longer sound at `tick`,
/// highest index first: the order in which they head the free list.
pub open spec fn dropped_slots(entries: Seq<Option<ActivePattern>>, tick: Tick) -> Seq<usize>
    decreases entries.len(),
{
    if entries.len() == 0 {
        seq![]
    } else {
        let here: Seq<usize> = match entries.last() {
            Some(a) => if a.sounds_at(tick) {
                seq![]
            } else {
                seq![(entries.len() - 1) as usize]
            },
            None => seq![],
        };
        here + dropped_slots(entries.drop_last(), tick)
    }
}

/// Calls `SlotMap::with_capacity`: a new slot map has no slots and an empty
/// free list.
#[verifier::external_body]
pub(crate) fn new_active_slots(capacity: usize) -> (slots: ActiveSlots)
    requires
        capacity < usize::MAX,
    ensures
        slot_entries(slots) == Seq::<Option<ActivePattern>>::empty(),
        free_slots(slots) == Seq::<usize>::empty(),
{
    ActiveSlots { map: SlotMap::with_capacity(capacity) }
}

/// Calls `SlotMap::insert`: the value goes into the slot at the head of the
/// free list, or into a new last slot. The method panics once a new slot would
/// be the `u32::MAX`-th, which `requires` rules out. The key it returns is not
/// used.
#[verifier::external_body]
pub(crate) fn insert_active_slot(slots: &mut ActiveSlots, value: ActivePattern)
    requires
        slots_wf(slot_entries(*old(slots)), free_slots(*old(slots))),
        free_slots(*old(slots)).len() > 0 || slot_entries(*old(slots)).len() + 2 < u32::MAX,
    ensures
        (slot_entries(*final(slots)), free_slots(*final(slots))) == after_insert(
            slot_entries(*old(slots)),
            free_slots(*old(slots)),
            value,
        ),
        slots_wf(slot_entries(*final(slots)), free_slots(*final(slots))),
{
    slots.map.insert(value);
}

/// Calls `SlotMap::retain` with [`ActivePattern::is_sounding_at`]: the values
/// that no longer sound at `tick` leave their slots, visited in index order,
/// and each emptied slot goes to the head of the free list.
#[verifier::external_body]
pub(crate) fn retain_sounding_slots(slots: &mut ActiveSlots, tick: Tick)
    requires
        slots_wf(slot_entries(*old(slots)), free_slots(*old(slots))),
    ensures
        slot_entries(*final(slots)) == after_retain(slot_entries(*old(slots)), tick),
        free_slots(*final(slots)) == dropped_slots(slot_entries(*old(slots)), tick) + free_slots(
            *old(slots),
        ),
        slots_wf(slot_entries(*final(slots)), free_slots(*final(slots))),
{
    slots.map.retain(|_, a| a.is_sounding_at(tick));
}

/// Calls `SlotMap::values` and copies each value out, in slot order.
#[verifier::external_body]
pub(crate) fn active_slot_values(slots: &ActiveSlots) -> (values: Vec<ActivePattern>)
    ensures
        values@ == present(slot_entries(*slots)),
{
    slots.map.values().copied().collect()
}

/// Filling a slot at the end adds its value at the end.
pub proof fn lemma_present_push(entries: Seq<Option<ActivePattern>>, v: ActivePattern)
    ensures
        present(entries.push(Some(v))) == present(entries).push(v),
{
    assert(entries.push(Some(v)).drop_last() =~= entries);
}

/// Filling a vacant slot adds its value once.
pub proof fn lemma_present_fill(entries: Seq<Option<ActivePattern>>, i: int, v: ActivePattern)
    requires
        0 <= i < entries.len(),
        entries[i] is None,
    ensures
        present(entries.update(i, Some(v))).to_multiset() == present(entries).to_multiset().insert(v),
    decreases entries.len(),
{
    broadcast use vstd::multiset::group_multiset_axioms;
    broadcast use vstd::seq_lib::group_to_multiset_ensures;

    let n = entries.len() - 1;
    let upd = entries.update(i, Some(v));
    if i == n {
        assert(upd.drop_last() =~= entries.drop_last());
        assert(present(upd) == present(entries.drop_last()).push(v));
        assert(present(entries) == present(entries.drop_last()));
    } else {
        assert(upd.drop_last() =~= entries.drop_last().update(i, Some(v)));
        lemma_present_fill(entries.drop_last(), i, v);
        match entries.last() {
            Some(a) => {
                assert(present(upd) == present(upd.drop_last()).push(a));
                assert(present(entries) == present(entries.drop_last()).push(a));
                assert(present(upd).to_multiset() =~= present(entries).to_multiset().insert(v));
            },
            None => {},
        }
    }
}

/// Dropping the values that no longer sound filters the values.
pub proof fn lemma_present_retain(entries: Seq<Option<ActivePattern>>, tick: Tick)
    ensures
        present(after_retain(entries, tick)).to_multiset() == present(entries).to_multiset().filter(
            still_sounding(tick),
        ),
    decreases entries.len(),
{
    broadcast use vstd::multiset::group_multiset_axioms;
    broadcast use vstd::seq_lib::group_to_multiset_ensures;

    let r = after_retain(entries, tick);
    if entries.len() == 0 {
        assert(present(r) =~= Seq::<ActivePattern>::empty());
        assert(present(entries).to_multiset().filter(still_sounding(tick))
            =~= Multiset::<ActivePattern>::empty());
    } else {
        assert(r.drop_last() =~= after_retain(entries.drop_last(), tick));
        lemma_present_retain(entries.drop_last(), tick);
        let m = present(entries.drop_last()).to_multiset();
        match entries.last() {
            Some(a) => {
                assert(present(entries) == present(entries.drop_last()).push(a));
                if a.sounds_at(tick) {
                    assert(present(r) == present(r.drop_last()).push(a));
                    assert(m.insert(a).filter(still_sounding(tick)) =~= m.filter(
                        still_sounding(tick),
                    ).insert(a));
                } else {
                    assert(present(r) == present(r.drop_last()));
                    assert(m.insert(a).filter(still_sounding(tick)) =~= m.filter(
                        still_sounding(tick),
                    ));
                }
            },
            None => {
                assert(present(r) == present(r.drop_last()));
            },
        }
    }
}

/// Without vacant slots, every slot holds a value.
pub proof fn lemma_present_full(entries: Seq<Option<ActivePattern>>)
    requires
        forall|k: int| 0 <= k < entries.len() ==> (#[trigger] entries[k]) is Some,
    ensures
        present(entries).len() == entries.len(),
    decreases entries.len(),
{
    if entries.len() > 0 {
        lemma_present_full(entries.drop_last());
    }
}

} // verus!
