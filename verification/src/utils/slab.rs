//! A slot arena: values live in numbered slots, and a freed slot is handed out again.

use vstd::prelude::*;
use vstd::set_lib::{lemma_int_range, lemma_len_subset, lemma_map_size_bound, set_int_range};

verus! {

/// Values in numbered slots.
///
/// The view is the map from each occupied slot to the value in it.
pub struct Slab<V> {
    slots: Vec<Option<V>>,
    /// Slots that were freed. An entry may be stale (out of range or occupied
    /// again); `insert` checks each before it uses it.
    free: Vec<usize>,
}

impl<V> View for Slab<V> {
    type V = Map<usize, V>;

    closed spec fn view(&self) -> Map<usize, V> {
        Map::new(
            |slot: usize| slot < self.slots.len() && self.slots[slot as int] is Some,
            |slot: usize| self.slots[slot as int]->0,
        )
    }
}

impl<V> Slab<V> {
    /// An arena with no occupied slot.
    pub fn new() -> (slab: Self)
        ensures
            slab@ == Map::<usize, V>::empty(),
    {
        let slab = Slab { slots: Vec::new(), free: Vec::new() };
        assert(slab@ =~= Map::<usize, V>::empty());
        slab
    }

    /// An arena has finitely many occupied slots.
    pub proof fn lemma_finite(&self)
        ensures
            self@.dom().finite(),
    {
        let indices = set_int_range(0, self.slots.len() as int);
        let numbered = Set::new(|slot: usize| slot < self.slots.len());
        let number = |i: int| i as usize;
        lemma_int_range(0, self.slots.len() as int);
        assert forall|slot: usize| numbered.contains(slot) == indices.map(number).contains(
            slot,
        ) by {
            if numbered.contains(slot) {
                assert(indices.contains(slot as int) && number(slot as int) == slot);
            }
        }
        assert(indices.map(number) =~= numbered);
        lemma_map_size_bound(indices, numbered, number);
        lemma_len_subset(self@.dom(), numbered);
    }

    /// Whether `slot` is occupied.
    pub fn contains(&self, slot: usize) -> (occupied: bool)
        ensures
            occupied == self@.contains_key(slot),
    {
        slot < self.slots.len() && self.slots[slot].is_some()
    }

    /// The value in `slot`, if the slot is occupied.
    pub fn get(&self, slot: usize) -> (value: Option<&V>)
        ensures
            value == (if self@.contains_key(slot) {
                Some(&self@[slot])
            } else {
                None
            }),
    {
        if slot < self.slots.len() {
            self.slots[slot].as_ref()
        } else {
            None
        }
    }

    /// Mutable access to the value in `slot`, if the slot is occupied. No other
    /// slot changes, and the slot stays occupied.
    pub fn get_mut(&mut self, slot: usize) -> (value: Option<&mut V>)
        ensures
            match value {
                Some(place) => old(self)@.contains_key(slot) && *place == old(self)@[slot]
                    && final(self)@ == old(self)@.insert(slot, *final(place)),
                None => !old(self)@.contains_key(slot) && final(self)@ == old(self)@,
            },
    {
        if slot < self.slots.len() {
            self.slots[slot].as_mut()
        } else {
            None
        }
    }

    /// Puts `value` into a slot that was vacant and returns that slot.
    pub fn insert(&mut self, value: V) -> (slot: usize)
        ensures
            !old(self)@.contains_key(slot),
            final(self)@ == old(self)@.insert(slot, value),
    {
        let mut slot: usize = self.slots.len();
        let mut reuse = false;
        while !reuse && self.free.len() > 0
            invariant
                self.slots == old(self).slots,
                reuse ==> slot < self.slots.len() && self.slots[slot as int] is None,
                !reuse ==> slot == self.slots.len(),
            decreases self.free.len(),
        {
            let candidate = self.free.pop().unwrap();
            if candidate < self.slots.len() && self.slots[candidate].is_none() {
                slot = candidate;
                reuse = true;
            }
        }
        if reuse {
            self.slots[slot] = Some(value);
        } else {
            self.slots.push(Some(value));
        }
        assert(self@ =~= old(self)@.insert(slot, value));
        slot
    }

    /// Empties `slot` and returns what it held.
    pub fn remove(&mut self, slot: usize) -> (value: Option<V>)
        ensures
            value == (if old(self)@.contains_key(slot) {
                Some(old(self)@[slot])
            } else {
                None
            }),
            final(self)@ == old(self)@.remove(slot),
    {
        if slot < self.slots.len() {
            let value = self.slots[slot].take();
            if value.is_some() {
                self.free.push(slot);
            }
            assert(self@ =~= old(self)@.remove(slot));
            value
        } else {
            assert(self@ =~= old(self)@.remove(slot));
            None
        }
    }
}

} // verus!
