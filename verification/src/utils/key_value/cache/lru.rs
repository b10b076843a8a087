//! A least-recently-used cache of bounded size.

use super::order::{lru_get, lru_limit, lru_new, lru_order, lru_pop, lru_push, KeyOrder};
use super::Cache;
use crate::utils::recency;
use crate::utils::recency::{
    lemma_delete_resolves, lemma_insert_resolves, lemma_same_keys, lemma_touch_resolves, placed,
    resolve,
};
use crate::utils::slab::Slab;
use vstd::prelude::*;

verus! {

/// What an [`LruCache`] holds: its pairs, most recently used first, and the
/// number of pairs it may hold.
pub ghost struct LruView<V> {
    pub order: Seq<(Seq<char>, V)>,
    pub capacity: nat,
}

/// A cache that holds at most `capacity` pairs and drops the least recently used
/// one to make room. Looking a key up or putting it in counts as a use. A cache
/// of capacity zero holds nothing.
pub struct LruCache<V> {
    /// Keys in order of use, each with the slot of its value. `None` for a cache
    /// of capacity zero.
    order: Option<KeyOrder>,
    values: Slab<V>,
}

impl<V> View for LruCache<V> {
    type V = LruView<V>;

    closed spec fn view(&self) -> LruView<V> {
        LruView { order: resolve(self.slots(), self.values@), capacity: self.limit() }
    }
}

impl<V> LruCache<V> {
    closed spec fn slots(&self) -> Seq<(Seq<char>, usize)> {
        match self.order {
            Some(cache) => lru_order(cache),
            None => Seq::empty(),
        }
    }

    closed spec fn limit(&self) -> nat {
        match self.order {
            Some(cache) => lru_limit(cache),
            None => 0,
        }
    }

    /// An empty cache that holds at most `capacity` pairs.
    pub fn new(capacity: usize) -> (cache: Self)
        ensures
            cache.wf(),
            cache@.order == Seq::<(Seq<char>, V)>::empty(),
            cache@.capacity == capacity,
    {
        let order = if capacity == 0 {
            None
        } else {
            Some(lru_new(capacity))
        };
        let cache = LruCache { order, values: Slab::new() };
        assert(cache@.order =~= Seq::<(Seq<char>, V)>::empty());
        cache
    }

    /// The number of values that the cache has in memory.
    pub closed spec fn stored(&self) -> nat {
        self.values@.dom().len()
    }

    /// A well-formed cache repeats no key and stays within its capacity, and has
    /// no value in memory but those of its pairs.
    pub proof fn lemma_bounded(&self)
        requires
            self.wf(),
        ensures
            recency::distinct(self@.order),
            self@.order.len() <= self@.capacity,
            self.stored() <= self@.order.len(),
    {
        if self.order is Some {
            lemma_same_keys(self.slots(), self@.order, Seq::empty());
        }
        recency::lemma_placed_count(self.slots(), self.values@);
    }
}

impl<V> Cache<V> for LruCache<V> {
    closed spec fn wf(&self) -> bool {
        match self.order {
            Some(cache) => {
                &&& lru_limit(cache) > 0
                &&& lru_order(cache).len() <= lru_limit(cache)
                &&& recency::distinct(lru_order(cache))
                &&& placed(lru_order(cache), self.values@)
            },
            None => placed(Seq::empty(), self.values@),
        }
    }

    open spec fn entries(view: LruView<V>) -> Map<Seq<char>, V> {
        recency::entries(view.order)
    }

    open spec fn insert_spec(
        before: LruView<V>,
        key: Seq<char>,
        value: V,
        after: LruView<V>,
    ) -> bool {
        &&& after.capacity == before.capacity
        &&& after.order == if before.capacity == 0 {
            before.order
        } else {
            recency::put(before.order, key, value, before.capacity)
        }
    }

    open spec fn lookup_spec(before: LruView<V>, key: Seq<char>, after: LruView<V>) -> bool {
        &&& after.capacity == before.capacity
        &&& after.order == recency::touch(before.order, key)
    }

    open spec fn delete_spec(before: LruView<V>, key: Seq<char>, after: LruView<V>) -> bool {
        &&& after.capacity == before.capacity
        &&& after.order == recency::without(before.order, key)
    }

    proof fn lemma_insert_spec(&self, key: Seq<char>, value: V, after: &Self) {
        self.lemma_bounded();
        if self@.capacity > 0 {
            recency::lemma_put(self@.order, key, value, self@.capacity);
        }
    }

    proof fn lemma_lookup_spec(&self, key: Seq<char>, after: &Self) {
        self.lemma_bounded();
        recency::lemma_touch(self@.order, key);
    }

    proof fn lemma_delete_spec(&self, key: Seq<char>, after: &Self) {
        self.lemma_bounded();
        recency::lemma_without(self@.order, key);
    }

    /// Puts the pair in as the most recently used one. A pair with the same key is
    /// replaced; otherwise a full cache drops its least recently used pair.
    fn insert(&mut self, key: String, value: V) {
        let ghost slots = self.slots();
        let ghost limit = self.limit();
        let ghost values = self.values@;
        match self.order.as_mut() {
            Some(order) => {
                let slot = self.values.insert(value);
                match lru_push(order, key, slot) {
                    Some(old_slot) => {
                        self.values.remove(old_slot);
                    },
                    None => {},
                }
                proof {
                    lemma_same_keys(slots, resolve(slots, values), key@);
                    recency::lemma_put(slots, key@, slot, limit);
                    lemma_insert_resolves(slots, values, key@, slot, value, limit, self.values@);
                }
            },
            None => {},
        }
    }

    /// Using a key makes its pair the most recently used one.
    fn lookup(&mut self, key: &String) -> (r: Option<&V>) {
        let ghost slots = self.slots();
        let slot = match self.order.as_mut() {
            Some(order) => lru_get(order, key),
            None => None,
        };
        proof {
            lemma_same_keys(slots, resolve(slots, self.values@), key@);
            recency::lemma_touch(slots, key@);
            lemma_touch_resolves(slots, self.values@, key@);
        }
        match slot {
            Some(slot) => self.values.get(slot),
            None => None,
        }
    }

    /// Takes the pair of the key out; the other pairs keep their order.
    fn delete(&mut self, key: &String) {
        let ghost slots = self.slots();
        let ghost values = self.values@;
        match self.order.as_mut() {
            Some(order) => {
                match lru_pop(order, key) {
                    Some(slot) => {
                        self.values.remove(slot);
                    },
                    None => {},
                }
                proof {
                    lemma_same_keys(slots, resolve(slots, values), key@);
                    recency::lemma_without(slots, key@);
                    lemma_delete_resolves(slots, values, key@, self.values@);
                }
            },
            None => {},
        }
    }
}

} // verus!
