//! A bounded cache of loaded values, least recently used out first.

use crate::utils::key_value::cache::lru::LruView;
use crate::utils::recency;
use crate::utils::recency::{
    lemma_drop_last_resolves, lemma_insert_resolves, lemma_same_keys, lemma_touch_resolves, placed,
    resolve,
};
use crate::utils::slab::Slab;
use vstd::prelude::*;

verus! {

/// An `lru_cache::LruCache` from keys to slot numbers. Verus sees nothing inside
/// it: what it holds is named by `list_order` and `list_limit`.
#[verifier::external_body]
pub struct KeyList {
    inner: ::lru_cache::LruCache<String, usize>,
}

/// The pairs that an `lru_cache::LruCache` holds, from the most recently used to
/// the least recently used.
pub uninterp spec fn list_order(list: KeyList) -> Seq<(Seq<char>, usize)>;

/// The capacity that an `lru_cache::LruCache` was made with.
pub uninterp spec fn list_limit(list: KeyList) -> nat;

/// `lru_cache::LruCache::new`: an empty cache with the given capacity, which may
/// be zero.
#[verifier::external_body]
fn list_new(capacity: usize) -> (list: KeyList)
    ensures
        list_order(list) == Seq::<(Seq<char>, usize)>::empty(),
        list_limit(list) == capacity,
{
    KeyList { inner: ::lru_cache::LruCache::new(capacity) }
}

/// `lru_cache::LruCache::contains_key`: whether the key is present. The crate
/// answers by looking the key up, so a key that is present becomes the most
/// recently used one.
#[verifier::external_body]
fn list_contains(list: &mut KeyList, key: &String) -> (present: bool)
    ensures
        list_order(*final(list)) == recency::touch(list_order(*old(list)), key@),
        list_limit(*final(list)) == list_limit(*old(list)),
        present == recency::holds(list_order(*old(list)), key@),
{
    list.inner.contains_key(key)
}

/// `lru_cache::LruCache::insert`: puts the pair at the most recently used end,
/// in place of a pair with the same key if there is one, whose value comes back;
/// then, if the cache holds more pairs than its capacity, drops the least
/// recently used one.
#[verifier::external_body]
fn list_insert(list: &mut KeyList, key: String, slot: usize) -> (out: Option<usize>)
    ensures
        list_order(*final(list)) == recency::put_trim(
            list_order(*old(list)),
            key@,
            slot,
            list_limit(*old(list)),
        ),
        list_limit(*final(list)) == list_limit(*old(list)),
        out == recency::find(list_order(*old(list)), key@),
{
    list.inner.insert(key, slot)
}

/// `lru_cache::LruCache::get_mut`: the value under the key, whose pair becomes
/// the most recently used one. A key that is absent changes nothing.
#[verifier::external_body]
fn list_get(list: &mut KeyList, key: &String) -> (slot: Option<usize>)
    ensures
        list_order(*final(list)) == recency::touch(list_order(*old(list)), key@),
        list_limit(*final(list)) == list_limit(*old(list)),
        slot == recency::find(list_order(*old(list)), key@),
{
    list.inner.get_mut(key).copied()
}

/// `lru_cache::LruCache::remove_lru`: removes the least recently used pair and
/// returns its value; an empty cache stays empty.
#[verifier::external_body]
fn list_remove_lru(list: &mut KeyList) -> (slot: Option<usize>)
    ensures
        list_limit(*final(list)) == list_limit(*old(list)),
        list_order(*old(list)).len() == 0 ==> slot is None && list_order(*final(list))
            == list_order(*old(list)),
        list_order(*old(list)).len() > 0 ==> slot == Some(list_order(*old(list)).last().1)
            && list_order(*final(list)) == list_order(*old(list)).drop_last(),
{
    list.inner.remove_lru().map(|pair| pair.1)
}

/// `lru_cache::LruCache::len`: the number of pairs.
#[verifier::external_body]
fn list_len(list: &KeyList) -> (len: usize)
    ensures
        len == list_order(*list).len(),
{
    list.inner.len()
}

/// `lru_cache::LruCache::capacity`: the capacity that the cache was made with.
#[verifier::external_body]
fn list_capacity(list: &KeyList) -> (capacity: usize)
    ensures
        capacity == list_limit(*list),
{
    list.inner.capacity()
}

/// Values under string keys, at most `capacity` of them; when room is needed the
/// least recently used one goes. A cache of capacity zero keeps nothing.
pub struct Loaded<V> {
    /// Keys in order of use, each with the slot of its value.
    order: KeyList,
    values: Slab<V>,
}

impl<V> View for Loaded<V> {
    type V = LruView<V>;

    closed spec fn view(&self) -> LruView<V> {
        LruView {
            order: resolve(list_order(self.order), self.values@),
            capacity: list_limit(self.order),
        }
    }
}

impl<V> Loaded<V> {
    /// The cache's invariant. Every operation needs it and keeps it.
    pub closed spec fn wf(&self) -> bool {
        &&& list_order(self.order).len() <= list_limit(self.order)
        &&& recency::distinct(list_order(self.order))
        &&& placed(list_order(self.order), self.values@)
    }

    /// The number of values that the cache has in memory.
    pub closed spec fn stored(&self) -> nat {
        self.values@.dom().len()
    }

    /// A well-formed cache repeats no key and stays within its capacity, and has
    /// no value in memory but those of its pairs.
    pub proof fn lemma_bounded(&self)
        requires
            self.wf(),
        ensures
            recency::distinct(self@.order),
            self@.order.len() <= self@.capacity,
            self.stored() <= self@.order.len(),
    {
        lemma_same_keys(list_order(self.order), self@.order, Seq::empty());
        recency::lemma_placed_count(list_order(self.order), self.values@);
    }

    /// An empty cache that keeps at most `capacity` values.
    pub fn new(capacity: usize) -> (cache: Self)
        ensures
            cache.wf(),
            cache@.order == Seq::<(Seq<char>, V)>::empty(),
            cache@.capacity == capacity,
    {
        let cache = Loaded { order: list_new(capacity), values: Slab::new() };
        assert(cache@.order =~= Seq::<(Seq<char>, V)>::empty());
        cache
    }

    /// Whether a value is cached under `key`. Asking counts as a use of the key.
    pub fn contains(&mut self, key: &String) -> (present: bool)
        requires
            old(self).wf(),
        ensures
            final(self).wf(),
            present == recency::holds(old(self)@.order, key@),
            final(self)@.order == recency::touch(old(self)@.order, key@),
            final(self)@.capacity == old(self)@.capacity,
    {
        let ghost slots = list_order(self.order);
        let present = list_contains(&mut self.order, key);
        proof {
            lemma_same_keys(slots, resolve(slots, self.values@), key@);
            recency::lemma_touch(slots, key@);
            lemma_touch_resolves(slots, self.values@, key@);
        }
        present
    }

    /// The value cached under `key`, if any. Asking counts as a use of the key.
    pub fn get(&mut self, key: &String) -> (value: Option<&V>)
        requires
            old(self).wf(),
        ensures
            final(self).wf(),
            value == match recency::find(old(self)@.order, key@) {
                Some(cached) => Some(&cached),
                None => None,
            },
            final(self)@.order == recency::touch(old(self)@.order, key@),
            final(self)@.capacity == old(self)@.capacity,
    {
        let ghost slots = list_order(self.order);
        let slot = list_get(&mut self.order, key);
        proof {
            lemma_same_keys(slots, resolve(slots, self.values@), key@);
            recency::lemma_touch(slots, key@);
            lemma_touch_resolves(slots, self.values@, key@);
        }
        match slot {
            Some(slot) => self.values.get(slot),
            None => None,
        }
    }

    /// Caches `value` under `key` as the most recently used pair and returns the
    /// cached value. A value that was cached under `key` is replaced; otherwise a
    /// full cache drops its least recently used pair. A cache of capacity zero
    /// keeps nothing and returns `None`.
    pub fn settle(&mut self, key: &String, value: V) -> (cached: Option<&V>)
        requires
            old(self).wf(),
        ensures
            final(self).wf(),
            final(self)@.capacity == old(self)@.capacity,
            old(self)@.capacity == 0 ==> cached is None && final(self)@.order == old(self)@.order,
            old(self)@.capacity > 0 ==> cached == Some(&value) && final(self)@.order
                == recency::put(old(self)@.order, key@, value, old(self)@.capacity),
    {
        let ghost limit = list_limit(self.order);
        let ghost slots0 = list_order(self.order);
        let ghost values0 = self.values@;
        let ghost before = resolve(slots0, values0);
        proof {
            lemma_same_keys(slots0, before, key@);
            recency::lemma_touch(slots0, key@);
            lemma_touch_resolves(slots0, values0, key@);
        }
        let present = list_contains(&mut self.order, key);
        if !present && list_len(&self.order) >= list_capacity(&self.order) {
            match list_remove_lru(&mut self.order) {
                Some(last) => {
                    self.values.remove(last);
                    proof {
                        lemma_drop_last_resolves(slots0, values0);
                    }
                },
                None => {},
            }
        }
        let ghost slots2 = list_order(self.order);
        let ghost values2 = self.values@;
        proof {
            lemma_same_keys(slots2, resolve(slots2, values2), key@);
        }
        let slot = self.values.insert(value);
        let replaced = list_insert(&mut self.order, key.clone(), slot);
        let ghost slots3 = list_order(self.order);
        match replaced {
            Some(old_slot) => {
                self.values.remove(old_slot);
            },
            None => {},
        }
        let ghost values3 = self.values@;
        proof {
            recency::lemma_put_trim(slots2, key@, slot, limit);
            if limit > 0 {
                if present {
                    recency::lemma_put_after_touch(slots0, key@, slot, limit);
                    recency::lemma_put_after_touch(before, key@, value, limit);
                    assert(replaced == recency::displaced(slots2, key@, limit));
                } else {
                    assert(!recency::holds(slots2, key@)) by {
                        if recency::holds(slots2, key@) {
                            let p = recency::position(slots2, key@);
                            assert(0 <= p < slots2.len() && slots2[p].0 == key@);
                            assert(slots0[p].0 == key@);
                        }
                    }
                    assert(replaced == recency::displaced(slots2, key@, limit));
                }
                lemma_insert_resolves(slots2, values2, key@, slot, value, limit, values3);
                recency::lemma_put(slots2, key@, slot, limit);
                assert(resolve(slots3, values3) == recency::put(before, key@, value, limit)) by {
                    if !present && slots0.len() == limit {
                        assert(resolve(slots2, values2) == before.drop_last());
                        assert(!recency::holds(before.drop_last(), key@)) by {
                            lemma_same_keys(slots2, before.drop_last(), key@);
                        }
                    }
                }
                recency::lemma_position(slots3, key@, 0);
                assert(recency::touch(slots3, key@) =~= slots3);
                lemma_touch_resolves(slots3, values3, key@);
            } else {
                assert(slots0.len() == 0);
                assert(slots3 =~= Seq::<(Seq<char>, usize)>::empty());
                assert(!recency::holds(slots3, key@));
            }
        }
        match list_get(&mut self.order, key) {
            Some(kept) => self.values.get(kept),
            None => {
                self.values.remove(slot);
                assert(resolve(list_order(self.order), self.values@) =~= before);
                None
            },
        }
    }
}

} // verus!
