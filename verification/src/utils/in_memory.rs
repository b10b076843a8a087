//! A loading store whose values come from a map in memory.

use crate::utils::cached::CacheError;
use crate::utils::key_value::cache::lru::LruView;
use crate::utils::loaded::Loaded;
use crate::utils::recency;
use std::sync::Arc;
use vstd::hash_map::StringHashMap;
use vstd::prelude::*;

verus! {

/// The error of a key that the backing map does not hold.
#[derive(Clone, Copy, Debug, PartialEq, Eq, Structural)]
pub struct KeyNotFound;

/// A map of values with a bounded cache of shared copies in front.
///
/// `lookup` hands out a shared copy of the value under a key; the copy is made
/// when the key is first asked for and kept while the cache has room for it. The
/// map is filled with `put`.
#[verifier::reject_recursive_types(V)]
pub struct InMemoryStore<V> {
    cache: Loaded<Arc<V>>,
    backing: StringHashMap<V>,
}

/// A store with an empty map and an empty cache of `cache_size` values.
pub fn new<V>(cache_size: usize) -> (store: InMemoryStore<V>)
    ensures
        store.wf(),
        store.backing() == Map::<Seq<char>, V>::empty(),
        store.cache().order == Seq::<(Seq<char>, Arc<V>)>::empty(),
        store.cache().capacity == cache_size,
{
    InMemoryStore { cache: Loaded::new(cache_size), backing: StringHashMap::new() }
}

impl<V> InMemoryStore<V> {
    /// The store's invariant. Every operation needs it and keeps it.
    pub closed spec fn wf(&self) -> bool {
        self.cache.wf()
    }

    /// The map that the values come from.
    pub closed spec fn backing(&self) -> Map<Seq<char>, V> {
        self.backing@
    }

    /// The cached copies, most recently used first, and the cache's capacity.
    pub closed spec fn cache(&self) -> LruView<Arc<V>> {
        self.cache@
    }

    /// Sets the value under `key` in the map. A copy that is cached under `key`
    /// stays as it is until the cache drops it.
    pub fn put(&mut self, key: String, value: V)
        requires
            old(self).wf(),
        ensures
            final(self).wf(),
            final(self).backing() == old(self).backing().insert(key@, value),
            final(self).cache() == old(self).cache(),
    {
        self.backing.insert(key, value);
    }
}

impl<V: Clone> InMemoryStore<V> {
    /// A shared copy of the value under `key`. A cached copy is returned as it is
    /// and becomes the most recently used one. Otherwise the value is copied from
    /// the map and the copy is cached; a key that the map does not hold fails, and
    /// so does every lookup in a store whose cache has no room.
    pub fn lookup(&mut self, key: &String) -> (r: Result<&Arc<V>, CacheError<KeyNotFound>>)
        requires
            old(self).wf(),
        ensures
            final(self).wf(),
            final(self).backing() == old(self).backing(),
            final(self).cache().capacity == old(self).cache().capacity,
            match recency::find(old(self).cache().order, key@) {
                Some(cached) => {
                    &&& r == Ok::<&Arc<V>, CacheError<KeyNotFound>>(&cached)
                    &&& final(self).cache().order == recency::touch(old(self).cache().order, key@)
                },
                None => if !old(self).backing().contains_key(key@) {
                    &&& r matches Err(CacheError::Loader(_))
                    &&& final(self).cache().order == old(self).cache().order
                } else if old(self).cache().capacity == 0 {
                    &&& r matches Err(CacheError::Underflow)
                    &&& final(self).cache().order == old(self).cache().order
                } else {
                    &&& r matches Ok(copy)
                    &&& cloned(old(self).backing()[key@], **copy)
                    &&& final(self).cache().order == recency::put(
                        old(self).cache().order,
                        key@,
                        *copy,
                        old(self).cache().capacity,
                    )
                },
            },
    {
        if self.cache.contains(key) {
            proof {
                old(self).cache.lemma_bounded();
                recency::lemma_touch(old(self).cache@.order, key@);
                recency::lemma_position(self.cache@.order, key@, 0);
                assert(recency::touch(self.cache@.order, key@) =~= self.cache@.order);
            }
            match self.cache.get(key) {
                Some(cached) => Ok(cached),
                None => Err(CacheError::Underflow),
            }
        } else {
            match self.backing.get(key.as_str()) {
                Some(value) => {
                    let copy = Arc::new(value.clone());
                    match self.cache.settle(key, copy) {
                        Some(cached) => Ok(cached),
                        None => Err(CacheError::Underflow),
                    }
                },
                None => Err(CacheError::Loader(KeyNotFound)),
            }
        }
    }
}

} // verus!
