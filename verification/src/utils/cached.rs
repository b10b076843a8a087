//! A store that loads values on demand and keeps the most recently used ones,
//! and lazy handles on its values.

use crate::utils::loaded::Loaded;
use crate::utils::recency;
use std::marker::PhantomData;
use std::sync::Arc;
use vstd::prelude::*;

verus! {

/// Why a value could not be had from a [`CachedStore`].
#[derive(Debug, PartialEq, Eq)]
pub enum CacheError<E> {
    /// The loader failed.
    Loader(E),
    /// The value was loaded and was gone from the cache at once: the cache has no
    /// room at all.
    Underflow,
}

impl<E> CacheError<E> {
    /// Whether this is the error of a cache without room.
    pub fn is_underflow(&self) -> (underflow: bool)
        ensures
            underflow == (self is Underflow),
    {
        match self {
            CacheError::Underflow => true,
            CacheError::Loader(_) => false,
        }
    }
}

/// A bounded cache with the loader that fills it.
pub struct CachedStore<V, F> {
    pub cache: Loaded<V>,
    pub lookup: F,
}

impl<V, E, F: Fn(&String) -> Result<V, E>> CachedStore<V, F> {
    /// The cache is well formed and the loader may be called on every key.
    pub open spec fn wf(&self) -> bool {
        &&& self.cache.wf()
        &&& forall|key: &String| #[trigger] self.lookup.requires((key,))
    }

    /// A store with an empty cache of `cache_size` values, filled by `lookup`.
    pub fn new(cache_size: usize, lookup: F) -> (store: Self)
        ensures
            store.cache.wf(),
            store.cache@.order == Seq::<(Seq<char>, V)>::empty(),
            store.cache@.capacity == cache_size,
            store.lookup == lookup,
    {
        CachedStore { lookup, cache: Loaded::new(cache_size) }
    }

    /// What becomes of a value that the loader returned for `key`: it is cached
    /// as the most recently used one and handed back. A loader's error is passed
    /// on and a cache without room reports `Underflow`; the cache is then as it
    /// was.
    pub fn keep(&mut self, key: &String, loaded: Result<V, E>) -> (r: Result<&V, CacheError<E>>)
        requires
            old(self).cache.wf(),
        ensures
            final(self).cache.wf(),
            final(self).lookup == old(self).lookup,
            final(self).cache@.capacity == old(self).cache@.capacity,
            match loaded {
                Ok(value) => if old(self).cache@.capacity > 0 {
                    &&& r == Ok::<&V, CacheError<E>>(&value)
                    &&& final(self).cache@.order == recency::put(
                        old(self).cache@.order,
                        key@,
                        value,
                        old(self).cache@.capacity,
                    )
                } else {
                    &&& r matches Err(CacheError::Underflow)
                    &&& final(self).cache@.order == old(self).cache@.order
                },
                Err(error) => {
                    &&& r matches Err(CacheError::Loader(passed))
                    &&& passed == error
                    &&& final(self).cache@.order == old(self).cache@.order
                },
            },
    {
        match loaded {
            Ok(value) => match self.cache.settle(key, value) {
                Some(cached) => Ok(cached),
                None => Err(CacheError::Underflow),
            },
            Err(error) => Err(CacheError::Loader(error)),
        }
    }

    /// The value of `key`. A cached value is returned as it is and becomes the
    /// most recently used one. Otherwise the loader is called once, and what it
    /// returns is treated as `keep` says.
    pub fn lookup(&mut self, key: &String) -> (r: Result<&V, CacheError<E>>)
        requires
            old(self).wf(),
        ensures
            final(self).wf(),
            final(self).lookup == old(self).lookup,
            final(self).cache@.capacity == old(self).cache@.capacity,
            match recency::find(old(self).cache@.order, key@) {
                Some(cached) => {
                    &&& r == Ok::<&V, CacheError<E>>(&cached)
                    &&& final(self).cache@.order == recency::touch(old(self).cache@.order, key@)
                },
                None => match r {
                    Ok(value) => {
                        &&& old(self).lookup.ensures((key,), Ok::<V, E>(*value))
                        &&& old(self).cache@.capacity > 0
                        &&& final(self).cache@.order == recency::put(
                            old(self).cache@.order,
                            key@,
                            *value,
                            old(self).cache@.capacity,
                        )
                    },
                    Err(CacheError::Loader(error)) => {
                        &&& old(self).lookup.ensures((key,), Err::<V, E>(error))
                        &&& final(self).cache@.order == old(self).cache@.order
                    },
                    Err(CacheError::Underflow) => {
                        &&& exists|value: V| old(self).lookup.ensures((key,), Ok::<V, E>(value))
                        &&& old(self).cache@.capacity == 0
                        &&& final(self).cache@.order == old(self).cache@.order
                    },
                },
            },
    {
        if self.cache.contains(key) {
            proof {
                old(self).cache.lemma_bounded();
                recency::lemma_touch(old(self).cache@.order, key@);
                recency::lemma_position(self.cache@.order, key@, 0);
                assert(recency::touch(self.cache@.order, key@) =~= self.cache@.order);
            }
            match self.cache.get(key) {
                Some(cached) => Ok(cached),
                None => Err(CacheError::Underflow),
            }
        } else {
            let loaded = (self.lookup)(key);
            let ghost outcome = loaded;
            assert(match outcome {
                Ok(value) => old(self).lookup.ensures((key,), Ok::<V, E>(value)),
                Err(error) => old(self).lookup.ensures((key,), Err::<V, E>(error)),
            });
            self.keep(key, loaded)
        }
    }
}

/// The shared store behind a set of lazy handles: a [`CachedStore`] of values
/// that are handed out by reference count.
pub struct Store<V, F> {
    pub ptr: CachedStore<Arc<V>, F>,
}

/// A lazy handle: the key of a value in a [`Store`]. The value is fetched when
/// it is asked for.
pub struct Cached<V> {
    pub key: String,
    pub _value: PhantomData<V>,
}

impl<V, E, F: Fn(&String) -> Result<Arc<V>, E>> Store<V, F> {
    /// Wraps `store`.
    pub fn new(store: CachedStore<Arc<V>, F>) -> (shared: Self)
        ensures
            shared.ptr == store,
    {
        Store { ptr: store }
    }

    /// A handle on the value of `key`. Nothing is loaded yet.
    pub fn new_ref(&self, key: String) -> (handle: Cached<V>)
        ensures
            handle.key == key,
    {
        Cached::new(key)
    }
}

impl<V> Clone for Cached<V> {
    fn clone(&self) -> (copy: Self)
        ensures
            copy.key@ == self.key@,
    {
        Cached { key: self.key.clone(), _value: PhantomData }
    }
}

/// Two handles are equal when they are on the same key.
impl<V> PartialEq for Cached<V> {
    fn eq(&self, other: &Self) -> (same: bool) {
        self.key == other.key
    }
}

impl<V> vstd::std_specs::cmp::PartialEqSpecImpl for Cached<V> {
    open spec fn obeys_eq_spec() -> bool {
        true
    }

    open spec fn eq_spec(&self, other: &Self) -> bool {
        self.key@ == other.key@
    }
}

impl<V> Eq for Cached<V> {

}

impl<V> Cached<V> {
    /// A handle on the value of `key`.
    pub fn new(key: String) -> (handle: Self)
        ensures
            handle.key == key,
    {
        Cached { key, _value: PhantomData }
    }

    /// The value of the handle's key. `alive` is the value that an earlier fetch
    /// returned, where the caller can still reach it: it is returned as it is and
    /// the store is left alone. Without it the value comes from the store, as
    /// `CachedStore::lookup` says, and the caller gets a reference of its own.
    pub fn fetch<E, F: Fn(&String) -> Result<Arc<V>, E>>(
        &self,
        alive: Option<Arc<V>>,
        store: &mut Store<V, F>,
    ) -> (r: Result<Arc<V>, CacheError<E>>)
        requires
            old(store).ptr.wf(),
        ensures
            final(store).ptr.wf(),
            final(store).ptr.lookup == old(store).ptr.lookup,
            final(store).ptr.cache@.capacity == old(store).ptr.cache@.capacity,
            match alive {
                Some(value) => r == Ok::<Arc<V>, CacheError<E>>(value) && final(store).ptr.cache@
                    == old(store).ptr.cache@,
                None => match recency::find(old(store).ptr.cache@.order, self.key@) {
                    Some(cached) => {
                        &&& r == Ok::<Arc<V>, CacheError<E>>(cached)
                        &&& final(store).ptr.cache@.order == recency::touch(
                            old(store).ptr.cache@.order,
                            self.key@,
                        )
                    },
                    None => match r {
                        Ok(value) => {
                            &&& old(store).ptr.lookup.ensures(
                                (&self.key,),
                                Ok::<Arc<V>, E>(value),
                            )
                            &&& old(store).ptr.cache@.capacity > 0
                            &&& final(store).ptr.cache@.order == recency::put(
                                old(store).ptr.cache@.order,
                                self.key@,
                                value,
                                old(store).ptr.cache@.capacity,
                            )
                        },
                        Err(CacheError::Loader(error)) => {
                            &&& old(store).ptr.lookup.ensures(
                                (&self.key,),
                                Err::<Arc<V>, E>(error),
                            )
                            &&& final(store).ptr.cache@.order == old(store).ptr.cache@.order
                        },
                        Err(CacheError::Underflow) => {
                            &&& exists|value: Arc<V>|
                                old(store).ptr.lookup.ensures(
                                    (&self.key,),
                                    Ok::<Arc<V>, E>(value),
                                )
                            &&& old(store).ptr.cache@.capacity == 0
                            &&& final(store).ptr.cache@.order == old(store).ptr.cache@.order
                        },
                    },
                },
            },
    {
        match alive {
            Some(value) => Ok(value),
            None => match store.ptr.lookup(&self.key) {
                Ok(cached) => Ok(cached.clone()),
                Err(error) => Err(error),
            },
        }
    }
}

} // verus!
