//! Caches in front of a store.

use super::in_memory::{Entry, InMemory};
use super::KeyValueStore;
use vstd::prelude::*;

pub mod lru;
pub mod order;

verus! {

/// A cache of values of type `V` under string keys.
///
/// A cache may forget any pair at any time it is written to, and makes none up.
/// Its view is whatever the implementor needs to say exactly what each operation
/// does; `entries` reads the pairs off the view.
pub trait Cache<V>: View + Sized {
    /// The cache's invariant. Every operation needs it and keeps it.
    spec fn wf(&self) -> bool;

    /// The pairs that a cache with this view holds.
    spec fn entries(view: Self::V) -> Map<Seq<char>, V>;

    /// What `insert` does to the view.
    spec fn insert_spec(before: Self::V, key: Seq<char>, value: V, after: Self::V) -> bool;

    /// What `lookup` does to the view.
    spec fn lookup_spec(before: Self::V, key: Seq<char>, after: Self::V) -> bool;

    /// What `delete` does to the view.
    spec fn delete_spec(before: Self::V, key: Seq<char>, after: Self::V) -> bool;

    /// Inserting makes up no pair: afterwards every pair in the cache is the new
    /// one or one that was there before.
    proof fn lemma_insert_spec(&self, key: Seq<char>, value: V, after: &Self)
        requires
            self.wf(),
            Self::insert_spec(self@, key, value, after@),
        ensures
            forall|k: Seq<char>| #[trigger]
                Self::entries(after@).contains_key(k) ==> if k == key {
                    Self::entries(after@)[k] == value
                } else {
                    Self::entries(self@).contains_key(k) && Self::entries(after@)[k]
                        == Self::entries(self@)[k]
                },
    ;

    /// Looking a key up leaves the pairs as they are.
    proof fn lemma_lookup_spec(&self, key: Seq<char>, after: &Self)
        requires
            self.wf(),
            Self::lookup_spec(self@, key, after@),
        ensures
            Self::entries(after@) == Self::entries(self@),
    ;

    /// Deleting a key forgets its pair, and no other.
    proof fn lemma_delete_spec(&self, key: Seq<char>, after: &Self)
        requires
            self.wf(),
            Self::delete_spec(self@, key, after@),
        ensures
            Self::entries(after@) == Self::entries(self@).remove(key),
    ;

    /// Offers the pair to the cache, which may drop any pair to make room.
    fn insert(&mut self, key: String, value: V)
        requires
            old(self).wf(),
        ensures
            final(self).wf(),
            Self::insert_spec(old(self)@, key@, value, final(self)@),
    ;

    /// The value cached under `key`, if any. A miss leaves the view as it is.
    fn lookup(&mut self, key: &String) -> (r: Option<&V>)
        requires
            old(self).wf(),
        ensures
            final(self).wf(),
            r == (if Self::entries(old(self)@).contains_key(key@) {
                Some(&Self::entries(old(self)@)[key@])
            } else {
                None
            }),
            Self::lookup_spec(old(self)@, key@, final(self)@),
            r is None ==> final(self)@ == old(self)@,
    ;

    /// Forgets the pair of `key`.
    fn delete(&mut self, key: &String)
        requires
            old(self).wf(),
        ensures
            final(self).wf(),
            Self::delete_spec(old(self)@, key@, final(self)@),
    ;
}

/// A store with a cache of its entries in front.
///
/// `lookup` answers from the cache where it can and asks the store otherwise;
/// `insert` and `delete` always reach the store. The cache only ever holds
/// entries that the store handed out: dropping one from the cache takes nothing
/// from the store.
pub struct Cached<C, KVS> {
    pub store: KVS,
    pub cache: C,
}

impl<C, KVS> Cached<C, KVS> {
    /// Puts `cache` in front of `store`.
    pub fn new(store: KVS, cache: C) -> (cached: Self)
        ensures
            cached.store == store,
            cached.cache == cache,
    {
        Cached { store, cache }
    }
}

/// An entry of the wrapped store is an entry of the decorated store: reading and
/// writing go to the wrapped store and leave the cache alone.
impl<V, C, KVS, E: super::Entry<V, KVS>> super::Entry<V, Cached<C, KVS>> for E {
    type Error = <E as super::Entry<V, KVS>>::Error;

    open spec fn peek(&self, store: &Cached<C, KVS>) -> Option<V> {
        <E as super::Entry<V, KVS>>::peek(self, &store.store)
    }

    open spec fn write_spec(
        &self,
        before: Cached<C, KVS>,
        value: V,
        after: Cached<C, KVS>,
    ) -> bool {
        &&& after.cache == before.cache
        &&& <E as super::Entry<V, KVS>>::write_spec(self, before.store, value, after.store)
    }

    fn read<T, F: FnOnce(&V) -> T>(
        &self,
        store: &Cached<C, KVS>,
        fun: F,
    ) -> (r: Result<T, Self::Error>) {
        <E as super::Entry<V, KVS>>::read(self, &store.store, fun)
    }

    fn write<T, F: FnOnce(&mut V) -> T>(
        &self,
        store: &mut Cached<C, KVS>,
        fun: F,
    ) -> (r: Result<T, Self::Error>) {
        <E as super::Entry<V, KVS>>::write(self, &mut store.store, fun)
    }
}

impl<V, C, KVS> KeyValueStore<V> for Cached<C, KVS> where
    KVS: KeyValueStore<V>,
    KVS::Entry: Copy,
    C: Cache<KVS::Entry>,
 {
    type Error = KVS::Error;

    type Entry = KVS::Entry;

    open spec fn wf(&self) -> bool {
        self.store.wf() && self.cache.wf()
    }

    open spec fn insert_spec(
        self,
        key: Seq<char>,
        value: V,
        after: Self,
        r: Result<KVS::Entry, KVS::Error>,
    ) -> bool {
        &&& self.store.insert_spec(key, value, after.store, r)
        &&& match r {
            Ok(entry) => C::insert_spec(self.cache@, key, entry, after.cache@),
            Err(_) => after.cache@ == self.cache@,
        }
    }

    open spec fn lookup_spec(
        self,
        key: Seq<char>,
        after: Self,
        r: Result<KVS::Entry, KVS::Error>,
    ) -> bool {
        if C::entries(self.cache@).contains_key(key) {
            &&& r == Ok::<KVS::Entry, KVS::Error>(C::entries(self.cache@)[key])
            &&& after.store == self.store
            &&& C::lookup_spec(self.cache@, key, after.cache@)
        } else {
            &&& self.store.lookup_spec(key, after.store, r)
            &&& match r {
                Ok(entry) => C::insert_spec(self.cache@, key, entry, after.cache@),
                Err(_) => after.cache@ == self.cache@,
            }
        }
    }

    open spec fn delete_spec(self, key: Seq<char>, after: Self, r: Result<(), KVS::Error>) -> bool {
        &&& C::delete_spec(self.cache@, key, after.cache@)
        &&& self.store.delete_spec(key, after.store, r)
    }

    proof fn lemma_write_keeps_wf(self, entry: KVS::Entry, value: V, after: Self) {
        self.store.lemma_write_keeps_wf(entry, value, after.store);
    }

    /// Inserts into the store first; where that succeeds, the new entry is cached.
    fn insert(&mut self, key: String, value: V) -> (r: Result<KVS::Entry, KVS::Error>) {
        let cached_key = key.clone();
        match self.store.insert(key, value) {
            Ok(entry) => {
                self.cache.insert(cached_key, entry);
                Ok(entry)
            },
            Err(error) => Err(error),
        }
    }

    /// A hit returns the cached entry and leaves the store alone. A miss asks the
    /// store and caches the entry that it returns.
    fn lookup(&mut self, key: &String) -> (r: Result<KVS::Entry, KVS::Error>) {
        let hit = match self.cache.lookup(key) {
            Some(entry) => Some(*entry),
            None => None,
        };
        match hit {
            Some(entry) => Ok(entry),
            None => match self.store.lookup(key) {
                Ok(entry) => {
                    self.cache.insert(key.clone(), entry);
                    Ok(entry)
                },
                Err(error) => Err(error),
            },
        }
    }

    /// Drops the key from the cache, then deletes it from the store.
    fn delete(&mut self, key: &String) -> (r: Result<(), KVS::Error>) {
        self.cache.delete(key);
        self.store.delete(key)
    }
}

impl<V, C: Cache<Entry>> Cached<C, InMemory<V>> {
    /// The cache agrees with the store: every cached entry is the one that its
    /// key is bound to. A decorator with an empty cache is coherent, and the
    /// decorator's own operations keep it so.
    pub open spec fn coherent(&self) -> bool {
        forall|key: Seq<char>| #[trigger]
            C::entries(self.cache@).contains_key(key) ==> self.store.index().contains_key(key)
                && C::entries(self.cache@)[key].slot() == self.store.index()[key]
    }
}

/// A lookup through a coherent decorator answers as the store would, whatever
/// the cache holds and whatever it has dropped: a bound key gives an entry that
/// reads the value that the store holds for it, and an unbound key fails.
pub proof fn lemma_lookup_reads_store<V, C: Cache<Entry>>(
    before: Cached<C, InMemory<V>>,
    key: Seq<char>,
    after: Cached<C, InMemory<V>>,
    r: Result<Entry, ()>,
)
    requires
        before.wf(),
        before.coherent(),
        before.lookup_spec(key, after, r),
    ensures
        after.coherent(),
        after.store.contents() == before.store.contents(),
        match r {
            Ok(entry) => {
                &&& before.store.contents().contains_key(key)
                &&& after.store.value_at(entry) == Some(before.store.contents()[key])
            },
            Err(_) => !before.store.contents().contains_key(key),
        },
{
    if C::entries(before.cache@).contains_key(key) {
        before.cache.lemma_lookup_spec(key, &after.cache);
    } else {
        match r {
            Ok(entry) => {
                before.cache.lemma_insert_spec(key, entry, &after.cache);
            },
            Err(_) => {},
        }
    }
    assert(after.store.contents() =~= before.store.contents());
}

/// An insert through a coherent decorator binds the key in the store exactly
/// when it was not bound, and the entry that it returns reads the new value.
pub proof fn lemma_insert_writes_store<V, C: Cache<Entry>>(
    before: Cached<C, InMemory<V>>,
    key: Seq<char>,
    value: V,
    after: Cached<C, InMemory<V>>,
    r: Result<Entry, ()>,
)
    requires
        before.wf(),
        before.coherent(),
        before.insert_spec(key, value, after, r),
    ensures
        after.coherent(),
        match r {
            Ok(entry) => {
                &&& !before.store.contents().contains_key(key)
                &&& after.store.contents() == before.store.contents().insert(key, value)
                &&& after.store.value_at(entry) == Some(value)
            },
            Err(_) => before.store.contents().contains_key(key) && after.store.contents()
                == before.store.contents(),
        },
{
    match r {
        Ok(entry) => {
            before.cache.lemma_insert_spec(key, entry, &after.cache);
            assert(after.store.contents() =~= before.store.contents().insert(key, value));
        },
        Err(_) => {
            assert(after.store.contents() =~= before.store.contents());
        },
    }
}

/// What was inserted is found again after another key was inserted, whether the
/// cache still has it or has dropped it to make room: the lookup succeeds and its
/// entry reads the inserted value.
pub proof fn lemma_inserted_key_is_found<V, C: Cache<Entry>>(
    start: Cached<C, InMemory<V>>,
    key: Seq<char>,
    value: V,
    inserted: Cached<C, InMemory<V>>,
    first: Entry,
    other: Seq<char>,
    other_value: V,
    crowded: Cached<C, InMemory<V>>,
    other_result: Result<Entry, ()>,
    end: Cached<C, InMemory<V>>,
    found: Result<Entry, ()>,
)
    requires
        start.wf(),
        start.coherent(),
        start.insert_spec(key, value, inserted, Ok(first)),
        inserted.wf(),
        other != key,
        inserted.insert_spec(other, other_value, crowded, other_result),
        crowded.wf(),
        crowded.lookup_spec(key, end, found),
    ensures
        found matches Ok(entry) && end.store.value_at(entry) == Some(value),
{
    lemma_insert_writes_store(start, key, value, inserted, Ok(first));
    lemma_insert_writes_store(inserted, other, other_value, crowded, other_result);
    lemma_lookup_reads_store(crowded, key, end, found);
}

/// A delete through a coherent decorator unbinds the key in the store and drops
/// it from the cache, so that no later lookup finds it.
pub proof fn lemma_delete_clears_store<V, C: Cache<Entry>>(
    before: Cached<C, InMemory<V>>,
    key: Seq<char>,
    after: Cached<C, InMemory<V>>,
    r: Result<(), ()>,
)
    requires
        before.wf(),
        before.coherent(),
        before.delete_spec(key, after, r),
    ensures
        after.coherent(),
        r is Ok,
        !C::entries(after.cache@).contains_key(key),
        after.store.contents() == before.store.contents().remove(key),
        after.store.cells() == before.store.cells(),
{
    before.cache.lemma_delete_spec(key, &after.cache);
    assert(after.store.contents() =~= before.store.contents().remove(key));
}

} // verus!
