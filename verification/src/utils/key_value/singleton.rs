//! One canonical entry for each key.

use super::KeyValueStore;
use crate::utils::slab::Slab;
use vstd::hash_map::StringHashMap;
use vstd::prelude::*;
use vstd::relations::injective_on;
use vstd::set_lib::lemma_map_size;

verus! {

/// What the pool keeps for one key: the entry of the wrapped store, whether the
/// key was deleted since, and how many handles are out.
pub ghost struct Wrapper<E> {
    pub key: Seq<char>,
    pub entry: E,
    pub deleted: bool,
    pub handles: nat,
}

struct SingletonEntry<E> {
    key: String,
    entry: E,
    deleted: bool,
    refs: usize,
}

impl<E> View for SingletonEntry<E> {
    type V = Wrapper<E>;

    closed spec fn view(&self) -> Wrapper<E> {
        Wrapper {
            key: self.key@,
            entry: self.entry,
            deleted: self.deleted,
            handles: self.refs as nat,
        }
    }
}

/// A store that hands out one wrapper for each key, however often the key is
/// looked up.
///
/// The pool holds a wrapper for a key from the first `insert` or `lookup` of it
/// until the last handle on the wrapper is given back with `release`. While it is
/// there, every `insert` and `lookup` of the key returns a handle on that same
/// wrapper and leaves the wrapped store alone. `delete` marks the wrapper:
/// handles on it then fail to read and write.
pub struct Singleton<E, KVS> {
    pub store: KVS,
    pool: StringHashMap<usize>,
    wrappers: Slab<SingletonEntry<E>>,
}

/// A handle on a wrapper of a [`Singleton`]. It is not copied: `share` makes
/// another one, and `release` gives one back.
#[derive(Debug)]
pub struct Entry {
    slot: usize,
}

/// Why a handle of a [`Singleton`] could not be read or written.
#[derive(Debug, PartialEq, Eq)]
pub enum Error<E> {
    /// The key was deleted, or the store holds no wrapper for the handle.
    SingletonDeleted,
    /// The wrapped store's entry failed.
    Other(E),
}

impl Entry {
    /// The slot of the wrapper that the handle is on.
    pub closed spec fn slot(&self) -> usize {
        self.slot
    }
}

/// A count of handles after one more was handed out. At the largest number the
/// count stays: such a wrapper is never given up.
pub open spec fn one_more(handles: nat) -> nat {
    if handles < usize::MAX {
        handles + 1
    } else {
        handles
    }
}

impl<E, KVS> Singleton<E, KVS> {
    /// The wrapped store.
    pub closed spec fn inner(&self) -> KVS {
        self.store
    }

    /// The slot of the wrapper of each key that has one.
    pub closed spec fn pool(&self) -> Map<Seq<char>, usize> {
        self.pool@
    }

    /// The wrappers, by slot.
    pub closed spec fn wrappers(&self) -> Map<usize, Wrapper<E>> {
        Map::new(
            |slot: usize| self.wrappers@.contains_key(slot),
            |slot: usize| self.wrappers@[slot]@,
        )
    }

    /// The pool and the wrappers agree: each pooled key names a wrapper of that
    /// key, each wrapper is pooled under its key, and each has a handle out.
    pub open spec fn pool_wf(&self) -> bool {
        &&& forall|key: Seq<char>| #[trigger]
            self.pool().contains_key(key) ==> self.wrappers().contains_key(self.pool()[key])
                && self.wrappers()[self.pool()[key]].key == key
        &&& forall|slot: usize| #[trigger]
            self.wrappers().contains_key(slot) ==> self.pool().contains_key(
                self.wrappers()[slot].key,
            ) && self.pool()[self.wrappers()[slot].key] == slot && self.wrappers()[slot].handles
                >= 1
    }

    /// What a hit in the pool does: one more handle on the wrapper at `slot`.
    pub open spec fn shares(self, slot: usize, after: Self) -> bool {
        &&& after.inner() == self.inner()
        &&& after.pool() == self.pool()
        &&& after.wrappers() == self.wrappers().insert(
            slot,
            Wrapper { handles: one_more(self.wrappers()[slot].handles), ..self.wrappers()[slot] },
        )
    }

    /// What a miss in the pool does once the wrapped store returned `raw`: a new
    /// wrapper for `key` in a slot that was vacant, with one handle out.
    pub open spec fn wraps(self, key: Seq<char>, slot: usize, raw: E, after: Self) -> bool {
        &&& !self.wrappers().contains_key(slot)
        &&& after.pool() == self.pool().insert(key, slot)
        &&& after.wrappers() == self.wrappers().insert(
            slot,
            Wrapper { key, entry: raw, deleted: false, handles: 1 },
        )
    }

    /// What `release` does.
    pub open spec fn release_spec(self, slot: usize, after: Self) -> bool {
        &&& after.inner() == self.inner()
        &&& if !self.wrappers().contains_key(slot) || self.wrappers()[slot].handles
            >= usize::MAX {
            &&& after.pool() == self.pool()
            &&& after.wrappers() == self.wrappers()
        } else if self.wrappers()[slot].handles > 1 {
            &&& after.pool() == self.pool()
            &&& after.wrappers() == self.wrappers().insert(
                slot,
                Wrapper {
                    handles: (self.wrappers()[slot].handles - 1) as nat,
                    ..self.wrappers()[slot]
                },
            )
        } else {
            &&& after.pool() == self.pool().remove(self.wrappers()[slot].key)
            &&& after.wrappers() == self.wrappers().remove(slot)
        }
    }

    /// A handle on `slot` fails with `SingletonDeleted`: its key was deleted, or
    /// the store holds no wrapper there.
    pub open spec fn reports_deleted(&self, slot: usize) -> bool {
        !self.wrappers().contains_key(slot) || self.wrappers()[slot].deleted
    }

    /// What `delete` does to the wrappers: the one of `key`, if there is one, is
    /// marked.
    pub open spec fn marks(self, key: Seq<char>, after: Self) -> bool {
        &&& after.pool() == self.pool()
        &&& after.wrappers() == if self.pool().contains_key(key) {
            self.wrappers().insert(
                self.pool()[key],
                Wrapper { deleted: true, ..self.wrappers()[self.pool()[key]] },
            )
        } else {
            self.wrappers()
        }
    }

    /// A store with an empty pool in front of `store`.
    pub fn new(store: KVS) -> (singleton: Self)
        ensures
            singleton.inner() == store,
            singleton.pool() == Map::<Seq<char>, usize>::empty(),
            singleton.wrappers() == Map::<usize, Wrapper<E>>::empty(),
            singleton.pool_wf(),
    {
        let singleton = Singleton { store, pool: StringHashMap::new(), wrappers: Slab::new() };
        assert(singleton.wrappers() =~= Map::<usize, Wrapper<E>>::empty());
        singleton
    }

    /// Hands out one more handle on the wrapper at `slot`, if there is one.
    fn bump(&mut self, slot: usize)
        ensures
            final(self).inner() == old(self).inner(),
            final(self).pool() == old(self).pool(),
            old(self).wrappers().contains_key(slot) ==> old(self).shares(slot, *final(self)),
            !old(self).wrappers().contains_key(slot) ==> final(self).wrappers() == old(
                self,
            ).wrappers(),
    {
        match self.wrappers.get_mut(slot) {
            Some(wrapper) => {
                if wrapper.refs < usize::MAX {
                    wrapper.refs = wrapper.refs + 1;
                }
            },
            None => {},
        }
        assert(old(self).wrappers().contains_key(slot) ==> self.wrappers() =~= old(
            self,
        ).wrappers().insert(
            slot,
            Wrapper {
                handles: one_more(old(self).wrappers()[slot].handles),
                ..old(self).wrappers()[slot]
            },
        ));
        assert(!old(self).wrappers().contains_key(slot) ==> self.wrappers() =~= old(
            self,
        ).wrappers());
    }

    /// Marks the wrapper of `key`, if there is one, as deleted.
    fn mark(&mut self, key: &String)
        requires
            old(self).pool_wf(),
        ensures
            final(self).pool_wf(),
            final(self).inner() == old(self).inner(),
            old(self).marks(key@, *final(self)),
    {
        match self.pooled(key) {
            Some(slot) => {
                assert(old(self).pool().contains_key(key@));
                assert(old(self).wrappers().contains_key(slot));
                match self.wrappers.get_mut(slot) {
                    Some(wrapper) => {
                        wrapper.deleted = true;
                    },
                    None => {},
                }
                assert(self.wrappers() =~= old(self).wrappers().insert(
                    slot,
                    Wrapper { deleted: true, ..old(self).wrappers()[slot] },
                ));
                assert forall|k: Seq<char>| #[trigger] self.pool().contains_key(k) implies
                    self.wrappers().contains_key(
                    self.pool()[k],
                ) && self.wrappers()[self.pool()[k]].key == k by {
                    assert(old(self).pool().contains_key(k));
                }
                assert forall|s: usize| #[trigger] self.wrappers().contains_key(s) implies
                    self.pool().contains_key(
                    self.wrappers()[s].key,
                ) && self.pool()[self.wrappers()[s].key] == s && self.wrappers()[s].handles
                    >= 1 by {
                    assert(old(self).wrappers().contains_key(s));
                }
            },
            None => {
                assert(self.wrappers() =~= old(self).wrappers());
            },
        }
    }

    /// The slot of the wrapper of `key`, if the pool has one.
    fn pooled(&self, key: &String) -> (slot: Option<usize>)
        ensures
            slot == (if self.pool().contains_key(key@) {
                Some(self.pool()[key@])
            } else {
                None
            }),
    {
        match self.pool.get(key.as_str()) {
            Some(slot) => Some(*slot),
            None => None,
        }
    }

    /// Puts a new wrapper for `key` around `raw` and pools it.
    fn wrap(&mut self, key: &String, raw: E) -> (entry: Entry)
        requires
            old(self).pool_wf(),
            !old(self).pool().contains_key(key@),
        ensures
            final(self).pool_wf(),
            final(self).inner() == old(self).inner(),
            old(self).wraps(key@, entry.slot(), raw, *final(self)),
    {
        let wrapper = SingletonEntry { key: key.clone(), entry: raw, deleted: false, refs: 1 };
        let slot = self.wrappers.insert(wrapper);
        self.pool.insert(key.clone(), slot);
        assert(self.wrappers() =~= old(self).wrappers().insert(
            slot,
            Wrapper { key: key@, entry: raw, deleted: false, handles: 1 },
        ));
        assert forall|k: Seq<char>| #[trigger] self.pool().contains_key(k) implies
            self.wrappers().contains_key(
            self.pool()[k],
        ) && self.wrappers()[self.pool()[k]].key == k by {
            if k != key@ {
                assert(old(self).pool().contains_key(k));
            }
        }
        assert forall|s: usize| #[trigger] self.wrappers().contains_key(s) implies
            self.pool().contains_key(
            self.wrappers()[s].key,
        ) && self.pool()[self.wrappers()[s].key] == s && self.wrappers()[s].handles >= 1 by {
            if s != slot {
                assert(old(self).wrappers().contains_key(s));
            }
        }
        Entry { slot }
    }

    /// Another handle on the wrapper that `entry` is on. A handle on no wrapper
    /// gives one more of its kind.
    pub fn share(&mut self, entry: &Entry) -> (other: Entry)
        requires
            old(self).pool_wf(),
        ensures
            final(self).pool_wf(),
            other.slot() == entry.slot(),
            final(self).inner() == old(self).inner(),
            final(self).pool() == old(self).pool(),
            old(self).wrappers().contains_key(entry.slot()) ==> old(self).shares(
                entry.slot(),
                *final(self),
            ),
            !old(self).wrappers().contains_key(entry.slot()) ==> final(self).wrappers() == old(
                self,
            ).wrappers(),
    {
        self.bump(entry.slot);
        proof {
            old(self).lemma_shares_keeps(entry.slot(), *self);
        }
        Entry { slot: entry.slot }
    }

    /// Gives a handle back. The last handle on a wrapper takes the wrapper out of
    /// the pool.
    pub fn release(&mut self, entry: Entry)
        requires
            old(self).pool_wf(),
        ensures
            final(self).pool_wf(),
            old(self).release_spec(entry.slot(), *final(self)),
    {
        let slot = entry.slot;
        let last = match self.wrappers.get_mut(slot) {
            Some(wrapper) => {
                if wrapper.refs == usize::MAX {
                    false
                } else if wrapper.refs > 1 {
                    wrapper.refs = wrapper.refs - 1;
                    false
                } else {
                    true
                }
            },
            None => false,
        };
        if last {
            match self.wrappers.remove(slot) {
                Some(wrapper) => {
                    self.pool.remove(wrapper.key.as_str());
                },
                None => {},
            }
            assert(self.wrappers() =~= old(self).wrappers().remove(slot));
        } else {
            proof {
                if old(self).wrappers().contains_key(slot) && 1 < old(self).wrappers()[slot].handles
                    < usize::MAX {
                    assert(self.wrappers() =~= old(self).wrappers().insert(
                        slot,
                        Wrapper {
                            handles: (old(self).wrappers()[slot].handles - 1) as nat,
                            ..old(self).wrappers()[slot]
                        },
                    ));
                } else {
                    assert(self.wrappers() =~= old(self).wrappers());
                }
            }
        }
        proof {
            old(self).lemma_release_keeps(slot, *self);
        }
    }

    /// One more handle keeps the pool and the wrappers in agreement.
    pub proof fn lemma_shares_keeps(self, slot: usize, after: Self)
        requires
            self.pool_wf(),
            after.pool() == self.pool(),
            self.wrappers().contains_key(slot) ==> self.shares(slot, after),
            !self.wrappers().contains_key(slot) ==> after.wrappers() == self.wrappers(),
        ensures
            after.pool_wf(),
    {
        if self.wrappers().contains_key(slot) {
            assert forall|key: Seq<char>| #[trigger] after.pool().contains_key(key) implies
                after.wrappers().contains_key(
                after.pool()[key],
            ) && after.wrappers()[after.pool()[key]].key == key by {
                assert(self.pool().contains_key(key));
            }
            assert forall|s: usize| #[trigger] after.wrappers().contains_key(s) implies
                after.pool().contains_key(
                after.wrappers()[s].key,
            ) && after.pool()[after.wrappers()[s].key] == s && after.wrappers()[s].handles >= 1 by {
                assert(self.wrappers().contains_key(s));
            }
        }
    }

    /// Giving a handle back keeps the pool and the wrappers in agreement.
    pub proof fn lemma_release_keeps(self, slot: usize, after: Self)
        requires
            self.pool_wf(),
            self.release_spec(slot, after),
        ensures
            after.pool_wf(),
    {
        assert forall|key: Seq<char>| #[trigger] after.pool().contains_key(key) implies
            after.wrappers().contains_key(
            after.pool()[key],
        ) && after.wrappers()[after.pool()[key]].key == key by {
            assert(self.pool().contains_key(key));
        }
        assert forall|s: usize| #[trigger] after.wrappers().contains_key(s) implies
            after.pool().contains_key(
            after.wrappers()[s].key,
        ) && after.pool()[after.wrappers()[s].key] == s && after.wrappers()[s].handles >= 1 by {
            assert(self.wrappers().contains_key(s));
        }
    }
}

impl<V, KVS: KeyValueStore<V>> super::Entry<V, Singleton<KVS::Entry, KVS>> for Entry {
    type Error = Error<<KVS::Entry as super::Entry<V, KVS>>::Error>;

    open spec fn peek(&self, store: &Singleton<KVS::Entry, KVS>) -> Option<V> {
        if store.reports_deleted(self.slot()) {
            None
        } else {
            <KVS::Entry as super::Entry<V, KVS>>::peek(
                &store.wrappers()[self.slot()].entry,
                &store.inner(),
            )
        }
    }

    open spec fn write_spec(
        &self,
        before: Singleton<KVS::Entry, KVS>,
        value: V,
        after: Singleton<KVS::Entry, KVS>,
    ) -> bool {
        &&& before.wrappers().contains_key(self.slot())
        &&& after.pool() == before.pool()
        &&& after.wrappers() == before.wrappers()
        &&& <KVS::Entry as super::Entry<V, KVS>>::write_spec(
            &before.wrappers()[self.slot()].entry,
            before.inner(),
            value,
            after.inner(),
        )
    }

    /// Fails with `SingletonDeleted` where the key was deleted or the store holds
    /// no wrapper for the handle, and with the wrapped entry's error otherwise.
    fn read<T, F: FnOnce(&V) -> T>(
        &self,
        store: &Singleton<KVS::Entry, KVS>,
        fun: F,
    ) -> (r: Result<T, Self::Error>)
        ensures
            store.reports_deleted(self.slot()) ==> r matches Err(Error::SingletonDeleted),
            !store.reports_deleted(self.slot()) ==> !(r matches Err(Error::SingletonDeleted)),
    {
        match store.wrappers.get(self.slot) {
            Some(wrapper) => {
                if wrapper.deleted {
                    Err(Error::SingletonDeleted)
                } else {
                    match <KVS::Entry as super::Entry<V, KVS>>::read(
                        &wrapper.entry,
                        &store.store,
                        fun,
                    ) {
                        Ok(out) => Ok(out),
                        Err(error) => Err(Error::Other(error)),
                    }
                }
            },
            None => Err(Error::SingletonDeleted),
        }
    }

    /// Fails with `SingletonDeleted` where the key was deleted or the store holds
    /// no wrapper for the handle, and with the wrapped entry's error otherwise.
    fn write<T, F: FnOnce(&mut V) -> T>(
        &self,
        store: &mut Singleton<KVS::Entry, KVS>,
        fun: F,
    ) -> (r: Result<T, Self::Error>)
        ensures
            old(store).reports_deleted(self.slot()) ==> r matches Err(Error::SingletonDeleted),
            !old(store).reports_deleted(self.slot()) ==> !(r matches Err(Error::SingletonDeleted)),
    {
        match store.wrappers.get(self.slot) {
            Some(wrapper) => {
                if wrapper.deleted {
                    Err(Error::SingletonDeleted)
                } else {
                    match <KVS::Entry as super::Entry<V, KVS>>::write(
                        &wrapper.entry,
                        &mut store.store,
                        fun,
                    ) {
                        Ok(out) => {
                            let r = Ok(out);
                            assert(r->Ok_0 == out);
                            r
                        },
                        Err(error) => Err(Error::Other(error)),
                    }
                }
            },
            None => Err(Error::SingletonDeleted),
        }
    }
}

impl<V, KVS: KeyValueStore<V>> KeyValueStore<V> for Singleton<KVS::Entry, KVS> {
    type Error = KVS::Error;

    type Entry = Entry;

    open spec fn wf(&self) -> bool {
        self.inner().wf() && self.pool_wf()
    }

    open spec fn insert_spec(
        self,
        key: Seq<char>,
        value: V,
        after: Self,
        r: Result<Entry, KVS::Error>,
    ) -> bool {
        if self.pool().contains_key(key) {
            &&& r matches Ok(entry)
            &&& entry.slot() == self.pool()[key]
            &&& self.shares(self.pool()[key], after)
        } else {
            match r {
                Ok(entry) => {
                    &&& self.inner().insert_spec(
                        key,
                        value,
                        after.inner(),
                        Ok::<KVS::Entry, KVS::Error>(after.wrappers()[entry.slot()].entry),
                    )
                    &&& self.wraps(key, entry.slot(), after.wrappers()[entry.slot()].entry, after)
                },
                Err(error) => {
                    &&& self.inner().insert_spec(
                        key,
                        value,
                        after.inner(),
                        Err::<KVS::Entry, KVS::Error>(error),
                    )
                    &&& after.pool() == self.pool()
                    &&& after.wrappers() == self.wrappers()
                },
            }
        }
    }

    open spec fn lookup_spec(
        self,
        key: Seq<char>,
        after: Self,
        r: Result<Entry, KVS::Error>,
    ) -> bool {
        if self.pool().contains_key(key) {
            &&& r matches Ok(entry)
            &&& entry.slot() == self.pool()[key]
            &&& self.shares(self.pool()[key], after)
        } else {
            match r {
                Ok(entry) => {
                    &&& self.inner().lookup_spec(
                        key,
                        after.inner(),
                        Ok::<KVS::Entry, KVS::Error>(after.wrappers()[entry.slot()].entry),
                    )
                    &&& self.wraps(key, entry.slot(), after.wrappers()[entry.slot()].entry, after)
                },
                Err(error) => {
                    &&& self.inner().lookup_spec(
                        key,
                        after.inner(),
                        Err::<KVS::Entry, KVS::Error>(error),
                    )
                    &&& after.pool() == self.pool()
                    &&& after.wrappers() == self.wrappers()
                },
            }
        }
    }

    open spec fn delete_spec(self, key: Seq<char>, after: Self, r: Result<(), KVS::Error>) -> bool {
        &&& self.marks(key, after)
        &&& self.inner().delete_spec(key, after.inner(), r)
    }

    proof fn lemma_write_keeps_wf(self, entry: Entry, value: V, after: Self) {
        self.inner().lemma_write_keeps_wf(
            self.wrappers()[entry.slot()].entry,
            value,
            after.inner(),
        );
    }

    /// Where the pool has a wrapper for `key`, returns one more handle on it,
    /// drops `value` and leaves the wrapped store alone. Otherwise inserts into
    /// the wrapped store and pools a wrapper around the entry that it returns.
    fn insert(&mut self, key: String, value: V) -> (r: Result<Entry, KVS::Error>) {
        match self.pooled(&key) {
            Some(slot) => {
                self.bump(slot);
                proof {
                    old(self).lemma_shares_keeps(slot, *self);
                }
                Ok(Entry { slot })
            },
            None => {
                let inserted = self.store.insert(key.clone(), value);
                assert(self.pool() == old(self).pool());
                assert(self.wrappers() == old(self).wrappers());
                match inserted {
                    Ok(raw) => Ok(self.wrap(&key, raw)),
                    Err(error) => Err(error),
                }
            },
        }
    }

    /// Where the pool has a wrapper for `key`, returns one more handle on it and
    /// leaves the wrapped store alone. Otherwise looks `key` up in the wrapped
    /// store and pools a wrapper around the entry that it returns.
    fn lookup(&mut self, key: &String) -> (r: Result<Entry, KVS::Error>) {
        match self.pooled(key) {
            Some(slot) => {
                self.bump(slot);
                proof {
                    old(self).lemma_shares_keeps(slot, *self);
                }
                Ok(Entry { slot })
            },
            None => {
                let found = self.store.lookup(key);
                assert(self.pool() == old(self).pool());
                assert(self.wrappers() == old(self).wrappers());
                match found {
                    Ok(raw) => Ok(self.wrap(key, raw)),
                    Err(error) => Err(error),
                }
            },
        }
    }

    /// Marks the wrapper of `key`, if the pool has one, so that the handles on it
    /// fail from now on; then deletes `key` from the wrapped store. The wrapper
    /// stays pooled until its last handle is released.
    fn delete(&mut self, key: &String) -> (r: Result<(), KVS::Error>) {
        self.mark(key);
        let ghost marked = *self;
        let r = self.store.delete(key);
        assert(self.pool() == marked.pool());
        assert(self.wrappers() == marked.wrappers());
        r
    }
}

/// What a read through `entry` observes in `store`.
pub open spec fn observed<V, KVS: KeyValueStore<V>>(
    entry: Entry,
    store: Singleton<KVS::Entry, KVS>,
) -> Option<V> {
    <Entry as super::Entry<V, Singleton<KVS::Entry, KVS>>>::peek(&entry, &store)
}

/// Two lookups of one key return handles on one wrapper: in every state of the
/// store they observe the same value, so what is written through one is read
/// through the other.
pub proof fn lemma_lookups_share<V, KVS: KeyValueStore<V>>(
    start: Singleton<KVS::Entry, KVS>,
    key: Seq<char>,
    between: Singleton<KVS::Entry, KVS>,
    first: Entry,
    end: Singleton<KVS::Entry, KVS>,
    second: Entry,
)
    requires
        start.wf(),
        start.lookup_spec(key, between, Ok(first)),
        between.lookup_spec(key, end, Ok(second)),
    ensures
        first.slot() == second.slot(),
        end.wrappers()[first.slot()].handles >= 2 || end.wrappers()[first.slot()].handles
            == usize::MAX,
        forall|store: Singleton<KVS::Entry, KVS>|
            observed::<V, KVS>(first, store) == observed::<V, KVS>(second, store),
{
}

/// A pooled wrapper stays pooled, in its slot, whatever is inserted, looked up,
/// deleted or shared; a release leaves it so unless it gives back the wrapper's
/// only handle. So for as long as a handle on a wrapper is held, every lookup of
/// the wrapper's key returns a handle on that wrapper.
pub proof fn lemma_pooled_stays<V, KVS: KeyValueStore<V>>(
    before: Singleton<KVS::Entry, KVS>,
    key: Seq<char>,
    after: Singleton<KVS::Entry, KVS>,
)
    requires
        before.wf(),
        before.pool().contains_key(key),
        ({
            ||| exists|other: Seq<char>, value: V, r: Result<Entry, KVS::Error>|
                before.insert_spec(other, value, after, r)
            ||| exists|other: Seq<char>, r: Result<Entry, KVS::Error>|
                before.lookup_spec(other, after, r)
            ||| exists|other: Seq<char>, r: Result<(), KVS::Error>|
                before.delete_spec(other, after, r)
            ||| exists|slot: usize|
                before.wrappers().contains_key(slot) && before.shares(slot, after)
            ||| exists|slot: usize|
                before.release_spec(slot, after) && !(slot == before.pool()[key]
                    && before.wrappers()[slot].handles == 1)
        }),
    ensures
        after.pool().contains_key(key),
        after.pool()[key] == before.pool()[key],
        after.wrappers().contains_key(after.pool()[key]),
{
}

/// An insert and a later lookup of one key return handles on one wrapper.
pub proof fn lemma_insert_then_lookup_share<V, KVS: KeyValueStore<V>>(
    start: Singleton<KVS::Entry, KVS>,
    key: Seq<char>,
    value: V,
    between: Singleton<KVS::Entry, KVS>,
    first: Entry,
    end: Singleton<KVS::Entry, KVS>,
    second: Entry,
)
    requires
        start.wf(),
        start.insert_spec(key, value, between, Ok(first)),
        between.lookup_spec(key, end, Ok(second)),
    ensures
        first.slot() == second.slot(),
{
}

/// No key has two wrappers at a time.
pub proof fn lemma_one_wrapper_per_key<E, KVS>(
    store: Singleton<E, KVS>,
    first: usize,
    second: usize,
)
    requires
        store.pool_wf(),
        store.wrappers().contains_key(first),
        store.wrappers().contains_key(second),
        store.wrappers()[first].key == store.wrappers()[second].key,
    ensures
        first == second,
{
}

/// The pool has as many keys as there are wrappers, and each wrapper has a
/// handle out: the pool is never larger than the number of handles that are out.
pub proof fn lemma_pool_size<E, KVS>(store: Singleton<E, KVS>)
    requires
        store.pool_wf(),
    ensures
        store.wrappers().dom().finite(),
        store.pool().dom().finite(),
        store.pool().dom().len() == store.wrappers().dom().len(),
        forall|slot: usize| #[trigger]
            store.wrappers().contains_key(slot) ==> store.wrappers()[slot].handles >= 1,
{
    let slots = store.wrappers().dom();
    let key_of = |slot: usize| store.wrappers()[slot].key;
    store.wrappers.lemma_finite();
    assert(slots =~= store.wrappers@.dom());
    assert forall|key: Seq<char>| store.pool().dom().contains(key) == slots.map(key_of).contains(
        key,
    ) by {
        if store.pool().dom().contains(key) {
            assert(store.pool().contains_key(key));
            assert(slots.contains(store.pool()[key]) && key_of(store.pool()[key]) == key);
        }
        if slots.map(key_of).contains(key) {
            let slot = choose|slot: usize| slots.contains(slot) && key_of(slot) == key;
            assert(store.wrappers().contains_key(slot));
        }
    }
    assert(slots.map(key_of) =~= store.pool().dom());
    assert(injective_on(key_of, slots)) by {
        assert forall|first: usize, second: usize|
            slots.contains(first) && slots.contains(second) && #[trigger] key_of(first)
                == #[trigger] key_of(second) implies first == second by {
            assert(store.wrappers().contains_key(first));
            assert(store.wrappers().contains_key(second));
        }
    }
    lemma_map_size(slots, store.pool().dom(), key_of);
}

/// Every pooled key has a handle out: the pool never holds a wrapper that nobody
/// refers to.
pub proof fn lemma_pooled_is_held<E, KVS>(store: Singleton<E, KVS>, key: Seq<char>)
    requires
        store.pool_wf(),
        store.pool().contains_key(key),
    ensures
        store.wrappers().contains_key(store.pool()[key]),
        store.wrappers()[store.pool()[key]].key == key,
        store.wrappers()[store.pool()[key]].handles >= 1,
{
}

/// When the only handle on a wrapper is released, the wrapper's key leaves the
/// pool; the next lookup of that key asks the wrapped store and, where that
/// succeeds, makes a new wrapper with one handle out.
pub proof fn lemma_last_release_unpools<V, KVS: KeyValueStore<V>>(
    start: Singleton<KVS::Entry, KVS>,
    slot: usize,
    released: Singleton<KVS::Entry, KVS>,
    end: Singleton<KVS::Entry, KVS>,
    r: Result<Entry, KVS::Error>,
)
    requires
        start.wf(),
        start.wrappers().contains_key(slot),
        start.wrappers()[slot].handles == 1,
        start.release_spec(slot, released),
        released.lookup_spec(start.wrappers()[slot].key, end, r),
    ensures
        !released.pool().contains_key(start.wrappers()[slot].key),
        !released.wrappers().contains_key(slot),
        match r {
            Ok(entry) => {
                &&& released.inner().lookup_spec(
                    start.wrappers()[slot].key,
                    end.inner(),
                    Ok::<KVS::Entry, KVS::Error>(end.wrappers()[entry.slot()].entry),
                )
                &&& end.wrappers()[entry.slot()] == (Wrapper {
                    key: start.wrappers()[slot].key,
                    entry: end.wrappers()[entry.slot()].entry,
                    deleted: false,
                    handles: 1,
                })
            },
            Err(error) => released.inner().lookup_spec(
                start.wrappers()[slot].key,
                end.inner(),
                Err::<KVS::Entry, KVS::Error>(error),
            ),
        },
{
}

/// After `delete`, a handle on the wrapper of the deleted key observes nothing:
/// reading and writing through it fail with `SingletonDeleted`.
pub proof fn lemma_delete_reaches_handles<V, KVS: KeyValueStore<V>>(
    start: Singleton<KVS::Entry, KVS>,
    key: Seq<char>,
    end: Singleton<KVS::Entry, KVS>,
    r: Result<(), KVS::Error>,
    held: Entry,
)
    requires
        start.wf(),
        start.pool().contains_key(key),
        held.slot() == start.pool()[key],
        start.delete_spec(key, end, r),
    ensures
        end.reports_deleted(held.slot()),
        observed::<V, KVS>(held, end) is None,
        end.pool().contains_key(key),
{
}

/// A wrapper that was marked stays marked for as long as it is there, whatever
/// is inserted, looked up or deleted, and however many other handles are shared
/// or released.
pub proof fn lemma_deleted_stays<V, KVS: KeyValueStore<V>>(
    before: Singleton<KVS::Entry, KVS>,
    slot: usize,
    after: Singleton<KVS::Entry, KVS>,
)
    requires
        before.wf(),
        before.reports_deleted(slot),
        before.wrappers().contains_key(slot),
        ({
            ||| exists|key: Seq<char>, value: V, r: Result<Entry, KVS::Error>|
                before.insert_spec(key, value, after, r)
            ||| exists|key: Seq<char>, r: Result<Entry, KVS::Error>|
                before.lookup_spec(key, after, r)
            ||| exists|key: Seq<char>, r: Result<(), KVS::Error>| before.delete_spec(key, after, r)
            ||| exists|other: usize| before.shares(other, after)
            ||| exists|other: usize| before.release_spec(other, after)
        }),
    ensures
        after.reports_deleted(slot),
{
}

} // verus!
