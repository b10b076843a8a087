//! The in-memory backend: an index from keys to cells, and the cells.

use super::KeyValueStore;
use vstd::hash_map::StringHashMap;
use vstd::prelude::*;

verus! {

/// A map from keys to value cells, all held in memory.
///
/// Every `insert` makes a new cell. `delete` unbinds the key and leaves the cell
/// in place, so an entry stays readable and writable after its key is gone; a
/// later `insert` of the same key makes another cell. Cells are given up when the
/// store is.
pub struct InMemory<V> {
    index: StringHashMap<usize>,
    cells: Vec<V>,
}

/// A handle on one cell of an [`InMemory`] store.
#[derive(Clone, Copy, Debug, PartialEq, Eq, Structural)]
pub struct Entry {
    slot: usize,
}

impl Entry {
    /// The number of the cell that the handle names.
    pub closed spec fn slot(&self) -> usize {
        self.slot
    }
}

impl<V> InMemory<V> {
    /// The cell that each bound key names.
    pub closed spec fn index(&self) -> Map<Seq<char>, usize> {
        self.index@
    }

    /// The cells, in the order in which they were made.
    pub closed spec fn cells(&self) -> Seq<V> {
        self.cells@
    }

    /// The value in the cell that `entry` names, if there is such a cell.
    pub open spec fn value_at(&self, entry: Entry) -> Option<V> {
        if entry.slot() < self.cells().len() {
            Some(self.cells()[entry.slot() as int])
        } else {
            None
        }
    }

    /// The value bound to each key.
    pub open spec fn contents(&self) -> Map<Seq<char>, V> {
        Map::new(
            |key: Seq<char>| self.index().contains_key(key),
            |key: Seq<char>| self.cells()[self.index()[key] as int],
        )
    }

    /// An empty store.
    pub fn new() -> (store: Self)
        ensures
            store.wf(),
            store.index() == Map::<Seq<char>, usize>::empty(),
            store.cells() == Seq::<V>::empty(),
    {
        InMemory { index: StringHashMap::new(), cells: Vec::new() }
    }
}

impl<V> super::Entry<V, InMemory<V>> for Entry {
    type Error = ();

    open spec fn peek(&self, store: &InMemory<V>) -> Option<V> {
        store.value_at(*self)
    }

    open spec fn write_spec(&self, before: InMemory<V>, value: V, after: InMemory<V>) -> bool {
        &&& self.slot() < before.cells().len()
        &&& after.index() == before.index()
        &&& after.cells() == before.cells().update(self.slot() as int, value)
    }

    fn read<T, F: FnOnce(&V) -> T>(&self, store: &InMemory<V>, fun: F) -> (r: Result<T, ()>) {
        if self.slot < store.cells.len() {
            Ok(fun(&store.cells[self.slot]))
        } else {
            Err(())
        }
    }

    fn write<T, F: FnOnce(&mut V) -> T>(
        &self,
        store: &mut InMemory<V>,
        fun: F,
    ) -> (r: Result<T, ()>) {
        if self.slot < store.cells.len() {
            let out = fun(&mut store.cells[self.slot]);
            assert(store.cells() =~= old(store).cells().update(
                self.slot() as int,
                store.cells()[self.slot() as int],
            ));
            let r = Ok(out);
            assert(r->Ok_0 == out);
            r
        } else {
            Err(())
        }
    }
}

impl<V> KeyValueStore<V> for InMemory<V> {
    type Error = ();

    type Entry = Entry;

    open spec fn wf(&self) -> bool {
        forall|key: Seq<char>| #[trigger]
            self.index().contains_key(key) ==> self.index()[key] < self.cells().len()
    }

    open spec fn insert_spec(
        self,
        key: Seq<char>,
        value: V,
        after: Self,
        r: Result<Entry, ()>,
    ) -> bool {
        if self.index().contains_key(key) {
            &&& r is Err
            &&& after.index() == self.index()
            &&& after.cells() == self.cells()
        } else {
            &&& r matches Ok(entry)
            &&& entry.slot() == self.cells().len()
            &&& after.index() == self.index().insert(key, entry.slot())
            &&& after.cells() == self.cells().push(value)
        }
    }

    open spec fn lookup_spec(self, key: Seq<char>, after: Self, r: Result<Entry, ()>) -> bool {
        &&& after.index() == self.index()
        &&& after.cells() == self.cells()
        &&& if self.index().contains_key(key) {
            r matches Ok(entry) && entry.slot() == self.index()[key]
        } else {
            r is Err
        }
    }

    open spec fn delete_spec(self, key: Seq<char>, after: Self, r: Result<(), ()>) -> bool {
        &&& r is Ok
        &&& after.index() == self.index().remove(key)
        &&& after.cells() == self.cells()
    }

    proof fn lemma_write_keeps_wf(self, entry: Entry, value: V, after: Self) {
        assert forall|key: Seq<char>| #[trigger] after.index().contains_key(key) implies
            after.index()[key]
            < after.cells().len() by {
            assert(self.index().contains_key(key));
        }
    }

    /// Fails where `key` is bound already, and then changes nothing.
    fn insert(&mut self, key: String, value: V) -> (r: Result<Entry, ()>) {
        if self.index.contains_key(key.as_str()) {
            Err(())
        } else {
            let slot: usize = self.cells.len();
            self.cells.push(value);
            self.index.insert(key, slot);
            assert forall|k: Seq<char>| #[trigger] self.index().contains_key(k) implies
                self.index()[k]
                < self.cells().len() by {
                if k != key@ {
                    assert(old(self).index().contains_key(k));
                }
            }
            Ok(Entry { slot })
        }
    }

    /// Fails where `key` is not bound.
    fn lookup(&mut self, key: &String) -> (r: Result<Entry, ()>) {
        match self.index.get(key.as_str()) {
            Some(slot) => Ok(Entry { slot: *slot }),
            None => Err(()),
        }
    }

    /// Unbinds `key`; a key that is not bound is left so.
    fn delete(&mut self, key: &String) -> (r: Result<(), ()>) {
        self.index.remove(key.as_str());
        Ok(())
    }
}

/// A write through an entry is seen under every key that is bound to the entry's
/// cell, and changes the value under no other key.
pub proof fn lemma_write_reaches_keys<V>(
    before: InMemory<V>,
    entry: Entry,
    value: V,
    after: InMemory<V>,
)
    requires
        before.wf(),
        <Entry as super::Entry<V, InMemory<V>>>::write_spec(&entry, before, value, after),
    ensures
        after.wf(),
        after.value_at(entry) == Some(value),
        after.contents().dom() == before.contents().dom(),
        forall|key: Seq<char>| #[trigger]
            before.contents().contains_key(key) ==> after.contents()[key] == if before.index()[key]
                == entry.slot() {
                value
            } else {
                before.contents()[key]
            },
{
    before.lemma_write_keeps_wf(entry, value, after);
    assert(after.contents().dom() =~= before.contents().dom());
}

} // verus!
