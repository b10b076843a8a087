//! The store interface that every backend and decorator implements.
//!
//! A store maps string keys to values. `insert`, `lookup` and `delete` hand out
//! and retire entries; an entry is a handle, and the value it names is read and
//! written through the store that issued it.
//!
//! Each implementor says what its operations do by defining the `*_spec`
//! relations between the store before a call, the arguments, the store after the
//! call and the result. A decorator defines its relations in terms of those of
//! the store it wraps, so a stack of decorators over a concrete backend has
//! contracts that can be unfolded down to that backend.

use vstd::prelude::*;

pub mod cache;
pub mod in_memory;
pub mod singleton;

verus! {

/// `fun` may be called on a place that holds `value`.
pub open spec fn accepts<V, T, F: FnOnce(&mut V) -> T>(fun: F, value: V) -> bool {
    forall|place: &mut V| mut_ref_current(place) == value ==> #[trigger] fun.requires((place,))
}

/// A handle on one value inside a store of type `S`.
pub trait Entry<V, S>: Sized {
    type Error;

    /// The value that a read through this handle observes in `store`, or `None`
    /// where the handle cannot be read there.
    spec fn peek(&self, store: &S) -> Option<V>;

    /// `after` is `before` with the value behind this handle replaced by `value`.
    spec fn write_spec(&self, before: S, value: V, after: S) -> bool;

    /// Applies `fun` to the value behind the handle. Succeeds exactly when the
    /// handle can be read in `store`.
    fn read<T, F: FnOnce(&V) -> T>(&self, store: &S, fun: F) -> (r: Result<T, Self::Error>)
        requires
            self.peek(store) matches Some(value) ==> fun.requires((&value,)),
        ensures
            match r {
                Ok(out) => self.peek(store) matches Some(value) && fun.ensures((&value,), out),
                Err(_) => self.peek(store) is None,
            },
    ;

    /// Lets `fun` change the value behind the handle in place. Succeeds exactly
    /// when the handle can be read in `store`; on failure the store is unchanged.
    /// On success `fun` was called once, on a place that held the old value, and
    /// what it left there is the new value.
    fn write<T, F: FnOnce(&mut V) -> T>(
        &self,
        store: &mut S,
        fun: F,
    ) -> (r: Result<T, Self::Error>)
        requires
            self.peek(old(store)) matches Some(value) ==> accepts(fun, value),
        ensures
            r is Ok <==> self.peek(old(store)) is Some,
            r is Ok ==> self.peek(final(store)) is Some,
            r is Ok ==> exists|place: &mut V|
                mut_ref_current(place) == self.peek(old(store))->0 && mut_ref_future(place)
                    == self.peek(final(store))->0 && #[trigger] fun.ensures((place,), r->Ok_0),
            r is Ok ==> self.write_spec(*old(store), self.peek(final(store))->0, *final(store)),
            r is Err ==> *final(store) == *old(store),
    ;
}

/// A store of values of type `V` under string keys.
pub trait KeyValueStore<V>: Sized {
    type Error;

    type Entry: Entry<V, Self>;

    /// The store's invariant. Every operation needs it and keeps it.
    spec fn wf(&self) -> bool;

    /// What `insert` does.
    spec fn insert_spec(
        self,
        key: Seq<char>,
        value: V,
        after: Self,
        r: Result<Self::Entry, Self::Error>,
    ) -> bool;

    /// What `lookup` does.
    spec fn lookup_spec(
        self,
        key: Seq<char>,
        after: Self,
        r: Result<Self::Entry, Self::Error>,
    ) -> bool;

    /// What `delete` does.
    spec fn delete_spec(self, key: Seq<char>, after: Self, r: Result<(), Self::Error>) -> bool;

    /// A write through an entry keeps the invariant.
    proof fn lemma_write_keeps_wf(self, entry: Self::Entry, value: V, after: Self)
        requires
            self.wf(),
            entry.write_spec(self, value, after),
        ensures
            after.wf(),
    ;

    /// Binds `key` to `value` and returns an entry for it.
    fn insert(&mut self, key: String, value: V) -> (r: Result<Self::Entry, Self::Error>)
        requires
            old(self).wf(),
        ensures
            final(self).wf(),
            old(self).insert_spec(key@, value, *final(self), r),
    ;

    /// Returns an entry for the value bound to `key`.
    fn lookup(&mut self, key: &String) -> (r: Result<Self::Entry, Self::Error>)
        requires
            old(self).wf(),
        ensures
            final(self).wf(),
            old(self).lookup_spec(key@, *final(self), r),
    ;

    /// Removes the binding of `key`.
    fn delete(&mut self, key: &String) -> (r: Result<(), Self::Error>)
        requires
            old(self).wf(),
        ensures
            final(self).wf(),
            old(self).delete_spec(key@, *final(self), r),
    ;
}

} // verus!
