//! Values that are written back to durable storage, and when.
//!
//! A [`Persisted`] value hands out guards for scoped access. Giving a guard back
//! with `release` tells the caller whether the strategy asks for a write-back now,
//! and with which value; carrying the write-back out is the caller's part.

use std::marker::PhantomData;
use vstd::prelude::*;

verus! {

/// When a persisted value is written back.
pub trait PersistenceStrategy {
    /// Once, when the value is given up.
    const ON_DROP: bool = false;

    /// After every scoped read.
    const ON_READ: bool = false;

    /// After every scoped write.
    const ON_WRITE: bool = false;
}

/// Write back once, when the value is given up.
pub struct OnDrop;

impl PersistenceStrategy for OnDrop {
    const ON_DROP: bool = true;
}

/// Write back after every access, reading or writing.
pub struct OnRead;

impl PersistenceStrategy for OnRead {
    const ON_WRITE: bool = true;

    const ON_READ: bool = true;
}

/// Write back after every scoped write, and not after a read.
pub struct OnWrite;

impl PersistenceStrategy for OnWrite {
    const ON_WRITE: bool = true;
}

/// A value with a write-back strategy.
pub struct Persisted<T, S: PersistenceStrategy = OnDrop> {
    data: T,
    _strategy: PhantomData<S>,
}

/// Scoped read access to a persisted value.
pub struct ReadGuard<'a, T> {
    pub ptr: &'a T,
    /// Whether giving the guard back asks for a write-back.
    pub persist: bool,
}

/// Scoped write access to a persisted value.
pub struct WriteGuard<'a, T> {
    pub ptr: &'a mut T,
    /// Whether giving the guard back asks for a write-back.
    pub persist: bool,
}

impl<'a, T> std::ops::Deref for ReadGuard<'a, T> {
    type Target = T;

    fn deref(&self) -> (value: &T)
        ensures
            *value == *self.ptr,
    {
        self.ptr
    }
}

impl<'a, T> std::ops::Deref for WriteGuard<'a, T> {
    type Target = T;

    fn deref(&self) -> (value: &T)
        ensures
            *value == *old(self.ptr),
    {
        &*self.ptr
    }
}

impl<'a, T> ReadGuard<'a, T> {
    /// The value under the guard.
    pub fn get(&self) -> (value: &T)
        ensures
            *value == *self.ptr,
    {
        self.ptr
    }

    /// Ends the access. Returns the value to write back where the strategy asks
    /// for a write-back after a read, and `None` where it does not.
    #[must_use]
    pub fn release(self) -> (write_back: Option<&'a T>)
        ensures
            write_back == (if self.persist {
                Some(self.ptr)
            } else {
                None
            }),
    {
        if self.persist {
            Some(self.ptr)
        } else {
            None
        }
    }
}

impl<'a, T> WriteGuard<'a, T> {
    /// The value under the guard.
    pub fn get(&self) -> (value: &T)
        ensures
            *value == *old(self.ptr),
    {
        &*self.ptr
    }

    /// Replaces the value under the guard.
    pub fn set(&mut self, value: T)
        ensures
            *final(self).ptr == value,
            final(self).persist == old(self).persist,
            *final(final(self).ptr) == *final(old(self).ptr),
    {
        *self.ptr = value;
    }

    /// Ends the access: the value under the guard is the persisted value from now
    /// on. Returns it where the strategy asks for a write-back after a write, and
    /// `None` where it does not.
    #[must_use]
    pub fn release(self) -> (write_back: Option<&'a T>)
        ensures
            *final(self.ptr) == *old(self.ptr),
            write_back == (if self.persist {
                Some(&*old(self.ptr))
            } else {
                None
            }),
    {
        let WriteGuard { ptr, persist } = self;
        if persist {
            Some(&*ptr)
        } else {
            None
        }
    }
}

impl<T, S: PersistenceStrategy> Persisted<T, S> {
    /// The value as it stands.
    pub closed spec fn value(&self) -> T {
        self.data
    }

    /// Puts `data` under the strategy `S`.
    pub fn new(data: T) -> (persisted: Self)
        ensures
            persisted.value() == data,
    {
        Persisted { _strategy: PhantomData, data }
    }

    /// Scoped read access. The guard asks for a write-back exactly when the
    /// strategy writes back on reads.
    pub fn read(&self) -> (guard: ReadGuard<'_, T>)
        ensures
            *guard.ptr == self.value(),
            guard.persist == S::ON_READ,
    {
        ReadGuard { ptr: &self.data, persist: S::ON_READ }
    }

    /// Scoped write access. The guard asks for a write-back exactly when the
    /// strategy writes back on writes; what the guard holds in the end is the
    /// value from then on.
    pub fn write(&mut self) -> (guard: WriteGuard<'_, T>)
        ensures
            *guard.ptr == old(self).value(),
            guard.persist == S::ON_WRITE,
            final(self).value() == *final(guard.ptr),
    {
        WriteGuard { ptr: &mut self.data, persist: S::ON_WRITE }
    }

    /// Gives the value up. The flag says whether the strategy asks for a
    /// write-back now.
    pub fn close(self) -> (last: (T, bool))
        ensures
            last.0 == self.value(),
            last.1 == S::ON_DROP,
    {
        (self.data, S::ON_DROP)
    }
}

/// The switches of the three strategies.
pub proof fn lemma_switches()
    ensures
        OnDrop::ON_DROP && !OnDrop::ON_READ && !OnDrop::ON_WRITE,
        !OnRead::ON_DROP && OnRead::ON_READ && OnRead::ON_WRITE,
        !OnWrite::ON_DROP && !OnWrite::ON_READ && OnWrite::ON_WRITE,
{
}

/// One scoped access.
#[derive(Clone, Copy, Debug, PartialEq, Eq, Structural)]
pub enum Access {
    Read,
    Write,
}

/// Whether the guard of an access of this kind asks for a write-back under `S`.
pub open spec fn fires<S: PersistenceStrategy>(access: Access) -> bool {
    match access {
        Access::Read => S::ON_READ,
        Access::Write => S::ON_WRITE,
    }
}

/// The number of write-backs that a run of accesses asks for under `S`: one for
/// each guard that is given back armed.
pub open spec fn write_backs<S: PersistenceStrategy>(accesses: Seq<Access>) -> nat
    decreases accesses.len(),
{
    if accesses.len() == 0 {
        0
    } else {
        write_backs::<S>(accesses.drop_last()) + if fires::<S>(accesses.last()) {
            1nat
        } else {
            0nat
        }
    }
}

/// The number of writes in a run of accesses.
pub open spec fn writes(accesses: Seq<Access>) -> nat
    decreases accesses.len(),
{
    if accesses.len() == 0 {
        0
    } else {
        writes(accesses.drop_last()) + if accesses.last() == Access::Write {
            1nat
        } else {
            0nat
        }
    }
}

/// Under `OnWrite` a read asks for no write-back and a write for one, so a run of
/// accesses asks for as many write-backs as it has writes: none fewer, none more.
pub proof fn lemma_on_write_counts_writes(accesses: Seq<Access>)
    ensures
        !fires::<OnWrite>(Access::Read),
        fires::<OnWrite>(Access::Write),
        write_backs::<OnWrite>(accesses) == writes(accesses),
    decreases accesses.len(),
{
    if accesses.len() > 0 {
        lemma_on_write_counts_writes(accesses.drop_last());
    }
}

/// Under `OnRead` every access asks for a write-back.
pub proof fn lemma_on_read_counts_all(accesses: Seq<Access>)
    ensures
        write_backs::<OnRead>(accesses) == accesses.len(),
    decreases accesses.len(),
{
    if accesses.len() > 0 {
        lemma_on_read_counts_all(accesses.drop_last());
    }
}

/// Under `OnDrop` no access asks for a write-back; the one write-back is owed
/// when the value is given up.
pub proof fn lemma_on_drop_counts_none(accesses: Seq<Access>)
    ensures
        write_backs::<OnDrop>(accesses) == 0,
    decreases accesses.len(),
{
    if accesses.len() > 0 {
        lemma_on_drop_counts_none(accesses.drop_last());
    }
}

} // verus!
