//! The outside least-recently-used list that keeps the keys of a cache in order of use.

use crate::utils::recency;
use vstd::prelude::*;

verus! {

/// An `lru::LruCache` from keys to slot numbers. Verus sees nothing inside it:
/// what it holds is named by `lru_order` and `lru_limit`.
#[verifier::external_body]
pub struct KeyOrder {
    inner: ::lru::LruCache<String, usize>,
}

/// The pairs that an `lru::LruCache` holds, from the most recently used to the
/// least recently used.
pub uninterp spec fn lru_order(list: KeyOrder) -> Seq<(Seq<char>, usize)>;

/// The capacity that an `lru::LruCache` was made with.
pub uninterp spec fn lru_limit(list: KeyOrder) -> nat;

/// `lru::LruCache::new`: an empty cache with the given capacity. The crate takes
/// the capacity as a non-zero number, so zero is left out here.
#[verifier::external_body]
pub(crate) fn lru_new(capacity: usize) -> (list: KeyOrder)
    requires
        capacity > 0,
    ensures
        lru_order(list) == Seq::<(Seq<char>, usize)>::empty(),
        lru_limit(list) == capacity,
{
    KeyOrder { inner: ::lru::LruCache::new(std::num::NonZeroUsize::new(capacity).unwrap()) }
}

/// `lru::LruCache::push`: puts the pair at the most recently used end. Where the
/// key was present its old value is replaced and comes back; otherwise, where
/// the cache was full, the least recently used pair is dropped and its value
/// comes back.
#[verifier::external_body]
pub(crate) fn lru_push(list: &mut KeyOrder, key: String, slot: usize) -> (out: Option<usize>)
    ensures
        lru_order(*final(list)) == recency::put(
            lru_order(*old(list)),
            key@,
            slot,
            lru_limit(*old(list)),
        ),
        lru_limit(*final(list)) == lru_limit(*old(list)),
        out == recency::displaced(lru_order(*old(list)), key@, lru_limit(*old(list))),
{
    list.inner.push(key, slot).map(|pair| pair.1)
}

/// `lru::LruCache::get`: the value under the key, whose pair becomes the most
/// recently used one. A key that is absent changes nothing.
#[verifier::external_body]
pub(crate) fn lru_get(list: &mut KeyOrder, key: &String) -> (slot: Option<usize>)
    ensures
        lru_order(*final(list)) == recency::touch(lru_order(*old(list)), key@),
        lru_limit(*final(list)) == lru_limit(*old(list)),
        slot == recency::find(lru_order(*old(list)), key@),
{
    list.inner.get(key).copied()
}

/// `lru::LruCache::pop`: removes the pair of the key and returns its value.
#[verifier::external_body]
pub(crate) fn lru_pop(list: &mut KeyOrder, key: &String) -> (slot: Option<usize>)
    ensures
        lru_order(*final(list)) == recency::without(lru_order(*old(list)), key@),
        lru_limit(*final(list)) == lru_limit(*old(list)),
        slot == recency::find(lru_order(*old(list)), key@),
{
    list.inner.pop(key)
}

} // verus!
