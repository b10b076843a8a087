use coignet::utils::key_value::cache::lru::LruCache;
use coignet::utils::key_value::cache::Cached;
use coignet::utils::key_value::in_memory;
use coignet::utils::key_value::in_memory::InMemory;
use coignet::utils::key_value::singleton::{Error, Singleton};
use coignet::utils::key_value::{Entry, KeyValueStore};

fn key(text: &str) -> String {
    text.to_string()
}

fn over(pairs: &[(&str, i32)]) -> Singleton<in_memory::Entry, InMemory<i32>> {
    let mut backend: InMemory<i32> = InMemory::new();
    for (name, value) in pairs {
        backend.insert(key(name), *value).unwrap();
    }
    Singleton::new(backend)
}

#[test]
fn two_lookups_observe_each_others_writes() {
    let mut store = over(&[("k", 1)]);
    let first = store.lookup(&key("k")).unwrap();
    let second = store.lookup(&key("k")).unwrap();
    assert_eq!(first.write(&mut store, |v| *v = 5), Ok(()));
    assert_eq!(second.read(&store, |v| *v), Ok(5));
    assert_eq!(second.write(&mut store, |v| *v += 1), Ok(()));
    assert_eq!(first.read(&store, |v| *v), Ok(6));
}

#[test]
fn insert_and_lookup_converge_on_one_wrapper() {
    let mut store = over(&[]);
    let inserted = store.insert(key("k"), 3).unwrap();
    let found = store.lookup(&key("k")).unwrap();
    assert_eq!(inserted.write(&mut store, |v| *v = 4), Ok(()));
    assert_eq!(found.read(&store, |v| *v), Ok(4));
}

#[test]
fn insert_of_a_pooled_key_returns_the_pooled_wrapper() {
    let mut store = over(&[("k", 1)]);
    let held = store.lookup(&key("k")).unwrap();
    let again = store.insert(key("k"), 99).unwrap();
    assert_eq!(again.read(&store, |v| *v), Ok(1));
    assert_eq!(held.read(&store, |v| *v), Ok(1));
}

#[test]
fn insert_of_a_key_that_the_store_holds_fails_when_not_pooled() {
    let mut store = over(&[("k", 1)]);
    assert!(store.insert(key("k"), 2).is_err());
    let found = store.lookup(&key("k")).unwrap();
    assert_eq!(found.read(&store, |v| *v), Ok(1));
}

#[test]
fn lookup_of_an_unbound_key_fails_and_pools_nothing() {
    let mut store = over(&[("k", 1)]);
    assert!(store.lookup(&key("missing")).is_err());
    store.store.insert(key("missing"), 2).unwrap();
    let found = store.lookup(&key("missing")).unwrap();
    assert_eq!(found.read(&store, |v| *v), Ok(2));
}

#[test]
fn releasing_every_handle_empties_the_pool() {
    let mut store = over(&[("k", 1)]);
    let first = store.lookup(&key("k")).unwrap();
    let second = store.lookup(&key("k")).unwrap();
    store.delete(&key("k")).unwrap();
    store.release(first);
    // One handle is still out: the marked wrapper is still pooled.
    let third = store.lookup(&key("k")).unwrap();
    assert_eq!(third.read(&store, |v| *v), Err(Error::SingletonDeleted));
    store.release(third);
    store.release(second);
    // The pool is empty now, so the wrapped store is asked, and it has no such key.
    assert!(store.lookup(&key("k")).is_err());
    store.store.insert(key("k"), 2).unwrap();
    let fresh = store.lookup(&key("k")).unwrap();
    assert_eq!(fresh.read(&store, |v| *v), Ok(2));
}

#[test]
fn a_fresh_lookup_after_release_makes_a_new_wrapper() {
    let mut store = over(&[("k", 1)]);
    let only = store.lookup(&key("k")).unwrap();
    store.release(only);
    // Had the old wrapper stayed pooled, this insert would return it.
    assert!(store.insert(key("k"), 5).is_err());
    let fresh = store.lookup(&key("k")).unwrap();
    assert_eq!(fresh.read(&store, |v| *v), Ok(1));
    let pooled = store.insert(key("k"), 5).unwrap();
    assert_eq!(pooled.read(&store, |v| *v), Ok(1));
}

#[test]
fn delete_is_seen_through_every_held_handle() {
    let mut store = over(&[("k", 1)]);
    let first = store.lookup(&key("k")).unwrap();
    let second = store.share(&first);
    assert_eq!(store.delete(&key("k")), Ok(()));
    assert_eq!(first.read(&store, |v| *v), Err(Error::SingletonDeleted));
    assert_eq!(second.read(&store, |v| *v), Err(Error::SingletonDeleted));
    assert_eq!(first.write(&mut store, |v| *v = 3), Err(Error::SingletonDeleted));
    assert_eq!(second.write(&mut store, |v| *v = 3), Err(Error::SingletonDeleted));
    store.release(second);
    assert_eq!(first.read(&store, |v| *v), Err(Error::SingletonDeleted));
    assert!(store.store.lookup(&key("k")).is_err());
}

#[test]
fn delete_of_a_key_without_wrapper_reaches_the_store() {
    let mut store = over(&[("k", 1), ("other", 2)]);
    let other = store.lookup(&key("other")).unwrap();
    assert_eq!(store.delete(&key("k")), Ok(()));
    assert!(store.lookup(&key("k")).is_err());
    assert_eq!(other.read(&store, |v| *v), Ok(2));
}

#[test]
fn a_released_handle_reports_deletion() {
    let mut store = over(&[("k", 1)]);
    let only = store.lookup(&key("k")).unwrap();
    let stale = store.share(&only);
    store.release(only);
    assert_eq!(stale.read(&store, |v| *v), Ok(1));
    let copy = store.share(&stale);
    store.release(stale);
    store.release(copy);
    let mut other = over(&[]);
    let foreign = other.insert(key("x"), 1).unwrap();
    assert_eq!(foreign.read(&store, |v| *v), Err(Error::SingletonDeleted));
    store.release(foreign);
    assert!(store.lookup(&key("x")).is_err());
}

#[test]
fn shared_handles_keep_the_wrapper_pooled() {
    let mut store = over(&[("k", 1)]);
    let first = store.lookup(&key("k")).unwrap();
    let second = store.share(&first);
    store.release(first);
    let pooled = store.insert(key("k"), 7).unwrap();
    assert_eq!(pooled.read(&store, |v| *v), Ok(1));
    store.release(pooled);
    store.release(second);
    assert!(store.insert(key("k"), 7).is_err());
}

#[test]
fn singleton_over_cache_over_backend() {
    let mut backend: InMemory<i32> = InMemory::new();
    backend.insert(key("a"), 1).unwrap();
    backend.insert(key("b"), 2).unwrap();
    let cached = Cached::new(backend, LruCache::new(1));
    let mut store: Singleton<in_memory::Entry, _> = Singleton::new(cached);
    let a = store.lookup(&key("a")).unwrap();
    let b = store.lookup(&key("b")).unwrap();
    let a_again = store.lookup(&key("a")).unwrap();
    assert_eq!(a.write(&mut store, |v| *v = 10), Ok(()));
    assert_eq!(a_again.read(&store, |v| *v), Ok(10));
    assert_eq!(b.read(&store, |v| *v), Ok(2));
    store.delete(&key("a")).unwrap();
    assert_eq!(a_again.read(&store, |v| *v), Err(Error::SingletonDeleted));
    assert_eq!(b.read(&store, |v| *v), Ok(2));
    assert!(store.store.lookup(&key("a")).is_err());
}

#[test]
fn a_failure_of_the_wrapped_entry_is_passed_on() {
    let mut store = over(&[("a", 1), ("b", 2)]);
    let held = store.lookup(&key("b")).unwrap();
    // The wrapped store is swapped for one that has no cell for the wrapped entry.
    store.store = InMemory::new();
    assert_eq!(held.read(&store, |v| *v), Err(Error::Other(())));
    assert_eq!(held.write(&mut store, |v| *v = 0), Err(Error::Other(())));
}
