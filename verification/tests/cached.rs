use coignet::utils::cached::{CacheError, Cached, CachedStore, Store};
use coignet::utils::in_memory;
use coignet::utils::in_memory::KeyNotFound;
use coignet::utils::loaded::Loaded;
use std::cell::Cell;
use std::sync::Arc;

fn key(text: &str) -> String {
    text.to_string()
}

fn length(text: &String) -> Result<usize, String> {
    if text.is_empty() {
        Err("empty".to_string())
    } else {
        Ok(text.len())
    }
}

#[test]
fn loaded_cache_drops_the_least_recently_used_value() {
    let mut cache: Loaded<i32> = Loaded::new(2);
    assert_eq!(cache.settle(&key("a"), 1), Some(&1));
    assert_eq!(cache.settle(&key("b"), 2), Some(&2));
    assert!(cache.contains(&key("a")));
    assert_eq!(cache.settle(&key("c"), 3), Some(&3));
    assert!(!cache.contains(&key("b")));
    assert_eq!(cache.get(&key("a")), Some(&1));
    assert_eq!(cache.get(&key("c")), Some(&3));
    assert_eq!(cache.get(&key("b")), None);
}

#[test]
fn loaded_cache_replaces_a_cached_value() {
    let mut cache: Loaded<i32> = Loaded::new(2);
    cache.settle(&key("a"), 1);
    cache.settle(&key("b"), 2);
    assert_eq!(cache.settle(&key("a"), 10), Some(&10));
    assert_eq!(cache.get(&key("b")), Some(&2));
    assert_eq!(cache.settle(&key("c"), 3), Some(&3));
    assert_eq!(cache.get(&key("a")), None);
    assert_eq!(cache.get(&key("b")), Some(&2));
    assert_eq!(cache.get(&key("c")), Some(&3));
}

#[test]
fn loaded_cache_without_room_keeps_nothing() {
    let mut cache: Loaded<i32> = Loaded::new(0);
    assert_eq!(cache.settle(&key("a"), 1), None);
    assert!(!cache.contains(&key("a")));
    assert_eq!(cache.get(&key("a")), None);
}

#[test]
fn loaded_cache_survives_many_rounds() {
    let mut cache: Loaded<usize> = Loaded::new(3);
    for round in 0..40usize {
        assert_eq!(cache.settle(&format!("k{}", round), round), Some(&round));
        if round >= 3 {
            assert_eq!(cache.get(&format!("k{}", round - 3)), None);
            assert_eq!(cache.get(&format!("k{}", round - 2)), Some(&(round - 2)));
            assert_eq!(cache.get(&format!("k{}", round - 1)), Some(&(round - 1)));
            assert_eq!(cache.get(&format!("k{}", round)), Some(&round));
        }
    }
}

#[test]
fn cached_store_loads_once_while_the_value_is_cached() {
    let calls = Cell::new(0);
    let mut store = CachedStore::new(2, |text: &String| {
        calls.set(calls.get() + 1);
        length(text)
    });
    assert_eq!(store.lookup(&key("abc")), Ok(&3));
    assert_eq!(store.lookup(&key("abc")), Ok(&3));
    assert_eq!(calls.get(), 1);
    assert_eq!(store.lookup(&key("de")), Ok(&2));
    assert_eq!(store.lookup(&key("f")), Ok(&1));
    assert_eq!(calls.get(), 3);
    assert_eq!(store.lookup(&key("abc")), Ok(&3));
    assert_eq!(calls.get(), 4);
}

#[test]
fn cached_store_passes_the_loaders_error_on() {
    let mut store = CachedStore::new(2, length);
    assert_eq!(store.lookup(&key("")), Err(CacheError::Loader("empty".to_string())));
    assert_eq!(store.lookup(&key("x")), Ok(&1));
}

#[test]
fn cached_store_without_room_reports_underflow() {
    let mut store = CachedStore::new(0, length);
    let failed = store.lookup(&key("abc"));
    assert_eq!(failed, Err(CacheError::Underflow));
    assert!(failed.unwrap_err().is_underflow());
    assert_eq!(store.lookup(&key("")), Err(CacheError::Loader("empty".to_string())));
}

#[test]
fn keep_treats_each_outcome_of_the_loader() {
    let mut store = CachedStore::new(1, length);
    assert_eq!(store.keep(&key("a"), Ok(5)), Ok(&5));
    assert_eq!(store.lookup(&key("a")), Ok(&5));
    assert_eq!(store.keep(&key("b"), Err("no".to_string())), Err(CacheError::Loader("no".to_string())));
    assert_eq!(store.lookup(&key("a")), Ok(&5));
    let mut none = CachedStore::new(0, length);
    assert_eq!(none.keep(&key("a"), Ok(5)), Err(CacheError::Underflow));
}

#[test]
fn fetch_goes_through_the_store_and_shares_the_value() {
    let mut store = Store::new(CachedStore::new(2, |text: &String| length(text).map(Arc::new)));
    let handle: Cached<usize> = store.new_ref(key("abcd"));
    let first = handle.fetch(None, &mut store).unwrap();
    assert_eq!(*first, 4);
    let second = handle.fetch(None, &mut store).unwrap();
    assert!(Arc::ptr_eq(&first, &second));
    let other = handle.clone();
    assert!(handle == other);
    assert!(handle != store.new_ref(key("zz")));
    let third = other.fetch(None, &mut store).unwrap();
    assert!(Arc::ptr_eq(&first, &third));
}

#[test]
fn fetch_returns_the_value_that_is_still_alive() {
    let calls = Cell::new(0);
    let mut store = Store::new(CachedStore::new(1, |text: &String| {
        calls.set(calls.get() + 1);
        length(text).map(Arc::new)
    }));
    let handle: Cached<usize> = Cached::new(key("abc"));
    let first = handle.fetch(None, &mut store).unwrap();
    let weak = Arc::downgrade(&first);
    let again = handle.fetch(weak.upgrade(), &mut store).unwrap();
    assert!(Arc::ptr_eq(&first, &again));
    assert_eq!(calls.get(), 1);
    // Another key takes the only place in the cache; once the last reference is
    // gone the value is loaded again.
    store.new_ref(key("x")).fetch(None, &mut store).unwrap();
    drop(first);
    drop(again);
    assert!(weak.upgrade().is_none());
    let reloaded = handle.fetch(weak.upgrade(), &mut store).unwrap();
    assert_eq!(*reloaded, 3);
    assert_eq!(calls.get(), 3);
}

#[test]
fn fetch_passes_errors_on() {
    let mut store = Store::new(CachedStore::new(0, |text: &String| length(text).map(Arc::new)));
    let handle: Cached<usize> = store.new_ref(key("abc"));
    assert_eq!(handle.fetch(None, &mut store), Err(CacheError::Underflow));
    let empty: Cached<usize> = store.new_ref(key(""));
    assert_eq!(empty.fetch(None, &mut store), Err(CacheError::Loader("empty".to_string())));
    assert_eq!(empty.fetch(Some(Arc::new(9)), &mut store), Ok(Arc::new(9)));
}

#[test]
fn in_memory_store_copies_values_out_of_its_map() {
    let mut store = in_memory::new::<String>(1);
    assert_eq!(store.lookup(&key("a")), Err(CacheError::Loader(KeyNotFound)));
    store.put(key("a"), key("one"));
    store.put(key("b"), key("two"));
    assert_eq!(store.lookup(&key("a")).map(|v| (**v).clone()), Ok(key("one")));
    // The cached copy stays until the cache drops it.
    store.put(key("a"), key("uno"));
    assert_eq!(store.lookup(&key("a")).map(|v| (**v).clone()), Ok(key("one")));
    assert_eq!(store.lookup(&key("b")).map(|v| (**v).clone()), Ok(key("two")));
    assert_eq!(store.lookup(&key("a")).map(|v| (**v).clone()), Ok(key("uno")));
}

#[test]
fn in_memory_store_without_room_reports_underflow() {
    let mut store = in_memory::new::<i32>(0);
    store.put(key("a"), 1);
    assert_eq!(store.lookup(&key("a")), Err(CacheError::Underflow));
    assert_eq!(store.lookup(&key("b")), Err(CacheError::Loader(KeyNotFound)));
}
