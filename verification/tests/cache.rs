use coignet::utils::key_value::cache::lru::LruCache;
use coignet::utils::key_value::cache::{Cache, Cached};
use coignet::utils::key_value::in_memory::InMemory;
use coignet::utils::key_value::{Entry, KeyValueStore};

fn key(text: &str) -> String {
    text.to_string()
}

#[test]
fn capacity_one_cache_falls_through_after_eviction() {
    let mut backend: InMemory<i32> = InMemory::new();
    backend.insert(key("a"), 1).unwrap();
    backend.insert(key("b"), 2).unwrap();
    let mut store = Cached::new(backend, LruCache::new(1));

    let first = store.lookup(&key("a")).unwrap();
    assert_eq!(first.read(&store, |v| *v), Ok(1));
    assert!(store.cache.lookup(&key("a")).is_some());

    let second = store.lookup(&key("b")).unwrap();
    assert_eq!(second.read(&store, |v| *v), Ok(2));
    assert!(store.cache.lookup(&key("a")).is_none());
    assert!(store.cache.lookup(&key("b")).is_some());

    let again = store.lookup(&key("a")).unwrap();
    assert_eq!(again.read(&store, |v| *v), Ok(1));
    assert_eq!(again, first);
}

#[test]
fn lru_cache_drops_the_least_recently_used_pair() {
    let mut cache: LruCache<i32> = LruCache::new(2);
    cache.insert(key("a"), 1);
    cache.insert(key("b"), 2);
    assert_eq!(cache.lookup(&key("a")), Some(&1));
    cache.insert(key("c"), 3);
    assert_eq!(cache.lookup(&key("b")), None);
    assert_eq!(cache.lookup(&key("a")), Some(&1));
    assert_eq!(cache.lookup(&key("c")), Some(&3));
}

#[test]
fn lru_cache_replaces_the_value_of_a_cached_key() {
    let mut cache: LruCache<i32> = LruCache::new(2);
    cache.insert(key("a"), 1);
    cache.insert(key("b"), 2);
    cache.insert(key("a"), 10);
    assert_eq!(cache.lookup(&key("a")), Some(&10));
    assert_eq!(cache.lookup(&key("b")), Some(&2));
    cache.insert(key("c"), 3);
    assert_eq!(cache.lookup(&key("a")), None);
    assert_eq!(cache.lookup(&key("b")), Some(&2));
    assert_eq!(cache.lookup(&key("c")), Some(&3));
}

#[test]
fn lru_cache_delete_forgets_one_key() {
    let mut cache: LruCache<i32> = LruCache::new(3);
    cache.insert(key("a"), 1);
    cache.insert(key("b"), 2);
    cache.delete(&key("a"));
    cache.delete(&key("never"));
    assert_eq!(cache.lookup(&key("a")), None);
    assert_eq!(cache.lookup(&key("b")), Some(&2));
    cache.insert(key("c"), 3);
    cache.insert(key("d"), 4);
    assert_eq!(cache.lookup(&key("b")), Some(&2));
    assert_eq!(cache.lookup(&key("c")), Some(&3));
    assert_eq!(cache.lookup(&key("d")), Some(&4));
}

#[test]
fn lru_cache_of_capacity_zero_holds_nothing() {
    let mut cache: LruCache<i32> = LruCache::new(0);
    cache.insert(key("a"), 1);
    assert_eq!(cache.lookup(&key("a")), None);
    cache.delete(&key("a"));
    assert_eq!(cache.lookup(&key("a")), None);
}

#[test]
fn lru_cache_reuses_values_across_many_evictions() {
    let mut cache: LruCache<usize> = LruCache::new(3);
    for round in 0..50usize {
        cache.insert(format!("k{}", round), round);
        assert_eq!(cache.lookup(&format!("k{}", round)), Some(&round));
        if round >= 3 {
            assert_eq!(cache.lookup(&format!("k{}", round - 3)), None);
            assert_eq!(cache.lookup(&format!("k{}", round - 2)), Some(&(round - 2)));
            assert_eq!(cache.lookup(&format!("k{}", round - 1)), Some(&(round - 1)));
            assert_eq!(cache.lookup(&format!("k{}", round)), Some(&round));
        }
    }
}

#[test]
fn inserted_key_survives_eviction_by_other_keys() {
    let mut store = Cached::new(InMemory::<String>::new(), LruCache::new(2));
    let entry = store.insert(key("k"), key("v")).unwrap();
    assert!(store.cache.lookup(&key("k")).is_some());
    for other in ["x", "y", "z"] {
        store.insert(key(other), key(other)).unwrap();
    }
    assert!(store.cache.lookup(&key("k")).is_none());
    let found = store.lookup(&key("k")).unwrap();
    assert_eq!(found, entry);
    assert_eq!(found.read(&store, |v| v.clone()), Ok(key("v")));
    assert!(store.cache.lookup(&key("k")).is_some());
}

#[test]
fn cached_insert_reaches_the_store_and_fails_on_a_bound_key() {
    let mut store = Cached::new(InMemory::<i32>::new(), LruCache::new(4));
    store.insert(key("a"), 1).unwrap();
    assert_eq!(store.insert(key("a"), 2), Err(()));
    let direct = store.store.lookup(&key("a")).unwrap();
    assert_eq!(direct.read(&store.store, |v| *v), Ok(1));
}

#[test]
fn cached_delete_leaves_no_hit_behind() {
    let mut store = Cached::new(InMemory::<i32>::new(), LruCache::new(4));
    store.insert(key("a"), 1).unwrap();
    store.lookup(&key("a")).unwrap();
    assert_eq!(store.delete(&key("a")), Ok(()));
    assert!(store.cache.lookup(&key("a")).is_none());
    assert_eq!(store.lookup(&key("a")), Err(()));
    assert_eq!(store.store.lookup(&key("a")), Err(()));
}

#[test]
fn a_miss_on_an_unbound_key_caches_nothing() {
    let mut store = Cached::new(InMemory::<i32>::new(), LruCache::new(1));
    store.insert(key("a"), 1).unwrap();
    assert_eq!(store.lookup(&key("b")), Err(()));
    assert!(store.cache.lookup(&key("a")).is_some());
    assert!(store.cache.lookup(&key("b")).is_none());
}

#[test]
fn writes_through_a_cached_entry_reach_the_store() {
    let mut store = Cached::new(InMemory::<i32>::new(), LruCache::new(1));
    let entry = store.insert(key("a"), 1).unwrap();
    assert_eq!(entry.write(&mut store, |v| *v = 8), Ok(()));
    store.insert(key("b"), 2).unwrap();
    let found = store.lookup(&key("a")).unwrap();
    assert_eq!(found.read(&store, |v| *v), Ok(8));
}
