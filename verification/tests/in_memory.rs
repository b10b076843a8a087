use coignet::utils::key_value::in_memory::InMemory;
use coignet::utils::key_value::{Entry, KeyValueStore};

fn key(text: &str) -> String {
    text.to_string()
}

#[test]
fn insert_then_lookup_reads_the_value() {
    let mut store: InMemory<i32> = InMemory::new();
    let inserted = store.insert(key("a"), 7).unwrap();
    let found = store.lookup(&key("a")).unwrap();
    assert_eq!(inserted, found);
    assert_eq!(found.read(&store, |v| *v), Ok(7));
}

#[test]
fn insert_of_a_bound_key_fails_and_keeps_the_value() {
    let mut store: InMemory<i32> = InMemory::new();
    store.insert(key("a"), 1).unwrap();
    assert_eq!(store.insert(key("a"), 2), Err(()));
    let found = store.lookup(&key("a")).unwrap();
    assert_eq!(found.read(&store, |v| *v), Ok(1));
}

#[test]
fn lookup_of_an_unbound_key_fails() {
    let mut store: InMemory<i32> = InMemory::new();
    store.insert(key("a"), 1).unwrap();
    assert_eq!(store.lookup(&key("b")), Err(()));
}

#[test]
fn delete_is_idempotent() {
    let mut store: InMemory<i32> = InMemory::new();
    store.insert(key("a"), 1).unwrap();
    assert_eq!(store.delete(&key("a")), Ok(()));
    assert_eq!(store.delete(&key("a")), Ok(()));
    assert_eq!(store.delete(&key("never")), Ok(()));
    assert_eq!(store.lookup(&key("a")), Err(()));
}

#[test]
fn an_entry_outlives_the_deletion_of_its_key() {
    let mut store: InMemory<String> = InMemory::new();
    let held = store.insert(key("a"), key("first")).unwrap();
    store.delete(&key("a")).unwrap();
    assert_eq!(held.read(&store, |v| v.clone()), Ok(key("first")));
    let fresh = store.insert(key("a"), key("second")).unwrap();
    assert_ne!(held, fresh);
    assert_eq!(held.write(&mut store, |v| v.push('!')), Ok(()));
    assert_eq!(held.read(&store, |v| v.clone()), Ok(key("first!")));
    assert_eq!(fresh.read(&store, |v| v.clone()), Ok(key("second")));
}

#[test]
fn a_write_through_one_entry_is_read_through_another() {
    let mut store: InMemory<i32> = InMemory::new();
    let first = store.insert(key("a"), 1).unwrap();
    let second = store.lookup(&key("a")).unwrap();
    assert_eq!(
        first.write(&mut store, |v| {
            *v += 41;
            *v
        }),
        Ok(42)
    );
    assert_eq!(second.read(&store, |v| *v), Ok(42));
    let other = store.insert(key("b"), 5).unwrap();
    assert_eq!(other.read(&store, |v| *v), Ok(5));
}

#[test]
fn an_entry_of_another_store_that_names_no_cell_fails() {
    let mut big: InMemory<i32> = InMemory::new();
    big.insert(key("a"), 1).unwrap();
    let far = big.insert(key("b"), 2).unwrap();
    let mut small: InMemory<i32> = InMemory::new();
    small.insert(key("x"), 9).unwrap();
    assert_eq!(far.read(&small, |v| *v), Err(()));
    assert_eq!(far.write(&mut small, |v| *v = 0), Err(()));
    let only = small.lookup(&key("x")).unwrap();
    assert_eq!(only.read(&small, |v| *v), Ok(9));
}
