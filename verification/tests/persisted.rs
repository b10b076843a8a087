use coignet::utils::persisted::{OnDrop, OnRead, OnWrite, Persisted, PersistenceStrategy};

fn flags<S: PersistenceStrategy>() -> (bool, bool, bool) {
    (S::ON_DROP, S::ON_READ, S::ON_WRITE)
}

#[test]
fn strategies_have_their_switches() {
    assert_eq!(flags::<OnDrop>(), (true, false, false));
    assert_eq!(flags::<OnRead>(), (false, true, true));
    assert_eq!(flags::<OnWrite>(), (false, false, true));
}

#[test]
fn on_write_read_asks_for_no_write_back() {
    let value: Persisted<i32, OnWrite> = Persisted::new(3);
    let guard = value.read();
    assert_eq!(*guard.get(), 3);
    assert_eq!(guard.release(), None);
}

#[test]
fn on_write_each_write_asks_for_one_write_back() {
    let mut value: Persisted<i32, OnWrite> = Persisted::new(0);
    let mut written: Vec<i32> = Vec::new();
    for round in 1..=5 {
        let mut guard = value.write();
        guard.set(round * 10);
        match guard.release() {
            Some(snapshot) => written.push(*snapshot),
            None => {}
        }
        assert_eq!(value.read().release(), None);
    }
    assert_eq!(written, vec![10, 20, 30, 40, 50]);
    assert_eq!(value.close(), (50, false));
}

#[test]
fn a_write_guard_that_changes_nothing_still_asks() {
    let mut value: Persisted<i32, OnWrite> = Persisted::new(4);
    let guard = value.write();
    assert_eq!(*guard.get(), 4);
    assert_eq!(guard.release(), Some(&4));
}

#[test]
fn on_read_every_access_asks_for_a_write_back() {
    let mut value: Persisted<String, OnRead> = Persisted::new("a".to_string());
    assert_eq!(value.read().release(), Some(&"a".to_string()));
    let mut guard = value.write();
    guard.ptr.push('b');
    assert_eq!(guard.release(), Some(&"ab".to_string()));
    assert_eq!(value.read().release(), Some(&"ab".to_string()));
    assert_eq!(value.close(), ("ab".to_string(), false));
}

#[test]
fn on_drop_asks_only_when_the_value_is_given_up() {
    let mut value: Persisted<i32, OnDrop> = Persisted::new(1);
    assert_eq!(value.read().release(), None);
    let mut guard = value.write();
    guard.set(2);
    assert_eq!(guard.release(), None);
    assert_eq!(value.close(), (2, true));
}

#[test]
fn the_default_strategy_writes_back_when_given_up() {
    let value: Persisted<i32> = Persisted::new(1);
    let guard = value.read();
    assert_eq!(*guard, 1);
    assert_eq!(guard.release(), None);
    assert_eq!(value.close(), (1, true));
}

#[test]
fn guards_give_access_to_the_value() {
    let mut value: Persisted<Vec<i32>, OnWrite> = Persisted::new(vec![1]);
    let guard = value.write();
    guard.ptr.push(2);
    assert_eq!(guard.len(), 2);
    assert_eq!(guard.release(), Some(&vec![1, 2]));
    let guard = value.read();
    assert_eq!(guard.ptr, &vec![1, 2]);
    assert_eq!(guard.len(), 2);
}
