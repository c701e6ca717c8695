use server::session::SessionId;
use server::store::{InMemoryStore, Store};

#[test]
fn set_on_an_empty_key_takes_once() {
    let mut store = InMemoryStore::new();
    let key = SessionId(7);
    let answers: Vec<bool> = (0u8..5).map(|i| store.set(key, vec![i])).collect();
    assert_eq!(answers, vec![true, false, false, false, false]);
    assert_eq!(answers.iter().filter(|b| **b).count(), 1);
    assert_eq!(store.get(key), Some(vec![0]));
}

#[test]
fn get_takes_the_value_once() {
    let mut store = InMemoryStore::default();
    let key = SessionId(42);
    assert!(store.set(key, vec![1, 2, 3]));
    assert!(!store.is_empty(key));
    assert_eq!(store.get(key), Some(vec![1, 2, 3]));
    assert!(store.is_empty(key));
    assert_eq!(store.get(key), None);
    assert_eq!(store.get(key), None);
}

#[test]
fn keys_are_independent() {
    let mut store = InMemoryStore::new();
    assert!(store.set(SessionId(1), vec![1]));
    assert!(store.set(SessionId(2), vec![2]));
    assert_eq!(store.get(SessionId(2)), Some(vec![2]));
    assert_eq!(store.get(SessionId(1)), Some(vec![1]));
    assert!(store.is_empty(SessionId(3)));
}

#[test]
fn set_after_get_takes_again() {
    let mut store = InMemoryStore::new();
    assert!(store.set(SessionId(9), vec![1]));
    assert_eq!(store.get(SessionId(9)), Some(vec![1]));
    assert!(store.set(SessionId(9), vec![2]));
    assert_eq!(store.get(SessionId(9)), Some(vec![2]));
}
