use docstore::errors::{KeyNotFoundError, RangeError};
use docstore::memstore::MemStore;

#[test]
fn post_assigns_sequential_keys() {
    let mut store = MemStore::new();
    assert_eq!(1usize, store.post(String::from("one")));
    assert_eq!(2usize, store.post(String::from("two")));
    assert_eq!(3usize, store.post(String::from("three")));
}

#[test]
fn get_returns_stored_value() {
    let mut store = MemStore::new();
    let key = store.post(String::from("payload"));
    assert_eq!(Some(&String::from("payload")), store.get(key));
    assert_eq!(None, store.get(key + 1));
}

#[test]
fn put_replaces_existing_value() {
    let mut store = MemStore::new();
    let key = store.post(String::from("before"));
    assert_eq!(Ok(()), store.put(key, String::from("after")));
    assert_eq!(Some(&String::from("after")), store.get(key));
}

#[test]
fn put_unknown_key_is_reported() {
    let mut store = MemStore::new();
    assert_eq!(Err(KeyNotFoundError), store.put(5, String::from("value")));
}

#[test]
fn delete_removes_entry_and_keeps_key_retired() {
    let mut store = MemStore::new();
    let key = store.post(String::from("doomed"));
    assert_eq!(Ok(()), store.delete(key));
    assert_eq!(None, store.get(key));
    assert_eq!(Err(KeyNotFoundError), store.delete(key));
    // a deleted key is never reassigned
    assert_eq!(key + 1, store.post(String::from("fresh")));
}

#[test]
fn list_returns_entries_from_start() {
    let mut store = MemStore::new();
    store.post(String::from("a"));
    store.post(String::from("b"));
    store.post(String::from("c"));
    let listed = store.list(2, 0).unwrap();
    assert_eq!(
        vec![(2usize, String::from("b")), (3usize, String::from("c"))],
        listed
    );
}

#[test]
fn list_honours_count() {
    let mut store = MemStore::new();
    store.post(String::from("a"));
    store.post(String::from("b"));
    store.post(String::from("c"));
    let listed = store.list(1, 2).unwrap();
    assert_eq!(
        vec![(1usize, String::from("a")), (2usize, String::from("b"))],
        listed
    );
}

#[test]
fn list_empty_store_is_empty() {
    let store = MemStore::new();
    assert_eq!(Ok(Vec::new()), store.list(10, 0));
}

#[test]
fn list_past_last_key_is_a_range_error() {
    let mut store = MemStore::new();
    store.post(String::from("only"));
    assert_eq!(Err(RangeError), store.list(2, 0));
}
