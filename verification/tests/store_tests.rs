use log_mdc::Store;

fn get_owned(store: &Store, key: &str) -> Option<String> {
    store.get(&key.to_string(), |v: Option<&str>| v.map(|s| s.to_string()))
}

#[test]
fn insert_returns_prior_value() {
    let mut store = Store::new();
    assert_eq!(store.insert("k".to_string(), "v".to_string()), None);
    assert_eq!(
        store.insert("k".to_string(), "w".to_string()),
        Some("v".to_string())
    );
    assert_eq!(get_owned(&store, "k"), Some("w".to_string()));
}

#[test]
fn scoped_restore_absent_key() {
    let mut store = Store::new();
    let mut guard = store.insert_scoped("k".to_string(), "x".to_string());
    assert_eq!(get_owned(&store, "k"), Some("x".to_string()));
    guard.release(&mut store);
    assert_eq!(get_owned(&store, "k"), None);
}

#[test]
fn scoped_restore_present_key() {
    let mut store = Store::new();
    store.insert("k".to_string(), "a".to_string());
    let mut guard = store.insert_scoped("k".to_string(), "b".to_string());
    assert_eq!(get_owned(&store, "k"), Some("b".to_string()));
    guard.release(&mut store);
    assert_eq!(get_owned(&store, "k"), Some("a".to_string()));
}

#[test]
fn batch_restore_distinct_keys() {
    let mut store = Store::new();
    store.insert("foo".to_string(), "a".to_string());
    let mut guard = store.extend_scoped(vec![
        ("foo".to_string(), "b".to_string()),
        ("fizz".to_string(), "buzz".to_string()),
    ]);
    assert_eq!(get_owned(&store, "foo"), Some("b".to_string()));
    assert_eq!(get_owned(&store, "fizz"), Some("buzz".to_string()));
    guard.release(&mut store);
    assert_eq!(get_owned(&store, "foo"), Some("a".to_string()));
    assert_eq!(get_owned(&store, "fizz"), None);
}

#[test]
fn batch_restore_repeated_key() {
    let mut store = Store::new();
    store.insert("k".to_string(), "orig".to_string());
    let mut guard = store.extend_scoped(vec![
        ("k".to_string(), "first".to_string()),
        ("k".to_string(), "second".to_string()),
    ]);
    assert_eq!(get_owned(&store, "k"), Some("second".to_string()));
    guard.release(&mut store);
    assert_eq!(get_owned(&store, "k"), Some("orig".to_string()));
}

#[test]
fn batch_restore_repeated_key_absent_before() {
    let mut store = Store::new();
    let mut guard = store.extend_scoped(vec![
        ("k".to_string(), "first".to_string()),
        ("k".to_string(), "second".to_string()),
    ]);
    assert_eq!(get_owned(&store, "k"), Some("second".to_string()));
    guard.release(&mut store);
    assert_eq!(get_owned(&store, "k"), None);
}

#[test]
fn release_is_idempotent_single() {
    let mut store = Store::new();
    store.insert("k".to_string(), "a".to_string());
    let mut guard = store.insert_scoped("k".to_string(), "b".to_string());
    guard.release(&mut store);
    assert_eq!(get_owned(&store, "k"), Some("a".to_string()));
    // the store may move on; a second release must not undo anything
    store.insert("k".to_string(), "c".to_string());
    guard.release(&mut store);
    assert_eq!(get_owned(&store, "k"), Some("c".to_string()));
}

#[test]
fn release_is_idempotent_batch() {
    let mut store = Store::new();
    let mut guard = store.extend_scoped(vec![("k".to_string(), "v".to_string())]);
    guard.release(&mut store);
    assert_eq!(get_owned(&store, "k"), None);
    store.insert("k".to_string(), "w".to_string());
    guard.release(&mut store);
    assert_eq!(get_owned(&store, "k"), Some("w".to_string()));
}

#[test]
fn nested_guards_unwind_in_reverse_order() {
    let mut store = Store::new();
    store.insert("k".to_string(), "base".to_string());
    let mut outer = store.insert_scoped("k".to_string(), "outer".to_string());
    let mut inner = store.insert_scoped("k".to_string(), "inner".to_string());
    assert_eq!(get_owned(&store, "k"), Some("inner".to_string()));
    inner.release(&mut store);
    assert_eq!(get_owned(&store, "k"), Some("outer".to_string()));
    outer.release(&mut store);
    assert_eq!(get_owned(&store, "k"), Some("base".to_string()));
}

#[test]
fn stores_are_isolated() {
    let mut a = Store::new();
    let mut b = Store::new();
    a.insert("k".to_string(), "a-only".to_string());
    assert_eq!(get_owned(&b, "k"), None);
    assert_eq!(b.iter().len(), 0);
    b.insert("k".to_string(), "b-only".to_string());
    assert_eq!(get_owned(&a, "k"), Some("a-only".to_string()));
}

#[test]
fn remove_returns_value() {
    let mut store = Store::new();
    assert_eq!(store.remove(&"k".to_string()), None);
    store.insert("k".to_string(), "v".to_string());
    assert_eq!(store.remove(&"k".to_string()), Some("v".to_string()));
    assert_eq!(get_owned(&store, "k"), None);
}

#[test]
fn clear_empties() {
    let mut store = Store::new();
    store.insert("a".to_string(), "1".to_string());
    store.insert("b".to_string(), "2".to_string());
    store.clear();
    assert_eq!(store.iter().len(), 0);
    assert_eq!(get_owned(&store, "a"), None);
}

#[test]
fn clear_of_empty_store_is_empty() {
    let mut store = Store::new();
    store.clear();
    assert_eq!(store.iter().len(), 0);
}

#[test]
fn iter_visits_each_entry_exactly_once() {
    let mut store = Store::new();
    store.insert("a".to_string(), "1".to_string());
    store.insert("b".to_string(), "2".to_string());
    store.insert("a".to_string(), "3".to_string());
    let mut seen = store.iter();
    seen.sort();
    assert_eq!(
        seen,
        vec![
            ("a".to_string(), "3".to_string()),
            ("b".to_string(), "2".to_string()),
        ]
    );
}

#[test]
fn extend_overwrites_in_order() {
    let mut store = Store::new();
    store.insert("a".to_string(), "0".to_string());
    store.extend(vec![
        ("a".to_string(), "1".to_string()),
        ("b".to_string(), "2".to_string()),
        ("a".to_string(), "3".to_string()),
    ]);
    assert_eq!(get_owned(&store, "a"), Some("3".to_string()));
    assert_eq!(get_owned(&store, "b"), Some("2".to_string()));
}

#[test]
fn get_passes_none_for_absent_key() {
    let store = Store::new();
    let seen = store.get(&"missing".to_string(), |v: Option<&str>| v.is_none());
    assert!(seen);
}
