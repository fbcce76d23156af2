use log_mdc::global::SharedStore;

fn get_owned(store: &SharedStore, key: &str) -> Option<String> {
    store.get(&key.to_string(), |v: Option<&str>| v.map(|s| s.to_string()))
}

#[test]
fn shared_insert_and_get() {
    let store = SharedStore::new();
    assert_eq!(store.insert("k".to_string(), "v".to_string()), None);
    assert_eq!(
        store.insert("k".to_string(), "w".to_string()),
        Some("v".to_string())
    );
    assert_eq!(get_owned(&store, "k"), Some("w".to_string()));
    assert_eq!(get_owned(&store, "missing"), None);
}

#[test]
fn shared_remove_and_clear() {
    let store = SharedStore::new();
    store.insert("a".to_string(), "1".to_string());
    store.insert("b".to_string(), "2".to_string());
    assert_eq!(store.remove(&"a".to_string()), Some("1".to_string()));
    assert_eq!(store.remove(&"a".to_string()), None);
    store.clear();
    assert_eq!(store.iter().len(), 0);
}

#[test]
fn shared_extend_and_iter() {
    let store = SharedStore::new();
    store.extend(vec![
        ("a".to_string(), "1".to_string()),
        ("b".to_string(), "2".to_string()),
        ("a".to_string(), "3".to_string()),
    ]);
    let mut seen = store.iter();
    seen.sort();
    assert_eq!(
        seen,
        vec![
            ("a".to_string(), "3".to_string()),
            ("b".to_string(), "2".to_string()),
        ]
    );
}

#[test]
fn shared_stores_are_independent() {
    let one = SharedStore::new();
    let two = SharedStore::new();
    one.insert("k".to_string(), "v".to_string());
    assert_eq!(get_owned(&two, "k"), None);
}
