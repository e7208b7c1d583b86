use highlight_notifier::store::PopupStore;

fn key(s: &str) -> String {
    s.to_string()
}

#[test]
fn empty_store_has_nothing() {
    let store: PopupStore<u32> = PopupStore::new();
    assert_eq!(store.get(&key("highlight-popup-0")), None);
}

#[test]
fn read_after_write() {
    let mut store = PopupStore::new();
    store.insert(key("highlight-popup-0"), 10u32);
    store.insert(key("highlight-popup-1"), 11u32);
    assert_eq!(store.get(&key("highlight-popup-0")), Some(&10));
    assert_eq!(store.get(&key("highlight-popup-1")), Some(&11));
}

#[test]
fn overwrite_keeps_last_value() {
    let mut store = PopupStore::new();
    store.insert(key("a"), "first".to_string());
    store.insert(key("a"), "second".to_string());
    assert_eq!(store.get(&key("a")).map(|s| s.as_str()), Some("second"));
}

#[test]
fn read_after_clear() {
    let mut store = PopupStore::new();
    store.insert(key("a"), 1u8);
    store.insert(key("b"), 2u8);
    store.remove(&key("a"));
    assert_eq!(store.get(&key("a")), None);
    assert_eq!(store.get(&key("b")), Some(&2));
    store.remove(&key("missing"));
    assert_eq!(store.get(&key("b")), Some(&2));
}

#[test]
fn clear_then_write_again() {
    let mut store = PopupStore::new();
    store.insert(key("a"), 1i64);
    store.remove(&key("a"));
    store.insert(key("a"), 3i64);
    assert_eq!(store.get(&key("a")), Some(&3));
}
