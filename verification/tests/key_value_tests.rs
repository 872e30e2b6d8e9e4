use kvlog::key_value::KeyValue;

#[test]
fn key_value_new() {
    let kv = KeyValue::new();
    assert!(kv.get(b"nonexistent").is_none());
}

#[test]
fn key_value_key_value_new() {
    let kv = KeyValue::new();
    assert!(kv.get(b"nonexistent").is_none());
}

#[test]
fn key_value_put() {
    let mut kv = KeyValue::new();
    kv.put(b"key1", b"value1");
    assert_eq!(kv.get(b"key1"), Some(b"value1".to_vec()));
}

#[test]
fn key_value_key_value_put() {
    let mut kv = KeyValue::new();
    kv.put(b"key1", b"value1");
    assert_eq!(kv.get(b"key1"), Some(b"value1".to_vec()));
}

#[test]
fn test_put_get() {
    let mut kv = KeyValue::new();
    kv.put(b"key1", b"value1");
    assert_eq!(kv.get(b"key1"), Some(b"value1".to_vec()));
    assert_eq!(kv.get(b"key2"), None);
}

#[test]
fn key_value_test_put_get() {
    let mut kv = KeyValue::new();
    kv.put(b"key1", b"value1");
    assert_eq!(kv.get(b"key1"), Some(b"value1".to_vec()));
    assert_eq!(kv.get(b"key2"), None);
}

#[test]
fn test_delete() {
    let mut kv = KeyValue::new();
    kv.delete(b"key1");
    assert_eq!(kv.get(b"key1"), None);
}

#[test]
fn test_put_and_delete() {
    let mut kv = KeyValue::new();
    kv.put(b"key1", b"value1");
    assert_eq!(kv.get(b"key1"), Some(b"value1".to_vec()));
    kv.delete(b"key1");
    assert_eq!(kv.get(b"key1"), None);
}

#[test]
fn put_returns_previous_live_value_only() {
    let mut kv = KeyValue::new();
    assert_eq!(kv.put(b"k", b"first"), None);
    assert_eq!(kv.put(b"k", b"second"), Some(b"first".to_vec()));
    kv.delete(b"k");
    // overwriting a tombstone yields no previous value
    assert_eq!(kv.put(b"k", b"third"), None);
    assert_eq!(kv.get(b"k"), Some(b"third".to_vec()));
}

#[test]
fn delete_returns_previous_live_value_only() {
    let mut kv = KeyValue::new();
    // deleting an absent key succeeds and returns nothing
    assert_eq!(kv.delete(b"k"), None);
    kv.put(b"k", b"v");
    assert_eq!(kv.delete(b"k"), Some(b"v".to_vec()));
    // deleting a tombstone again returns nothing
    assert_eq!(kv.delete(b"k"), None);
}

#[test]
fn version_strictly_increases_over_puts_and_deletes() {
    let mut kv = KeyValue::new();
    assert_eq!(kv.current_version(), 0);
    let mut last = kv.current_version();
    kv.put(b"a", b"1");
    assert!(kv.current_version() > last);
    last = kv.current_version();
    kv.put(b"a", b"2");
    assert!(kv.current_version() > last);
    last = kv.current_version();
    kv.delete(b"a");
    assert!(kv.current_version() > last);
    last = kv.current_version();
    kv.delete(b"never-written");
    assert!(kv.current_version() > last);
    assert_eq!(kv.current_version(), 4);
}
