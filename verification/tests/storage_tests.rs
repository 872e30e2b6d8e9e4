use kvlog::bootstrap::rebuild_from_file;
use kvlog::key_value::KeyValue;
use kvlog::storage::Storage;

#[test]
fn empty_log_scans_cleanly_and_rebuilds_an_empty_index() {
    let st = Storage::new();
    let (records, complete) = st.scan_all();
    assert!(complete);
    assert!(records.is_empty());
    let mut kv = KeyValue::new();
    assert!(rebuild_from_file(&mut kv, &st).is_ok());
    assert_eq!(kv.current_version(), 0);
    assert_eq!(kv.get(b"anything"), None);
}

#[test]
fn put_append_writes_header_key_and_value() {
    let mut st = Storage::new();
    st.append_put(b"x", &[1, 2, 3]);
    // key_length=1 and value_length=3 as little-endian u32, then "x", then the value
    assert_eq!(
        st.bytes().as_slice(),
        &[1, 0, 0, 0, 3, 0, 0, 0, b'x', 1, 2, 3]
    );
    let mut kv = KeyValue::new();
    assert!(rebuild_from_file(&mut kv, &st).is_ok());
    assert_eq!(kv.get(b"x"), Some(vec![1, 2, 3]));
}

#[test]
fn delete_append_writes_zero_value_length_and_key_only() {
    let mut st = Storage::new();
    st.append_put(b"x", &[1, 2, 3]);
    st.append_delete(b"x");
    let expected: Vec<u8> = vec![
        1, 0, 0, 0, 3, 0, 0, 0, b'x', 1, 2, 3, // the put record
        1, 0, 0, 0, 0, 0, 0, 0, b'x', // the delete record: value_length=0, no value bytes
    ];
    assert_eq!(st.bytes().as_slice(), expected.as_slice());
    let mut kv = KeyValue::new();
    assert!(rebuild_from_file(&mut kv, &st).is_ok());
    assert_eq!(kv.get(b"x"), None);
}

#[test]
fn scan_round_trips_appended_records_in_order() {
    let mut st = Storage::new();
    st.append_put(b"alpha", &[10, 20]);
    st.append_delete(b"beta");
    st.append_put(b"alpha", &[30]);
    // reopening the image from its raw bytes yields the same records in order
    let reopened = Storage::from_bytes(st.bytes().clone());
    let (records, complete) = reopened.scan_all();
    assert!(complete);
    assert_eq!(records.len(), 3);
    assert_eq!(records[0].key, b"alpha".to_vec());
    assert_eq!(records[0].value, Some(vec![10, 20]));
    assert_eq!(records[1].key, b"beta".to_vec());
    assert_eq!(records[1].value, None);
    assert_eq!(records[2].key, b"alpha".to_vec());
    assert_eq!(records[2].value, Some(vec![30]));
}

#[test]
fn put_of_empty_value_reads_back_as_tombstone() {
    // the wire format cannot tell a put of an empty value from a delete
    let mut st = Storage::new();
    st.append_put(b"k", b"");
    let (records, complete) = st.scan_all();
    assert!(complete);
    assert_eq!(records.len(), 1);
    assert_eq!(records[0].value, None);
}

#[test]
fn rebuild_applies_records_in_file_order_delete_last() {
    let mut st = Storage::new();
    st.append_put(b"k", b"a");
    st.append_put(b"k", b"b");
    st.append_delete(b"k");
    let mut kv = KeyValue::new();
    assert!(rebuild_from_file(&mut kv, &st).is_ok());
    assert_eq!(kv.get(b"k"), None);
    assert_eq!(kv.current_version(), 3);
}

#[test]
fn rebuild_applies_records_in_file_order_put_last() {
    let mut st = Storage::new();
    st.append_put(b"k", b"a");
    st.append_delete(b"k");
    st.append_put(b"k", b"b");
    let mut kv = KeyValue::new();
    assert!(rebuild_from_file(&mut kv, &st).is_ok());
    assert_eq!(kv.get(b"k"), Some(b"b".to_vec()));
}

#[test]
fn scan_of_truncated_log_yields_prior_records_then_error() {
    let mut st = Storage::new();
    st.append_put(b"first", &[1, 2, 3]);
    st.append_put(b"second", &[4, 5, 6]);
    // crash simulation: cut the image in the middle of the second record
    let mut bytes = st.bytes().clone();
    bytes.truncate(bytes.len() - 2);
    let truncated = Storage::from_bytes(bytes);
    let (records, complete) = truncated.scan_all();
    assert!(!complete);
    assert_eq!(records.len(), 1);
    assert_eq!(records[0].key, b"first".to_vec());
    assert_eq!(records[0].value, Some(vec![1, 2, 3]));
    // recovery surfaces the truncation as an error after applying the whole records
    let mut kv = KeyValue::new();
    assert!(rebuild_from_file(&mut kv, &truncated).is_err());
    assert_eq!(kv.get(b"first"), Some(vec![1, 2, 3]));
}

#[test]
fn scan_of_partial_header_is_an_error_not_a_clean_end() {
    let mut st = Storage::new();
    st.append_put(b"first", &[1]);
    let mut bytes = st.bytes().clone();
    let whole = bytes.clone();
    // append 3 stray bytes: too short even for the next record's header
    bytes.push(9);
    bytes.push(9);
    bytes.push(9);
    let truncated = Storage::from_bytes(bytes);
    let (records, complete) = truncated.scan_all();
    assert!(!complete);
    assert_eq!(records.len(), 1);
    // the intact image scans cleanly
    let (_, complete_whole) = Storage::from_bytes(whole).scan_all();
    assert!(complete_whole);
}
