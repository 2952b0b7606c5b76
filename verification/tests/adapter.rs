use indexeddb_kv::backend::collect_string_keys;
use indexeddb_kv::backend::record_key_path;
use indexeddb_kv::backend::scan;
use indexeddb_kv::backend::scheme;
use indexeddb_kv::backend::value_of_decoded;
use indexeddb_kv::backend::transaction_mode;
use indexeddb_kv::backend::AdapterError;
use indexeddb_kv::backend::AdapterErrorKind;
use indexeddb_kv::backend::Operation;
use indexeddb_kv::backend::TransactionMode;
use indexeddb_kv::order::lex_cmp;
use indexeddb_kv::order::KeyOrder;
use indexeddb_kv::store::KeyValueRecord;
use indexeddb_kv::store::RecordSpace;

fn bytes(s: &str) -> Vec<u8> {
    s.as_bytes().to_vec()
}

#[test]
fn set_then_get_returns_payload() {
    let mut space = RecordSpace::new();
    space.set("hello", bytes("world"));
    assert_eq!(space.get("hello"), Some(bytes("world")));
    // writes and deletes of other keys leave the binding alone
    space.set("other", bytes("value"));
    assert_eq!(space.get("hello"), Some(bytes("world")));
    space.delete("other");
    assert_eq!(space.get("hello"), Some(bytes("world")));
}

#[test]
fn overwrite_leaves_only_latest_value() {
    let mut space = RecordSpace::new();
    space.set("k", bytes("v1"));
    space.set("k", bytes("v2"));
    assert_eq!(space.get("k"), Some(bytes("v2")));
    // no residual trace of the first value: still a single record
    let keys = space.keys_from("");
    assert_eq!(keys, vec!["k".to_string()]);
}

#[test]
fn delete_removes_and_is_idempotent() {
    let mut space = RecordSpace::new();
    space.set("k", bytes("v"));
    space.delete("k");
    assert_eq!(space.get("k"), None);
    // deleting an absent key succeeds as a no-op
    space.delete("k");
    assert_eq!(space.get("k"), None);
}

#[test]
fn missing_key_reads_absent() {
    let space = RecordSpace::new();
    assert_eq!(space.get("never-written"), None);
}

#[test]
fn empty_key_and_empty_payload() {
    let mut space = RecordSpace::new();
    space.set("", Vec::new());
    assert_eq!(space.get(""), Some(Vec::new()));
    space.delete("");
    assert_eq!(space.get(""), None);
}

#[test]
fn scan_snapshot_excludes_later_write() {
    let mut space = RecordSpace::new();
    space.set("a/1", bytes("one"));
    space.set("a/2", bytes("two"));
    let mut scanner = scan(&space, "a/");
    // a matching key written after scan start is not in the snapshot
    space.set("a/3", bytes("three"));
    let mut seen: Vec<String> = Vec::new();
    while let Some(k) = scanner.next() {
        seen.push(k);
    }
    assert_eq!(seen, vec!["a/1".to_string(), "a/2".to_string()]);
    // a fresh scan produces an independent sequence that does see it
    let mut scanner2 = scan(&space, "a/");
    let mut seen2: Vec<String> = Vec::new();
    while let Some(k) = scanner2.next() {
        seen2.push(k);
    }
    assert_eq!(
        seen2,
        vec!["a/1".to_string(), "a/2".to_string(), "a/3".to_string()]
    );
}

#[test]
fn scan_range_is_open_ended_upward() {
    let mut space = RecordSpace::new();
    space.set("a", bytes("1"));
    space.set("ab", bytes("2"));
    space.set("b", bytes("3"));
    // every key at or above the prefix is selected, including keys
    // lexicographically beyond the prefix family
    assert_eq!(
        space.keys_from("a"),
        vec!["a".to_string(), "ab".to_string(), "b".to_string()]
    );
    assert_eq!(space.keys_from("ab"), vec!["ab".to_string(), "b".to_string()]);
    assert_eq!(space.keys_from("c"), Vec::<String>::new());
}

#[test]
fn scan_keys_come_out_in_lexicographic_order() {
    let mut space = RecordSpace::new();
    space.set("b", bytes("2"));
    space.set("a", bytes("1"));
    space.set("c", bytes("3"));
    assert_eq!(
        space.keys_from(""),
        vec!["a".to_string(), "b".to_string(), "c".to_string()]
    );
}

#[test]
fn scanner_is_forward_only_and_exhaustion_is_terminal() {
    let mut space = RecordSpace::new();
    space.set("x", bytes("1"));
    let mut scanner = scan(&space, "");
    assert_eq!(scanner.next(), Some("x".to_string()));
    assert_eq!(scanner.next(), None);
    assert_eq!(scanner.next(), None);
}

#[test]
fn record_echoes_its_key() {
    let rec = KeyValueRecord::new("path/to/object".to_string(), bytes("payload"));
    assert_eq!(rec.k, "path/to/object");
    assert_eq!(rec.v, bytes("payload"));
    assert_eq!(record_key_path(), "k");
}

#[test]
fn get_translation_of_transaction_results() {
    // no record: absent, not a failure
    assert!(matches!(value_of_decoded(None), Ok(None)));
    // a decoded record yields its payload
    let rec = KeyValueRecord::new("k".to_string(), bytes("v"));
    match value_of_decoded(Some(Ok(rec))) {
        Ok(Some(v)) => assert_eq!(v, bytes("v")),
        _ => panic!("a decoded record must yield its payload"),
    }
    // a record that could not be decoded surfaces the adapter's error
    let err = AdapterError::unexpected("malformed stored record".to_string());
    let out = value_of_decoded(Some(Err(err)));
    match out {
        Err(e) => {
            assert!(matches!(e.kind, AdapterErrorKind::Unexpected));
            assert_eq!(e.message(), "malformed stored record");
        }
        Ok(_) => panic!("a serialization failure must surface as an error"),
    }
}

#[test]
fn error_wraps_native_message_under_single_kind() {
    let e = AdapterError::unexpected("quota exceeded".to_string());
    assert!(matches!(e.kind, AdapterErrorKind::Unexpected));
    assert_eq!(e.message(), "quota exceeded");
}

#[test]
fn non_string_keys_are_dropped_in_order() {
    let raw = vec![
        Some("a".to_string()),
        None,
        Some("b".to_string()),
        None,
        None,
        Some("c".to_string()),
    ];
    assert_eq!(
        collect_string_keys(raw),
        vec!["a".to_string(), "b".to_string(), "c".to_string()]
    );
    assert_eq!(collect_string_keys(Vec::new()), Vec::<String>::new());
}

#[test]
fn scheme_name_is_fixed() {
    assert_eq!(scheme(), "indexeddb");
}

#[test]
fn keys_compare_lexicographically() {
    assert!(matches!(lex_cmp("a", "ab"), KeyOrder::Less));
    assert!(matches!(lex_cmp("ab", "a"), KeyOrder::Greater));
    assert!(matches!(lex_cmp("abc", "abc"), KeyOrder::Equal));
    assert!(matches!(lex_cmp("", "a"), KeyOrder::Less));
    assert!(matches!(lex_cmp("a/2", "a/10"), KeyOrder::Greater));
}

#[test]
fn only_writes_and_deletes_take_a_write_transaction() {
    assert!(matches!(transaction_mode(Operation::Get), TransactionMode::ReadOnly));
    assert!(matches!(transaction_mode(Operation::Scan), TransactionMode::ReadOnly));
    assert!(matches!(transaction_mode(Operation::Put), TransactionMode::ReadWrite));
    assert!(matches!(transaction_mode(Operation::Delete), TransactionMode::ReadWrite));
}

#[test]
fn read_after_many_interleaved_writes() {
    // the end-to-end shape: write a pair, then many writes of the same
    // pair interleaved with reads; every read observes the payload
    let mut space = RecordSpace::new();
    space.set("hello", bytes("world"));
    for _ in 0..100 {
        space.set("hello", bytes("world"));
        assert_eq!(space.get("hello"), Some(bytes("world")));
    }
}
