//! The log engine: record codec, reads after writes, recovery, compaction.

use kvs::kv::{decode_command, encode_command, Command, KvStore};
use kvs::KvsErrorKind;

fn fresh() -> KvStore {
    KvStore::open(&Vec::new()).unwrap()
}

#[test]
fn command_lines_are_canonical_json() {
    let put = Command::Put("a".to_string(), "1".to_string());
    assert_eq!(encode_command(&put), "{\"Set\":[\"a\",\"1\"]}");
    let rm = Command::Rm("a".to_string());
    assert_eq!(encode_command(&rm), "{\"Rm\":\"a\"}");
}

#[test]
fn command_codec_round_trips() {
    let cases = vec![
        Command::Put("a".to_string(), "1".to_string()),
        Command::Put("k\"q".to_string(), "v\\w".to_string()),
        Command::Put("nl".to_string(), "a\nb\r\nc".to_string()),
        Command::Put("unicode".to_string(), "\u{00e9}\u{4e16}\u{754c}".to_string()),
        Command::Put("empty".to_string(), String::new()),
        Command::Rm("k\"q".to_string()),
        Command::Rm("plain".to_string()),
    ];
    for c in cases {
        let line = encode_command(&c);
        assert!(!line.contains('\n'), "{line:?}");
        let back = decode_command(line.as_str()).unwrap();
        assert_eq!(back, c);
    }
}

#[test]
fn decoding_canonical_log_lines() {
    let c = decode_command("{\"Set\":[\"key1\",\"value1\"]}").unwrap();
    assert_eq!(c, Command::Put("key1".to_string(), "value1".to_string()));
    let c = decode_command("{\"Rm\":\"key1\"}").unwrap();
    assert_eq!(c, Command::Rm("key1".to_string()));
}

#[test]
fn decoding_garbage_is_serde() {
    for line in ["GARBAGE", "", "{\"Set\":}", "{\"Set\":[\"a\"]}", "{\"Rm\":3}", "{}"] {
        let e = decode_command(line).unwrap_err();
        assert!(matches!(e.kind, KvsErrorKind::Serde), "{line:?}");
    }
}

#[test]
fn get_after_set_and_remove() {
    let mut store = fresh();
    store.set("k".to_string(), "v1".to_string()).unwrap();
    assert_eq!(store.get("k".to_string()).unwrap(), Some("v1".to_string()));
    store.set("k".to_string(), "v2".to_string()).unwrap();
    assert_eq!(store.get("k".to_string()).unwrap(), Some("v2".to_string()));
    store.remove("k".to_string()).unwrap();
    assert_eq!(store.get("k".to_string()).unwrap(), None);
}

#[test]
fn remove_of_removed_key_is_key_not_found() {
    let mut store = fresh();
    store.set("k".to_string(), "v".to_string()).unwrap();
    store.remove("k".to_string()).unwrap();
    let e = store.remove("k".to_string()).unwrap_err();
    assert!(matches!(e.kind, KvsErrorKind::KeyNotFound));
}

#[test]
fn corrupt_index_is_reported_as_index_error() {
    let out_of_range = KvStore {
        records: Vec::new(),
        index: vec![("a".to_string(), 3)],
        next_pos: 0,
    };
    let e = out_of_range.get("a".to_string()).unwrap_err();
    assert!(matches!(e.kind, KvsErrorKind::Index));

    let tombstone = KvStore {
        records: vec![Command::Rm("a".to_string())],
        index: vec![("a".to_string(), 0)],
        next_pos: 1,
    };
    let e = tombstone.get("a".to_string()).unwrap_err();
    assert!(matches!(e.kind, KvsErrorKind::Index));

    let wrong_key = KvStore {
        records: vec![Command::Put("b".to_string(), "1".to_string())],
        index: vec![("a".to_string(), 0)],
        next_pos: 1,
    };
    let e = wrong_key.get("a".to_string()).unwrap_err();
    assert!(matches!(e.kind, KvsErrorKind::Index));
}

#[test]
fn open_of_no_lines_is_an_empty_store() {
    let store = fresh();
    assert_eq!(store.records.len(), 0);
    assert_eq!(store.next_pos, 0);
    assert_eq!(store.get("anything".to_string()).unwrap(), None);
}

#[test]
fn open_folds_last_write_wins_and_tombstones() {
    let lines = vec![
        "{\"Set\":[\"a\",\"1\"]}".to_string(),
        "{\"Set\":[\"b\",\"2\"]}".to_string(),
        "{\"Set\":[\"a\",\"3\"]}".to_string(),
        "{\"Rm\":\"b\"}".to_string(),
    ];
    let store = KvStore::open(&lines).unwrap();
    assert_eq!(store.next_pos, 4);
    assert_eq!(store.get("a".to_string()).unwrap(), Some("3".to_string()));
    assert_eq!(store.get("b".to_string()).unwrap(), None);
}

#[test]
fn open_with_trailing_garbage_is_serde() {
    let lines = vec!["{\"Set\":[\"a\",\"1\"]}".to_string(), "garbage".to_string()];
    let e = KvStore::open(&lines).unwrap_err();
    assert!(matches!(e.kind, KvsErrorKind::Serde));
}

#[test]
fn recovery_is_lossless() {
    let mut store = fresh();
    store.set("x".to_string(), "foo".to_string()).unwrap();
    store.set("x".to_string(), "bar".to_string()).unwrap();
    store.set("y".to_string(), "baz".to_string()).unwrap();
    store.remove("y".to_string()).unwrap();
    let lines = store.encoded_log();
    let reopened = KvStore::open(&lines).unwrap();
    assert_eq!(reopened.next_pos, store.next_pos);
    assert_eq!(
        reopened.get("x".to_string()).unwrap(),
        Some("bar".to_string())
    );
    assert_eq!(reopened.get("y".to_string()).unwrap(), None);
}

#[test]
fn compaction_keeps_every_reading_and_shrinks_to_live_keys() {
    let mut store = fresh();
    for i in 0..20u32 {
        let k = format!("key{}", i % 5);
        store.set(k, format!("v{i}")).unwrap();
    }
    store.remove("key4".to_string()).unwrap();
    let before: Vec<Option<String>> = (0..5u32)
        .map(|i| store.get(format!("key{i}")).unwrap())
        .collect();
    assert_eq!(store.records.len(), 21);
    store.slink().unwrap();
    assert_eq!(store.records.len(), 4);
    assert_eq!(store.next_pos, 4);
    let after: Vec<Option<String>> = (0..5u32)
        .map(|i| store.get(format!("key{i}")).unwrap())
        .collect();
    assert_eq!(before, after);
    store.slink().unwrap();
    assert_eq!(store.records.len(), 4);
}

#[test]
fn compacted_store_survives_reopening() {
    let mut store = fresh();
    store.set("a".to_string(), "1".to_string()).unwrap();
    store.set("a".to_string(), "2".to_string()).unwrap();
    store.set("b".to_string(), "3".to_string()).unwrap();
    store.slink().unwrap();
    let reopened = KvStore::open(&store.encoded_log()).unwrap();
    assert_eq!(reopened.records.len(), 2);
    assert_eq!(reopened.get("a".to_string()).unwrap(), Some("2".to_string()));
    assert_eq!(reopened.get("b".to_string()).unwrap(), Some("3".to_string()));
}

#[test]
fn many_distinct_keys_accumulate_and_compact_to_their_count() {
    let mut store = fresh();
    for client in 0..12u32 {
        for i in 0..32u32 {
            store
                .set(format!("key{client}x{i}"), format!("{i}"))
                .unwrap();
        }
    }
    assert_eq!(store.records.len(), 12 * 32);
    let reopened = KvStore::open(&store.encoded_log()).unwrap();
    for client in 0..12u32 {
        for i in 0..32u32 {
            assert_eq!(
                reopened.get(format!("key{client}x{i}")).unwrap(),
                Some(format!("{i}"))
            );
        }
    }
    let mut compacted = reopened;
    compacted.slink().unwrap();
    assert_eq!(compacted.records.len(), 12 * 32);
}
