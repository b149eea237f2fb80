//! Scenario tests for the store core and the engine facade: basic
//! operations, persistence round trips, compaction, and recovery.

use kvs::{encode_command, Command, Error, KvStoreInner, KvsEngine, KvStore, LogAction};

fn open_empty() -> KvStoreInner {
    KvStoreInner::open(Vec::new()).unwrap()
}

#[test]
fn set_get_remove_cycle() {
    let mut store = open_empty();
    store.set("k1".to_owned(), "v1".to_owned()).unwrap();
    assert_eq!(store.get("k1".to_owned()).unwrap(), Some("v1".to_owned()));
    assert_eq!(store.get("missing".to_owned()).unwrap(), None);
    store.remove("k1".to_owned()).unwrap();
    assert_eq!(store.get("k1".to_owned()).unwrap(), None);
    let err = store.remove("k1".to_owned()).unwrap_err();
    assert!(matches!(err, Error::NoKey(_)));
    assert_eq!(err.message().as_str(), "Key not found");
}

#[test]
fn facade_set_get_remove_cycle() {
    let store = KvStore::open(Vec::new()).unwrap();
    store.set("k1".to_owned(), "v1".to_owned()).unwrap();
    assert_eq!(store.get("k1".to_owned()).unwrap(), Some("v1".to_owned()));
    assert_eq!(store.get("missing".to_owned()).unwrap(), None);
    store.remove("k1".to_owned()).unwrap();
    assert_eq!(store.get("k1".to_owned()).unwrap(), None);
    assert!(store.remove("k1".to_owned()).is_err());
}

#[test]
fn hundred_keys_survive_reopen() {
    let mut store = open_empty();
    for i in 0..100 {
        store
            .set(format!("key{}", i), format!("value{}", i))
            .unwrap();
    }
    for i in 0..100 {
        assert_eq!(
            store.get(format!("key{}", i)).unwrap(),
            Some(format!("value{}", i))
        );
    }
    let reopened = KvStoreInner::open(store.log_bytes()).unwrap();
    for i in 0..100 {
        assert_eq!(
            reopened.get(format!("key{}", i)).unwrap(),
            Some(format!("value{}", i))
        );
    }
}

#[test]
fn overwrites_append_records_and_keep_one_live_key() {
    let mut store = open_empty();
    store.set("a".to_owned(), "1".to_owned()).unwrap();
    store.set("a".to_owned(), "2".to_owned()).unwrap();
    store.set("a".to_owned(), "3".to_owned()).unwrap();
    assert_eq!(store.get("a".to_owned()).unwrap(), Some("3".to_owned()));
    let mut expected = Vec::new();
    for v in ["1", "2", "3"] {
        expected.extend_from_slice(&encode_command(&Command::Put(
            "a".to_owned(),
            v.to_owned(),
        )));
    }
    assert_eq!(store.log_bytes(), expected);
    assert_eq!(store.live_keys(), 1);
}

#[test]
fn removal_survives_reopen() {
    let mut store = open_empty();
    store.set("a".to_owned(), "1".to_owned()).unwrap();
    store.set("b".to_owned(), "2".to_owned()).unwrap();
    store.remove("a".to_owned()).unwrap();
    let reopened = KvStoreInner::open(store.log_bytes()).unwrap();
    assert_eq!(reopened.get("a".to_owned()).unwrap(), None);
    assert_eq!(reopened.get("b".to_owned()).unwrap(), Some("2".to_owned()));
}

#[test]
fn set_reports_the_exact_appended_bytes() {
    let mut store = open_empty();
    let action = store.set("k".to_owned(), "v".to_owned()).unwrap();
    match action {
        LogAction::Appended(bytes) => {
            assert_eq!(
                bytes,
                encode_command(&Command::Put("k".to_owned(), "v".to_owned()))
            );
        }
        LogAction::Rewritten => panic!("small log must not be rewritten"),
    }
}

#[test]
fn compaction_reclaims_dead_records() {
    let mut store = open_empty();
    let value = "exactly-22-byte-value."; // 22 bytes
    assert_eq!(value.len(), 22);
    let mut rewritten = false;
    let mut max_size: usize = 0;
    for _ in 0..5000 {
        let action = store.set("k".to_owned(), value.to_owned()).unwrap();
        rewritten = rewritten || matches!(action, LogAction::Rewritten);
        max_size = max_size.max(store.log_bytes().len());
    }
    assert!(rewritten, "the writes must trip the compaction threshold");
    assert!(max_size > 4 * 22);
    assert_eq!(store.get("k".to_owned()).unwrap(), Some(value.to_owned()));
    store.compact().unwrap();
    let post = store.log_bytes();
    assert_eq!(
        post,
        encode_command(&Command::Put("k".to_owned(), value.to_owned()))
    );
    assert!(max_size >= 4 * post.len());
    assert_eq!(store.get("k".to_owned()).unwrap(), Some(value.to_owned()));
}

#[test]
fn compaction_keeps_every_live_binding() {
    let mut store = open_empty();
    for i in 0..50 {
        store.set(format!("key{}", i), format!("old{}", i)).unwrap();
    }
    for i in 0..50 {
        store.set(format!("key{}", i), format!("new{}", i)).unwrap();
    }
    for i in 0..25 {
        store.remove(format!("key{}", i)).unwrap();
    }
    let before = store.log_bytes().len();
    store.compact().unwrap();
    let after = store.log_bytes().len();
    assert!(after < before);
    for i in 0..25 {
        assert_eq!(store.get(format!("key{}", i)).unwrap(), None);
    }
    for i in 25..50 {
        assert_eq!(
            store.get(format!("key{}", i)).unwrap(),
            Some(format!("new{}", i))
        );
    }
    let reopened = KvStoreInner::open(store.log_bytes()).unwrap();
    for i in 25..50 {
        assert_eq!(
            reopened.get(format!("key{}", i)).unwrap(),
            Some(format!("new{}", i))
        );
    }
}

#[test]
fn incomplete_trailing_line_is_tolerated_on_open() {
    let mut bytes = encode_command(&Command::Put("a".to_owned(), "1".to_owned()));
    bytes.extend_from_slice(b"{\"Set\":[\"b");
    let store = KvStoreInner::open(bytes).unwrap();
    assert_eq!(store.get("a".to_owned()).unwrap(), Some("1".to_owned()));
    assert_eq!(store.get("b".to_owned()).unwrap(), None);
}

#[test]
fn corrupt_complete_line_refuses_to_open() {
    let mut bytes = encode_command(&Command::Put("a".to_owned(), "1".to_owned()));
    bytes.extend_from_slice(b"not a record\n");
    let err = match KvStoreInner::open(bytes) {
        Ok(_) => panic!("a corrupt complete line must refuse to open"),
        Err(e) => e,
    };
    assert!(matches!(err, Error::InvalidData(_)));
}

#[test]
fn awkward_keys_and_values_survive_reopen() {
    let mut store = open_empty();
    let cases = vec![
        ("caf\u{e9}", "\u{4e16}\u{754c}"),
        ("with\nnewline", "and\ttab"),
        ("quote\"slash\\", "ctl\u{1}\u{1f}"),
        ("", "empty key"),
        ("empty value", ""),
    ];
    for (k, v) in &cases {
        store.set((*k).to_owned(), (*v).to_owned()).unwrap();
    }
    let reopened = KvStoreInner::open(store.log_bytes()).unwrap();
    for (k, v) in &cases {
        assert_eq!(
            reopened.get((*k).to_owned()).unwrap(),
            Some((*v).to_owned())
        );
    }
}

#[test]
fn kiwi_inner_compacts_and_reopens() {
    let mut store = kvs::KiwiStoreInner::open(Vec::new()).unwrap();
    for i in 0..20 {
        store.set("k".to_owned(), format!("v{}", i)).unwrap();
    }
    store.compact().unwrap();
    assert_eq!(store.get("k".to_owned()).unwrap(), Some("v19".to_owned()));
    let err = match store.remove("missing".to_owned()) {
        Ok(_) => panic!("removing a missing key must fail"),
        Err(e) => e,
    };
    assert!(matches!(err, Error::NoKey(_)));
}

#[test]
fn facade_clones_share_one_store() {
    let store = KvStore::open(Vec::new()).unwrap();
    let other = store.clone();
    store.set("shared".to_owned(), "yes".to_owned()).unwrap();
    assert_eq!(
        other.get("shared".to_owned()).unwrap(),
        Some("yes".to_owned())
    );
    other.remove("shared".to_owned()).unwrap();
    assert_eq!(store.get("shared".to_owned()).unwrap(), None);
}

#[test]
fn facade_snapshot_reopens_to_same_state() {
    let store = KvStore::open(Vec::new()).unwrap();
    store.set("a".to_owned(), "1".to_owned()).unwrap();
    store.set("b".to_owned(), "2".to_owned()).unwrap();
    store.remove("a".to_owned()).unwrap();
    let reopened = KvStore::open(store.log_bytes()).unwrap();
    assert_eq!(reopened.get("a".to_owned()).unwrap(), None);
    assert_eq!(reopened.get("b".to_owned()).unwrap(), Some("2".to_owned()));
}
