//! Tests for the serving layer: reply shaping and the engine surfaces
//! behind both capability traits, including the embedded alternative
//! engine.

use kvs::{
    get_reply, remove_reply, Error, KiwiEngine, KiwiStore, Kvs, KvStore, SledKvsEngine,
    SledStore,
};

#[test]
fn get_reply_reports_found_and_value() {
    assert_eq!(get_reply(Some("v".to_owned())), (true, "v".to_owned()));
    assert_eq!(get_reply(None), (false, String::new()));
}

#[test]
fn remove_reply_reports_found_and_surfaces_other_errors() {
    assert_eq!(remove_reply(Ok(())).unwrap(), true);
    assert_eq!(
        remove_reply(Err(Error::NoKey("Key not found".to_owned()))).unwrap(),
        false
    );
    let surfaced = remove_reply(Err(Error::Io("disk gone".to_owned())));
    match surfaced {
        Err(Error::Io(m)) => assert_eq!(m, "disk gone"),
        _ => panic!("a non-no-such-key failure must surface unchanged"),
    }
}

#[test]
fn server_round_trip_over_log_engine() {
    let server = Kvs::new(KvStore::open(Vec::new()).unwrap());
    server.set("k".to_owned(), "v".to_owned()).unwrap();
    assert_eq!(server.get("k".to_owned()).unwrap(), (true, "v".to_owned()));
    assert_eq!(
        server.get("missing".to_owned()).unwrap(),
        (false, String::new())
    );
    assert_eq!(server.remove("k".to_owned()).unwrap(), true);
    assert_eq!(server.remove("k".to_owned()).unwrap(), false);
}

#[test]
fn kiwi_store_round_trip() {
    let store = KiwiStore::open(Vec::new()).unwrap();
    store.set("a".to_owned(), "1".to_owned()).unwrap();
    assert_eq!(store.get("a".to_owned()).unwrap(), Some("1".to_owned()));
    store.remove("a".to_owned()).unwrap();
    assert_eq!(store.get("a".to_owned()).unwrap(), None);
    assert!(store.remove("a".to_owned()).is_err());
}

#[test]
fn sled_engine_round_trip() {
    let store = SledKvsEngine::open("/tmp/kvs_test_sled_engine".to_owned()).unwrap();
    kvs::KvsEngine::set(&store, "k".to_owned(), "v1".to_owned()).unwrap();
    assert_eq!(
        kvs::KvsEngine::get(&store, "k".to_owned()).unwrap(),
        Some("v1".to_owned())
    );
    kvs::KvsEngine::set(&store, "k".to_owned(), "v2".to_owned()).unwrap();
    assert_eq!(
        kvs::KvsEngine::get(&store, "k".to_owned()).unwrap(),
        Some("v2".to_owned())
    );
    kvs::KvsEngine::remove(&store, "k".to_owned()).unwrap();
    assert_eq!(kvs::KvsEngine::get(&store, "k".to_owned()).unwrap(), None);
    let err = match kvs::KvsEngine::remove(&store, "never-set-key".to_owned()) {
        Ok(_) => panic!("removing a missing key must report no-such-key"),
        Err(e) => e,
    };
    assert!(matches!(err, Error::NoKey(_)));
    assert_eq!(err.message().as_str(), "Key not found");
}

#[test]
fn sled_store_round_trip() {
    let store = SledStore::open("/tmp/kvs_test_sled_store".to_owned()).unwrap();
    store.set("x".to_owned(), "y".to_owned()).unwrap();
    assert_eq!(store.get("x".to_owned()).unwrap(), Some("y".to_owned()));
    store.remove("x".to_owned()).unwrap();
    assert_eq!(store.get("x".to_owned()).unwrap(), None);
    assert!(matches!(
        store.remove("x".to_owned()),
        Err(Error::NoKey(_))
    ));
}
