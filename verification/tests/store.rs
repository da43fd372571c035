use bfindex::signature::{BfIndex, HASH_N};
use bfindex::store::DataStore;
use std::io::{Error, ErrorKind};

fn keys() -> [String; HASH_N] {
    ["k1".to_string(), "k2".to_string(), "k3".to_string()]
}

fn read(content: &str) -> Result<String, Error> {
    Ok(content.to_string())
}

#[test]
fn with_keys_starts_empty() {
    let store = DataStore::with_keys(&keys());
    assert_eq!(store.len(), 0);
    assert!(store.entry(0).is_none());
}

#[test]
fn with_keys_binds_the_keys() {
    let store = DataStore::with_keys(&keys());
    assert_eq!(store.keys(), &keys());
    let other = ["key1".to_string(), "key2".to_string(), "key3".to_string()];
    assert_eq!(DataStore::with_keys(&other).keys(), &other);
}

#[test]
fn register_appends_in_registration_order() {
    let mut store = DataStore::with_keys(&keys());
    assert!(store.register("a.txt", read("hello world")).is_ok());
    assert!(store.register("b.txt", read("goodbye")).is_ok());
    assert!(store.register("c.txt", read("")).is_ok());
    assert_eq!(store.len(), 3);
    let paths: Vec<&str> = (0..3).map(|i| store.entry(i).unwrap().path()).collect();
    assert_eq!(paths, vec!["a.txt", "b.txt", "c.txt"]);
    assert_eq!(store.entry(0).unwrap().signature().bits(), 0x1a_0000_1004);
    assert_eq!(store.entry(1).unwrap().signature().bits(), 0x4000_0208_0000);
    assert_eq!(store.entry(2).unwrap().signature().bits(), 0);
    assert!(store.entry(3).is_none());
}

#[test]
fn register_signs_with_the_keys_of_the_store() {
    let other = ["key1".to_string(), "key2".to_string(), "key3".to_string()];
    let mut store = DataStore::with_keys(&other);
    assert!(store.register("a.txt", read("hello world")).is_ok());
    assert_eq!(store.entry(0).unwrap().signature().bits(), 0x4048_0014_0008);
    assert_eq!(store.keys(), &other);
}

#[test]
fn register_keeps_earlier_entries() {
    let mut store = DataStore::with_keys(&keys());
    assert!(store.register("a.txt", read("hello world")).is_ok());
    let before = store.entry(0).unwrap().signature();
    assert!(store.register("b.txt", read("goodbye")).is_ok());
    assert_eq!(store.entry(0).unwrap().signature(), before);
    assert_eq!(store.entry(0).unwrap().path(), "a.txt");
    assert_eq!(store.keys(), &keys());
}

#[test]
fn register_failure_adds_nothing() {
    let mut store = DataStore::with_keys(&keys());
    assert!(store.register("a.txt", read("hello world")).is_ok());
    let failed: Result<String, Error> = Err(Error::new(ErrorKind::NotFound, "no such file"));
    match store.register("missing.txt", failed) {
        Ok(()) => panic!("a failed read was registered"),
        Err(e) => {
            assert_eq!(e.kind(), ErrorKind::NotFound);
            assert_eq!(e.to_string(), "no such file");
        }
    }
    assert_eq!(store.len(), 1);
    assert_eq!(store.entry(0).unwrap().path(), "a.txt");
    assert!(store.register("b.txt", read("goodbye")).is_ok());
    assert_eq!(store.len(), 2);
    assert_eq!(store.entry(1).unwrap().path(), "b.txt");
}

#[test]
fn register_failure_of_each_kind_is_handed_back() {
    let mut store = DataStore::with_keys(&keys());
    for kind in [ErrorKind::NotFound, ErrorKind::PermissionDenied, ErrorKind::InvalidData] {
        let failed: Result<String, Error> = Err(Error::new(kind, "unreadable"));
        assert_eq!(store.register("x", failed).map_err(|e| e.kind()), Err(kind));
    }
    assert_eq!(store.len(), 0);
}

#[test]
fn register_same_file_twice_gives_equal_signatures() {
    let mut store = DataStore::with_keys(&keys());
    assert!(store.register("a.txt", read("hello world")).is_ok());
    assert!(store.register("b.txt", read("goodbye")).is_ok());
    assert!(store.register("a.txt", read("hello world")).is_ok());
    assert_eq!(store.len(), 3);
    let first = store.entry(0).unwrap();
    let again = store.entry(2).unwrap();
    assert_eq!(first.signature(), again.signature());
    assert_eq!(first.path(), again.path());
    assert_ne!(first.signature(), store.entry(1).unwrap().signature());
}

#[test]
fn register_empty_file_gives_zero_signature() {
    let mut store = DataStore::with_keys(&keys());
    assert!(store.register("empty.txt", read("")).is_ok());
    assert_eq!(store.entry(0).unwrap().signature(), BfIndex::new());
}
