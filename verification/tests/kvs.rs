use netlab::kvs::KvStore;

#[test]
fn new_store_is_empty() {
    let store = KvStore::new();
    assert_eq!(store.get("key1".to_owned()), None);
}

#[test]
fn get_after_set() {
    let mut store = KvStore::new();
    store.set("key1".to_owned(), "value1".to_owned());
    store.set("key2".to_owned(), "value2".to_owned());
    assert_eq!(store.get("key1".to_owned()), Some("value1".to_owned()));
    assert_eq!(store.get("key2".to_owned()), Some("value2".to_owned()));
}

#[test]
fn set_overwrites() {
    let mut store = KvStore::new();
    store.set("key1".to_owned(), "value1".to_owned());
    store.set("key1".to_owned(), "value2".to_owned());
    assert_eq!(store.get("key1".to_owned()), Some("value2".to_owned()));
}

#[test]
fn remove_deletes_only_that_key() {
    let mut store = KvStore::new();
    store.set("a".to_owned(), "1".to_owned());
    store.set("b".to_owned(), "2".to_owned());
    store.set("c".to_owned(), "3".to_owned());
    store.remove("b".to_owned());
    assert_eq!(store.get("b".to_owned()), None);
    assert_eq!(store.get("a".to_owned()), Some("1".to_owned()));
    assert_eq!(store.get("c".to_owned()), Some("3".to_owned()));
    store.remove("missing".to_owned());
    assert_eq!(store.get("a".to_owned()), Some("1".to_owned()));
}

#[test]
fn reads_see_the_last_write() {
    let mut store = KvStore::new();
    store.set("k".to_owned(), "1".to_owned());
    store.set("j".to_owned(), "2".to_owned());
    store.remove("k".to_owned());
    store.set("j".to_owned(), "3".to_owned());
    store.set("k".to_owned(), "4".to_owned());
    store.remove("j".to_owned());
    assert_eq!(store.get("k".to_owned()), Some("4".to_owned()));
    assert_eq!(store.get("j".to_owned()), None);
    assert_eq!(store.get("never".to_owned()), None);
    assert_eq!(store.get("k".to_owned()), Some("4".to_owned()));
}
