use respdb::database::entry::{Builder, BuilderError, Entry};
use respdb::database::{subscriber_count, Database};

fn empty_buffer() -> BuilderError {
    BuilderError("Buffer is empty".to_string())
}

#[test]
fn entries_are_built_from_a_payload() {
    let entry = Entry::builder().with_bytes(b"v".to_vec()).with_expiration(Some(9)).build().unwrap();
    assert_eq!(entry.payload(), b"v".to_vec());
    assert_eq!(entry.expiration(), Some(9));
    let entry = Builder::new().with_bytes(b"w".to_vec()).build_consume().unwrap();
    assert_eq!(entry.payload(), b"w".to_vec());
    assert_eq!(entry.expiration(), None);
    assert_eq!(Builder::default().build(), Err(empty_buffer()));
    assert_eq!(Builder::new().build_consume(), Err(empty_buffer()));
    assert_eq!(Builder::new().with_bytes(vec![]).build(), Err(empty_buffer()));
    assert_eq!(Builder::new().with_bytes(vec![]).build_consume(), Err(empty_buffer()));
}

#[test]
fn entries_expire_after_their_instant() {
    let entry = Builder::new().with_bytes(b"v".to_vec()).with_expiration(Some(10)).build().unwrap();
    assert!(!entry.has_expired(9));
    assert!(!entry.has_expired(10));
    assert!(entry.has_expired(11));
    let entry = Builder::new().with_bytes(b"v".to_vec()).build().unwrap();
    assert!(!entry.has_expired(u64::MAX));
}

#[test]
fn the_last_set_is_what_get_returns() {
    let mut db = Database::new();
    assert_eq!(db.get("foo"), None);
    assert_eq!(db.set("foo".to_string(), b"one".to_vec(), None, 0), Ok(()));
    assert_eq!(db.get("foo"), Some(b"one".to_vec()));
    assert_eq!(db.set("foo".to_string(), b"two".to_vec(), Some(100), 1), Ok(()));
    assert_eq!(db.get("foo"), Some(b"two".to_vec()));
    assert_eq!(db.set("bar".to_string(), b"other".to_vec(), None, 2), Ok(()));
    assert_eq!(db.set("foo".to_string(), b"three".to_vec(), None, 3), Ok(()));
    assert_eq!(db.get("foo"), Some(b"three".to_vec()));
    assert_eq!(db.get("bar"), Some(b"other".to_vec()));
    assert_eq!(db.get("fo"), None);
    assert_eq!(db.get("fooo"), None);
}

#[test]
fn an_empty_payload_is_refused() {
    let mut db = Database::new();
    assert_eq!(db.set("foo".to_string(), b"one".to_vec(), None, 0), Ok(()));
    assert_eq!(db.set("foo".to_string(), vec![], Some(5), 0), Err(empty_buffer()));
    assert_eq!(db.get("foo"), Some(b"one".to_vec()));
    assert_eq!(db.get_expired(), None);
}

#[test]
fn the_index_follows_the_entries() {
    let mut db = Database::new();
    assert_eq!(db.get_expired(), None);
    db.set("a".to_string(), b"1".to_vec(), Some(50), 100).unwrap();
    assert_eq!(db.get_expired(), Some(150));
    db.set("b".to_string(), b"2".to_vec(), Some(10), 100).unwrap();
    assert_eq!(db.get_expired(), Some(110));
    db.set("b".to_string(), b"3".to_vec(), Some(500), 100).unwrap();
    assert_eq!(db.get_expired(), Some(150));
    db.set("a".to_string(), b"4".to_vec(), None, 100).unwrap();
    assert_eq!(db.get_expired(), Some(600));
    db.set("b".to_string(), b"5".to_vec(), None, 100).unwrap();
    assert_eq!(db.get_expired(), None);
    assert_eq!(db.get("a"), Some(b"4".to_vec()));
    assert_eq!(db.get("b"), Some(b"5".to_vec()));
}

#[test]
fn the_worker_is_woken_for_an_earlier_expiry_only() {
    let mut db = Database::new();
    assert!(!db.take_expiration_signal());
    db.set("a".to_string(), b"1".to_vec(), None, 0).unwrap();
    assert!(!db.take_expiration_signal());
    db.set("b".to_string(), b"1".to_vec(), Some(100), 0).unwrap();
    assert!(db.take_expiration_signal());
    assert!(!db.take_expiration_signal());
    db.set("c".to_string(), b"1".to_vec(), Some(200), 0).unwrap();
    assert!(!db.take_expiration_signal());
    db.set("d".to_string(), b"1".to_vec(), Some(100), 0).unwrap();
    assert!(!db.take_expiration_signal());
    db.set("e".to_string(), b"1".to_vec(), Some(99), 0).unwrap();
    assert!(db.take_expiration_signal());
}

#[test]
fn purge_removes_what_is_due() {
    let mut db = Database::new();
    db.set("a".to_string(), b"1".to_vec(), Some(10), 0).unwrap();
    db.set("b".to_string(), b"2".to_vec(), Some(20), 0).unwrap();
    db.set("c".to_string(), b"3".to_vec(), Some(20), 0).unwrap();
    db.set("d".to_string(), b"4".to_vec(), Some(30), 0).unwrap();
    db.set("e".to_string(), b"5".to_vec(), None, 0).unwrap();
    assert_eq!(db.purge_expired(9), Some(10));
    assert_eq!(db.get("a"), Some(b"1".to_vec()));
    assert_eq!(db.purge_expired(10), Some(20));
    assert_eq!(db.get("a"), None);
    assert_eq!(db.get("b"), Some(b"2".to_vec()));
    assert_eq!(db.purge_expired(25), Some(30));
    assert_eq!(db.get("b"), None);
    assert_eq!(db.get("c"), None);
    assert_eq!(db.get("d"), Some(b"4".to_vec()));
    assert_eq!(db.purge_expired(1000), None);
    assert_eq!(db.get("d"), None);
    assert_eq!(db.get("e"), Some(b"5".to_vec()));
    assert_eq!(db.get_expired(), None);
}

#[test]
fn an_entry_is_gone_after_its_lifetime() {
    let mut db = Database::new();
    db.set("foo".to_string(), b"bar".to_vec(), Some(50), 1000).unwrap();
    assert_eq!(db.purge_expired(1000), Some(1050));
    assert_eq!(db.get("foo"), Some(b"bar".to_vec()));
    assert_eq!(db.purge_expired(1200), None);
    assert_eq!(db.get("foo"), None);
}

#[test]
fn a_halted_store_shows_and_takes_nothing() {
    let mut db = Database::new();
    assert!(!db.has_shutdown());
    db.set("a".to_string(), b"1".to_vec(), Some(10), 0).unwrap();
    let mut receiver = db.subscribe("news".to_string()).unwrap();
    db.halt_background_tasks();
    assert!(db.has_shutdown());
    assert_eq!(db.get("a"), None);
    assert_eq!(db.set("b".to_string(), b"2".to_vec(), None, 0), Ok(()));
    assert_eq!(db.get("b"), None);
    assert_eq!(db.purge_expired(100), None);
    assert!(db.subscribe("news".to_string()).is_none());
    assert_eq!(db.publish("news", b"hi".to_vec()), 0);
    assert!(receiver.try_recv().is_err());
}

#[test]
fn publish_without_subscribers_reaches_nobody() {
    let mut db = Database::new();
    assert_eq!(db.publish("ghost", b"hi".to_vec()), 0);
    assert_eq!(db.publish("ghost", b"hi".to_vec()), 0);
    let mut receiver = db.subscribe("ghost".to_string()).unwrap();
    assert!(receiver.try_recv().is_err());
    assert_eq!(db.publish("ghost", b"hi".to_vec()), 1);
    assert_eq!(receiver.try_recv().ok(), Some(b"hi".to_vec()));
    assert!(receiver.try_recv().is_err());
}

#[test]
fn every_subscriber_gets_the_message() {
    let mut db = Database::new();
    let mut first = db.subscribe("news".to_string()).unwrap();
    let mut second = db.subscribe("news".to_string()).unwrap();
    let mut other = db.subscribe("sport".to_string()).unwrap();
    assert_eq!(db.publish("news", b"hi".to_vec()), 2);
    assert_eq!(db.publish("news", b"again".to_vec()), 2);
    assert_eq!(first.try_recv().ok(), Some(b"hi".to_vec()));
    assert_eq!(first.try_recv().ok(), Some(b"again".to_vec()));
    assert_eq!(second.try_recv().ok(), Some(b"hi".to_vec()));
    assert_eq!(second.try_recv().ok(), Some(b"again".to_vec()));
    assert!(other.try_recv().is_err());
    drop(second);
    assert_eq!(db.publish("news", b"once more".to_vec()), 1);
    drop(first);
    assert_eq!(db.publish("news", b"nobody".to_vec()), 0);
}

#[test]
fn subscriber_count_of_a_report() {
    assert_eq!(subscriber_count(Some(3)), 3);
    assert_eq!(subscriber_count(None), 0);
}
