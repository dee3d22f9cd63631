use respdb::connection::Connection;
use respdb::database::Database;
use respdb::frame::Frame;
use respdb::handler::{handle, Served};

fn bulk(text: &str) -> Frame {
    Frame::Bulk(text.as_bytes().to_vec())
}

fn request(parts: &[&str]) -> Frame {
    Frame::Array(parts.iter().map(|part| bulk(part)).collect())
}

fn answer(db: &mut Database, frame: Frame, now: u64) -> Vec<u8> {
    let mut connection = Connection::new();
    match handle(frame, db, &mut connection, now) {
        Served::Answered => {}
        Served::Subscribed(_) => panic!("not a subscription"),
    }
    connection.take_written()
}

fn bytes_of(frame: &Frame) -> Vec<u8> {
    let mut connection = Connection::new();
    connection.write_frame(frame).unwrap();
    connection.take_written()
}

#[test]
fn ping_on_the_wire() {
    let mut db = Database::new();
    let mut connection = Connection::new();
    let sent = b"*\x00\x00\x00\x00\x00\x00\x00\x01\r\n$\x00\x00\x00\x00\x00\x00\x00\x04\r\nPING\r\n";
    assert_eq!(connection.receive(sent), Ok(true));
    let frame = connection.parse_frame().unwrap();
    assert!(matches!(handle(frame, &mut db, &mut connection, 0), Served::Answered));
    assert_eq!(connection.take_written(), b"+PONG\r\n".to_vec());
}

#[test]
fn ping_with_a_payload_on_the_wire() {
    let mut db = Database::new();
    assert_eq!(
        answer(&mut db, request(&["PING", "hello"]), 0),
        b"$\x00\x00\x00\x00\x00\x00\x00\x05\r\nhello\r\n".to_vec()
    );
}

#[test]
fn set_with_a_lifetime_then_get() {
    let mut db = Database::new();
    let t = 10_000;
    assert_eq!(answer(&mut db, request(&["SET", "foo", "bar", "PX", "50"]), t), b"+OK\r\n".to_vec());
    assert_eq!(answer(&mut db, request(&["GET", "foo"]), t), bytes_of(&bulk("bar")));
    assert_eq!(db.purge_expired(t), Some(t + 50));
    assert_eq!(db.purge_expired(t + 200), None);
    assert_eq!(answer(&mut db, request(&["GET", "foo"]), t + 200), b"_\r\n".to_vec());
}

#[test]
fn get_of_a_missing_key() {
    let mut db = Database::new();
    assert_eq!(answer(&mut db, request(&["get", "nothing"]), 0), bytes_of(&Frame::Null));
}

#[test]
fn set_answers_errors_without_writing() {
    let mut db = Database::new();
    assert_eq!(
        answer(&mut db, request(&["set", "foo", ""]), 0),
        bytes_of(&Frame::Error("Buffer is empty".to_string()))
    );
    assert_eq!(db.get("foo"), None);
    assert_eq!(
        answer(&mut db, request(&["set", "foo", "bar", "px", "2"]), u64::MAX - 1),
        bytes_of(&Frame::Error("invalid expire time".to_string()))
    );
    assert_eq!(db.get("foo"), None);
    assert_eq!(
        answer(&mut db, request(&["set", "foo", "bar", "px", "1"]), u64::MAX - 1),
        bytes_of(&Frame::Simple("OK".to_string()))
    );
    assert_eq!(db.get("foo"), Some(b"bar".to_vec()));
}

#[test]
fn frames_that_are_no_command_are_answered_with_an_error() {
    let mut db = Database::new();
    assert_eq!(
        answer(&mut db, request(&["flush"]), 0),
        bytes_of(&Frame::Error("unknown command".to_string()))
    );
    assert_eq!(
        answer(&mut db, Frame::Null, 0),
        bytes_of(&Frame::Error("Protocol Error".to_string()))
    );
    assert_eq!(
        answer(&mut db, request(&["get"]), 0),
        bytes_of(&Frame::Error("End Of Stream".to_string()))
    );
    assert_eq!(
        answer(&mut db, request(&["set", "a", "b", "keepttl"]), 0),
        bytes_of(&Frame::Error("`SET` only supports an expiration option.".to_string()))
    );
}

#[test]
fn two_subscribers_and_a_publisher() {
    let mut db = Database::new();
    let mut first = Connection::new();
    let mut second = Connection::new();
    let mut first_subs = match handle(request(&["SUBSCRIBE", "news"]), &mut db, &mut first, 0) {
        Served::Subscribed(subs) => subs,
        Served::Answered => panic!("no subscription"),
    };
    let mut second_subs = match handle(request(&["SUBSCRIBE", "news"]), &mut db, &mut second, 0) {
        Served::Subscribed(subs) => subs,
        Served::Answered => panic!("no subscription"),
    };
    let subscribed = bytes_of(&Frame::Array(vec![bulk("subscribe"), bulk("news"), Frame::Integer(1)]));
    assert_eq!(first.take_written(), subscribed);
    assert_eq!(second.take_written(), subscribed);
    assert_eq!(answer(&mut db, request(&["PUBLISH", "news", "hi"]), 0), bytes_of(&Frame::Integer(2)));
    for subs in [&mut first_subs, &mut second_subs] {
        assert_eq!(subs.len(), 1);
        let (channel, receiver) = &mut subs[0];
        let message = receiver.try_recv().ok().unwrap();
        assert_eq!(
            respdb::commands::subscribe::Subscribe::assemble_message(channel.clone(), message),
            Ok(Frame::Array(vec![bulk("message"), bulk("news"), bulk("hi")]))
        );
        assert!(receiver.try_recv().is_err());
    }
}

#[test]
fn publish_before_and_after_a_subscription() {
    let mut db = Database::new();
    assert_eq!(answer(&mut db, request(&["PUBLISH", "ghost", "hi"]), 0), bytes_of(&Frame::Integer(0)));
    let mut connection = Connection::new();
    let mut subs = match handle(request(&["SUBSCRIBE", "ghost"]), &mut db, &mut connection, 0) {
        Served::Subscribed(subs) => subs,
        Served::Answered => panic!("no subscription"),
    };
    assert!(subs[0].1.try_recv().is_err());
    assert_eq!(answer(&mut db, request(&["PUBLISH", "ghost", "hi"]), 0), bytes_of(&Frame::Integer(1)));
    assert_eq!(subs[0].1.try_recv().ok(), Some(b"hi".to_vec()));
    assert!(subs[0].1.try_recv().is_err());
}

#[test]
fn subscriptions_are_counted_by_channel() {
    let mut db = Database::new();
    let mut connection = Connection::new();
    let subs = match handle(request(&["subscribe", "a", "b", "a", "c"]), &mut db, &mut connection, 0) {
        Served::Subscribed(subs) => subs,
        Served::Answered => panic!("no subscription"),
    };
    let names: Vec<&str> = subs.iter().map(|sub| sub.0.as_str()).collect();
    assert_eq!(names, vec!["a", "b", "c"]);
    let mut expected = Vec::new();
    for (channel, count) in [("a", 1), ("b", 2), ("a", 2), ("c", 3)] {
        expected.extend(bytes_of(&Frame::Array(vec![
            bulk("subscribe"),
            bulk(channel),
            Frame::Integer(count),
        ])));
    }
    assert_eq!(connection.take_written(), expected);
}

#[test]
fn a_halted_store_gives_no_subscription() {
    let mut db = Database::new();
    db.halt_background_tasks();
    let mut connection = Connection::new();
    match handle(request(&["subscribe", "a"]), &mut db, &mut connection, 0) {
        Served::Subscribed(subs) => assert!(subs.is_empty()),
        Served::Answered => panic!("no subscription"),
    }
    assert_eq!(connection.take_written(), Vec::<u8>::new());
}
