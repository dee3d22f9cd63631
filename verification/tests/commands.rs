use respdb::commands::get::Get;
use respdb::commands::ping::Ping;
use respdb::commands::publish::Publish;
use respdb::commands::set::SetValue;
use respdb::commands::subscribe::{Forward, Received, Subscribe};
use respdb::commands::{from_frame, from_name, CommandError, SupportedCommand};
use respdb::frame::Frame;
use respdb::parse::{decimal_result, Parse, ParseError};

fn bulk(text: &str) -> Frame {
    Frame::Bulk(text.as_bytes().to_vec())
}

fn request(parts: &[&str]) -> Frame {
    Frame::Array(parts.iter().map(|part| bulk(part)).collect())
}

#[test]
fn walker_needs_an_array() {
    assert_eq!(Parse::new(Frame::Null).err(), Some(ParseError::ProtocolError));
    assert_eq!(Parse::new(bulk("x")).err(), Some(ParseError::ProtocolError));
    assert!(Parse::new(Frame::Array(vec![])).is_ok());
}

#[test]
fn walker_reads_parts_in_order() {
    let mut walker = Parse::new(Frame::Array(vec![
        Frame::Simple("one".to_string()),
        bulk("two"),
        Frame::Integer(3),
        Frame::Null,
    ]))
    .unwrap();
    assert_eq!(walker.next_string(), Ok("one".to_string()));
    assert_eq!(walker.next_bytes(), Ok(b"two".to_vec()));
    assert_eq!(walker.next_int(), Ok(3));
    assert_eq!(walker.finish(), Err(ParseError::ProtocolError));
    assert_eq!(walker.finish(), Ok(()));
    assert_eq!(walker.next().err(), Some(ParseError::EndOfStream));
    assert_eq!(walker.next_string(), Err(ParseError::EndOfStream));
    assert_eq!(walker.next_bytes(), Err(ParseError::EndOfStream));
    assert_eq!(walker.next_int(), Err(ParseError::EndOfStream));
}

#[test]
fn walker_reads_text() {
    let mut walker = Parse::new(Frame::Array(vec![
        bulk("h\u{e9}"),
        Frame::Bulk(vec![0xff]),
        Frame::Integer(1),
        Frame::Simple("s".to_string()),
    ]))
    .unwrap();
    assert_eq!(walker.next_string(), Ok("h\u{e9}".to_string()));
    assert_eq!(walker.next_string(), Err(ParseError::ProtocolError));
    assert_eq!(walker.next_string(), Err(ParseError::ProtocolError));
    assert_eq!(walker.next_bytes(), Ok(b"s".to_vec()));
}

#[test]
fn walker_reads_numbers_from_digits() {
    let mut walker = Parse::new(Frame::Array(vec![
        Frame::Simple("42".to_string()),
        bulk("0050"),
        bulk("18446744073709551615"),
        bulk("18446744073709551616"),
        bulk("abc"),
        bulk("7 up"),
        Frame::Null,
    ]))
    .unwrap();
    assert_eq!(walker.next_int(), Ok(42));
    assert_eq!(walker.next_int(), Ok(50));
    assert_eq!(walker.next_int(), Ok(u64::MAX));
    assert_eq!(walker.next_int(), Err(ParseError::ProtocolError));
    assert_eq!(walker.next_int(), Err(ParseError::ProtocolError));
    assert_eq!(walker.next_int(), Ok(7));
    assert_eq!(walker.next_int(), Err(ParseError::ProtocolError));
    assert_eq!(decimal_result(Some(5)), Ok(5));
    assert_eq!(decimal_result(None), Err(ParseError::ProtocolError));
}

#[test]
fn commands_are_named_in_any_case() {
    assert!(matches!(from_frame(request(&["PING"])), Ok(SupportedCommand::Ping(_))));
    assert!(matches!(from_frame(request(&["Ping"])), Ok(SupportedCommand::Ping(_))));
    assert!(matches!(from_frame(request(&["get", "k"])), Ok(SupportedCommand::Get(_))));
    assert!(matches!(from_frame(request(&["GeT", "k"])), Ok(SupportedCommand::Get(_))));
    assert!(matches!(from_frame(request(&["SET", "k", "v"])), Ok(SupportedCommand::SetValue(_))));
    assert!(matches!(
        from_frame(request(&["Publish", "c", "m"])),
        Ok(SupportedCommand::Publish(_))
    ));
    assert!(matches!(
        from_frame(request(&["SUBSCRIBE", "c"])),
        Ok(SupportedCommand::Subscribe(_))
    ));
}

#[test]
fn from_name_takes_the_name_in_lower_case() {
    let mut walker = Parse::new(request(&["k"])).unwrap();
    assert!(matches!(from_name("get", &mut walker), Ok(SupportedCommand::Get(_))));
    let mut walker = Parse::new(request(&["k"])).unwrap();
    assert_eq!(from_name("GET", &mut walker).err(), Some(CommandError::UnknownCommand));
}

#[test]
fn frames_that_are_no_command() {
    assert_eq!(
        from_frame(Frame::Null).err(),
        Some(CommandError::Parse(ParseError::ProtocolError))
    );
    assert_eq!(
        from_frame(Frame::Array(vec![])).err(),
        Some(CommandError::Parse(ParseError::EndOfStream))
    );
    assert_eq!(
        from_frame(Frame::Array(vec![Frame::Integer(1)])).err(),
        Some(CommandError::Parse(ParseError::ProtocolError))
    );
    assert_eq!(from_frame(request(&["nope"])).err(), Some(CommandError::UnknownCommand));
    assert_eq!(
        from_frame(request(&["get"])).err(),
        Some(CommandError::Parse(ParseError::EndOfStream))
    );
    assert_eq!(
        from_frame(request(&["get", "a", "b"])).err(),
        Some(CommandError::Parse(ParseError::ProtocolError))
    );
    assert_eq!(
        from_frame(request(&["subscribe"])).err(),
        Some(CommandError::Parse(ParseError::EndOfStream))
    );
    assert_eq!(
        from_frame(request(&["publish", "c"])).err(),
        Some(CommandError::Parse(ParseError::EndOfStream))
    );
}

#[test]
fn set_options() {
    match from_frame(request(&["set", "foo", "bar"])) {
        Ok(SupportedCommand::SetValue(set)) => {
            assert_eq!(set.key(), "foo");
            assert_eq!(set.value(), &b"bar".to_vec());
            assert_eq!(set.expiration(), None);
        }
        _ => panic!("not a set"),
    }
    match from_frame(request(&["set", "foo", "bar", "PX", "50"])) {
        Ok(SupportedCommand::SetValue(set)) => assert_eq!(set.expiration(), Some(50)),
        _ => panic!("not a set"),
    }
    match from_frame(request(&["set", "foo", "bar", "ex", "2"])) {
        Ok(SupportedCommand::SetValue(set)) => assert_eq!(set.expiration(), Some(2000)),
        _ => panic!("not a set"),
    }
    match from_frame(Frame::Array(vec![
        bulk("set"),
        bulk("foo"),
        bulk("bar"),
        bulk("px"),
        Frame::Integer(7),
    ])) {
        Ok(SupportedCommand::SetValue(set)) => assert_eq!(set.expiration(), Some(7)),
        _ => panic!("not a set"),
    }
    assert_eq!(
        from_frame(request(&["set", "foo", "bar", "nx"])).err(),
        Some(CommandError::UnsupportedOption)
    );
    assert_eq!(
        from_frame(request(&["set", "foo", "bar", "ex"])).err(),
        Some(CommandError::Parse(ParseError::EndOfStream))
    );
    assert_eq!(
        from_frame(request(&["set", "foo", "bar", "ex", "soon"])).err(),
        Some(CommandError::Parse(ParseError::ProtocolError))
    );
    assert_eq!(
        from_frame(request(&["set", "foo", "bar", "ex", "18446744073709551615"])).err(),
        Some(CommandError::InvalidExpiration)
    );
    assert_eq!(
        from_frame(request(&["set", "foo", "bar", "px", "1", "more"])).err(),
        Some(CommandError::Parse(ParseError::ProtocolError))
    );
}

#[test]
fn ping_with_and_without_payload() {
    assert_eq!(Ping::new(None).try_into(), Ok(request(&["ping"])));
    assert_eq!(Ping::new(Some(b"hello".to_vec())).try_into(), Ok(request(&["ping", "hello"])));
    assert_eq!(
        from_frame(Frame::Array(vec![bulk("ping"), Frame::Null])).err(),
        Some(CommandError::Parse(ParseError::ProtocolError))
    );
}

#[test]
fn commands_as_frames() {
    assert_eq!(Get::new("foo").try_into(), Ok(request(&["get", "foo"])));
    assert_eq!(
        Publish::new("news", b"hi".to_vec()).try_into(),
        Ok(request(&["publish", "news", "hi"]))
    );
    assert_eq!(
        SetValue::new("foo", b"bar".to_vec(), None).try_into(),
        Ok(request(&["set", "foo", "bar"]))
    );
    assert_eq!(
        SetValue::new("foo", b"bar".to_vec(), Some(50)).try_into(),
        Ok(Frame::Array(vec![
            bulk("set"),
            bulk("foo"),
            bulk("bar"),
            bulk("px"),
            Frame::Integer(50)
        ]))
    );
    assert_eq!(
        Subscribe::new(vec!["a".to_string(), "b".to_string()]).try_into(),
        Ok(request(&["subscribe", "a", "b"]))
    );
}

#[test]
fn commands_come_back_from_their_frames() {
    let frame = SetValue::new("foo", b"bar".to_vec(), Some(50)).try_into().unwrap();
    match from_frame(frame) {
        Ok(SupportedCommand::SetValue(set)) => {
            assert_eq!(set.key(), "foo");
            assert_eq!(set.value(), &b"bar".to_vec());
            assert_eq!(set.expiration(), Some(50));
        }
        _ => panic!("not a set"),
    }
    let frame = Subscribe::new(vec!["a".to_string(), "b".to_string()]).try_into().unwrap();
    match from_frame(frame) {
        Ok(SupportedCommand::Subscribe(subscribe)) => {
            assert_eq!(subscribe.try_into(), Ok(request(&["subscribe", "a", "b"])));
        }
        _ => panic!("not a subscribe"),
    }
}

#[test]
fn names_on_the_wire() {
    assert_eq!(Get::representation(), "get");
    assert_eq!(Ping::representation(), "ping");
    assert_eq!(Publish::representation(), "publish");
    assert_eq!(SetValue::representation(), "set");
    assert_eq!(Subscribe::representation(), "subscribe");
}

#[test]
fn subscription_frames() {
    assert_eq!(
        Subscribe::assemble_subscribe_response("news".to_string(), 2),
        Ok(Frame::Array(vec![bulk("subscribe"), bulk("news"), Frame::Integer(2)]))
    );
    assert_eq!(
        Subscribe::assemble_message("news".to_string(), b"hi".to_vec()),
        Ok(Frame::Array(vec![bulk("message"), bulk("news"), bulk("hi")]))
    );
}

#[test]
fn error_texts() {
    assert_eq!(CommandError::UnknownCommand.message(), "unknown command");
    assert_eq!(CommandError::Parse(ParseError::EndOfStream).message(), "End Of Stream");
    assert_eq!(CommandError::Parse(ParseError::ProtocolError).message(), "Protocol Error");
    assert_eq!(
        CommandError::UnsupportedOption.message(),
        "`SET` only supports an expiration option."
    );
    assert_eq!(CommandError::InvalidExpiration.message(), "invalid expire time");
}

#[test]
fn what_a_channel_gives_is_forwarded_or_not() {
    match Subscribe::on_received("news".to_string(), Received::Message(b"hi".to_vec())) {
        Forward::Write(frame) => {
            assert_eq!(frame, Frame::Array(vec![bulk("message"), bulk("news"), bulk("hi")]))
        }
        _ => panic!("a message is written"),
    }
    assert!(matches!(Subscribe::on_received("news".to_string(), Received::Lagged), Forward::Skip));
    assert!(matches!(Subscribe::on_received("news".to_string(), Received::Closed), Forward::Drop));
}
