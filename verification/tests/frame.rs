use respdb::connection::Connection;
use respdb::frame::{
    advance, get_decimal, get_line, get_next, peek_next, Cursor, Frame, FrameError,
};

fn validate(bytes: &[u8]) -> Result<(), FrameError> {
    Frame::validate(&mut Cursor::new(bytes))
}

fn parse(bytes: &[u8]) -> Result<Frame, FrameError> {
    Frame::parse(&mut Cursor::new(bytes))
}

fn written(frame: &Frame) -> Vec<u8> {
    let mut connection = Connection::new();
    connection.write_frame(frame).unwrap();
    connection.take_written()
}

fn number_line(mark: u8, value: u64) -> Vec<u8> {
    let mut bytes = vec![mark];
    bytes.extend_from_slice(&value.to_be_bytes());
    bytes.extend_from_slice(b"\r\n");
    bytes
}

#[test]
fn validation_simple_string() {
    assert_eq!(validate(b"+Hello\r\n"), Ok(()));
    assert_ne!(validate(b"+hello\r"), Ok(()));
    assert_ne!(validate(b"+\r\n"), Ok(()));
    assert_ne!(validate(b"+"), Ok(()));
}

#[test]
fn validation_error() {
    assert_eq!(validate(b"-ERROR\r\n"), Ok(()));
    assert_ne!(validate(b"-Error\n"), Ok(()));
    assert_ne!(validate(b"-Error\r"), Ok(()));
    assert_ne!(validate(b"-Error"), Ok(()));
    assert_ne!(validate(b"-\r\n"), Ok(()));
}

#[test]
fn validation_int() {
    assert_eq!(validate(b":0\r\n"), Ok(()));
    assert_eq!(validate(b":000001\r\n"), Ok(()));
    assert_eq!(validate(b":992123\r\n"), Ok(()));

    // A number is a line of at most eight bytes, whatever the bytes are:
    // twenty digits are too many, and a blank or a dot is a byte like any other.
    let buff = format!(":{}\r\n", u64::MAX);
    assert_eq!(validate(buff.as_bytes()), Err(FrameError::ProtocolError));

    assert_eq!(validate(b":0 0\r\n"), Ok(()));
    assert_eq!(validate(b":0.0\r\n"), Ok(()));

    let buff = format!(":{}9\r\n", u64::MAX);
    assert_ne!(validate(buff.as_bytes()), Ok(()));
}

#[test]
fn validation_null() {
    assert_eq!(validate(b"_\r\n"), Ok(()));
    assert_ne!(validate(b"_asd\r\n"), Ok(()));
}

#[test]
fn validation_bulk_string() {
    // The length is read as a big-endian number: the four bytes `0005` spell
    // 0x30303035, and so many bytes do not follow.
    assert_eq!(validate(b"$0005\r\nHello\r\n"), Err(FrameError::ParsingError));
    assert_eq!(validate(b"$0000\r\n\r\n"), Err(FrameError::ParsingError));
    assert_ne!(validate(b"$0004\r\nHello\r\n"), Ok(()));
    assert_ne!(validate(b"$\r\nHello\r\n"), Ok(()));
    assert_ne!(validate(b"$03\r\nHel\r\n"), Ok(()));
    assert_ne!(validate(b"$0003\r\n"), Ok(()));
    assert_ne!(validate(b"$0000\r\n"), Ok(()));
}

#[test]
fn validation_array() {}

#[test]
fn validation_bulk_string_with_binary_length() {
    assert_eq!(validate(b"$\x00\x00\x00\x00\x00\x00\x00\x05\r\nHello\r\n"), Ok(()));
    assert_eq!(validate(b"$\x05\r\nHello\r\n"), Ok(()));
    assert_eq!(validate(b"$\x00\r\n\r\n"), Ok(()));
    assert_eq!(validate(b"$\r\n\r\n"), Ok(()));
    assert_eq!(validate(b"$\x04\r\nHello\r\n"), Err(FrameError::ParsingError));
    assert_eq!(validate(b"$\x05\r\nHello"), Err(FrameError::ParsingError));
    assert_eq!(validate(b"$\x05\r\nHello\n\r"), Err(FrameError::ParsingError));
}

#[test]
fn validation_array_of_frames() {
    assert_eq!(validate(b"*\x02\r\n+a\r\n:\x01\r\n"), Ok(()));
    assert_eq!(validate(b"*\x00\r\n"), Ok(()));
    assert_eq!(validate(b"*\x02\r\n+a\r\n"), Err(FrameError::ParsingError));
    assert_eq!(validate(b"*\x01\r\n?a\r\n"), Err(FrameError::ProtocolError));
    assert_eq!(validate(b"*123456789\r\n"), Err(FrameError::ProtocolError));
}

#[test]
fn parse_examples_of_each_kind() {
    assert_eq!(parse(b"+PONG\r\n"), Ok(Frame::Simple("PONG".to_string())));
    assert_eq!(parse(b"-oops\r\n"), Ok(Frame::Error("oops".to_string())));
    assert_eq!(parse(b":\x00\x00\x00\x00\x00\x00\x00\x07\r\n"), Ok(Frame::Integer(7)));
    assert_eq!(
        parse(b"$\x00\x00\x00\x00\x00\x00\x00\x05\r\nHello\r\n"),
        Ok(Frame::Bulk(b"Hello".to_vec()))
    );
    assert_eq!(parse(b"_\r\n"), Ok(Frame::Null));
    assert_eq!(
        parse(b"*\x00\x00\x00\x00\x00\x00\x00\x02\r\n$\x01\r\na\r\n$\x01\r\nb\r\n"),
        Ok(Frame::Array(vec![Frame::Bulk(b"a".to_vec()), Frame::Bulk(b"b".to_vec())]))
    );
}

#[test]
fn parse_short_number_lines_are_padded_on_the_left() {
    assert_eq!(parse(b":\r\n"), Ok(Frame::Integer(0)));
    assert_eq!(parse(b":\x07\r\n"), Ok(Frame::Integer(7)));
    assert_eq!(parse(b":\x01\x00\r\n"), Ok(Frame::Integer(256)));
    assert_eq!(parse(b":0\r\n"), Ok(Frame::Integer(0x30)));
    assert_eq!(parse(b":12345678\r\n"), Ok(Frame::Integer(0x3132333435363738)));
    assert_eq!(parse(b":123456789\r\n"), Err(FrameError::ProtocolError));
}

#[test]
fn parse_errors_by_kind() {
    assert_eq!(parse(b""), Err(FrameError::ParsingError));
    assert_eq!(parse(b"+abc"), Err(FrameError::ParsingError));
    assert_eq!(parse(b"+\xff\xfe\r\n"), Err(FrameError::ParsingError));
    assert_eq!(parse(b"+\r\n"), Err(FrameError::ProtocolError));
    assert_eq!(parse(b"?abc\r\n"), Err(FrameError::ProtocolError));
    assert_eq!(parse(b"_x\r\n"), Err(FrameError::ProtocolError));
    assert_eq!(parse(b"$\x03\r\nab\r\n"), Err(FrameError::ParsingError));
}

#[test]
fn parse_leaves_the_cursor_after_the_frame() {
    let bytes = b"+one\r\n+two\r\n";
    let mut cursor = Cursor::new(&bytes[..]);
    assert_eq!(Frame::parse(&mut cursor), Ok(Frame::Simple("one".to_string())));
    assert_eq!(cursor.position(), 6);
    assert_eq!(Frame::parse(&mut cursor), Ok(Frame::Simple("two".to_string())));
    assert_eq!(cursor.position(), 12);
    assert_eq!(Frame::parse(&mut cursor), Err(FrameError::ParsingError));
    assert_eq!(cursor.position(), 12);
}

#[test]
fn validate_and_parse_agree() {
    let inputs: Vec<&[u8]> = vec![
        b"+Hello\r\n",
        b"+\r\n",
        b"+\xff\r\n",
        b"-E\r\n",
        b":\x00\x01\r\n",
        b":123456789\r\n",
        b"_\r\n",
        b"_a\r\n",
        b"$\x02\r\nab\r\n",
        b"$\x02\r\nabc\r\n",
        b"*\x02\r\n+a\r\n_\r\n",
        b"*\x02\r\n+a\r\n",
        b"*\x01\r\n*\x01\r\n*\x01\r\n:\x05\r\n",
        b"",
        b"x",
    ];
    for bytes in inputs {
        let mut first = Cursor::new(bytes);
        let mut second = Cursor::new(bytes);
        let validated = Frame::validate(&mut first);
        let parsed = Frame::parse(&mut second);
        assert_eq!(validated.is_ok(), parsed.is_ok());
        assert_eq!(validated.err(), parsed.err());
        assert_eq!(first.position(), second.position());
    }
}

#[test]
fn integer_round_trip() {
    for value in [0u64, 1, 255, 1 << 32, 1 << 63, u64::MAX] {
        let frame = Frame::Integer(value);
        let bytes = written(&frame);
        assert_eq!(bytes, number_line(b':', value));
        assert_eq!(validate(&bytes), Ok(()));
        let mut cursor = Cursor::new(&bytes[..]);
        assert_eq!(Frame::parse(&mut cursor), Ok(frame));
        assert_eq!(cursor.position(), bytes.len());
    }
}

#[test]
fn bulk_round_trip() {
    for len in [0usize, 1, 1024, 65536] {
        let mut payload = Vec::with_capacity(len);
        for i in 0..len {
            payload.push(match i % 7 {
                0 => b'\r',
                1 => b'\n',
                2 => 0,
                3 => 0xff,
                _ => (i % 251) as u8,
            });
        }
        let frame = Frame::Bulk(payload.clone());
        let bytes = written(&frame);
        let mut expected = number_line(b'$', len as u64);
        expected.extend_from_slice(&payload);
        expected.extend_from_slice(b"\r\n");
        assert_eq!(bytes, expected);
        let mut cursor = Cursor::new(&bytes[..]);
        assert_eq!(Frame::parse(&mut cursor), Ok(frame));
        assert_eq!(cursor.position(), bytes.len());
    }
}

#[test]
fn nested_array_round_trip() {
    let frame = Frame::Array(vec![
        Frame::Simple("outer".to_string()),
        Frame::Array(vec![
            Frame::Integer(1),
            Frame::Array(vec![Frame::Bulk(b"deep\r\n".to_vec()), Frame::Null]),
            Frame::Error("inner".to_string()),
        ]),
        Frame::Array(vec![]),
    ]);
    let bytes = written(&frame);
    assert_eq!(validate(&bytes), Ok(()));
    let mut cursor = Cursor::new(&bytes[..]);
    assert_eq!(Frame::parse(&mut cursor), Ok(frame));
    assert_eq!(cursor.position(), bytes.len());
}

#[test]
fn text_round_trip() {
    for text in ["OK", "PONG", "h\u{e9}llo \u{1F600}", "lone \r and lone \n"] {
        let frame = Frame::Simple(text.to_string());
        let bytes = written(&frame);
        let mut expected = vec![b'+'];
        expected.extend_from_slice(text.as_bytes());
        expected.extend_from_slice(b"\r\n");
        assert_eq!(bytes, expected);
        assert_eq!(parse(&bytes), Ok(frame));
        let frame = Frame::Error(text.to_string());
        assert_eq!(parse(&written(&frame)), Ok(frame));
    }
    assert_eq!(written(&Frame::Null), b"_\r\n".to_vec());
    assert_eq!(parse(&written(&Frame::Null)), Ok(Frame::Null));
}

#[test]
fn frames_with_a_terminator_inside_a_line_do_not_round_trip() {
    let bytes = written(&Frame::Integer(0x0d0a));
    let mut cursor = Cursor::new(&bytes[..]);
    assert_eq!(Frame::parse(&mut cursor), Ok(Frame::Integer(0)));
    assert_eq!(cursor.position(), 9);
    assert_eq!(
        parse(&written(&Frame::Simple("a\r\nb".to_string()))),
        Ok(Frame::Simple("a".to_string()))
    );
    assert_eq!(parse(&written(&Frame::Simple(String::new()))), Err(FrameError::ProtocolError));
}

#[test]
fn cursor_helpers() {
    let bytes = b"ab\r\ncd";
    let mut cursor = Cursor::new(&bytes[..]);
    assert_eq!(cursor.remaining(), 6);
    assert_eq!(peek_next(&mut cursor), Ok(b'a'));
    assert_eq!(cursor.position(), 0);
    assert_eq!(get_next(&mut cursor), Ok(b'a'));
    assert_eq!(cursor.position(), 1);
    assert_eq!(get_line(&mut cursor), Ok(&b"b"[..]));
    assert_eq!(cursor.position(), 4);
    assert_eq!(get_line(&mut cursor), Err(FrameError::ParsingError));
    assert_eq!(cursor.position(), 4);
    assert_eq!(advance(&mut cursor, 3), Err(FrameError::ParsingError));
    assert_eq!(cursor.position(), 4);
    assert_eq!(advance(&mut cursor, 2), Ok(()));
    assert!(!cursor.has_remaining());
    assert_eq!(peek_next(&mut cursor), Err(FrameError::ParsingError));
    assert_eq!(get_next(&mut cursor), Err(FrameError::ParsingError));
    let mut empty = Cursor::new(&b""[..]);
    assert_eq!(get_line(&mut empty), Err(FrameError::ParsingError));
}

#[test]
fn get_decimal_reads_big_endian_lines() {
    let mut cursor = Cursor::new(&b"\x01\x02\r\nrest"[..]);
    assert_eq!(get_decimal(&mut cursor), Ok(0x0102));
    assert_eq!(cursor.position(), 4);
    let mut cursor = Cursor::new(&b"\xff\xff\xff\xff\xff\xff\xff\xff\r\n"[..]);
    assert_eq!(get_decimal(&mut cursor), Ok(u64::MAX));
    let mut cursor = Cursor::new(&b"123456789\r\n"[..]);
    assert_eq!(get_decimal(&mut cursor), Err(FrameError::ProtocolError));
    assert_eq!(cursor.position(), 11);
    let mut cursor = Cursor::new(&b"12"[..]);
    assert_eq!(get_decimal(&mut cursor), Err(FrameError::ParsingError));
    assert_eq!(cursor.position(), 0);
}

#[test]
fn push_onto_arrays_only() {
    let mut frame = Frame::Array(vec![]);
    assert_eq!(frame.push_bulk(b"a".to_vec()), Ok(()));
    assert_eq!(frame.push_int(3), Ok(()));
    assert_eq!(frame, Frame::Array(vec![Frame::Bulk(b"a".to_vec()), Frame::Integer(3)]));
    let mut frame = Frame::Null;
    assert_eq!(frame.push_bulk(b"a".to_vec()), Err(FrameError::TypeMismatch));
    assert_eq!(frame.push_int(3), Err(FrameError::TypeMismatch));
    assert_eq!(frame, Frame::Null);
}

#[test]
fn frames_compare_with_text_and_numbers() {
    assert!(Frame::Simple("OK".to_string()) == "OK");
    assert!(Frame::Error("no".to_string()) == "no");
    assert!(Frame::Bulk(b"bar".to_vec()) == "bar");
    assert!(Frame::Bulk(b"bar".to_vec()) != "baz");
    assert!(Frame::Null != "");
    assert!(Frame::Integer(7) != "7");
    assert!(Frame::Integer(7) == 7u64);
    assert!(Frame::Integer(7) != 8u64);
    assert!(Frame::Simple("7".to_string()) != 7u64);
}

#[test]
fn frames_are_cloned_whole() {
    let frame = Frame::Array(vec![
        Frame::Simple("a".to_string()),
        Frame::Array(vec![Frame::Bulk(b"b".to_vec()), Frame::Null, Frame::Integer(3)]),
        Frame::Error("c".to_string()),
    ]);
    assert_eq!(frame.clone(), frame);
    assert_ne!(frame.clone(), Frame::Array(vec![]));
    assert_ne!(Frame::Simple("a".to_string()), Frame::Error("a".to_string()));
    assert_ne!(Frame::Bulk(b"a".to_vec()), Frame::Simple("a".to_string()));
}
