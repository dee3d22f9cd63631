use respdb::connection::{Connection, ConnectionError};
use respdb::error::DatabaseError;
use respdb::frame::{Frame, FrameError};

#[test]
fn frames_arrive_in_pieces() {
    let mut connection = Connection::new();
    assert_eq!(connection.parse_frame(), None);
    assert_eq!(connection.receive(b"+PO"), Ok(true));
    assert_eq!(connection.parse_frame(), None);
    assert_eq!(connection.receive(b"NG\r\n:\x02"), Ok(true));
    assert_eq!(connection.parse_frame(), Some(Frame::Simple("PONG".to_string())));
    assert_eq!(connection.parse_frame(), None);
    assert_eq!(connection.receive(b"\r\n"), Ok(true));
    assert_eq!(connection.parse_frame(), Some(Frame::Integer(2)));
    assert_eq!(connection.parse_frame(), None);
}

#[test]
fn end_of_stream_with_nothing_waiting_is_a_close() {
    let mut connection = Connection::with_capacity(16);
    assert_eq!(connection.receive(b""), Ok(false));
    assert_eq!(connection.receive(b"_\r\n"), Ok(true));
    assert_eq!(connection.parse_frame(), Some(Frame::Null));
    assert_eq!(connection.receive(b""), Ok(false));
}

#[test]
fn end_of_stream_inside_a_frame_is_a_reset() {
    let mut connection = Connection::new();
    assert_eq!(connection.receive(b"+half"), Ok(true));
    assert_eq!(
        connection.receive(b""),
        Err(DatabaseError::ConnectionError(ConnectionError(
            "Connection reset by peer.".to_string()
        )))
    );
}

#[test]
fn written_frames_wait_to_be_taken() {
    let mut connection = Connection::new();
    connection.write_frame(&Frame::Simple("OK".to_string())).unwrap();
    connection.write_frame(&Frame::Null).unwrap();
    assert_eq!(connection.take_written(), b"+OK\r\n_\r\n".to_vec());
    assert_eq!(connection.take_written(), Vec::<u8>::new());
}

#[test]
fn write_value_refuses_arrays() {
    let mut connection = Connection::new();
    assert_eq!(
        connection.write_value(&Frame::Array(vec![])),
        Err(DatabaseError::FrameError(FrameError::ProtocolError))
    );
    assert_eq!(connection.take_written(), Vec::<u8>::new());
    assert_eq!(connection.write_value(&Frame::Integer(1)), Ok(()));
    assert_eq!(connection.take_written(), b":\x00\x00\x00\x00\x00\x00\x00\x01\r\n".to_vec());
}

#[test]
fn write_decimal_is_eight_bytes() {
    let mut connection = Connection::new();
    connection.write_decimal(0x0102030405060708);
    connection.write_decimal(0);
    assert_eq!(
        connection.take_written(),
        vec![1, 2, 3, 4, 5, 6, 7, 8, 0, 0, 0, 0, 0, 0, 0, 0]
    );
}

#[test]
fn errors_convert_into_database_errors() {
    assert_eq!(
        DatabaseError::from(FrameError::ParsingError),
        DatabaseError::FrameError(FrameError::ParsingError)
    );
    assert_eq!(
        DatabaseError::from(ConnectionError("gone".to_string())),
        DatabaseError::ConnectionError(ConnectionError("gone".to_string()))
    );
}
