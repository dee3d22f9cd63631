//! One client's connection, as far as bytes go: what has come in and waits to
//! be read as frames, and what has been written and waits to be sent. The
//! stream itself is the caller's; the caller hands over what it read and
//! sends what was written.
use crate::error::DatabaseError;
use crate::frame::{
    frame_at, lemma_frame_within, lemma_views, validation_at, views, Cursor, Frame, FrameError, FrameView, ARRAY_MARK,
    BULK_MARK, CR, ERROR_MARK, INTEGER_MARK, LF, NULL_MARK, SIMPLE_MARK,
};
use crate::number::{push_be, NUMBER_WIDTH};
use crate::wire::{marked_line, terminator, wire_all, wire_bytes};
use vstd::prelude::*;
use vstd::string::StringExecFns;

verus! {

/// The capacity that a connection's buffer starts with.
pub const DEFAULT_CAPACITY: usize = 4096;

/// The connection broke; the text says how.
#[derive(Debug, PartialEq, Eq)]
pub struct ConnectionError(pub String);

/// The text of the error for a stream that ended inside a frame.
pub open spec fn reset_text() -> Seq<char> {
    "Connection reset by peer."@
}

/// The bytes of one connection that wait: those that came in, and those that
/// were written.
#[derive(Debug)]
pub struct Connection {
    buffer: Vec<u8>,
    staged: Vec<u8>,
}

/// Writing one more frame after some others writes its bytes after theirs.
pub proof fn lemma_wire_all_push(frames: Seq<FrameView>, last: FrameView)
    ensures
        wire_all(frames.push(last)) == wire_all(frames) + wire_bytes(last),
    decreases frames.len(),
{
    let all = frames.push(last);
    if frames.len() == 0 {
        assert(all.drop_first() =~= Seq::<FrameView>::empty());
        assert(wire_all(all.drop_first()) =~= Seq::<u8>::empty());
        assert(wire_all(all) =~= wire_bytes(last));
        assert(wire_all(frames) + wire_bytes(last) =~= wire_bytes(last));
    } else {
        assert(all.drop_first() =~= frames.drop_first().push(last));
        lemma_wire_all_push(frames.drop_first(), last);
        assert(wire_all(all) =~= wire_all(frames) + wire_bytes(last));
    }
}

impl Connection {
    /// The bytes that have come in and have not yet been read as frames.
    pub closed spec fn received(&self) -> Seq<u8> {
        self.buffer@
    }

    /// The bytes that have been written and not yet taken for sending.
    pub closed spec fn written(&self) -> Seq<u8> {
        self.staged@
    }

    /// A connection with nothing waiting and room for `DEFAULT_CAPACITY` bytes.
    pub fn new() -> (connection: Self)
        ensures
            connection.received() == Seq::<u8>::empty(),
            connection.written() == Seq::<u8>::empty(),
    {
        Connection { buffer: Vec::with_capacity(DEFAULT_CAPACITY), staged: Vec::new() }
    }

    /// A connection with nothing waiting and room for `buf_capacity` bytes.
    pub fn with_capacity(buf_capacity: usize) -> (connection: Self)
        requires
            buf_capacity <= isize::MAX,
        ensures
            connection.received() == Seq::<u8>::empty(),
            connection.written() == Seq::<u8>::empty(),
    {
        Connection { buffer: Vec::with_capacity(buf_capacity), staged: Vec::new() }
    }

    /// Takes what the stream gave. An empty read is the end of the stream:
    /// with nothing waiting the connection was closed in order and the answer
    /// is `false`; with bytes of an unfinished frame waiting it was reset.
    /// Anything else is kept for `parse_frame`, and the answer is `true`.
    pub fn receive(&mut self, bytes: &[u8]) -> (r: Result<bool, DatabaseError>)
        ensures
            final(self).written() == old(self).written(),
            final(self).received() == old(self).received() + bytes@,
            bytes@.len() > 0 ==> r == Ok::<bool, DatabaseError>(true),
            bytes@.len() == 0 && old(self).received().len() == 0 ==> r == Ok::<
                bool,
                DatabaseError,
            >(false),
            bytes@.len() == 0 && old(self).received().len() > 0 ==> (r matches Err(
                DatabaseError::ConnectionError(e),
            ) && e.0@ == reset_text()),
    {
        if bytes.len() == 0 {
            assert(self.buffer@ + bytes@ =~= self.buffer@);
            if self.buffer.len() == 0 {
                Ok(false)
            } else {
                Err(
                    DatabaseError::ConnectionError(
                        ConnectionError(String::from_str("Connection reset by peer.")),
                    ),
                )
            }
        } else {
            self.buffer.extend_from_slice(bytes);
            Ok(true)
        }
    }

    /// Reads one frame from the front of what has come in, if a whole frame
    /// is there, and drops its bytes. Otherwise nothing changes.
    pub fn parse_frame(&mut self) -> (r: Option<Frame>)
        ensures
            final(self).written() == old(self).written(),
            match frame_at(old(self).received(), 0) {
                (Ok(view), used) => r matches Some(frame) && frame@ == view && final(self).received() == old(self).received().skip(used as int),
                (Err(_), _) => r is None && final(self).received() == old(self).received(),
            },
    {
        let mut cursor = Cursor::new(self.buffer.as_slice());
        match Frame::validate(&mut cursor) {
            Err(_) => None,
            Ok(_) => {
                let len = cursor.position();
                proof {
                    lemma_frame_within(self.buffer@, 0);
                }
                cursor.set_position(0);
                match Frame::parse(&mut cursor) {
                    Err(_) => None,
                    Ok(frame) => {
                        let rest = self.buffer.split_off(len);
                        self.buffer = rest;
                        assert(self.buffer@ =~= old(self).buffer@.skip(len as int));
                        Some(frame)
                    },
                }
            },
        }
    }

    /// Hands over what has been written, for sending, and starts anew.
    pub fn take_written(&mut self) -> (bytes: Vec<u8>)
        ensures
            bytes@ == old(self).written(),
            final(self).written() == Seq::<u8>::empty(),
            final(self).received() == old(self).received(),
    {
        let mut bytes: Vec<u8> = Vec::new();
        bytes.append(&mut self.staged);
        bytes
    }

    /// Writes a frame: an array as its count and then its items, any other
    /// frame as a value.
    pub fn write_frame(&mut self, frame: &Frame) -> (r: Result<(), DatabaseError>)
        ensures
            r == Ok::<(), DatabaseError>(()),
            final(self).received() == old(self).received(),
            final(self).written() == old(self).written() + wire_bytes(frame@),
        decreases frame,
    {
        match frame {
            Frame::Array(items) => {
                self.staged.push(ARRAY_MARK);
                self.write_decimal(items.len() as u64);
                self.staged.push(CR);
                self.staged.push(LF);
                let ghost head = old(self).written() + marked_line(
                    ARRAY_MARK,
                    crate::number::be_bytes(items@.len(), 8),
                );
                assert(self.staged@ =~= head);
                proof {
                    lemma_views(items@);
                }
                let mut i: usize = 0;
                assert(views(items@).take(0) =~= Seq::<FrameView>::empty());
                assert(head + wire_all(Seq::<FrameView>::empty()) =~= head);
                while i < items.len()
                    invariant
                        i <= items@.len(),
                        *frame == Frame::Array(*items),
                        self.received() == old(self).received(),
                        self.written() == head + wire_all(views(items@).take(i as int)),
                        views(items@).len() == items@.len(),
                        forall|j: int|
                            0 <= j < items@.len() ==> #[trigger] views(items@)[j] == items@[j]@,
                    decreases items@.len() - i,
                {
                    proof {
                        vstd::std_specs::vec::axiom_vec_decreases_to_view(*items);
                        vstd::seq::axiom_seq_index_decreases(items@, i as int);
                        assert(decreases_to!(*frame => frame->Array_0));
                    }
                    let _ = self.write_frame(&items[i]);
                    proof {
                        let before = views(items@).take(i as int);
                        assert(views(items@).take(i + 1) =~= before.push(items@[i as int]@));
                        lemma_wire_all_push(before, items@[i as int]@);
                        assert(head + wire_all(before) + wire_bytes(items@[i as int]@) =~= head + (
                        wire_all(before) + wire_bytes(items@[i as int]@)));
                    }
                    i += 1;
                }
                assert(views(items@).take(i as int) =~= views(items@));
                assert(old(self).written() + (marked_line(
                    ARRAY_MARK,
                    crate::number::be_bytes(items@.len(), 8),
                ) + wire_all(views(items@))) =~= head + wire_all(views(items@)));
                Ok(())
            },
            _ => self.write_value(frame),
        }
    }

    /// Writes a frame that is no array: its kind, its body, the terminator.
    /// An array is refused and nothing is written.
    pub fn write_value(&mut self, frame: &Frame) -> (r: Result<(), DatabaseError>)
        ensures
            final(self).received() == old(self).received(),
            frame@ is Array ==> r == Err::<(), DatabaseError>(
                DatabaseError::FrameError(FrameError::ProtocolError),
            ) && final(self).written() == old(self).written(),
            !(frame@ is Array) ==> r == Ok::<(), DatabaseError>(()) && final(self).written()
                == old(self).written() + wire_bytes(frame@),
    {
        match frame {
            Frame::Simple(text) => {
                self.staged.push(SIMPLE_MARK);
                self.staged.extend_from_slice(text.as_str().as_bytes());
            },
            Frame::Error(text) => {
                self.staged.push(ERROR_MARK);
                self.staged.extend_from_slice(text.as_str().as_bytes());
            },
            Frame::Integer(value) => {
                self.staged.push(INTEGER_MARK);
                self.write_decimal(*value);
            },
            Frame::Bulk(payload) => {
                self.staged.push(BULK_MARK);
                self.write_decimal(payload.len() as u64);
                self.staged.push(CR);
                self.staged.push(LF);
                self.staged.extend_from_slice(payload.as_slice());
            },
            Frame::Null => {
                self.staged.push(NULL_MARK);
            },
            Frame::Array(_) => {
                return Err(DatabaseError::FrameError(FrameError::ProtocolError));
            },
        }
        self.staged.push(CR);
        self.staged.push(LF);
        assert(self.staged@ =~= old(self).staged@ + wire_bytes(frame@));
        Ok(())
    }

    /// Writes a number as its eight bytes, most significant first.
    pub fn write_decimal(&mut self, value: u64)
        ensures
            final(self).received() == old(self).received(),
            final(self).written() == old(self).written() + crate::number::be_bytes(
                value as nat,
                8,
            ),
    {
        push_be(&mut self.staged, value, NUMBER_WIDTH);
    }
}

} // verus!
