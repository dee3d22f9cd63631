//! The wire frames: what they are, how a buffer of bytes is read as one, and
//! the cursor that the reading moves along.
//!
//! A frame starts with a byte that tells its kind and ends with a carriage
//! return and a line feed. Numbers on the wire are big-endian lines of at most
//! eight bytes.
use crate::number::{be_value, decode_be, lemma_be_value_fits, NUMBER_WIDTH};
use crate::text::{bytes_equal, text_equal, utf8_text};
use vstd::prelude::*;
use vstd::slice::{slice_subrange, slice_to_vec};
use vstd::std_specs::cmp::PartialEqSpecImpl;
use vstd::utf8::{decode_utf8, encode_utf8, encode_utf8_decode_utf8, valid_utf8};

verus! {

/// Carriage return, the first byte of a line's end.
pub const CR: u8 = 13;

/// Line feed, the second byte of a line's end.
pub const LF: u8 = 10;

/// `+`, which starts a simple string.
pub const SIMPLE_MARK: u8 = 43;

/// `-`, which starts an error.
pub const ERROR_MARK: u8 = 45;

/// `:`, which starts an integer.
pub const INTEGER_MARK: u8 = 58;

/// `$`, which starts a bulk string.
pub const BULK_MARK: u8 = 36;

/// `_`, which starts the null frame.
pub const NULL_MARK: u8 = 95;

/// `*`, which starts an array.
pub const ARRAY_MARK: u8 = 42;

/// Why bytes are no frame, or a frame is not the one that was needed.
#[derive(Clone, Copy, Debug, PartialEq, Eq, Structural)]
pub enum FrameError {
    /// A frame of one kind stood where another kind was needed.
    TypeMismatch,
    /// The buffer ended inside a frame, a terminator was missing, or text was not UTF-8.
    ParsingError,
    /// The bytes break the protocol: an unknown kind, a number of more than
    /// eight bytes, a payload where none may stand.
    ProtocolError,
}

/// One message on the wire.
#[derive(Debug)]
pub enum Frame {
    Simple(String),
    Error(String),
    Integer(u64),
    Bulk(Vec<u8>),
    Null,
    Array(Vec<Frame>),
}

/// What a frame is, apart from how it is held in memory.
pub enum FrameView {
    Simple(Seq<char>),
    Error(Seq<char>),
    Integer(u64),
    Bulk(Seq<u8>),
    Null,
    Array(Seq<FrameView>),
}

/// The views of a sequence of frames, in order.
pub open spec fn views(frames: Seq<Frame>) -> Seq<FrameView>
    decreases frames,
{
    if frames.len() == 0 {
        Seq::empty()
    } else {
        views(frames.drop_last()).push(frames.last().view())
    }
}

impl View for Frame {
    type V = FrameView;

    open spec fn view(&self) -> FrameView
        decreases self,
    {
        match self {
            Frame::Simple(text) => FrameView::Simple(text@),
            Frame::Error(text) => FrameView::Error(text@),
            Frame::Integer(value) => FrameView::Integer(*value),
            Frame::Bulk(payload) => FrameView::Bulk(payload@),
            Frame::Null => FrameView::Null,
            Frame::Array(items) => FrameView::Array(views(items@)),
        }
    }
}

/// The views of a sequence are as many as its frames, and each is the view
/// of the frame at its place.
pub proof fn lemma_views(frames: Seq<Frame>)
    ensures
        views(frames).len() == frames.len(),
        forall|i: int| 0 <= i < frames.len() ==> #[trigger] views(frames)[i] == frames[i]@,
    decreases frames.len(),
{
    if frames.len() > 0 {
        lemma_views(frames.drop_last());
        assert(views(frames) == views(frames.drop_last()).push(frames.last().view()));
    } else {
        assert(views(frames) == Seq::<FrameView>::empty());
    }
}

/// One more frame at the end is one more view at the end.
pub proof fn lemma_views_push(frames: Seq<Frame>, last: Frame)
    ensures
        views(frames.push(last)) == views(frames).push(last@),
{
    assert(frames.push(last).drop_last() =~= frames);
}

/// A line terminator starts at index `i` of `bytes`.
pub open spec fn terminator_at(bytes: Seq<u8>, i: int) -> bool {
    0 <= i && i + 1 < bytes.len() && bytes[i] == CR && bytes[i + 1] == LF
}

/// The first index at or after `from` where a line terminator starts.
pub open spec fn next_terminator(bytes: Seq<u8>, from: int) -> Option<int>
    decreases bytes.len() - from,
{
    if from < 0 || from + 1 >= bytes.len() {
        None
    } else if terminator_at(bytes, from) {
        Some(from)
    } else {
        next_terminator(bytes, from + 1)
    }
}

/// The line that starts at `pos`, without its terminator, and the number of
/// bytes that the line and its terminator take.
pub open spec fn line_at(bytes: Seq<u8>, pos: nat) -> Option<(Seq<u8>, nat)> {
    match next_terminator(bytes, pos as int) {
        Some(end) => Some((bytes.subrange(pos as int, end), (end - pos + 2) as nat)),
        None => None,
    }
}

/// The number that the line at `pos` spells, and the bytes used up. Without a
/// line nothing is used up; a line of more than eight bytes is used up and refused.
pub open spec fn number_at(bytes: Seq<u8>, pos: nat) -> (Result<u64, FrameError>, nat) {
    match line_at(bytes, pos) {
        None => (Err(FrameError::ParsingError), 0),
        Some((line, used)) => if line.len() > NUMBER_WIDTH {
            (Err(FrameError::ProtocolError), used)
        } else {
            (Ok(be_value(line) as u64), used)
        },
    }
}

/// The bytes of `bytes` from `pos` on that are still to be read.
pub open spec fn left_at(bytes: Seq<u8>, pos: nat) -> nat {
    if pos <= bytes.len() {
        (bytes.len() - pos) as nat
    } else {
        0
    }
}

/// A text line: it must not be empty and must be UTF-8.
pub open spec fn text_of(line: Seq<u8>) -> Result<Seq<char>, FrameError> {
    if line.len() == 0 {
        Err(FrameError::ProtocolError)
    } else if !valid_utf8(line) {
        Err(FrameError::ParsingError)
    } else {
        Ok(decode_utf8(line))
    }
}

/// The frame that starts at `pos`, or why there is none, and the number of
/// bytes read on the way.
pub open spec fn frame_at(bytes: Seq<u8>, pos: nat) -> (Result<FrameView, FrameError>, nat)
    decreases left_at(bytes, pos), 0nat,
{
    if pos >= bytes.len() {
        (Err(FrameError::ParsingError), 0)
    } else {
        let mark = bytes[pos as int];
        if mark == SIMPLE_MARK || mark == ERROR_MARK {
            match line_at(bytes, pos + 1) {
                None => (Err(FrameError::ParsingError), 1),
                Some((line, used)) => match text_of(line) {
                    Err(e) => (Err(e), 1 + used),
                    Ok(text) => if mark == SIMPLE_MARK {
                        (Ok(FrameView::Simple(text)), 1 + used)
                    } else {
                        (Ok(FrameView::Error(text)), 1 + used)
                    },
                },
            }
        } else if mark == INTEGER_MARK {
            match number_at(bytes, pos + 1) {
                (Err(e), used) => (Err(e), 1 + used),
                (Ok(value), used) => (Ok(FrameView::Integer(value)), 1 + used),
            }
        } else if mark == NULL_MARK {
            match line_at(bytes, pos + 1) {
                None => (Err(FrameError::ParsingError), 1),
                Some((line, used)) => if line.len() == 0 {
                    (Ok(FrameView::Null), 1 + used)
                } else {
                    (Err(FrameError::ProtocolError), 1 + used)
                },
            }
        } else if mark == BULK_MARK {
            match number_at(bytes, pos + 1) {
                (Err(e), used) => (Err(e), 1 + used),
                (Ok(len), used) => {
                    let start = pos + 1 + used;
                    if left_at(bytes, start) < len + 2 || !terminator_at(bytes, start + len) {
                        (Err(FrameError::ParsingError), 1 + used)
                    } else {
                        (
                            Ok(FrameView::Bulk(bytes.subrange(start as int, start + len))),
                            1 + used + len as nat + 2,
                        )
                    }
                },
            }
        } else if mark == ARRAY_MARK {
            match number_at(bytes, pos + 1) {
                (Err(e), used) => (Err(e), 1 + used),
                (Ok(count), used) => match frames_at(bytes, pos + 1 + used, count as nat) {
                    (Err(e), more) => (Err(e), 1 + used + more),
                    (Ok(items), more) => (Ok(FrameView::Array(items)), 1 + used + more),
                },
            }
        } else {
            (Err(FrameError::ProtocolError), 1)
        }
    }
}

/// `count` frames one after the other from `pos` on. The first that fails
/// ends the reading, and the bytes read up to there are counted.
pub open spec fn frames_at(bytes: Seq<u8>, pos: nat, count: nat) -> (
    Result<Seq<FrameView>, FrameError>,
    nat,
)
    decreases left_at(bytes, pos), count + 1,
{
    if count == 0 {
        (Ok(Seq::empty()), 0)
    } else {
        match frame_at(bytes, pos) {
            (Err(e), used) => (Err(e), used),
            (Ok(first), used) => match frames_at(bytes, pos + used, (count - 1) as nat) {
                (Err(e), more) => (Err(e), used + more),
                (Ok(rest), more) => (Ok(seq![first] + rest), used + more),
            },
        }
    }
}

/// What validation finds at `pos`: whether a whole frame stands there, and
/// the bytes read on the way. It is what reading the frame finds, without the frame.
pub open spec fn validation_at(bytes: Seq<u8>, pos: nat) -> (Result<(), FrameError>, nat) {
    match frame_at(bytes, pos) {
        (Ok(_), used) => (Ok(()), used),
        (Err(e), used) => (Err(e), used),
    }
}

/// Validation agrees with parsing: at any place of any buffer it succeeds
/// exactly where parsing does, fails with the same error, and reads as far.
pub proof fn validation_agrees_with_parsing(bytes: Seq<u8>, pos: nat)
    ensures
        validation_at(bytes, pos).0 is Ok <==> frame_at(bytes, pos).0 is Ok,
        validation_at(bytes, pos).0 is Err ==> validation_at(bytes, pos).0->Err_0 == frame_at(
            bytes,
            pos,
        ).0->Err_0,
        validation_at(bytes, pos).1 == frame_at(bytes, pos).1,
{
}

/// A place in a buffer of bytes.
pub struct Cursor<'a> {
    bytes: &'a [u8],
    position: usize,
}

impl<'a> Cursor<'a> {
    /// The bytes of the buffer.
    pub closed spec fn buffer(&self) -> Seq<u8> {
        self.bytes@
    }

    /// The index of the next byte to read.
    pub closed spec fn offset(&self) -> nat {
        self.position as nat
    }

    /// The number of bytes from the cursor to the end of the buffer.
    pub open spec fn left(&self) -> nat {
        left_at(self.buffer(), self.offset())
    }

    /// A cursor at the start of `bytes`.
    pub fn new(bytes: &'a [u8]) -> (cursor: Self)
        ensures
            cursor.buffer() == bytes@,
            cursor.offset() == 0,
    {
        Cursor { bytes, position: 0 }
    }

    /// The index of the next byte to read.
    pub fn position(&self) -> (position: usize)
        ensures
            position == self.offset(),
    {
        self.position
    }

    /// Moves the cursor to `position`, which may lie past the end.
    pub fn set_position(&mut self, position: usize)
        ensures
            final(self).buffer() == old(self).buffer(),
            final(self).offset() == position,
    {
        self.position = position;
    }

    /// The whole buffer.
    pub fn get_ref(&self) -> (bytes: &'a [u8])
        ensures
            bytes@ == self.buffer(),
    {
        self.bytes
    }

    /// The number of bytes that are left to read.
    pub fn remaining(&self) -> (count: usize)
        ensures
            count == self.left(),
    {
        if self.position <= self.bytes.len() {
            self.bytes.len() - self.position
        } else {
            0
        }
    }

    /// Whether a byte is left to read.
    pub fn has_remaining(&self) -> (some: bool)
        ensures
            some == (self.left() > 0),
    {
        self.position < self.bytes.len()
    }
}

/// Moves the cursor `n` bytes on, or fails and leaves it where fewer are left.
pub fn advance(source: &mut Cursor<'_>, n: usize) -> (r: Result<(), FrameError>)
    ensures
        final(source).buffer() == old(source).buffer(),
        old(source).left() < n ==> r == Err::<(), FrameError>(FrameError::ParsingError)
            && final(source).offset() == old(source).offset(),
        old(source).left() >= n ==> r == Ok::<(), FrameError>(()) && final(source).offset()
            == old(source).offset() + n,
{
    if source.remaining() < n {
        Err(FrameError::ParsingError)
    } else if n == 0 {
        Ok(())
    } else {
        let position = source.position();
        let len = source.get_ref().len();
        assert(position + n <= len);
        source.set_position(position + n);
        Ok(())
    }
}

/// The byte under the cursor, which stays where it is.
pub fn peek_next(source: &mut Cursor<'_>) -> (r: Result<u8, FrameError>)
    ensures
        *final(source) == *old(source),
        old(source).left() == 0 ==> r == Err::<u8, FrameError>(FrameError::ParsingError),
        old(source).left() > 0 ==> r == Ok::<u8, FrameError>(
            old(source).buffer()[old(source).offset() as int],
        ),
{
    if !source.has_remaining() {
        Err(FrameError::ParsingError)
    } else {
        Ok(source.get_ref()[source.position()])
    }
}

/// The byte under the cursor, which moves past it.
pub fn get_next(source: &mut Cursor<'_>) -> (r: Result<u8, FrameError>)
    ensures
        final(source).buffer() == old(source).buffer(),
        old(source).left() == 0 ==> r == Err::<u8, FrameError>(FrameError::ParsingError)
            && final(source).offset() == old(source).offset(),
        old(source).left() > 0 ==> r == Ok::<u8, FrameError>(
            old(source).buffer()[old(source).offset() as int],
        ) && final(source).offset() == old(source).offset() + 1,
{
    if !source.has_remaining() {
        Err(FrameError::ParsingError)
    } else {
        let position = source.position();
        let byte = source.get_ref()[position];
        source.set_position(position + 1);
        Ok(byte)
    }
}

/// Where a search from `from` stands once every index below `i` is known to start no terminator.
proof fn lemma_search_step(bytes: Seq<u8>, from: int, i: int)
    requires
        0 <= from <= i,
        forall|j: int| from <= j < i ==> !terminator_at(bytes, j),
    ensures
        next_terminator(bytes, from) == next_terminator(bytes, i),
    decreases i - from,
{
    if from < i {
        if from + 1 >= bytes.len() {
            lemma_search_end(bytes, i);
        } else {
            lemma_search_step(bytes, from + 1, i);
        }
    }
}

proof fn lemma_search_end(bytes: Seq<u8>, i: int)
    requires
        i + 1 >= bytes.len(),
    ensures
        next_terminator(bytes, i) is None,
{
}

/// The search from `from` finds the terminator at `end` when none starts before it.
pub proof fn lemma_first_terminator(bytes: Seq<u8>, from: int, end: int)
    requires
        0 <= from <= end,
        terminator_at(bytes, end),
        forall|j: int| from <= j < end ==> !terminator_at(bytes, j),
    ensures
        next_terminator(bytes, from) == Some(end),
{
    lemma_search_step(bytes, from, end);
}

/// What a search finds is the first terminator at or after its start, and
/// where it finds none there is none.
pub proof fn lemma_next_terminator(bytes: Seq<u8>, from: int)
    requires
        0 <= from,
    ensures
        match next_terminator(bytes, from) {
            Some(end) => from <= end && terminator_at(bytes, end) && forall|j: int|
                from <= j < end ==> !terminator_at(bytes, j),
            None => forall|j: int| from <= j ==> !terminator_at(bytes, j),
        },
    decreases bytes.len() - from,
{
    if from + 1 < bytes.len() && !terminator_at(bytes, from) {
        lemma_next_terminator(bytes, from + 1);
    }
}

/// Reading a frame never goes past the end of the buffer.
pub proof fn lemma_frame_within(bytes: Seq<u8>, pos: nat)
    requires
        pos <= bytes.len(),
    ensures
        pos + frame_at(bytes, pos).1 <= bytes.len(),
    decreases left_at(bytes, pos), 0nat,
{
    if pos < bytes.len() {
        lemma_next_terminator(bytes, (pos + 1) as int);
        let mark = bytes[pos as int];
        if mark == ARRAY_MARK {
            match number_at(bytes, pos + 1) {
                (Ok(count), used) => {
                    lemma_frames_within(bytes, pos + 1 + used, count as nat);
                },
                _ => {},
            }
        }
    }
}

/// Reading several frames never goes past the end of the buffer.
pub proof fn lemma_frames_within(bytes: Seq<u8>, pos: nat, count: nat)
    requires
        pos <= bytes.len(),
    ensures
        pos + frames_at(bytes, pos, count).1 <= bytes.len(),
    decreases left_at(bytes, pos), count + 1,
{
    if count > 0 {
        lemma_frame_within(bytes, pos);
        match frame_at(bytes, pos) {
            (Ok(first), used) => {
                lemma_frames_within(bytes, pos + used, (count - 1) as nat);
            },
            _ => {},
        }
    }
}

/// The line under the cursor, without its terminator; the cursor moves past
/// the terminator. Without a terminator ahead the cursor stays.
pub fn get_line<'a>(source: &mut Cursor<'a>) -> (r: Result<&'a [u8], FrameError>)
    ensures
        final(source).buffer() == old(source).buffer(),
        match line_at(old(source).buffer(), old(source).offset()) {
            Some((line, used)) => r matches Ok(l) && l@ == line && final(source).offset() == old(source).offset() + used && final(source).offset() <= final(source).buffer().len(),
            None => r is Err && r->Err_0 == FrameError::ParsingError && final(source).offset()
                == old(source).offset(),
        },
{
    let bytes = source.get_ref();
    let start = source.position();
    let mut i: usize = start;
    while i < bytes.len() && bytes.len() - i >= 2
        invariant
            start <= i,
            bytes@ == source.buffer(),
            start == source.offset(),
            *source == *old(source),
            forall|j: int| start <= j < i ==> !terminator_at(bytes@, j),
        decreases bytes@.len() - i,
    {
        if bytes[i] == CR && bytes[i + 1] == LF {
            proof {
                lemma_search_step(bytes@, start as int, i as int);
            }
            source.set_position(i + 2);
            return Ok(slice_subrange(bytes, start, i));
        }
        i += 1;
    }
    proof {
        lemma_search_step(bytes@, start as int, i as int);
        lemma_search_end(bytes@, i as int);
    }
    Err(FrameError::ParsingError)
}

/// The number that the line under the cursor spells. The cursor moves past
/// the line, also where the line is refused for its length.
pub fn get_decimal(source: &mut Cursor<'_>) -> (r: Result<u64, FrameError>)
    ensures
        final(source).buffer() == old(source).buffer(),
        r == number_at(old(source).buffer(), old(source).offset()).0,
        final(source).offset() == old(source).offset() + number_at(
            old(source).buffer(),
            old(source).offset(),
        ).1,
        r is Ok ==> final(source).offset() <= final(source).buffer().len(),
{
    match get_line(source) {
        Err(e) => Err(e),
        Ok(line) => {
            if line.len() > NUMBER_WIDTH {
                Err(FrameError::ProtocolError)
            } else {
                proof {
                    lemma_be_value_fits(line@);
                }
                Ok(decode_be(line))
            }
        },
    }
}

/// The frames read so far, the bytes they took, and what reading the rest gives.
spec fn joined(
    before: Seq<FrameView>,
    used: nat,
    rest: (Result<Seq<FrameView>, FrameError>, nat),
) -> (Result<Seq<FrameView>, FrameError>, nat) {
    match rest.0 {
        Ok(after) => (Ok(before + after), used + rest.1),
        Err(e) => (Err(e), used + rest.1),
    }
}

/// The array frame that the items read after `used` bytes of header make.
spec fn as_array(used: nat, items: (Result<Seq<FrameView>, FrameError>, nat)) -> (
    Result<FrameView, FrameError>,
    nat,
) {
    match items.0 {
        Ok(all) => (Ok(FrameView::Array(all)), used + items.1),
        Err(e) => (Err(e), used + items.1),
    }
}

/// Reading `count` frames is reading one and then the others.
proof fn lemma_frames_step(bytes: Seq<u8>, pos: nat, count: nat, before: Seq<FrameView>, used: nat)
    requires
        count > 0,
    ensures
        match frame_at(bytes, pos) {
            (Err(e), more) => joined(before, used, frames_at(bytes, pos, count)) == (
                Err::<Seq<FrameView>, FrameError>(e),
                used + more,
            ),
            (Ok(first), more) => joined(before, used, frames_at(bytes, pos, count)) == joined(
                before.push(first),
                used + more,
                frames_at(bytes, pos + more, (count - 1) as nat),
            ),
        },
{
    match frame_at(bytes, pos) {
        (Err(e), more) => {},
        (Ok(first), more) => {
            match frames_at(bytes, pos + more, (count - 1) as nat) {
                (Err(e), last) => {},
                (Ok(rest), last) => {
                    assert(before + (seq![first] + rest) =~= before.push(first) + rest);
                },
            }
        },
    }
}

impl Frame {
    /// Appends a bulk string to an array frame. Any other frame is left as it is.
    pub fn push_bulk(&mut self, bytes: Vec<u8>) -> (r: Result<(), FrameError>)
        ensures
            match old(self)@ {
                FrameView::Array(items) => r == Ok::<(), FrameError>(()) && final(self)@
                    == FrameView::Array(items.push(FrameView::Bulk(bytes@))),
                _ => r == Err::<(), FrameError>(FrameError::TypeMismatch) && final(self)@ == old(self)@,
            },
    {
        match self {
            Frame::Array(items) => {
                proof {
                    lemma_views_push(items@, Frame::Bulk(bytes));
                }
                items.push(Frame::Bulk(bytes));
                Ok(())
            },
            _ => Err(FrameError::TypeMismatch),
        }
    }

    /// Appends an integer to an array frame. Any other frame is left as it is.
    pub fn push_int(&mut self, value: u64) -> (r: Result<(), FrameError>)
        ensures
            match old(self)@ {
                FrameView::Array(items) => r == Ok::<(), FrameError>(()) && final(self)@
                    == FrameView::Array(items.push(FrameView::Integer(value))),
                _ => r == Err::<(), FrameError>(FrameError::TypeMismatch) && final(self)@ == old(self)@,
            },
    {
        match self {
            Frame::Array(items) => {
                proof {
                    lemma_views_push(items@, Frame::Integer(value));
                }
                items.push(Frame::Integer(value));
                Ok(())
            },
            _ => Err(FrameError::TypeMismatch),
        }
    }

    /// Tells whether a whole frame stands under the cursor, without building
    /// it. It succeeds exactly where `parse` does, fails with the same error,
    /// and leaves the cursor where `parse` would.
    pub fn validate(cursor: &mut Cursor<'_>) -> (r: Result<(), FrameError>)
        ensures
            final(cursor).buffer() == old(cursor).buffer(),
            r == validation_at(old(cursor).buffer(), old(cursor).offset()).0,
            final(cursor).offset() == old(cursor).offset() + validation_at(
                old(cursor).buffer(),
                old(cursor).offset(),
            ).1,
        decreases old(cursor).left(),
    {
        let ghost bytes = cursor.buffer();
        let ghost start = cursor.offset();
        let mark = match get_next(cursor) {
            Err(e) => {
                return Err(e);
            },
            Ok(mark) => mark,
        };
        if mark == SIMPLE_MARK || mark == ERROR_MARK {
            match get_line(cursor) {
                Err(e) => Err(e),
                Ok(line) => {
                    if line.len() == 0 {
                        Err(FrameError::ProtocolError)
                    } else if utf8_text(line).is_none() {
                        Err(FrameError::ParsingError)
                    } else {
                        Ok(())
                    }
                },
            }
        } else if mark == INTEGER_MARK {
            match get_decimal(cursor) {
                Err(e) => Err(e),
                Ok(_) => Ok(()),
            }
        } else if mark == NULL_MARK {
            match get_line(cursor) {
                Err(e) => Err(e),
                Ok(line) => {
                    if line.len() == 0 {
                        Ok(())
                    } else {
                        Err(FrameError::ProtocolError)
                    }
                },
            }
        } else if mark == BULK_MARK {
            match get_decimal(cursor) {
                Err(e) => Err(e),
                Ok(len) => {
                    let position = cursor.position();
                    let buffer = cursor.get_ref();
                    let remaining = cursor.remaining();
                    if (remaining as u64) < len || remaining as u64 - len < 2 {
                        Err(FrameError::ParsingError)
                    } else {
                        let size = len as usize;
                        assert(position + size + 2 <= buffer@.len() <= usize::MAX) by {
                            assert(buffer@.len() == buffer.len());
                        }
                        if buffer[position + size] != CR || buffer[position + size + 1] != LF {
                            Err(FrameError::ParsingError)
                        } else {
                            cursor.set_position(position + size + 2);
                            Ok(())
                        }
                    }
                },
            }
        } else if mark == ARRAY_MARK {
            match get_decimal(cursor) {
                Err(e) => Err(e),
                Ok(count) => {
                    let ghost base = cursor.offset();
                    let ghost seen = Seq::<FrameView>::empty();
                    let mut i: u64 = 0;
                    assert(joined(seen, 0, frames_at(bytes, base, count as nat)) == frames_at(
                        bytes,
                        base,
                        count as nat,
                    )) by {
                        let all = frames_at(bytes, base, count as nat);
                        if all.0 is Ok {
                            assert(seen + all.0->Ok_0 =~= all.0->Ok_0);
                        }
                    }
                    while i < count
                        invariant
                            i <= count,
                            old(cursor).buffer() == bytes,
                            old(cursor).offset() == start,
                            frame_at(bytes, start) == as_array(
                                (base - start) as nat,
                                frames_at(bytes, base, count as nat),
                            ),
                            cursor.buffer() == bytes,
                            start < bytes.len(),
                            base <= cursor.offset(),
                            start < base,
                            frames_at(bytes, base, count as nat) == joined(
                                seen,
                                (cursor.offset() - base) as nat,
                                frames_at(bytes, cursor.offset(), (count - i) as nat),
                            ),
                        decreases count - i,
                    {
                        proof {
                            lemma_frames_step(
                                bytes,
                                cursor.offset(),
                                (count - i) as nat,
                                seen,
                                (cursor.offset() - base) as nat,
                            );
                        }
                        let ghost here = cursor.offset();
                        match Frame::validate(cursor) {
                            Err(e) => {
                                return Err(e);
                            },
                            Ok(_) => {
                                proof {
                                    seen = seen.push(frame_at(bytes, here).0->Ok_0);
                                }
                            },
                        }
                        i += 1;
                    }
                    Ok(())
                },
            }
        } else {
            Err(FrameError::ProtocolError)
        }
    }

    /// Reads the frame under the cursor and moves the cursor past it. Where no
    /// frame stands there, the error says why and the cursor stays where the
    /// reading stopped.
    pub fn parse(cursor: &mut Cursor<'_>) -> (r: Result<Frame, FrameError>)
        ensures
            final(cursor).buffer() == old(cursor).buffer(),
            final(cursor).offset() == old(cursor).offset() + frame_at(
                old(cursor).buffer(),
                old(cursor).offset(),
            ).1,
            match frame_at(old(cursor).buffer(), old(cursor).offset()).0 {
                Ok(view) => r matches Ok(frame) && frame@ == view,
                Err(e) => r matches Err(err) && err == e,
            },
        decreases old(cursor).left(),
    {
        let ghost bytes = cursor.buffer();
        let ghost start = cursor.offset();
        let mark = match get_next(cursor) {
            Err(e) => {
                return Err(e);
            },
            Ok(mark) => mark,
        };
        if mark == SIMPLE_MARK || mark == ERROR_MARK {
            match get_line(cursor) {
                Err(e) => Err(e),
                Ok(line) => {
                    if line.len() == 0 {
                        Err(FrameError::ProtocolError)
                    } else {
                        match utf8_text(line) {
                            None => Err(FrameError::ParsingError),
                            Some(text) => {
                                proof {
                                    encode_utf8_decode_utf8(text@);
                                }
                                if mark == SIMPLE_MARK {
                                    Ok(Frame::Simple(text.to_owned()))
                                } else {
                                    Ok(Frame::Error(text.to_owned()))
                                }
                            },
                        }
                    }
                },
            }
        } else if mark == INTEGER_MARK {
            match get_decimal(cursor) {
                Err(e) => Err(e),
                Ok(value) => Ok(Frame::Integer(value)),
            }
        } else if mark == NULL_MARK {
            match get_line(cursor) {
                Err(e) => Err(e),
                Ok(line) => {
                    if line.len() == 0 {
                        Ok(Frame::Null)
                    } else {
                        Err(FrameError::ProtocolError)
                    }
                },
            }
        } else if mark == BULK_MARK {
            match get_decimal(cursor) {
                Err(e) => Err(e),
                Ok(len) => {
                    let position = cursor.position();
                    let buffer = cursor.get_ref();
                    let remaining = cursor.remaining();
                    if (remaining as u64) < len || remaining as u64 - len < 2 {
                        Err(FrameError::ParsingError)
                    } else {
                        let size = len as usize;
                        assert(position + size + 2 <= buffer@.len() <= usize::MAX) by {
                            assert(buffer@.len() == buffer.len());
                        }
                        if buffer[position + size] != CR || buffer[position + size + 1] != LF {
                            Err(FrameError::ParsingError)
                        } else {
                            let payload = slice_to_vec(
                                slice_subrange(buffer, position, position + size),
                            );
                            cursor.set_position(position + size + 2);
                            Ok(Frame::Bulk(payload))
                        }
                    }
                },
            }
        } else if mark == ARRAY_MARK {
            match get_decimal(cursor) {
                Err(e) => Err(e),
                Ok(count) => {
                    let ghost base = cursor.offset();
                    let mut items: Vec<Frame> = Vec::new();
                    let mut i: u64 = 0;
                    assert(joined(views(items@), 0, frames_at(bytes, base, count as nat))
                        == frames_at(bytes, base, count as nat)) by {
                        let all = frames_at(bytes, base, count as nat);
                        if all.0 is Ok {
                            assert(views(items@) + all.0->Ok_0 =~= all.0->Ok_0);
                        }
                    }
                    while i < count
                        invariant
                            i <= count,
                            old(cursor).buffer() == bytes,
                            old(cursor).offset() == start,
                            frame_at(bytes, start) == as_array(
                                (base - start) as nat,
                                frames_at(bytes, base, count as nat),
                            ),
                            cursor.buffer() == bytes,
                            start < bytes.len(),
                            base <= cursor.offset(),
                            start < base,
                            frames_at(bytes, base, count as nat) == joined(
                                views(items@),
                                (cursor.offset() - base) as nat,
                                frames_at(bytes, cursor.offset(), (count - i) as nat),
                            ),
                        decreases count - i,
                    {
                        proof {
                            lemma_frames_step(
                                bytes,
                                cursor.offset(),
                                (count - i) as nat,
                                views(items@),
                                (cursor.offset() - base) as nat,
                            );
                        }
                        match Frame::parse(cursor) {
                            Err(e) => {
                                return Err(e);
                            },
                            Ok(frame) => {
                                proof {
                                    lemma_views_push(items@, frame);
                                }
                                items.push(frame);
                            },
                        }
                        i += 1;
                    }
                    assert(views(items@) + Seq::<FrameView>::empty() =~= views(items@));
                    Ok(Frame::Array(items))
                },
            }
        } else {
            Err(FrameError::ProtocolError)
        }
    }
}

/// Two sequences of frames have the same views where they are as long as each
/// other and frame by frame the views are the same.
proof fn lemma_views_equal(a: Seq<Frame>, b: Seq<Frame>)
    ensures
        views(a) == views(b) <==> (a.len() == b.len() && forall|i: int|
            0 <= i < a.len() ==> (#[trigger] a[i])@ == b[i]@),
{
    lemma_views(a);
    lemma_views(b);
    if a.len() == b.len() && (forall|i: int| 0 <= i < a.len() ==> (#[trigger] a[i])@ == b[i]@) {
        assert(views(a) =~= views(b));
    }
    if views(a) == views(b) {
        assert forall|i: int| 0 <= i < a.len() implies (#[trigger] a[i])@ == b[i]@ by {
            assert(views(a)[i] == views(b)[i]);
        }
    }
}

impl PartialEq for Frame {
    /// Two frames are equal where they are the same frame on the wire.
    fn eq(&self, other: &Self) -> (r: bool)
        decreases self,
    {
        match (self, other) {
            (Frame::Simple(a), Frame::Simple(b)) => text_equal(a.as_str(), b.as_str()),
            (Frame::Error(a), Frame::Error(b)) => text_equal(a.as_str(), b.as_str()),
            (Frame::Integer(a), Frame::Integer(b)) => *a == *b,
            (Frame::Bulk(a), Frame::Bulk(b)) => bytes_equal(a.as_slice(), b.as_slice()),
            (Frame::Null, Frame::Null) => true,
            (Frame::Array(a), Frame::Array(b)) => {
                proof {
                    lemma_views_equal(a@, b@);
                }
                if a.len() != b.len() {
                    return false;
                }
                let mut i: usize = 0;
                while i < a.len()
                    invariant
                        i <= a@.len(),
                        a@.len() == b@.len(),
                        self is Array,
                        self->Array_0 == *a,
                        other is Array,
                        other->Array_0 == *b,
                        forall|j: int| 0 <= j < i ==> (#[trigger] a@[j])@ == b@[j]@,
                    decreases a@.len() - i,
                {
                    proof {
                        vstd::std_specs::vec::axiom_vec_decreases_to_view(*a);
                        vstd::seq::axiom_seq_index_decreases(a@, i as int);
                        assert(decreases_to!(*self => self->Array_0));
                    }
                    if !a[i].eq(&b[i]) {
                        proof {
                            lemma_views_equal(a@, b@);
                        }
                        return false;
                    }
                    i += 1;
                }
                proof {
                    lemma_views_equal(a@, b@);
                }
                true
            },
            _ => false,
        }
    }
}

impl PartialEqSpecImpl for Frame {
    open spec fn obeys_eq_spec() -> bool {
        true
    }

    open spec fn eq_spec(&self, other: &Self) -> bool {
        self@ == other@
    }
}

impl Eq for Frame {

}

/// Whether `frame` holds the text `text`: as a simple string, as an error,
/// or as a bulk string of the text's bytes.
pub open spec fn holds_text(frame: FrameView, text: Seq<char>) -> bool {
    match frame {
        FrameView::Simple(held) => held == text,
        FrameView::Error(held) => held == text,
        FrameView::Bulk(bytes) => bytes == encode_utf8(text),
        _ => false,
    }
}

impl PartialEq<&str> for Frame {
    fn eq(&self, other: &&str) -> (r: bool) {
        match self {
            Frame::Simple(v) => text_equal(v.as_str(), *other),
            Frame::Bulk(v) => bytes_equal(v.as_slice(), other.as_bytes()),
            Frame::Error(v) => text_equal(v.as_str(), *other),
            _ => false,
        }
    }
}

impl PartialEqSpecImpl<&str> for Frame {
    open spec fn obeys_eq_spec() -> bool {
        true
    }

    open spec fn eq_spec(&self, other: &&str) -> bool {
        holds_text(self@, other@)
    }
}

impl PartialEq<u64> for Frame {
    fn eq(&self, other: &u64) -> (r: bool) {
        match self {
            Frame::Integer(v) => *v == *other,
            _ => false,
        }
    }
}

impl PartialEqSpecImpl<u64> for Frame {
    open spec fn obeys_eq_spec() -> bool {
        true
    }

    open spec fn eq_spec(&self, other: &u64) -> bool {
        self@ == FrameView::Integer(*other)
    }
}

impl Clone for Frame {
    /// A copy that is the same frame on the wire.
    fn clone(&self) -> (copy: Self)
        ensures
            copy@ == self@,
        decreases self,
    {
        match self {
            Frame::Simple(text) => Frame::Simple(text.clone()),
            Frame::Error(text) => Frame::Error(text.clone()),
            Frame::Integer(value) => Frame::Integer(*value),
            Frame::Bulk(payload) => Frame::Bulk(slice_to_vec(payload.as_slice())),
            Frame::Null => Frame::Null,
            Frame::Array(items) => {
                let mut copies: Vec<Frame> = Vec::new();
                let mut i: usize = 0;
                while i < items.len()
                    invariant
                        i <= items@.len(),
                        self is Array,
                        self->Array_0 == *items,
                        copies@.len() == i,
                        forall|j: int| 0 <= j < i ==> (#[trigger] copies@[j])@ == items@[j]@,
                    decreases items@.len() - i,
                {
                    proof {
                        vstd::std_specs::vec::axiom_vec_decreases_to_view(*items);
                        vstd::seq::axiom_seq_index_decreases(items@, i as int);
                        assert(decreases_to!(*self => self->Array_0));
                    }
                    let copy = items[i].clone();
                    copies.push(copy);
                    i += 1;
                }
                proof {
                    lemma_views_equal(copies@, items@);
                }
                Frame::Array(copies)
            },
        }
    }
}

} // verus!
