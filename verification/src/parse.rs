//! Walking through an array frame, one part at a time, and reading each part
//! as what a command needs: text, bytes or a number.
use crate::frame::{lemma_views, views, Frame, FrameView};
use crate::text::{decimal_prefix, parse_decimal, utf8_text};
use vstd::prelude::*;
use vstd::slice::slice_to_vec;
use vstd::string::StrSliceExecFns;
use vstd::utf8::{decode_utf8, encode_utf8, encode_utf8_decode_utf8, valid_utf8};

verus! {

/// Why a part of a command could not be read.
#[derive(Clone, Copy, Debug, PartialEq, Eq, Structural)]
pub enum ParseError {
    /// Nothing is left to read. A command takes this as "the argument is not there".
    EndOfStream,
    /// The part is not what was asked for, or parts are left over.
    ProtocolError,
}

/// The text that a part stands for: a simple string as it is, a bulk string
/// if it is UTF-8.
pub open spec fn string_of(part: FrameView) -> Result<Seq<char>, ParseError> {
    match part {
        FrameView::Simple(text) => Ok(text),
        FrameView::Bulk(bytes) => if valid_utf8(bytes) {
            Ok(decode_utf8(bytes))
        } else {
            Err(ParseError::ProtocolError)
        },
        _ => Err(ParseError::ProtocolError),
    }
}

/// The bytes that a part stands for: those of a bulk string, or the encoding
/// of a simple string.
pub open spec fn bytes_of(part: FrameView) -> Result<Seq<u8>, ParseError> {
    match part {
        FrameView::Simple(text) => Ok(encode_utf8(text)),
        FrameView::Bulk(bytes) => Ok(bytes),
        _ => Err(ParseError::ProtocolError),
    }
}

/// A number read from decimal digits, or the error for bytes that start with none.
pub open spec fn decimal_of(parsed: Option<u64>) -> Result<u64, ParseError> {
    match parsed {
        Some(value) => Ok(value),
        None => Err(ParseError::ProtocolError),
    }
}

/// The number that a part stands for: an integer as it is, a simple or bulk
/// string by its decimal digits.
pub open spec fn int_of(part: FrameView) -> Result<u64, ParseError> {
    match part {
        FrameView::Integer(value) => Ok(value),
        FrameView::Simple(text) => decimal_of(decimal_prefix(encode_utf8(text))),
        FrameView::Bulk(bytes) => decimal_of(decimal_prefix(bytes)),
        _ => Err(ParseError::ProtocolError),
    }
}

/// Reading the next of `parts` as text: the outcome, and the parts that are left.
pub open spec fn take_string(parts: Seq<FrameView>) -> (Result<Seq<char>, ParseError>, Seq<FrameView>) {
    if parts.len() == 0 {
        (Err(ParseError::EndOfStream), parts)
    } else {
        (string_of(parts[0]), parts.drop_first())
    }
}

/// Reading the next of `parts` as bytes: the outcome, and the parts that are left.
pub open spec fn take_bytes(parts: Seq<FrameView>) -> (Result<Seq<u8>, ParseError>, Seq<FrameView>) {
    if parts.len() == 0 {
        (Err(ParseError::EndOfStream), parts)
    } else {
        (bytes_of(parts[0]), parts.drop_first())
    }
}

/// Reading the next of `parts` as a number: the outcome, and the parts that are left.
pub open spec fn take_int(parts: Seq<FrameView>) -> (Result<u64, ParseError>, Seq<FrameView>) {
    if parts.len() == 0 {
        (Err(ParseError::EndOfStream), parts)
    } else {
        (int_of(parts[0]), parts.drop_first())
    }
}

/// Ending the walk through `parts`: the outcome, and the parts that are left.
pub open spec fn take_end(parts: Seq<FrameView>) -> (Result<(), ParseError>, Seq<FrameView>) {
    if parts.len() == 0 {
        (Ok(()), parts)
    } else {
        (Err(ParseError::ProtocolError), parts.drop_first())
    }
}

/// What the digits of a part came to, as the result of reading a number.
pub fn decimal_result(parsed: Option<u64>) -> (r: Result<u64, ParseError>)
    ensures
        r == decimal_of(parsed),
{
    match parsed {
        Some(value) => Ok(value),
        None => Err(ParseError::ProtocolError),
    }
}

/// The parts of an array frame that are still to be read.
#[derive(Debug)]
pub struct Parse {
    /// The parts in reverse, so that the next one is the last.
    parts: Vec<Frame>,
}

impl Parse {
    /// The parts that are left, the next one first.
    pub closed spec fn remaining(&self) -> Seq<FrameView> {
        Seq::new(self.parts@.len(), |i: int| self.parts@[self.parts@.len() - 1 - i]@)
    }

    /// Starts a walk through the parts of an array. Any other frame is refused.
    pub fn new(frame: Frame) -> (r: Result<Self, ParseError>)
        ensures
            match frame@ {
                FrameView::Array(items) => r is Ok && r->Ok_0.remaining() == items,
                _ => r is Err && r->Err_0 == ParseError::ProtocolError,
            },
    {
        match frame {
            Frame::Array(items) => {
                let mut items = items;
                let ghost all = items@;
                let mut parts: Vec<Frame> = Vec::new();
                while items.len() > 0
                    invariant
                        items@.len() + parts@.len() == all.len(),
                        items@ == all.take(items@.len() as int),
                        forall|j: int|
                            0 <= j < parts@.len() ==> parts@[j] == all[all.len() - 1 - j],
                    decreases items@.len(),
                {
                    let part = items.pop().unwrap();
                    parts.push(part);
                }
                let walker = Parse { parts };
                proof {
                    lemma_views(all);
                    assert(walker.remaining() =~= views(all));
                }
                Ok(walker)
            },
            _ => Err(ParseError::ProtocolError),
        }
    }

    /// The next part, or `EndOfStream` where none is left.
    pub fn next(&mut self) -> (r: Result<Frame, ParseError>)
        ensures
            old(self).remaining().len() == 0 ==> (r is Err && r->Err_0 == ParseError::EndOfStream
                && final(self).remaining() == old(self).remaining()),
            old(self).remaining().len() > 0 ==> (r is Ok && r->Ok_0@ == old(self).remaining()[0]
                && final(self).remaining() == old(self).remaining().drop_first()),
    {
        match self.parts.pop() {
            None => Err(ParseError::EndOfStream),
            Some(part) => {
                assert(self.remaining() =~= old(self).remaining().drop_first());
                Ok(part)
            },
        }
    }

    /// The next part as text.
    pub fn next_string(&mut self) -> (r: Result<String, ParseError>)
        ensures
            final(self).remaining() == take_string(old(self).remaining()).1,
            match take_string(old(self).remaining()).0 {
                Ok(text) => r is Ok && r->Ok_0@ == text,
                Err(e) => r is Err && r->Err_0 == e,
            },
    {
        match self.next() {
            Err(e) => Err(e),
            Ok(Frame::Simple(text)) => Ok(text),
            Ok(Frame::Bulk(bytes)) => match utf8_text(bytes.as_slice()) {
                Some(text) => {
                    proof {
                        encode_utf8_decode_utf8(text@);
                    }
                    Ok(text.to_owned())
                },
                None => Err(ParseError::ProtocolError),
            },
            Ok(_) => Err(ParseError::ProtocolError),
        }
    }

    /// The next part as bytes.
    pub fn next_bytes(&mut self) -> (r: Result<Vec<u8>, ParseError>)
        ensures
            final(self).remaining() == take_bytes(old(self).remaining()).1,
            match take_bytes(old(self).remaining()).0 {
                Ok(bytes) => r is Ok && r->Ok_0@ == bytes,
                Err(e) => r is Err && r->Err_0 == e,
            },
    {
        match self.next() {
            Err(e) => Err(e),
            Ok(Frame::Simple(text)) => Ok(text.as_str().as_bytes_vec()),
            Ok(Frame::Bulk(bytes)) => Ok(bytes),
            Ok(_) => Err(ParseError::ProtocolError),
        }
    }

    /// The next part as a number.
    pub fn next_int(&mut self) -> (r: Result<u64, ParseError>)
        ensures
            final(self).remaining() == take_int(old(self).remaining()).1,
            r == take_int(old(self).remaining()).0,
    {
        match self.next() {
            Err(e) => Err(e),
            Ok(Frame::Integer(value)) => Ok(value),
            Ok(Frame::Simple(text)) => decimal_result(parse_decimal(text.as_str().as_bytes())),
            Ok(Frame::Bulk(bytes)) => decimal_result(parse_decimal(bytes.as_slice())),
            Ok(_) => Err(ParseError::ProtocolError),
        }
    }

    /// Ends the walk: it succeeds where nothing is left. A part that is left
    /// over is taken off and makes it fail.
    pub fn finish(&mut self) -> (r: Result<(), ParseError>)
        ensures
            final(self).remaining() == take_end(old(self).remaining()).1,
            r == take_end(old(self).remaining()).0,
    {
        match self.next() {
            Err(_) => Ok(()),
            Ok(_) => Err(ParseError::ProtocolError),
        }
    }
}

} // verus!
