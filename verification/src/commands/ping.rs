//! `PING [payload]`: a sign of life.
use crate::commands::{CommandError, CommandView};
use crate::connection::Connection;
use crate::error::DatabaseError;
use crate::frame::{Frame, FrameError, FrameView};
use crate::parse::{take_bytes, Parse, ParseError};
use crate::wire::wire_bytes;
use vstd::prelude::*;
use vstd::string::{StrSliceExecFns, StringExecFns};
use vstd::utf8::encode_utf8;

verus! {

/// The command that asks for a sign of life.
#[derive(Debug, Default)]
pub struct Ping {
    buffer: Option<Vec<u8>>,
}

impl View for Ping {
    type V = CommandView;

    open spec fn view(&self) -> CommandView {
        CommandView::Ping { payload: self.payload() }
    }
}

/// `PING` takes a payload or nothing.
pub open spec fn parsed_ping(parts: Seq<FrameView>) -> (
    Result<CommandView, CommandError>,
    Seq<FrameView>,
) {
    match take_bytes(parts) {
        (Ok(payload), rest) => (Ok(CommandView::Ping { payload: Some(payload) }), rest),
        (Err(ParseError::EndOfStream), rest) => (Ok(CommandView::Ping { payload: None }), rest),
        (Err(e), rest) => (Err(CommandError::Parse(e)), rest),
    }
}

/// The answer to `PING`: the payload as a bulk string, or `PONG` where none was sent.
pub open spec fn ping_reply(payload: Option<Seq<u8>>) -> FrameView {
    match payload {
        Some(bytes) => FrameView::Bulk(bytes),
        None => FrameView::Simple("PONG"@),
    }
}

/// The frame that asks for a sign of life.
pub open spec fn ping_request(payload: Option<Seq<u8>>) -> FrameView {
    match payload {
        Some(bytes) => FrameView::Array(
            seq![FrameView::Bulk(encode_utf8("ping"@)), FrameView::Bulk(bytes)],
        ),
        None => FrameView::Array(seq![FrameView::Bulk(encode_utf8("ping"@))]),
    }
}

impl Ping {
    /// The payload that is to come back.
    pub closed spec fn payload(&self) -> Option<Seq<u8>> {
        match self.buffer {
            Some(bytes) => Some(bytes@),
            None => None,
        }
    }

    /// A command that asks for `buffer` back, or for `PONG` where there is none.
    pub fn new(buffer: Option<Vec<u8>>) -> (command: Self)
        ensures
            command.payload() == match buffer {
                Some(bytes) => Some(bytes@),
                None => None,
            },
    {
        Ping { buffer }
    }

    /// The name of the command on the wire, in lower case.
    pub fn representation() -> (name: &'static str)
        ensures
            name@ == "ping"@,
    {
        "ping"
    }

    /// Reads the command's arguments from the parts that are left.
    pub fn parse_from_frame(parser: &mut Parse) -> (r: Result<Self, CommandError>)
        ensures
            final(parser).remaining() == parsed_ping(old(parser).remaining()).1,
            match parsed_ping(old(parser).remaining()).0 {
                Ok(command) => r is Ok && r->Ok_0@ == command,
                Err(e) => r is Err && r->Err_0 == e,
            },
    {
        match parser.next_bytes() {
            Ok(buffer) => Ok(Ping { buffer: Some(buffer) }),
            Err(ParseError::EndOfStream) => Ok(Ping { buffer: None }),
            Err(e) => Err(CommandError::Parse(e)),
        }
    }

    /// Writes the answer.
    pub fn execute(self, conn: &mut Connection) -> (r: Result<(), DatabaseError>)
        ensures
            r is Ok,
            final(conn).received() == old(conn).received(),
            final(conn).written() == old(conn).written() + wire_bytes(ping_reply(self.payload())),
    {
        let res = match self.buffer {
            Some(buffer) => Frame::Bulk(buffer),
            None => Frame::Simple(String::from_str("PONG")),
        };
        conn.write_frame(&res)
    }

    /// The frame that asks for this command.
    pub fn try_into(self) -> (r: Result<Frame, FrameError>)
        ensures
            r is Ok && r->Ok_0@ == ping_request(self.payload()),
    {
        let mut frame = Frame::Array(Vec::new());
        proof {
            crate::frame::lemma_views(Seq::<Frame>::empty());
            assert(frame@->Array_0 =~= Seq::<FrameView>::empty());
        }
        match frame.push_bulk(Self::representation().as_bytes_vec()) {
            Err(e) => {
                return Err(e);
            },
            Ok(_) => {},
        }
        if let Some(buffer) = self.buffer {
            match frame.push_bulk(buffer) {
                Err(e) => {
                    return Err(e);
                },
                Ok(_) => {},
            }
        }
        assert(frame@->Array_0 =~= ping_request(self.payload())->Array_0);
        Ok(frame)
    }
}

} // verus!
