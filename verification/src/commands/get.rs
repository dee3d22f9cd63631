//! `GET key`: the payload under a key.
use crate::commands::{CommandError, CommandView};
use crate::connection::Connection;
use crate::database::{read, Database};
use crate::error::DatabaseError;
use crate::frame::{Frame, FrameError, FrameView};
use crate::parse::{take_string, Parse};
use crate::wire::wire_bytes;
use vstd::prelude::*;
use vstd::string::{StrSliceExecFns, StringExecFns};
use vstd::utf8::encode_utf8;

verus! {

/// The command that reads the payload under a key.
#[derive(Debug)]
pub struct Get {
    key: String,
}

impl View for Get {
    type V = CommandView;

    open spec fn view(&self) -> CommandView {
        CommandView::Get { key: self.key_text() }
    }
}

/// `GET` takes one argument, the key.
pub open spec fn parsed_get(parts: Seq<FrameView>) -> (
    Result<CommandView, CommandError>,
    Seq<FrameView>,
) {
    match take_string(parts) {
        (Ok(key), rest) => (Ok(CommandView::Get { key }), rest),
        (Err(e), rest) => (Err(CommandError::Parse(e)), rest),
    }
}

/// The answer to `GET`: the payload as a bulk string, or the null frame
/// where the store shows nothing under the key.
pub open spec fn get_reply(payload: Option<Seq<u8>>) -> FrameView {
    match payload {
        Some(bytes) => FrameView::Bulk(bytes),
        None => FrameView::Null,
    }
}

/// The frame that asks for the payload under `key`.
pub open spec fn get_request(key: Seq<char>) -> FrameView {
    FrameView::Array(
        seq![FrameView::Bulk(encode_utf8("get"@)), FrameView::Bulk(encode_utf8(key))],
    )
}

impl Get {
    /// The key that is asked for.
    pub closed spec fn key_text(&self) -> Seq<char> {
        self.key@
    }

    /// A command that reads the payload under `key`.
    pub fn new(key: &str) -> (command: Self)
        ensures
            command@ == (CommandView::Get { key: key@ }),
    {
        Get { key: key.to_owned() }
    }

    /// The name of the command on the wire, in lower case.
    pub fn representation() -> (name: &'static str)
        ensures
            name@ == "get"@,
    {
        "get"
    }

    /// Reads the command's arguments from the parts that are left.
    pub fn parse_from_frame(parser: &mut Parse) -> (r: Result<Self, CommandError>)
        ensures
            final(parser).remaining() == parsed_get(old(parser).remaining()).1,
            match parsed_get(old(parser).remaining()).0 {
                Ok(command) => r is Ok && r->Ok_0@ == command,
                Err(e) => r is Err && r->Err_0 == e,
            },
    {
        match parser.next_string() {
            Ok(key) => Ok(Get { key }),
            Err(e) => Err(CommandError::Parse(e)),
        }
    }

    /// Reads the payload under the key and writes the answer.
    pub fn execute(self, db: &Database, conn: &mut Connection) -> (r: Result<(), DatabaseError>)
        requires
            db.wf(),
        ensures
            r is Ok,
            final(conn).received() == old(conn).received(),
            final(conn).written() == old(conn).written() + wire_bytes(
                get_reply(read(db@, self.key_text())),
            ),
    {
        let res = match db.get(self.key.as_str()) {
            Some(payload) => Frame::Bulk(payload),
            None => Frame::Null,
        };
        conn.write_frame(&res)
    }

    /// The frame that asks for this command.
    pub fn try_into(self) -> (r: Result<Frame, FrameError>)
        ensures
            r is Ok && r->Ok_0@ == get_request(self.key_text()),
    {
        let mut frame = Frame::Array(Vec::new());
        let ghost empty = frame@;
        assert(empty == FrameView::Array(Seq::<FrameView>::empty())) by {
            crate::frame::lemma_views(Seq::<Frame>::empty());
            assert(empty->Array_0 =~= Seq::<FrameView>::empty());
        }
        match frame.push_bulk(Self::representation().as_bytes_vec()) {
            Err(e) => {
                return Err(e);
            },
            Ok(_) => {},
        }
        match frame.push_bulk(self.key.as_str().as_bytes_vec()) {
            Err(e) => {
                return Err(e);
            },
            Ok(_) => {},
        }
        assert(frame@->Array_0 =~= get_request(self.key_text())->Array_0);
        Ok(frame)
    }
}

} // verus!
