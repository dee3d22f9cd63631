//! `PUBLISH channel message`: a message to the subscribers of a channel.
use crate::commands::{CommandError, CommandView};
use crate::connection::Connection;
use crate::database::Database;
use crate::error::DatabaseError;
use crate::frame::{Frame, FrameError, FrameView};
use crate::parse::{take_bytes, take_string, Parse};
use crate::wire::wire_bytes;
use vstd::prelude::*;
use vstd::string::StrSliceExecFns;
use vstd::utf8::encode_utf8;

verus! {

/// The command that sends a message to the subscribers of a channel.
#[derive(Debug)]
pub struct Publish {
    channel: String,
    message: Vec<u8>,
}

impl View for Publish {
    type V = CommandView;

    open spec fn view(&self) -> CommandView {
        CommandView::Publish { channel: self.channel_name(), message: self.message_bytes() }
    }
}

/// `PUBLISH` takes the name of the channel and the message.
pub open spec fn parsed_publish(parts: Seq<FrameView>) -> (
    Result<CommandView, CommandError>,
    Seq<FrameView>,
) {
    match take_string(parts) {
        (Err(e), rest) => (Err(CommandError::Parse(e)), rest),
        (Ok(channel), rest) => match take_bytes(rest) {
            (Err(e), last) => (Err(CommandError::Parse(e)), last),
            (Ok(message), last) => (Ok(CommandView::Publish { channel, message }), last),
        },
    }
}

/// `after` is `before` and then the answer to `PUBLISH` for `count` subscribers.
pub open spec fn publish_reply_written(before: Seq<u8>, after: Seq<u8>, count: u64) -> bool {
    after == before + wire_bytes(FrameView::Integer(count))
}

/// The frame that asks for a message to be published.
pub open spec fn publish_request(channel: Seq<char>, message: Seq<u8>) -> FrameView {
    FrameView::Array(
        seq![
            FrameView::Bulk(encode_utf8("publish"@)),
            FrameView::Bulk(encode_utf8(channel)),
            FrameView::Bulk(message),
        ],
    )
}

impl Publish {
    /// The name of the channel.
    pub closed spec fn channel_name(&self) -> Seq<char> {
        self.channel@
    }

    /// The message.
    pub closed spec fn message_bytes(&self) -> Seq<u8> {
        self.message@
    }

    /// A command that sends `message` to the subscribers of `channel`.
    pub fn new(channel: &str, message: Vec<u8>) -> (command: Self)
        ensures
            command@ == (CommandView::Publish { channel: channel@, message: message@ }),
    {
        Publish { channel: channel.to_owned(), message }
    }

    /// The name of the command on the wire, in lower case.
    pub fn representation() -> (name: &'static str)
        ensures
            name@ == "publish"@,
    {
        "publish"
    }

    /// Reads the command's arguments from the parts that are left.
    pub fn parse_from_frame(parser: &mut Parse) -> (r: Result<Self, CommandError>)
        ensures
            final(parser).remaining() == parsed_publish(old(parser).remaining()).1,
            match parsed_publish(old(parser).remaining()).0 {
                Ok(command) => r is Ok && r->Ok_0@ == command,
                Err(e) => r is Err && r->Err_0 == e,
            },
    {
        let channel = match parser.next_string() {
            Ok(channel) => channel,
            Err(e) => {
                return Err(CommandError::Parse(e));
            },
        };
        let message = match parser.next_bytes() {
            Ok(message) => message,
            Err(e) => {
                return Err(CommandError::Parse(e));
            },
        };
        Ok(Publish { channel, message })
    }

    /// Sends the message to the channel's subscribers and writes their
    /// number as the answer. For a channel that nobody has subscribed to the
    /// answer is zero.
    pub fn execute(self, db: &Database, conn: &mut Connection) -> (r: Result<(), DatabaseError>)
        requires
            db.wf(),
        ensures
            r is Ok,
            final(conn).received() == old(conn).received(),
            exists|count: u64| #[trigger]
                publish_reply_written(old(conn).written(), final(conn).written(), count) && (
                !db@.active || !db@.topics.contains(self.channel_name()) ==> count == 0),
    {
        let subs = db.publish(self.channel.as_str(), self.message);
        let res = Frame::Integer(subs as u64);
        let r = conn.write_frame(&res);
        assert(publish_reply_written(old(conn).written(), conn.written(), subs as u64));
        r
    }

    /// The frame that asks for this command.
    pub fn try_into(self) -> (r: Result<Frame, FrameError>)
        ensures
            r is Ok && r->Ok_0@ == publish_request(self.channel_name(), self.message_bytes()),
    {
        let mut frame = Frame::Array(Vec::new());
        proof {
            crate::frame::lemma_views(Seq::<Frame>::empty());
            assert(frame@->Array_0 =~= Seq::<FrameView>::empty());
        }
        match frame.push_bulk(Self::representation().as_bytes_vec()) {
            Err(e) => {
                return Err(e);
            },
            Ok(_) => {},
        }
        match frame.push_bulk(self.channel.as_str().as_bytes_vec()) {
            Err(e) => {
                return Err(e);
            },
            Ok(_) => {},
        }
        match frame.push_bulk(self.message) {
            Err(e) => {
                return Err(e);
            },
            Ok(_) => {},
        }
        assert(frame@->Array_0 =~= publish_request(
            self.channel_name(),
            self.message_bytes(),
        )->Array_0);
        Ok(frame)
    }
}

} // verus!
