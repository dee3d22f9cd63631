//! `SUBSCRIBE channel [channel ...]`: the messages of one or more channels.
use crate::commands::{CommandError, CommandView};
use crate::connection::Connection;
use crate::database::{subscribed, Database, State};
use crate::error::DatabaseError;
use crate::frame::{Frame, FrameError, FrameView};
use crate::parse::{string_of, take_string, Parse, ParseError};
use crate::text::text_equal;
use crate::wire::{wire_all, wire_bytes};
use tokio::sync::broadcast::Receiver;
use vstd::prelude::*;
use vstd::string::StrSliceExecFns;
use vstd::utf8::encode_utf8;

verus! {

/// The command that subscribes a client to channels.
#[derive(Debug)]
pub struct Subscribe {
    channels: Vec<String>,
}

/// The texts of `names`, in order.
pub open spec fn texts(names: Seq<String>) -> Seq<Seq<char>> {
    names.map_values(|name: String| name@)
}

impl View for Subscribe {
    type V = CommandView;

    open spec fn view(&self) -> CommandView {
        CommandView::Subscribe { channels: self.channel_names() }
    }
}

/// The names that the parts give, up to the end of the parts. A part that
/// is no text ends the reading with an error.
pub open spec fn parsed_names(parts: Seq<FrameView>) -> (
    Result<Seq<Seq<char>>, ParseError>,
    Seq<FrameView>,
)
    decreases parts.len(),
{
    if parts.len() == 0 {
        (Ok(Seq::empty()), parts)
    } else {
        match string_of(parts[0]) {
            Err(e) => (Err(e), parts.drop_first()),
            Ok(name) => match parsed_names(parts.drop_first()) {
                (Err(e), rest) => (Err(e), rest),
                (Ok(names), rest) => (Ok(seq![name] + names), rest),
            },
        }
    }
}

/// `SUBSCRIBE` takes the names of one or more channels.
pub open spec fn parsed_subscribe(parts: Seq<FrameView>) -> (
    Result<CommandView, CommandError>,
    Seq<FrameView>,
) {
    if parts.len() == 0 {
        (Err(CommandError::Parse(ParseError::EndOfStream)), parts)
    } else {
        match parsed_names(parts) {
            (Err(e), rest) => (Err(CommandError::Parse(e)), rest),
            (Ok(channels), rest) => (Ok(CommandView::Subscribe { channels }), rest),
        }
    }
}

/// The answer to a subscription: the word, the channel, and the number of
/// channels that the client is subscribed to.
pub open spec fn subscribe_reply(channel: Seq<char>, count: u64) -> FrameView {
    FrameView::Array(
        seq![
            FrameView::Bulk(encode_utf8("subscribe"@)),
            FrameView::Bulk(encode_utf8(channel)),
            FrameView::Integer(count),
        ],
    )
}

/// The frame that carries a message of a channel to a subscriber.
pub open spec fn message_frame(channel: Seq<char>, message: Seq<u8>) -> FrameView {
    FrameView::Array(
        seq![
            FrameView::Bulk(encode_utf8("message"@)),
            FrameView::Bulk(encode_utf8(channel)),
            FrameView::Bulk(message),
        ],
    )
}

/// What waiting on a channel came to.
#[derive(Debug)]
pub enum Received {
    /// A message arrived.
    Message(Vec<u8>),
    /// The subscriber was too slow and messages were dropped.
    Lagged,
    /// The channel has closed.
    Closed,
}

/// What to do about what a channel gave.
#[derive(Debug)]
pub enum Forward {
    /// Write this frame to the subscriber.
    Write(Frame),
    /// Do nothing and go on listening.
    Skip,
    /// Stop listening to this channel. The other channels go on.
    Drop,
}

/// The frame that asks for the messages of `channels`.
pub open spec fn subscribe_request(channels: Seq<Seq<char>>) -> FrameView {
    FrameView::Array(
        seq![FrameView::Bulk(encode_utf8("subscribe"@))] + channels.map_values(
            |name: Seq<char>| FrameView::Bulk(encode_utf8(name)),
        ),
    )
}

/// The channels that a client is subscribed to after it subscribed to
/// `name`: a name that it has already stays once.
pub open spec fn with_channel(names: Seq<Seq<char>>, name: Seq<char>) -> Seq<Seq<char>> {
    if names.contains(name) {
        names
    } else {
        names.push(name)
    }
}

/// The names of the channels that `subs` holds receivers for.
pub open spec fn held(subs: Seq<(String, Receiver<Vec<u8>>)>) -> Seq<Seq<char>> {
    subs.map_values(|sub: (String, Receiver<Vec<u8>>)| sub.0@)
}

/// The channels that a client is subscribed to after it subscribed to the
/// first `n` of `channels`, having been subscribed to `names` before.
pub open spec fn with_channels(names: Seq<Seq<char>>, channels: Seq<Seq<char>>, n: nat) -> Seq<
    Seq<char>,
>
    decreases n,
{
    if n == 0 {
        names
    } else {
        with_channel(with_channels(names, channels, (n - 1) as nat), channels[n - 1])
    }
}

/// The answers to the subscriptions to the first `n` of `channels`.
pub open spec fn subscribe_replies(names: Seq<Seq<char>>, channels: Seq<Seq<char>>, n: nat) -> Seq<
    FrameView,
>
    decreases n,
{
    if n == 0 {
        Seq::empty()
    } else {
        subscribe_replies(names, channels, (n - 1) as nat).push(
            subscribe_reply(channels[n - 1], with_channels(names, channels, n).len() as u64),
        )
    }
}

/// The store after a client subscribed to the first `n` of `channels`.
pub open spec fn subscribed_all(state: State, channels: Seq<Seq<char>>, n: nat) -> State
    decreases n,
{
    if n == 0 {
        state
    } else {
        subscribed(subscribed_all(state, channels, (n - 1) as nat), channels[n - 1])
    }
}

impl Subscribe {
    /// The names of the channels, in the order in which they were given.
    pub closed spec fn channel_names(&self) -> Seq<Seq<char>> {
        texts(self.channels@)
    }

    /// A command that subscribes to `channels`, in their order.
    pub fn new(channels: Vec<String>) -> (command: Self)
        ensures
            command@ == (CommandView::Subscribe { channels: texts(channels@) }),
    {
        Subscribe { channels }
    }

    /// The name of the command on the wire, in lower case.
    pub fn representation() -> (name: &'static str)
        ensures
            name@ == "subscribe"@,
    {
        "subscribe"
    }

    /// Reads the names of the channels from the parts that are left. There has
    /// to be one at least.
    pub fn parse_from_frame(parser: &mut Parse) -> (r: Result<Self, CommandError>)
        ensures
            final(parser).remaining() == parsed_subscribe(old(parser).remaining()).1,
            match parsed_subscribe(old(parser).remaining()).0 {
                Ok(command) => r is Ok && r->Ok_0@ == command,
                Err(e) => r is Err && r->Err_0 == e,
            },
    {
        let ghost parts = parser.remaining();
        let first = match parser.next_string() {
            Ok(name) => name,
            Err(e) => {
                return Err(CommandError::Parse(e));
            },
        };
        let mut channels: Vec<String> = Vec::new();
        channels.push(first);
        assert(texts(channels@) =~= seq![string_of(parts[0])->Ok_0]);
        assert(seq![string_of(parts[0])->Ok_0] + Seq::<Seq<char>>::empty() =~= seq![
            string_of(parts[0])->Ok_0,
        ]);
        loop
            invariant
                parts.len() > 0,
                parts == old(parser).remaining(),
                channels@.len() > 0,
                match parsed_names(parser.remaining()) {
                    (Err(e), rest) => parsed_names(parts) == (
                        Err::<Seq<Seq<char>>, ParseError>(e),
                        rest,
                    ),
                    (Ok(names), rest) => parsed_names(parts) == (
                        Ok::<Seq<Seq<char>>, ParseError>(texts(channels@) + names),
                        rest,
                    ),
                },
            decreases parser.remaining().len(),
        {
            let ghost before = parser.remaining();
            let ghost sofar = texts(channels@);
            match parser.next_string() {
                Ok(name) => {
                    channels.push(name);
                    proof {
                        let rest = parsed_names(before.drop_first());
                        assert(texts(channels@) =~= sofar.push(name@));
                        if rest.0 is Ok {
                            assert(sofar + (seq![name@] + rest.0->Ok_0) =~= sofar.push(name@)
                                + rest.0->Ok_0);
                        }
                    }
                },
                Err(ParseError::EndOfStream) => {
                    assert(sofar + Seq::<Seq<char>>::empty() =~= sofar);
                    return Ok(Subscribe { channels });
                },
                Err(e) => {
                    return Err(CommandError::Parse(e));
                },
            }
        }
    }

    /// The answer to a subscription to `channel_name` that made `num`
    /// subscriptions in all.
    pub fn assemble_subscribe_response(channel_name: String, num: u64) -> (r: Result<
        Frame,
        FrameError,
    >)
        ensures
            r is Ok && r->Ok_0@ == subscribe_reply(channel_name@, num),
    {
        let mut frame = Frame::Array(Vec::new());
        proof {
            crate::frame::lemma_views(Seq::<Frame>::empty());
            assert(frame@->Array_0 =~= Seq::<FrameView>::empty());
        }
        match frame.push_bulk(Self::representation().as_bytes_vec()) {
            Err(e) => {
                return Err(e);
            },
            Ok(_) => {},
        }
        match frame.push_bulk(channel_name.as_str().as_bytes_vec()) {
            Err(e) => {
                return Err(e);
            },
            Ok(_) => {},
        }
        match frame.push_int(num) {
            Err(e) => {
                return Err(e);
            },
            Ok(_) => {},
        }
        assert(frame@->Array_0 =~= subscribe_reply(channel_name@, num)->Array_0);
        Ok(frame)
    }

    /// The frame that carries `message` of `channel_name` to a subscriber.
    pub fn assemble_message(channel_name: String, message: Vec<u8>) -> (r: Result<
        Frame,
        FrameError,
    >)
        ensures
            r is Ok && r->Ok_0@ == message_frame(channel_name@, message@),
    {
        let mut frame = Frame::Array(Vec::new());
        proof {
            crate::frame::lemma_views(Seq::<Frame>::empty());
            assert(frame@->Array_0 =~= Seq::<FrameView>::empty());
        }
        match frame.push_bulk("message".as_bytes_vec()) {
            Err(e) => {
                return Err(e);
            },
            Ok(_) => {},
        }
        match frame.push_bulk(channel_name.as_str().as_bytes_vec()) {
            Err(e) => {
                return Err(e);
            },
            Ok(_) => {},
        }
        match frame.push_bulk(message) {
            Err(e) => {
                return Err(e);
            },
            Ok(_) => {},
        }
        assert(frame@->Array_0 =~= message_frame(channel_name@, message@)->Array_0);
        Ok(frame)
    }

    /// Decides what to do about what the channel `channel` gave: a message
    /// goes to the subscriber as a frame, lost messages are passed over, and
    /// a closed channel is no longer listened to.
    pub fn on_received(channel: String, event: Received) -> (step: Forward)
        ensures
            match event {
                Received::Message(message) => step is Write && step->Write_0@ == message_frame(
                    channel@,
                    message@,
                ),
                Received::Lagged => step is Skip,
                Received::Closed => step is Drop,
            },
    {
        match event {
            Received::Message(message) => match Self::assemble_message(channel, message) {
                Ok(frame) => Forward::Write(frame),
                Err(_) => Forward::Drop,
            },
            Received::Lagged => Forward::Skip,
            Received::Closed => Forward::Drop,
        }
    }

    /// Subscribes to `channel_name`, keeps the receiver in `subs` under the
    /// channel's name, and writes the answer. A receiver that was kept under
    /// that name before is replaced. A store that is no longer active gives
    /// no receiver, and then nothing is kept or written.
    pub fn subscribe_to_channel(
        channel_name: String,
        subs: &mut Vec<(String, Receiver<Vec<u8>>)>,
        db: &mut Database,
        conn: &mut Connection,
    ) -> (r: Result<(), DatabaseError>)
        requires
            old(db).wf(),
        ensures
            r is Ok,
            final(db).wf(),
            final(db)@ == subscribed(old(db)@, channel_name@),
            final(conn).received() == old(conn).received(),
            old(db)@.active ==> held(final(subs)@) == with_channel(
                held(old(subs)@),
                channel_name@,
            ) && final(conn).written() == old(conn).written() + wire_bytes(
                subscribe_reply(channel_name@, final(subs)@.len() as u64),
            ),
            !old(db)@.active ==> held(final(subs)@) == held(old(subs)@) && final(conn).written()
                == old(conn).written(),
    {
        let rx = match db.subscribe(channel_name.clone()) {
            Some(rx) => rx,
            None => {
                assert(conn.written() + Seq::<u8>::empty() =~= conn.written());
                return Ok(());
            },
        };
        let ghost before = subs@;
        let ghost name = channel_name@;
        let mut i: usize = 0;
        let mut found = false;
        while i < subs.len()
            invariant_except_break
                !found,
                forall|j: int| 0 <= j < i ==> (#[trigger] subs@[j]).0@ != name,
            invariant
                i <= subs@.len(),
                subs@ == before,
                name == channel_name@,
            ensures
                subs@ == before,
                i <= subs@.len(),
                found ==> i < subs@.len() && subs@[i as int].0@ == name,
                !found ==> forall|j: int| 0 <= j < subs@.len() ==> (#[trigger] subs@[j]).0@ != name,
            decreases subs@.len() - i,
        {
            if text_equal(subs[i].0.as_str(), channel_name.as_str()) {
                found = true;
                break;
            }
            i += 1;
        }
        if found {
            let old_sub = subs.remove(i);
            subs.insert(i, (channel_name.clone(), rx));
            proof {
                assert(held(before)[i as int] == name);
                assert(held(before).contains(name));
                assert(held(subs@) =~= held(before));
            }
        } else {
            subs.push((channel_name.clone(), rx));
            proof {
                if held(before).contains(name) {
                    let j = choose|j: int| 0 <= j < held(before).len() && held(before)[j] == name;
                    assert(before[j].0@ == name);
                }
                assert(held(subs@) =~= held(before).push(name));
            }
        }
        let frame = match Self::assemble_subscribe_response(channel_name, subs.len() as u64) {
            Ok(frame) => frame,
            Err(e) => {
                return Err(DatabaseError::FrameError(e));
            },
        };
        conn.write_frame(&frame)
    }

    /// Subscribes to each of the channels in turn and writes the answers.
    /// The receivers are handed back: the caller waits on them for messages
    /// and writes each as `assemble_message` makes it.
    pub fn execute(self, db: &mut Database, conn: &mut Connection) -> (r: Result<
        Vec<(String, Receiver<Vec<u8>>)>,
        DatabaseError,
    >)
        requires
            old(db).wf(),
        ensures
            r is Ok,
            final(db).wf(),
            final(db)@ == subscribed_all(
                old(db)@,
                self.channel_names(),
                self.channel_names().len(),
            ),
            final(conn).received() == old(conn).received(),
            old(db)@.active ==> held(r->Ok_0@) == with_channels(
                Seq::empty(),
                self.channel_names(),
                self.channel_names().len(),
            ) && final(conn).written() == old(conn).written() + wire_all(
                subscribe_replies(Seq::empty(), self.channel_names(), self.channel_names().len()),
            ),
            !old(db)@.active ==> r->Ok_0@.len() == 0 && final(conn).written() == old(conn).written(),
    {
        let mut subs: Vec<(String, Receiver<Vec<u8>>)> = Vec::new();
        let ghost names = self.channel_names();
        let ghost none = Seq::<Seq<char>>::empty();
        let mut i: usize = 0;
        assert(held(subs@) =~= none);
        assert(conn.written() + wire_all(Seq::<FrameView>::empty()) =~= conn.written());
        while i < self.channels.len()
            invariant
                i <= self.channels@.len(),
                names == texts(self.channels@),
                names == self.channel_names(),
                db.wf(),
                db@ == subscribed_all(old(db)@, names, i as nat),
                db@.active == old(db)@.active,
                conn.received() == old(conn).received(),
                old(db)@.active ==> held(subs@) == with_channels(none, names, i as nat)
                    && conn.written() == old(conn).written() + wire_all(
                    subscribe_replies(none, names, i as nat),
                ),
                !old(db)@.active ==> subs@.len() == 0 && conn.written() == old(conn).written(),
            decreases self.channels@.len() - i,
        {
            let ghost written_before = conn.written();
            let ghost replies = subscribe_replies(none, names, i as nat);
            let name = self.channels[i].clone();
            assert(name@ == names[i as int]);
            let ghost held_before = held(subs@);
            match Self::subscribe_to_channel(name, &mut subs, db, conn) {
                Ok(_) => {},
                Err(e) => {
                    return Err(e);
                },
            }
            proof {
                if old(db)@.active {
                    assert(held(subs@).len() == subs@.len());
                    let reply = subscribe_reply(names[i as int], subs@.len() as u64);
                    crate::connection::lemma_wire_all_push(replies, reply);
                    assert(old(conn).written() + wire_all(replies) + wire_bytes(reply) =~= old(conn).written() + (wire_all(replies) + wire_bytes(reply)));
                } else {
                    assert(held(subs@).len() == subs@.len());
                    assert(held_before.len() == 0);
                }
            }
            i += 1;
        }
        Ok(subs)
    }

    /// The frame that asks for this command.
    pub fn try_into(self) -> (r: Result<Frame, FrameError>)
        ensures
            r is Ok && r->Ok_0@ == subscribe_request(self.channel_names()),
    {
        let mut frame = Frame::Array(Vec::new());
        proof {
            crate::frame::lemma_views(Seq::<Frame>::empty());
            assert(frame@->Array_0 =~= Seq::<FrameView>::empty());
        }
        match frame.push_bulk(Self::representation().as_bytes_vec()) {
            Err(e) => {
                return Err(e);
            },
            Ok(_) => {},
        }
        let ghost names = self.channel_names();
        let ghost head = seq![FrameView::Bulk(encode_utf8("subscribe"@))];
        let mut i: usize = 0;
        assert(frame@->Array_0 =~= head);
        while i < self.channels.len()
            invariant
                i <= self.channels@.len(),
                names == texts(self.channels@),
                frame@ is Array,
                frame@->Array_0 == head + names.take(i as int).map_values(
                    |name: Seq<char>| FrameView::Bulk(encode_utf8(name)),
                ),
            decreases self.channels@.len() - i,
        {
            let ghost before = frame@->Array_0;
            match frame.push_bulk(self.channels[i].as_str().as_bytes_vec()) {
                Err(e) => {
                    return Err(e);
                },
                Ok(_) => {},
            }
            assert(frame@->Array_0 =~= head + names.take(i + 1).map_values(
                |name: Seq<char>| FrameView::Bulk(encode_utf8(name)),
            ));
            i += 1;
        }
        assert(names.take(i as int) =~= names);
        Ok(frame)
    }
}

} // verus!
