//! What the server does with one frame of a client: read it as a command,
//! carry the command out, and write the answer.
use crate::commands::get::get_reply;
use crate::commands::ping::ping_reply;
use crate::commands::publish::publish_reply_written;
use crate::commands::set::{in_time, set_reply};
use crate::commands::subscribe::{held, subscribe_replies, subscribed_all, with_channels};
use crate::commands::{command_of, error_text, from_frame, CommandView, SupportedCommand};
use crate::connection::Connection;
use crate::database::{read, written, Database, State};
use crate::frame::{Frame, FrameView};
use crate::wire::{wire_all, wire_bytes};
use tokio::sync::broadcast::Receiver;
use vstd::prelude::*;

verus! {

/// How a frame was dealt with.
pub enum Served {
    /// The answer has been written and nothing more is to do.
    Answered,
    /// The client subscribed. The answers have been written, and these are
    /// the receivers of its channels, each with the channel's name.
    Subscribed(Vec<(String, Receiver<Vec<u8>>)>),
}

/// What carrying out `command` at `now` makes of the store `before` and of
/// what was written so far, `sent`: the store after it, what is written after
/// it, and how the frame was dealt with.
pub open spec fn carried_out(
    command: CommandView,
    before: State,
    sent: Seq<u8>,
    now: u64,
    after: State,
    written_after: Seq<u8>,
    served: Served,
) -> bool {
    match command {
        CommandView::Get { key } => after == before && served is Answered && written_after == sent
            + wire_bytes(get_reply(read(before, key))),
        CommandView::Ping { payload } => after == before && served is Answered && written_after
            == sent + wire_bytes(ping_reply(payload)),
        CommandView::SetValue { key, value, expiration } => served is Answered && after == (if in_time(
            expiration,
            now,
        ) {
            written(before, key, value, expiration, now)
        } else {
            before
        }) && written_after == sent + wire_bytes(set_reply(value, expiration, now)),
        CommandView::Publish { channel, message } => after == before && served is Answered
            && exists|count: u64| #[trigger]
            publish_reply_written(sent, written_after, count) && (!before.active
                || !before.topics.contains(channel) ==> count == 0),
        CommandView::Subscribe { channels } => after == subscribed_all(
            before,
            channels,
            channels.len(),
        ) && served is Subscribed && if before.active {
            held(served->Subscribed_0@) == with_channels(Seq::empty(), channels, channels.len())
                && written_after == sent + wire_all(
                subscribe_replies(Seq::empty(), channels, channels.len()),
            )
        } else {
            served->Subscribed_0@.len() == 0 && written_after == sent
        },
    }
}

/// Deals with one frame of a client. A frame that is a command is carried
/// out and answered. Any other frame leaves the store as it was and is
/// answered with an error frame that tells what was wrong with it.
pub fn handle(frame: Frame, db: &mut Database, conn: &mut Connection, now: u64) -> (served: Served)
    requires
        old(db).wf(),
    ensures
        final(db).wf(),
        final(conn).received() == old(conn).received(),
        match command_of(frame@) {
            Ok(command) => carried_out(
                command,
                old(db)@,
                old(conn).written(),
                now,
                final(db)@,
                final(conn).written(),
                served,
            ),
            Err(e) => served is Answered && final(db)@ == old(db)@ && final(conn).written() == old(conn).written() + wire_bytes(FrameView::Error(error_text(e))),
        },
{
    match from_frame(frame) {
        Err(e) => {
            let res = Frame::Error(e.message());
            let _ = conn.write_frame(&res);
            Served::Answered
        },
        Ok(SupportedCommand::Get(command)) => {
            let _ = command.execute(db, conn);
            Served::Answered
        },
        Ok(SupportedCommand::Ping(command)) => {
            let _ = command.execute(conn);
            Served::Answered
        },
        Ok(SupportedCommand::SetValue(command)) => {
            let _ = command.execute(db, conn, now);
            Served::Answered
        },
        Ok(SupportedCommand::Publish(command)) => {
            let _ = command.execute(db, conn);
            Served::Answered
        },
        Ok(SupportedCommand::Subscribe(command)) => {
            match command.execute(db, conn) {
                Ok(subs) => Served::Subscribed(subs),
                Err(_) => Served::Answered,
            }
        },
    }
}

} // verus!
