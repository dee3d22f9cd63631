//! The commands that a client can send: how a frame is read as one of them,
//! and what each of them does.
use crate::commands::get::{parsed_get, Get};
use crate::commands::ping::{parsed_ping, Ping};
use crate::commands::publish::{parsed_publish, Publish};
use crate::commands::set::{parsed_set, SetValue};
use crate::commands::subscribe::{parsed_subscribe, Subscribe};
use crate::frame::{Frame, FrameView};
use crate::parse::{take_end, take_string, Parse, ParseError};
use crate::text::{lowercase, text_equal, to_lowercase};
use vstd::prelude::*;
use vstd::string::StringExecFns;

pub mod get;
pub mod ping;
pub mod publish;
pub mod set;
pub mod subscribe;

verus! {

/// Why a frame is no command.
#[derive(Clone, Copy, Debug, PartialEq, Eq, Structural)]
pub enum CommandError {
    /// An argument is missing, of the wrong kind, or one too many.
    Parse(ParseError),
    /// `SET` was given an option that is neither `EX` nor `PX`.
    UnsupportedOption,
    /// The lifetime given to `SET` is more milliseconds than 64 bits hold.
    InvalidExpiration,
    /// The name is that of no command.
    UnknownCommand,
}

/// What a client is told when its frame is no command.
pub open spec fn error_text(error: CommandError) -> Seq<char> {
    match error {
        CommandError::Parse(ParseError::EndOfStream) => "End Of Stream"@,
        CommandError::Parse(ParseError::ProtocolError) => "Protocol Error"@,
        CommandError::UnsupportedOption => "`SET` only supports an expiration option."@,
        CommandError::InvalidExpiration => "invalid expire time"@,
        CommandError::UnknownCommand => "unknown command"@,
    }
}

impl CommandError {
    /// The text that tells a client of the error.
    pub fn message(&self) -> (text: String)
        ensures
            text@ == error_text(*self),
    {
        match self {
            CommandError::Parse(ParseError::EndOfStream) => String::from_str("End Of Stream"),
            CommandError::Parse(ParseError::ProtocolError) => String::from_str("Protocol Error"),
            CommandError::UnsupportedOption => String::from_str(
                "`SET` only supports an expiration option.",
            ),
            CommandError::InvalidExpiration => String::from_str("invalid expire time"),
            CommandError::UnknownCommand => String::from_str("unknown command"),
        }
    }
}

/// A command as a value.
pub enum CommandView {
    Get { key: Seq<char> },
    Ping { payload: Option<Seq<u8>> },
    Publish { channel: Seq<char>, message: Seq<u8> },
    SetValue { key: Seq<char>, value: Seq<u8>, expiration: Option<u64> },
    Subscribe { channels: Seq<Seq<char>> },
}

/// The commands that the server knows.
pub enum SupportedCommand {
    Get(Get),
    Ping(Ping),
    Publish(Publish),
    SetValue(SetValue),
    Subscribe(Subscribe),
}

impl View for SupportedCommand {
    type V = CommandView;

    open spec fn view(&self) -> CommandView {
        match self {
            SupportedCommand::Get(command) => command@,
            SupportedCommand::Ping(command) => command@,
            SupportedCommand::Publish(command) => command@,
            SupportedCommand::SetValue(command) => command@,
            SupportedCommand::Subscribe(command) => command@,
        }
    }
}

/// The command that the parts after the name make, for a name in lower case,
/// and the parts that are left.
pub open spec fn arguments(name: Seq<char>, parts: Seq<FrameView>) -> (
    Result<CommandView, CommandError>,
    Seq<FrameView>,
) {
    if name == "ping"@ {
        parsed_ping(parts)
    } else if name == "get"@ {
        parsed_get(parts)
    } else if name == "set"@ {
        parsed_set(parts)
    } else if name == "publish"@ {
        parsed_publish(parts)
    } else if name == "subscribe"@ {
        parsed_subscribe(parts)
    } else {
        (Err(CommandError::UnknownCommand), parts)
    }
}

/// A command whose arguments were read stands only where no part is left over.
pub open spec fn finished(outcome: (Result<CommandView, CommandError>, Seq<FrameView>)) -> Result<
    CommandView,
    CommandError,
> {
    match outcome.0 {
        Err(e) => Err(e),
        Ok(command) => match take_end(outcome.1).0 {
            Ok(_) => Ok(command),
            Err(e) => Err(CommandError::Parse(e)),
        },
    }
}

/// The parts that are left once a command was read and the walk was ended.
pub open spec fn left_over(outcome: (Result<CommandView, CommandError>, Seq<FrameView>)) -> Seq<
    FrameView,
> {
    match outcome.0 {
        Err(_) => outcome.1,
        Ok(_) => take_end(outcome.1).1,
    }
}

/// The command that `frame` asks for: an array whose first part names the
/// command, in any mix of upper and lower case, and whose other parts are its
/// arguments.
pub open spec fn command_of(frame: FrameView) -> Result<CommandView, CommandError> {
    match frame {
        FrameView::Array(parts) => match take_string(parts) {
            (Err(e), _) => Err(CommandError::Parse(e)),
            (Ok(name), rest) => finished(arguments(lowercase(name), rest)),
        },
        _ => Err(CommandError::Parse(ParseError::ProtocolError)),
    }
}

/// Reads the arguments of the command named `name`, which is in lower case,
/// and ends the walk.
pub fn from_name(name: &str, parser: &mut Parse) -> (r: Result<SupportedCommand, CommandError>)
    ensures
        final(parser).remaining() == left_over(arguments(name@, old(parser).remaining())),
        match finished(arguments(name@, old(parser).remaining())) {
            Ok(command) => r is Ok && r->Ok_0@ == command,
            Err(e) => r is Err && r->Err_0 == e,
        },
{
    let command = if text_equal(name, Ping::representation()) {
        match Ping::parse_from_frame(parser) {
            Ok(command) => SupportedCommand::Ping(command),
            Err(e) => {
                return Err(e);
            },
        }
    } else if text_equal(name, Get::representation()) {
        match Get::parse_from_frame(parser) {
            Ok(command) => SupportedCommand::Get(command),
            Err(e) => {
                return Err(e);
            },
        }
    } else if text_equal(name, SetValue::representation()) {
        match SetValue::parse_from_frame(parser) {
            Ok(command) => SupportedCommand::SetValue(command),
            Err(e) => {
                return Err(e);
            },
        }
    } else if text_equal(name, Publish::representation()) {
        match Publish::parse_from_frame(parser) {
            Ok(command) => SupportedCommand::Publish(command),
            Err(e) => {
                return Err(e);
            },
        }
    } else if text_equal(name, Subscribe::representation()) {
        match Subscribe::parse_from_frame(parser) {
            Ok(command) => SupportedCommand::Subscribe(command),
            Err(e) => {
                return Err(e);
            },
        }
    } else {
        return Err(CommandError::UnknownCommand);
    };
    match parser.finish() {
        Ok(_) => Ok(command),
        Err(e) => Err(CommandError::Parse(e)),
    }
}

/// Reads `frame` as a command.
pub fn from_frame(frame: Frame) -> (r: Result<SupportedCommand, CommandError>)
    ensures
        match command_of(frame@) {
            Ok(command) => r is Ok && r->Ok_0@ == command,
            Err(e) => r is Err && r->Err_0 == e,
        },
{
    let mut parser = match Parse::new(frame) {
        Ok(parser) => parser,
        Err(e) => {
            return Err(CommandError::Parse(e));
        },
    };
    let name = match parser.next_string() {
        Ok(name) => name,
        Err(e) => {
            return Err(CommandError::Parse(e));
        },
    };
    let cmd_rep = to_lowercase(name.as_str());
    from_name(cmd_rep.as_str(), &mut parser)
}

} // verus!
