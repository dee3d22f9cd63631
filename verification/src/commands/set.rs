//! `SET key value [EX seconds | PX milliseconds]`: a payload under a key,
//! for good or for a while.
use crate::commands::{CommandError, CommandView};
use crate::connection::Connection;
use crate::database::entry::empty_buffer_text;
use crate::database::{written, Database};
use crate::error::DatabaseError;
use crate::frame::{Frame, FrameError, FrameView};
use crate::parse::{take_bytes, take_int, take_string, Parse, ParseError};
use crate::text::{lowercase, text_equal, to_lowercase};
use crate::wire::wire_bytes;
use vstd::prelude::*;
use vstd::slice::slice_to_vec;
use vstd::string::{StrSliceExecFns, StringExecFns};
use vstd::utf8::encode_utf8;

verus! {

/// The command that writes a payload under a key.
#[derive(Debug)]
pub struct SetValue {
    key: String,
    value: Vec<u8>,
    /// The lifetime in milliseconds.
    expiration: Option<u64>,
}

impl View for SetValue {
    type V = CommandView;

    open spec fn view(&self) -> CommandView {
        CommandView::SetValue {
            key: self.key_text(),
            value: self.value_bytes(),
            expiration: self.lifetime(),
        }
    }
}

/// The lifetime in milliseconds that `amount` seconds are, where 64 bits hold it.
pub open spec fn seconds(amount: u64) -> Result<Option<u64>, CommandError> {
    if amount * 1000 <= u64::MAX {
        Ok(Some((amount * 1000) as u64))
    } else {
        Err(CommandError::InvalidExpiration)
    }
}

/// The lifetime that the option named `option`, in lower case, gives: `ex`
/// takes seconds, `px` milliseconds, and nothing else is an option.
pub open spec fn lifetime_option(option: Seq<char>, parts: Seq<FrameView>) -> (
    Result<Option<u64>, CommandError>,
    Seq<FrameView>,
) {
    if option == "ex"@ {
        match take_int(parts) {
            (Err(e), rest) => (Err(CommandError::Parse(e)), rest),
            (Ok(amount), rest) => (seconds(amount), rest),
        }
    } else if option == "px"@ {
        match take_int(parts) {
            (Err(e), rest) => (Err(CommandError::Parse(e)), rest),
            (Ok(amount), rest) => (Ok(Some(amount)), rest),
        }
    } else {
        (Err(CommandError::UnsupportedOption), parts)
    }
}

/// The lifetime that the parts after the value give: none where nothing
/// follows, else what the option says.
pub open spec fn parsed_lifetime(parts: Seq<FrameView>) -> (
    Result<Option<u64>, CommandError>,
    Seq<FrameView>,
) {
    match take_string(parts) {
        (Err(ParseError::EndOfStream), rest) => (Ok(None), rest),
        (Err(e), rest) => (Err(CommandError::Parse(e)), rest),
        (Ok(option), rest) => lifetime_option(lowercase(option), rest),
    }
}

/// `SET` takes the key, the value and, if wanted, a lifetime.
pub open spec fn parsed_set(parts: Seq<FrameView>) -> (
    Result<CommandView, CommandError>,
    Seq<FrameView>,
) {
    match take_string(parts) {
        (Err(e), rest) => (Err(CommandError::Parse(e)), rest),
        (Ok(key), rest) => match take_bytes(rest) {
            (Err(e), last) => (Err(CommandError::Parse(e)), last),
            (Ok(value), last) => match parsed_lifetime(last) {
                (Err(e), end) => (Err(e), end),
                (Ok(expiration), end) => (Ok(CommandView::SetValue { key, value, expiration }), end),
            },
        },
    }
}

/// The text of the answer to a lifetime that ends after the end of time.
pub open spec fn expire_time_text() -> Seq<char> {
    "invalid expire time"@
}

/// The instant `now` and the lifetime add up to an instant that 64 bits hold.
pub open spec fn in_time(expiration: Option<u64>, now: u64) -> bool {
    expiration matches Some(lifetime) ==> now + lifetime <= u64::MAX
}

/// The answer to `SET`: `OK`, or the reason why nothing was written.
pub open spec fn set_reply(value: Seq<u8>, expiration: Option<u64>, now: u64) -> FrameView {
    if !in_time(expiration, now) {
        FrameView::Error(expire_time_text())
    } else if value.len() == 0 {
        FrameView::Error(empty_buffer_text())
    } else {
        FrameView::Simple("OK"@)
    }
}

/// The frame that asks for a value to be written.
pub open spec fn set_request(key: Seq<char>, value: Seq<u8>, expiration: Option<u64>) -> FrameView {
    match expiration {
        Some(lifetime) => FrameView::Array(
            seq![
                FrameView::Bulk(encode_utf8("set"@)),
                FrameView::Bulk(encode_utf8(key)),
                FrameView::Bulk(value),
                FrameView::Bulk(encode_utf8("px"@)),
                FrameView::Integer(lifetime),
            ],
        ),
        None => FrameView::Array(
            seq![
                FrameView::Bulk(encode_utf8("set"@)),
                FrameView::Bulk(encode_utf8(key)),
                FrameView::Bulk(value),
            ],
        ),
    }
}

impl SetValue {
    /// The key.
    pub closed spec fn key_text(&self) -> Seq<char> {
        self.key@
    }

    /// The payload.
    pub closed spec fn value_bytes(&self) -> Seq<u8> {
        self.value@
    }

    /// The lifetime in milliseconds.
    pub closed spec fn lifetime(&self) -> Option<u64> {
        self.expiration
    }

    /// A command that writes `value` under `key`, for `expiration`
    /// milliseconds if that is given.
    pub fn new(key: &str, value: Vec<u8>, expiration: Option<u64>) -> (command: Self)
        ensures
            command@ == (CommandView::SetValue { key: key@, value: value@, expiration }),
    {
        SetValue { key: key.to_owned(), value, expiration }
    }

    /// The key.
    pub fn key(&self) -> (key: &str)
        ensures
            key@ == self.key_text(),
    {
        self.key.as_str()
    }

    /// The payload.
    pub fn value(&self) -> (value: &Vec<u8>)
        ensures
            value@ == self.value_bytes(),
    {
        &self.value
    }

    /// The lifetime in milliseconds, if the entry is to expire.
    pub fn expiration(&self) -> (expiration: Option<u64>)
        ensures
            expiration == self.lifetime(),
    {
        self.expiration
    }

    /// The name of the command on the wire, in lower case.
    pub fn representation() -> (name: &'static str)
        ensures
            name@ == "set"@,
    {
        "set"
    }

    /// Reads the amount that belongs to the option named `option`, which is
    /// in lower case.
    pub fn lifetime_from(option: &str, parser: &mut Parse) -> (r: Result<Option<u64>, CommandError>)
        ensures
            final(parser).remaining() == lifetime_option(option@, old(parser).remaining()).1,
            r == lifetime_option(option@, old(parser).remaining()).0,
    {
        if text_equal(option, "ex") {
            match parser.next_int() {
                Err(e) => Err(CommandError::Parse(e)),
                Ok(amount) => match amount.checked_mul(1000) {
                    Some(lifetime) => Ok(Some(lifetime)),
                    None => Err(CommandError::InvalidExpiration),
                },
            }
        } else if text_equal(option, "px") {
            match parser.next_int() {
                Err(e) => Err(CommandError::Parse(e)),
                Ok(amount) => Ok(Some(amount)),
            }
        } else {
            Err(CommandError::UnsupportedOption)
        }
    }

    /// Reads the command's arguments from the parts that are left.
    pub fn parse_from_frame(parser: &mut Parse) -> (r: Result<Self, CommandError>)
        ensures
            final(parser).remaining() == parsed_set(old(parser).remaining()).1,
            match parsed_set(old(parser).remaining()).0 {
                Ok(command) => r is Ok && r->Ok_0@ == command,
                Err(e) => r is Err && r->Err_0 == e,
            },
    {
        let key = match parser.next_string() {
            Ok(key) => key,
            Err(e) => {
                return Err(CommandError::Parse(e));
            },
        };
        let value = match parser.next_bytes() {
            Ok(value) => value,
            Err(e) => {
                return Err(CommandError::Parse(e));
            },
        };
        let expiration = match parser.next_string() {
            Ok(option) => {
                let option = to_lowercase(option.as_str());
                match SetValue::lifetime_from(option.as_str(), parser) {
                    Ok(expiration) => expiration,
                    Err(e) => {
                        return Err(e);
                    },
                }
            },
            Err(ParseError::EndOfStream) => None,
            Err(e) => {
                return Err(CommandError::Parse(e));
            },
        };
        Ok(SetValue { key, value, expiration })
    }

    /// Writes the value under the key and writes the answer. An empty value,
    /// and a lifetime that ends after the end of time, leave the store as it
    /// was and are answered with an error.
    pub fn execute(self, db: &mut Database, conn: &mut Connection, now: u64) -> (r: Result<
        (),
        DatabaseError,
    >)
        requires
            old(db).wf(),
        ensures
            r is Ok,
            final(db).wf(),
            final(db)@ == if in_time(self.lifetime(), now) {
                written(old(db)@, self.key_text(), self.value_bytes(), self.lifetime(), now)
            } else {
                old(db)@
            },
            final(conn).received() == old(conn).received(),
            final(conn).written() == old(conn).written() + wire_bytes(
                set_reply(self.value_bytes(), self.lifetime(), now),
            ),
    {
        let fits = match self.expiration {
            Some(lifetime) => now.checked_add(lifetime).is_some(),
            None => true,
        };
        let res = if !fits {
            Frame::Error(String::from_str("invalid expire time"))
        } else {
            match db.set(self.key, self.value, self.expiration, now) {
                Ok(_) => Frame::Simple(String::from_str("OK")),
                Err(e) => Frame::Error(e.0),
            }
        };
        conn.write_frame(&res)
    }

    /// The frame that asks for this command.
    pub fn try_into(self) -> (r: Result<Frame, FrameError>)
        ensures
            r is Ok && r->Ok_0@ == set_request(
                self.key_text(),
                self.value_bytes(),
                self.lifetime(),
            ),
    {
        let mut frame = Frame::Array(Vec::new());
        proof {
            crate::frame::lemma_views(Seq::<Frame>::empty());
            assert(frame@->Array_0 =~= Seq::<FrameView>::empty());
        }
        match frame.push_bulk(Self::representation().as_bytes_vec()) {
            Err(e) => {
                return Err(e);
            },
            Ok(_) => {},
        }
        match frame.push_bulk(self.key.as_str().as_bytes_vec()) {
            Err(e) => {
                return Err(e);
            },
            Ok(_) => {},
        }
        match frame.push_bulk(self.value) {
            Err(e) => {
                return Err(e);
            },
            Ok(_) => {},
        }
        if let Some(lifetime) = self.expiration {
            match frame.push_bulk(slice_to_vec("px".as_bytes())) {
                Err(e) => {
                    return Err(e);
                },
                Ok(_) => {},
            }
            match frame.push_int(lifetime) {
                Err(e) => {
                    return Err(e);
                },
                Ok(_) => {},
            }
        }
        assert(frame@->Array_0 =~= set_request(
            self.key_text(),
            self.value_bytes(),
            self.lifetime(),
        )->Array_0);
        Ok(frame)
    }
}

} // verus!
