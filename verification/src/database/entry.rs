//! What the store keeps under a key: a payload and, for some, the instant at
//! which it expires.
use vstd::prelude::*;
use vstd::slice::slice_to_vec;
use vstd::string::StringExecFns;

verus! {

/// An entry could not be built; the text says why.
#[derive(Debug, PartialEq, Eq)]
pub struct BuilderError(pub String);

/// The text of the error for an entry without a payload.
pub open spec fn empty_buffer_text() -> Seq<char> {
    "Buffer is empty"@
}

/// A payload and, for some, the instant at which it expires.
#[derive(Debug, PartialEq, Eq)]
pub struct Entry {
    buf: Vec<u8>,
    expiration: Option<u64>,
}

/// An entry as a value: the payload, and the instant of expiry in milliseconds.
pub struct EntryView {
    pub payload: Seq<u8>,
    pub expires_at: Option<u64>,
}

impl View for Entry {
    type V = EntryView;

    closed spec fn view(&self) -> EntryView {
        EntryView { payload: self.buf@, expires_at: self.expiration }
    }
}

/// What has been given to a builder so far.
pub struct BuilderView {
    pub payload: Option<Seq<u8>>,
    pub expires_at: Option<u64>,
}

/// A payload has been given and it is not empty.
pub open spec fn can_build(builder: BuilderView) -> bool {
    builder.payload is Some && builder.payload->Some_0.len() > 0
}

/// Collects what an entry is made of.
#[derive(Debug)]
pub struct Builder {
    buf: Option<Vec<u8>>,
    expiration: Option<u64>,
}

impl View for Builder {
    type V = BuilderView;

    closed spec fn view(&self) -> BuilderView {
        BuilderView {
            payload: match self.buf {
                Some(bytes) => Some(bytes@),
                None => None,
            },
            expires_at: self.expiration,
        }
    }
}

impl Entry {
    /// Whether the entry's instant of expiry lies before `now`. An entry
    /// without one never expires.
    pub fn has_expired(&self, now: u64) -> (expired: bool)
        ensures
            expired == (self@.expires_at matches Some(at) && at < now),
    {
        match self.expiration {
            Some(expiry) => expiry < now,
            None => false,
        }
    }

    /// A builder that has been given nothing yet.
    pub fn builder() -> (builder: Builder)
        ensures
            builder@ == (BuilderView { payload: None, expires_at: None }),
    {
        Builder::new()
    }

    /// A copy of the payload.
    pub fn payload(&self) -> (bytes: Vec<u8>)
        ensures
            bytes@ == self@.payload,
    {
        slice_to_vec(self.buf.as_slice())
    }

    /// The instant at which the entry expires, if it does.
    pub fn expiration(&self) -> (at: Option<u64>)
        ensures
            at == self@.expires_at,
    {
        self.expiration
    }
}

impl Builder {
    /// A builder that has been given nothing yet.
    pub fn new() -> (builder: Self)
        ensures
            builder@ == (BuilderView { payload: None, expires_at: None }),
    {
        Builder { buf: None, expiration: None }
    }

    /// Gives the payload.
    pub fn with_bytes(self, buffer: Vec<u8>) -> (builder: Self)
        ensures
            builder@ == (BuilderView { payload: Some(buffer@), expires_at: self@.expires_at }),
    {
        Builder { buf: Some(buffer), expiration: self.expiration }
    }

    /// Gives the instant of expiry, or takes it back.
    pub fn with_expiration(self, expiry: Option<u64>) -> (builder: Self)
        ensures
            builder@ == (BuilderView { payload: self@.payload, expires_at: expiry }),
    {
        Builder { buf: self.buf, expiration: expiry }
    }

    /// The entry with a copy of what was given. Without a payload, or with an
    /// empty one, there is no entry.
    pub fn build(self) -> (r: Result<Entry, BuilderError>)
        ensures
            can_build(self@) ==> (r is Ok && r->Ok_0@ == (EntryView {
                payload: self@.payload->Some_0,
                expires_at: self@.expires_at,
            })),
            !can_build(self@) ==> (r is Err && r->Err_0.0@ == empty_buffer_text()),
    {
        match &self.buf {
            Some(bytes) => {
                if bytes.len() == 0 {
                    Err(BuilderError(String::from_str("Buffer is empty")))
                } else {
                    Ok(Entry { buf: slice_to_vec(bytes.as_slice()), expiration: self.expiration })
                }
            },
            None => Err(BuilderError(String::from_str("Buffer is empty"))),
        }
    }

    /// The entry with what was given, which is used up. Without a payload, or
    /// with an empty one, there is no entry.
    pub fn build_consume(self) -> (r: Result<Entry, BuilderError>)
        ensures
            can_build(self@) ==> (r is Ok && r->Ok_0@ == (EntryView {
                payload: self@.payload->Some_0,
                expires_at: self@.expires_at,
            })),
            !can_build(self@) ==> (r is Err && r->Err_0.0@ == empty_buffer_text()),
    {
        match self.buf {
            Some(bytes) => {
                if bytes.len() == 0 {
                    Err(BuilderError(String::from_str("Buffer is empty")))
                } else {
                    Ok(Entry { buf: bytes, expiration: self.expiration })
                }
            },
            None => Err(BuilderError(String::from_str("Buffer is empty"))),
        }
    }
}

impl Default for Builder {
    fn default() -> (builder: Self)
        ensures
            builder@ == (BuilderView { payload: None, expires_at: None }),
    {
        Builder { buf: None, expiration: None }
    }
}

} // verus!
