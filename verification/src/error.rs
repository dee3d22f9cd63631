//! What can go wrong in the server as a whole.
use crate::connection::ConnectionError;
use crate::frame::FrameError;
use vstd::prelude::*;
use vstd::std_specs::convert::FromSpecImpl;

verus! {

/// The server could not be started; the text says why.
#[derive(Debug, PartialEq, Eq)]
pub struct StartupError(pub String);

/// What can go wrong while a client is served.
#[derive(Debug, PartialEq, Eq)]
pub enum DatabaseError {
    /// The connection was lost in the middle of a frame.
    ConnectionError(ConnectionError),
    /// A frame was malformed or of the wrong kind.
    FrameError(FrameError),
    /// Reading from or writing to the stream failed; the text is the system's.
    IoError(String),
    /// The server could not be started.
    StartupError(StartupError),
}

impl From<ConnectionError> for DatabaseError {
    fn from(error: ConnectionError) -> (wrapped: DatabaseError) {
        DatabaseError::ConnectionError(error)
    }
}

impl FromSpecImpl<ConnectionError> for DatabaseError {
    open spec fn obeys_from_spec() -> bool {
        true
    }

    open spec fn from_spec(error: ConnectionError) -> DatabaseError {
        DatabaseError::ConnectionError(error)
    }
}

impl From<FrameError> for DatabaseError {
    fn from(error: FrameError) -> (wrapped: DatabaseError) {
        DatabaseError::FrameError(error)
    }
}

impl FromSpecImpl<FrameError> for DatabaseError {
    open spec fn obeys_from_spec() -> bool {
        true
    }

    open spec fn from_spec(error: FrameError) -> DatabaseError {
        DatabaseError::FrameError(error)
    }
}

} // verus!
