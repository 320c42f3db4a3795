//! Error taxonomy of the relay. Connection-scoped errors are contained to
//! the connection they concern; only a listener's own bind or listen
//! failure is fatal to the process, and it carries the failing port.

use vstd::prelude::*;

verus! {

/// Everything that can go wrong inside the relay core.
#[derive(Debug, Clone, Copy, PartialEq, Eq, Structural)]
pub enum RelayError {
    /// The shutdown broadcast channel failed.
    BroadcastError,
    /// The listener socket could not bind or listen on this port; the one
    /// process-fatal class, surfaced to the operator.
    SocketBindError(u16),
    /// An `accept` on a listener socket failed; the loop backs off and retries.
    SocketAcceptError,
    /// The stream-identifier attribute could not be read from a freshly
    /// accepted socket; distinct from an identifier that is present but empty.
    AttributeReadFailed,
    /// The handshake carried an empty stream identifier.
    EmptyIdentifier,
    /// The validation cache holds a live verdict that this identifier is bad.
    InvalidStreamId,
    /// A live input is already registered under the identifier; the new
    /// connection is rejected and must be closed by the caller.
    DuplicateInput,
    /// An output missed its send budget too many frames in a row and is
    /// evicted; never fatal to the input pump or to other outputs.
    OutputUnreachable,
    /// Anything the other classes do not cover.
    GeneralError,
}

impl RelayError {
    /// The wording used for this error in operator-facing events.
    pub closed spec fn describe_spec(self) -> Seq<char> {
        match self {
            RelayError::BroadcastError => "broadcast channel error"@,
            RelayError::SocketBindError(_) => "failed to bind on port"@,
            RelayError::SocketAcceptError => "failed to accept connection"@,
            RelayError::AttributeReadFailed => "failed to read stream id"@,
            RelayError::EmptyIdentifier => "stream id missing"@,
            RelayError::InvalidStreamId => "invalid stream id"@,
            RelayError::DuplicateInput => "duplicate input stream"@,
            RelayError::OutputUnreachable => "output unreachable"@,
            RelayError::GeneralError => "general error"@,
        }
    }

    /// One fixed line per error class, for logging.
    pub fn describe(&self) -> (r: &'static str)
        ensures
            r@ == self.describe_spec(),
    {
        match self {
            RelayError::BroadcastError => "broadcast channel error",
            RelayError::SocketBindError(_) => "failed to bind on port",
            RelayError::SocketAcceptError => "failed to accept connection",
            RelayError::AttributeReadFailed => "failed to read stream id",
            RelayError::EmptyIdentifier => "stream id missing",
            RelayError::InvalidStreamId => "invalid stream id",
            RelayError::DuplicateInput => "duplicate input stream",
            RelayError::OutputUnreachable => "output unreachable",
            RelayError::GeneralError => "general error",
        }
    }

    /// Whether the error ends the process rather than one connection.
    pub fn is_fatal(&self) -> (r: bool)
        ensures
            r == (self is SocketBindError),
    {
        match self {
            RelayError::SocketBindError(_) => true,
            _ => false,
        }
    }
}

} // verus!
