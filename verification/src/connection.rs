//! One relayed connection, as the registry and the relay engine see it.
//!
//! The transport socket itself never enters this crate: a connection
//! carries an opaque handle that the surrounding process maps to its
//! socket, together with the validated identifier, the role and the time
//! the connection was accepted.

use vstd::prelude::*;

use crate::errors::RelayError;
use crate::stream_id::StreamId;

verus! {

/// Opaque handle under which the surrounding process keeps the socket of
/// a connection. Handles of live connections are distinct.
pub type SocketHandle = u64;

/// Which side of the relay a connection serves.
#[derive(Debug, Clone, Copy, PartialEq, Eq, Structural)]
pub enum ConnectionType {
    /// The session whose payload is read and fanned out.
    InputStream,
    /// A session the payload is forwarded to.
    OutputStream,
}

impl ConnectionType {
    /// The wording used for this role in operator-facing events.
    pub closed spec fn label_spec(self) -> Seq<char> {
        match self {
            ConnectionType::InputStream => "Input Stream"@,
            ConnectionType::OutputStream => "Output Stream"@,
        }
    }

    /// One fixed label per role, for logging.
    pub fn label(&self) -> (r: &'static str)
        ensures
            r@ == self.label_spec(),
    {
        match self {
            ConnectionType::InputStream => "Input Stream",
            ConnectionType::OutputStream => "Output Stream",
        }
    }
}

/// The ghost image of a connection.
pub struct ConnModel {
    pub socket: SocketHandle,
    pub connection_type: ConnectionType,
    pub stream_id: Seq<u8>,
    pub created_at_ms: u64,
}

/// One accepted session: its socket handle, role, validated identifier
/// and creation time. A connection is owned by the registry entry holding
/// it until removal; the relay engine only works on snapshots.
#[derive(Debug)]
pub struct StreamConnection {
    pub socket: SocketHandle,
    pub connection_type: ConnectionType,
    pub stream_id: StreamId,
    pub created_at_ms: u64,
}

impl View for StreamConnection {
    type V = ConnModel;

    open spec fn view(&self) -> ConnModel {
        ConnModel {
            socket: self.socket,
            connection_type: self.connection_type,
            stream_id: self.stream_id@,
            created_at_ms: self.created_at_ms,
        }
    }
}

impl StreamConnection {
    /// A connection always carries a validated, hence non-empty, identifier.
    pub open spec fn wf(&self) -> bool {
        self.stream_id.wf()
    }

    /// Wraps a freshly accepted socket whose identifier attribute was read
    /// as `raw_stream_id`. A missing attribute and an empty identifier are
    /// distinct failures; either one rejects only this connection, and the
    /// caller closes the socket.
    pub fn new(
        socket: SocketHandle,
        connection_type: ConnectionType,
        raw_stream_id: Option<Vec<u8>>,
        now_ms: u64,
    ) -> (r: Result<StreamConnection, RelayError>)
        ensures
            raw_stream_id is None ==> (r matches Err(e) && e == RelayError::AttributeReadFailed),
            raw_stream_id matches Some(b) ==> (if b@.len() == 0 {
                r matches Err(e) && e == RelayError::EmptyIdentifier
            } else {
                r matches Ok(c) && c@ == (ConnModel {
                    socket: socket,
                    connection_type: connection_type,
                    stream_id: b@,
                    created_at_ms: now_ms,
                }) && c.wf()
            }),
    {
        let raw = match raw_stream_id {
            Some(b) => b,
            None => {
                return Err(RelayError::AttributeReadFailed);
            },
        };
        let stream_id = match StreamId::new(raw) {
            Ok(id) => id,
            Err(e) => {
                return Err(e);
            },
        };
        Ok(StreamConnection { socket, connection_type, stream_id, created_at_ms: now_ms })
    }
}

impl Clone for StreamConnection {
    fn clone(&self) -> (r: Self)
        ensures
            r@ == self@,
    {
        StreamConnection {
            socket: self.socket,
            connection_type: self.connection_type,
            stream_id: self.stream_id.clone(),
            created_at_ms: self.created_at_ms,
        }
    }
}

} // verus!
