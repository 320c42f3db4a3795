//! Verified core of a bidirectional media-stream relay.
//!
//! The crate holds the stream registry, the identifier validator with its
//! cache, the per-stream relay engine with its backpressure policy, and the
//! shutdown coordinator. All socket work (bind, listen, accept, recv, send)
//! happens outside this crate; the functions here take the plain values that
//! the transport produced and decide what the relay does with them.

pub mod connection;
pub mod errors;
pub mod laws;
pub mod registry;
pub mod relay;
pub mod search;
pub mod server;
pub mod settings;
pub mod shutdown;
pub mod stream_id;
