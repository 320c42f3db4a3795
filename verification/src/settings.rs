//! Relay configuration, constructed once at startup and passed by value
//! into each component; there is no ambient global lookup.

use vstd::prelude::*;

verus! {

/// Transfer unit for one `recv`, matching the transport's payload ceiling.
pub const DEFAULT_BUFFER_SIZE: usize = 1456;

/// Port the input-role listener binds to.
pub const DEFAULT_INPUT_PORT: u16 = 4000;

/// Port the output-role listener binds to.
pub const DEFAULT_OUTPUT_PORT: u16 = 4001;

/// Upper bound on simultaneously registered connections per role.
pub const DEFAULT_MAX_CONNECTIONS: usize = 16;

/// Transport latency window handed to the socket layer.
pub const DEFAULT_LATENCY_MS: u32 = 120;

/// Budget for one `send` to an output before it counts as a failure.
pub const DEFAULT_SEND_TIMEOUT_MS: u64 = 300;

/// Consecutive send failures after which an output is evicted.
pub const DEFAULT_EVICTION_THRESHOLD: u32 = 5;

/// Age after which a validation-cache entry is treated as absent.
pub const DEFAULT_CACHE_TTL_MS: u64 = 60_000;

/// Bound on the cooperative drain phase of a shutdown.
pub const DEFAULT_DRAIN_TIMEOUT_MS: u64 = 5_000;

/// Idle period after which a group with no input may be collected.
pub const DEFAULT_IDLE_GROUP_TIMEOUT_MS: u64 = 30_000;

/// Pause before retrying after a transient `accept` failure.
pub const ACCEPT_BACKOFF_MS: u64 = 1_000;

/// Configuration for the whole relay: listening ports, transfer unit,
/// backpressure policy, cache time-to-live and shutdown drain bound.
#[derive(Debug, Clone, Copy, PartialEq, Eq, Structural)]
pub struct Settings {
    pub input_stream_port: u16,
    pub output_stream_port: u16,
    pub buffer_size: usize,
    pub max_connections: usize,
    pub latency_ms: u32,
    pub send_timeout_ms: u64,
    pub eviction_threshold: u32,
    pub cache_ttl_ms: u64,
    pub drain_timeout_ms: u64,
    pub idle_group_timeout_ms: u64,
}

impl Settings {
    /// Builds a configuration from the operator-supplied values; the
    /// policy knobs that have no command-line form keep their defaults.
    pub fn init(
        input_stream_port: u16,
        output_stream_port: u16,
        buffer_size: usize,
        max_connections: usize,
        latency_ms: u32,
    ) -> (s: Settings)
        ensures
            s.input_stream_port == input_stream_port,
            s.output_stream_port == output_stream_port,
            s.buffer_size == buffer_size,
            s.max_connections == max_connections,
            s.latency_ms == latency_ms,
            s.send_timeout_ms == DEFAULT_SEND_TIMEOUT_MS,
            s.eviction_threshold == DEFAULT_EVICTION_THRESHOLD,
            s.cache_ttl_ms == DEFAULT_CACHE_TTL_MS,
            s.drain_timeout_ms == DEFAULT_DRAIN_TIMEOUT_MS,
            s.idle_group_timeout_ms == DEFAULT_IDLE_GROUP_TIMEOUT_MS,
    {
        Settings {
            input_stream_port,
            output_stream_port,
            buffer_size,
            max_connections,
            latency_ms,
            send_timeout_ms: DEFAULT_SEND_TIMEOUT_MS,
            eviction_threshold: DEFAULT_EVICTION_THRESHOLD,
            cache_ttl_ms: DEFAULT_CACHE_TTL_MS,
            drain_timeout_ms: DEFAULT_DRAIN_TIMEOUT_MS,
            idle_group_timeout_ms: DEFAULT_IDLE_GROUP_TIMEOUT_MS,
        }
    }

    /// Read access for components that borrow the configuration.
    pub fn get(&self) -> (s: &Settings)
        ensures
            s == self,
    {
        self
    }
}

impl Default for Settings {
    /// The stock configuration: default ports and policy values throughout.
    fn default() -> (s: Settings)
        ensures
            s.input_stream_port == DEFAULT_INPUT_PORT,
            s.output_stream_port == DEFAULT_OUTPUT_PORT,
            s.buffer_size == DEFAULT_BUFFER_SIZE,
            s.max_connections == DEFAULT_MAX_CONNECTIONS,
            s.latency_ms == DEFAULT_LATENCY_MS,
            s.send_timeout_ms == DEFAULT_SEND_TIMEOUT_MS,
            s.eviction_threshold == DEFAULT_EVICTION_THRESHOLD,
            s.cache_ttl_ms == DEFAULT_CACHE_TTL_MS,
            s.drain_timeout_ms == DEFAULT_DRAIN_TIMEOUT_MS,
            s.idle_group_timeout_ms == DEFAULT_IDLE_GROUP_TIMEOUT_MS,
    {
        Settings::init(
            DEFAULT_INPUT_PORT,
            DEFAULT_OUTPUT_PORT,
            DEFAULT_BUFFER_SIZE,
            DEFAULT_MAX_CONNECTIONS,
            DEFAULT_LATENCY_MS,
        )
    }
}

} // verus!
