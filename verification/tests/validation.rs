use dl_srt_server::errors::RelayError;
use dl_srt_server::settings::Settings;
use dl_srt_server::settings::DEFAULT_BUFFER_SIZE;
use dl_srt_server::settings::DEFAULT_CACHE_TTL_MS;
use dl_srt_server::settings::DEFAULT_DRAIN_TIMEOUT_MS;
use dl_srt_server::settings::DEFAULT_EVICTION_THRESHOLD;
use dl_srt_server::settings::DEFAULT_SEND_TIMEOUT_MS;
use dl_srt_server::stream_id::StreamId;
use dl_srt_server::stream_id::StreamIdValidator;

#[test]
fn settings_init_keeps_operator_values() {
    let s = Settings::init(5000, 5001, 1316, 32, 80);
    assert_eq!(s.input_stream_port, 5000);
    assert_eq!(s.output_stream_port, 5001);
    assert_eq!(s.buffer_size, 1316);
    assert_eq!(s.max_connections, 32);
    assert_eq!(s.latency_ms, 80);
    assert_eq!(s.send_timeout_ms, DEFAULT_SEND_TIMEOUT_MS);
    assert_eq!(s.eviction_threshold, DEFAULT_EVICTION_THRESHOLD);
    assert_eq!(s.cache_ttl_ms, DEFAULT_CACHE_TTL_MS);
    assert_eq!(s.drain_timeout_ms, DEFAULT_DRAIN_TIMEOUT_MS);
}

#[test]
fn settings_default_matches_documented_values() {
    let s = Settings::default();
    assert_eq!(s.buffer_size, 1456);
    assert_eq!(s.buffer_size, DEFAULT_BUFFER_SIZE);
    assert_eq!(s.eviction_threshold, 5);
    assert_eq!(s.cache_ttl_ms, 60_000);
    assert_eq!(s.drain_timeout_ms, 5_000);
    assert_eq!(s.get().latency_ms, s.latency_ms);
}

#[test]
fn stream_id_rejects_empty() {
    let r = StreamId::new(Vec::new());
    assert_eq!(r.unwrap_err(), RelayError::EmptyIdentifier);
}

#[test]
fn stream_id_keeps_bytes_and_compares_exactly() {
    let a = StreamId::new(b"cam1".to_vec()).unwrap();
    let b = StreamId::new(b"cam1".to_vec()).unwrap();
    let c = StreamId::new(b"cam2".to_vec()).unwrap();
    assert_eq!(a.as_bytes().as_slice(), b"cam1");
    assert!(a == b);
    assert!(a != c);
    let d = a.clone();
    assert!(d == a);
}

#[test]
fn validator_distinguishes_missing_and_empty() {
    let mut v = StreamIdValidator::new();
    let missing = v.validate_srt_stream_id(None, 0);
    assert_eq!(missing.unwrap_err(), RelayError::AttributeReadFailed);
    let empty = v.validate_srt_stream_id(Some(Vec::new()), 0);
    assert_eq!(empty.unwrap_err(), RelayError::EmptyIdentifier);
}

#[test]
fn validator_accepts_nonempty_and_caches_verdict() {
    let mut v = StreamIdValidator::new();
    let id = v.validate_srt_stream_id(Some(b"cam1".to_vec()), 1_000).unwrap();
    assert_eq!(id.as_bytes().as_slice(), b"cam1");
    // the acceptance was cached with a positive verdict
    assert_eq!(v.check_cache(&b"cam1".to_vec(), 1_000), Some(true));
    // still live just before the time-to-live elapses
    assert_eq!(v.check_cache(&b"cam1".to_vec(), 60_999), Some(true));
    // treated as absent once it has aged out
    assert_eq!(v.check_cache(&b"cam1".to_vec(), 61_000), None);
    // a different identifier was never cached
    assert_eq!(v.check_cache(&b"cam2".to_vec(), 1_000), None);
}

#[test]
fn validator_cache_entry_refreshes_on_revalidation() {
    let mut v = StreamIdValidator::new();
    v.validate_srt_stream_id(Some(b"cam1".to_vec()), 0).unwrap();
    // revalidating after expiry writes a fresh entry
    v.validate_srt_stream_id(Some(b"cam1".to_vec()), 70_000).unwrap();
    assert_eq!(v.check_cache(&b"cam1".to_vec(), 100_000), Some(true));
}

#[test]
fn validator_treats_future_stamp_as_absent() {
    let mut v = StreamIdValidator::new();
    v.validate_srt_stream_id(Some(b"cam1".to_vec()), 5_000).unwrap();
    // a clock that went backwards reads the entry as absent, not as live
    assert_eq!(v.check_cache(&b"cam1".to_vec(), 4_000), None);
}

#[test]
fn error_descriptions_are_fixed() {
    assert_eq!(RelayError::DuplicateInput.describe(), "duplicate input stream");
    assert_eq!(RelayError::EmptyIdentifier.describe(), "stream id missing");
    assert_eq!(RelayError::AttributeReadFailed.describe(), "failed to read stream id");
    assert_eq!(RelayError::OutputUnreachable.describe(), "output unreachable");
    assert_eq!(RelayError::SocketBindError(9000).describe(), "failed to bind on port");
    assert_eq!(RelayError::BroadcastError.describe(), "broadcast channel error");
    assert_eq!(RelayError::SocketAcceptError.describe(), "failed to accept connection");
    assert_eq!(RelayError::InvalidStreamId.describe(), "invalid stream id");
    assert_eq!(RelayError::GeneralError.describe(), "general error");
}

#[test]
fn only_bind_failures_are_fatal() {
    assert!(RelayError::SocketBindError(4000).is_fatal());
    assert!(!RelayError::SocketAcceptError.is_fatal());
    assert!(!RelayError::DuplicateInput.is_fatal());
    assert!(!RelayError::EmptyIdentifier.is_fatal());
}
