use dl_srt_server::connection::ConnectionType;
use dl_srt_server::connection::StreamConnection;
use dl_srt_server::errors::RelayError;
use dl_srt_server::registry::ConnectionRegistry;
use dl_srt_server::stream_id::StreamId;

fn input(sock: u64, id: &[u8]) -> StreamConnection {
    StreamConnection::new(sock, ConnectionType::InputStream, Some(id.to_vec()), 0).unwrap()
}

fn output(sock: u64, id: &[u8]) -> StreamConnection {
    StreamConnection::new(sock, ConnectionType::OutputStream, Some(id.to_vec()), 0).unwrap()
}

fn sid(id: &[u8]) -> StreamId {
    StreamId::new(id.to_vec()).unwrap()
}

#[test]
fn connection_new_validates_the_identifier() {
    let missing = StreamConnection::new(1, ConnectionType::InputStream, None, 0);
    assert_eq!(missing.unwrap_err(), RelayError::AttributeReadFailed);
    let empty = StreamConnection::new(1, ConnectionType::InputStream, Some(Vec::new()), 0);
    assert_eq!(empty.unwrap_err(), RelayError::EmptyIdentifier);
    let ok = StreamConnection::new(7, ConnectionType::OutputStream, Some(b"cam1".to_vec()), 42)
        .unwrap();
    assert_eq!(ok.socket, 7);
    assert_eq!(ok.stream_id.as_bytes().as_slice(), b"cam1");
    assert_eq!(ok.created_at_ms, 42);
}

#[test]
fn connection_type_labels() {
    assert_eq!(ConnectionType::InputStream.label(), "Input Stream");
    assert_eq!(ConnectionType::OutputStream.label(), "Output Stream");
}

#[test]
fn register_and_lookup_one_group() {
    let mut reg = ConnectionRegistry::new();
    assert_eq!(reg.group_count(), 0);
    reg.register_input(input(1, b"cam1")).unwrap();
    reg.register_output(output(2, b"cam1"));
    assert_eq!(reg.group_count(), 1);
    let g = reg.lookup(&sid(b"cam1")).unwrap();
    assert_eq!(g.input.as_ref().unwrap().socket, 1);
    assert_eq!(g.outputs.len(), 1);
    assert_eq!(g.outputs[0].socket, 2);
    assert!(reg.lookup(&sid(b"cam2")).is_none());
}

#[test]
fn second_input_is_rejected_and_first_is_untouched() {
    let mut reg = ConnectionRegistry::new();
    reg.register_input(input(1, b"cam1")).unwrap();
    let r = reg.register_input(input(2, b"cam1"));
    assert_eq!(r.unwrap_err(), RelayError::DuplicateInput);
    let g = reg.lookup(&sid(b"cam1")).unwrap();
    assert_eq!(g.input.unwrap().socket, 1);
}

#[test]
fn inputs_under_different_identifiers_coexist() {
    let mut reg = ConnectionRegistry::new();
    reg.register_input(input(1, b"cam1")).unwrap();
    reg.register_input(input(2, b"cam2")).unwrap();
    assert_eq!(reg.group_count(), 2);
    assert_eq!(reg.lookup(&sid(b"cam1")).unwrap().input.unwrap().socket, 1);
    assert_eq!(reg.lookup(&sid(b"cam2")).unwrap().input.unwrap().socket, 2);
}

#[test]
fn output_before_input_creates_the_group() {
    let mut reg = ConnectionRegistry::new();
    reg.register_output(output(5, b"cam1"));
    let g = reg.lookup(&sid(b"cam1")).unwrap();
    assert!(g.input.is_none());
    assert_eq!(g.outputs.len(), 1);
    // the input attaches to the waiting outputs
    reg.register_input(input(1, b"cam1")).unwrap();
    let g = reg.lookup(&sid(b"cam1")).unwrap();
    assert_eq!(g.input.unwrap().socket, 1);
    assert_eq!(g.outputs.len(), 1);
}

#[test]
fn registering_the_same_output_socket_twice_is_a_noop() {
    let mut reg = ConnectionRegistry::new();
    reg.register_output(output(5, b"cam1"));
    reg.register_output(output(5, b"cam1"));
    let g = reg.lookup(&sid(b"cam1")).unwrap();
    assert_eq!(g.outputs.len(), 1);
}

#[test]
fn removals_are_idempotent() {
    let mut reg = ConnectionRegistry::new();
    reg.register_input(input(1, b"cam1")).unwrap();
    reg.register_output(output(2, b"cam1"));
    // removing what is not there is a no-op, not an error
    reg.remove_output(&sid(b"cam1"), 99);
    reg.remove_output(&sid(b"cam9"), 2);
    reg.remove_input(&sid(b"cam9"));
    let g = reg.lookup(&sid(b"cam1")).unwrap();
    assert_eq!(g.outputs.len(), 1);
    assert!(g.input.is_some());
    reg.remove_output(&sid(b"cam1"), 2);
    reg.remove_output(&sid(b"cam1"), 2);
    let g = reg.lookup(&sid(b"cam1")).unwrap();
    assert_eq!(g.outputs.len(), 0);
    assert!(g.input.is_some());
}

#[test]
fn group_is_dropped_once_both_sides_are_gone() {
    let mut reg = ConnectionRegistry::new();
    reg.register_input(input(1, b"cam1")).unwrap();
    reg.register_output(output(2, b"cam1"));
    reg.remove_input(&sid(b"cam1"));
    // outputs stay registered and idle while the input is absent
    let g = reg.lookup(&sid(b"cam1")).unwrap();
    assert!(g.input.is_none());
    assert_eq!(g.outputs.len(), 1);
    // removing the only output then deletes the group
    reg.remove_output(&sid(b"cam1"), 2);
    assert!(reg.lookup(&sid(b"cam1")).is_none());
    assert_eq!(reg.group_count(), 0);
}

#[test]
fn group_is_dropped_in_the_other_order_too() {
    let mut reg = ConnectionRegistry::new();
    reg.register_input(input(1, b"cam1")).unwrap();
    reg.register_output(output(2, b"cam1"));
    reg.remove_output(&sid(b"cam1"), 2);
    reg.remove_input(&sid(b"cam1"));
    assert!(reg.lookup(&sid(b"cam1")).is_none());
}

#[test]
fn removal_touches_no_other_group() {
    let mut reg = ConnectionRegistry::new();
    reg.register_input(input(1, b"cam1")).unwrap();
    reg.register_output(output(2, b"cam1"));
    reg.register_input(input(3, b"cam2")).unwrap();
    reg.register_output(output(4, b"cam2"));
    reg.remove_input(&sid(b"cam1"));
    reg.remove_output(&sid(b"cam1"), 2);
    let g2 = reg.lookup(&sid(b"cam2")).unwrap();
    assert_eq!(g2.input.unwrap().socket, 3);
    assert_eq!(g2.outputs.len(), 1);
    assert_eq!(g2.outputs[0].socket, 4);
}

#[test]
fn lookup_returns_a_snapshot_not_a_handle() {
    let mut reg = ConnectionRegistry::new();
    reg.register_input(input(1, b"cam1")).unwrap();
    let snapshot = reg.lookup(&sid(b"cam1")).unwrap();
    // mutating the registry afterwards does not change the snapshot
    reg.remove_input(&sid(b"cam1"));
    assert_eq!(snapshot.input.unwrap().socket, 1);
    assert!(reg.lookup(&sid(b"cam1")).is_none());
}
