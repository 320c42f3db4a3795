use dl_srt_server::connection::ConnectionType;
use dl_srt_server::connection::StreamConnection;
use dl_srt_server::errors::RelayError;
use dl_srt_server::registry::ConnectionRegistry;
use dl_srt_server::relay::RelayEngine;
use dl_srt_server::server::handle_accept_event;
use dl_srt_server::server::relay_pump_step;
use dl_srt_server::server::relay_sends_done;
use dl_srt_server::server::AcceptEvent;
use dl_srt_server::server::ListenerAction;
use dl_srt_server::server::RelayEvent;
use dl_srt_server::server::RelayStep;
use dl_srt_server::stream_id::StreamId;
use dl_srt_server::stream_id::StreamIdValidator;

fn input(sock: u64, id: &[u8]) -> StreamConnection {
    StreamConnection::new(sock, ConnectionType::InputStream, Some(id.to_vec()), 0).unwrap()
}

fn output(sock: u64, id: &[u8]) -> StreamConnection {
    StreamConnection::new(sock, ConnectionType::OutputStream, Some(id.to_vec()), 0).unwrap()
}

fn sid(id: &[u8]) -> StreamId {
    StreamId::new(id.to_vec()).unwrap()
}

#[test]
fn frames_carry_the_payload_unmodified_and_in_order() {
    let mut reg = ConnectionRegistry::new();
    reg.register_input(input(1, b"cam1")).unwrap();
    reg.register_output(output(2, b"cam1"));
    let snapshot = reg.lookup(&sid(b"cam1")).unwrap();
    let mut engine = RelayEngine::new(sid(b"cam1"), 5);
    let (f0, t0) = engine.on_frame(vec![9, 8, 7], 100, &snapshot);
    let (f1, t1) = engine.on_frame(vec![6, 5], 101, &snapshot);
    assert_eq!(f0.payload, vec![9, 8, 7]);
    assert_eq!(f1.payload, vec![6, 5]);
    assert_eq!(f0.sequence, 0);
    assert_eq!(f1.sequence, 1);
    assert_eq!(f0.received_at_ms, 100);
    assert_eq!(f0.stream_id.as_bytes().as_slice(), b"cam1");
    assert_eq!(t0, vec![2]);
    assert_eq!(t1, vec![2]);
}

#[test]
fn fanout_reaches_every_output_of_the_group() {
    let mut reg = ConnectionRegistry::new();
    reg.register_input(input(1, b"cam1")).unwrap();
    reg.register_output(output(2, b"cam1"));
    reg.register_output(output(3, b"cam1"));
    reg.register_output(output(4, b"cam1"));
    let snapshot = reg.lookup(&sid(b"cam1")).unwrap();
    let mut engine = RelayEngine::new(sid(b"cam1"), 5);
    let (_, targets) = engine.on_frame(vec![1], 0, &snapshot);
    assert_eq!(targets, vec![2, 3, 4]);
}

#[test]
fn frames_stay_inside_their_identifier() {
    let mut reg = ConnectionRegistry::new();
    reg.register_input(input(1, b"cam1")).unwrap();
    reg.register_output(output(2, b"cam1"));
    reg.register_input(input(3, b"cam2")).unwrap();
    reg.register_output(output(4, b"cam2"));
    let mut engine_a = RelayEngine::new(sid(b"cam1"), 5);
    let step = relay_pump_step(
        &mut reg,
        &mut engine_a,
        RelayEvent::Received { payload: vec![0xAA], now_ms: 0 },
    );
    match step {
        RelayStep::Deliver { frame, targets } => {
            // only the output registered under this identifier is addressed
            assert_eq!(targets, vec![2]);
            assert!(!targets.contains(&4));
            assert_eq!(frame.payload, vec![0xAA]);
        },
        _ => panic!("expected a delivery"),
    }
}

#[test]
fn pump_is_idle_without_a_group() {
    let mut reg = ConnectionRegistry::new();
    let mut engine = RelayEngine::new(sid(b"cam1"), 5);
    let step = relay_pump_step(
        &mut reg,
        &mut engine,
        RelayEvent::Received { payload: vec![1], now_ms: 0 },
    );
    assert!(matches!(step, RelayStep::Idle));
}

#[test]
fn recv_failure_deregisters_the_input_and_keeps_outputs() {
    let mut reg = ConnectionRegistry::new();
    reg.register_input(input(1, b"cam1")).unwrap();
    reg.register_output(output(2, b"cam1"));
    let mut engine = RelayEngine::new(sid(b"cam1"), 5);
    let step = relay_pump_step(&mut reg, &mut engine, RelayEvent::RecvFailed);
    assert!(matches!(step, RelayStep::InputClosed));
    let g = reg.lookup(&sid(b"cam1")).unwrap();
    assert!(g.input.is_none());
    assert_eq!(g.outputs.len(), 1);
}

#[test]
fn slow_output_is_evicted_at_the_threshold() {
    let mut reg = ConnectionRegistry::new();
    reg.register_input(input(1, b"cam1")).unwrap();
    reg.register_output(output(2, b"cam1"));
    reg.register_output(output(3, b"cam1"));
    let mut engine = RelayEngine::new(sid(b"cam1"), 2);
    let targets = vec![2, 3];
    // first miss: not yet evicted
    let evicted = relay_sends_done(&mut reg, &mut engine, &targets, &vec![false, true]);
    assert!(evicted.is_empty());
    // second consecutive miss: socket 2 reaches the threshold
    let evicted = relay_sends_done(&mut reg, &mut engine, &targets, &vec![false, true]);
    assert_eq!(evicted, vec![2]);
    // the evicted output receives no further frames; the other continues
    let snapshot = reg.lookup(&sid(b"cam1")).unwrap();
    let (_, targets_after) = engine.on_frame(vec![1], 0, &snapshot);
    assert_eq!(targets_after, vec![3]);
}

#[test]
fn a_met_budget_clears_the_failure_run() {
    let mut reg = ConnectionRegistry::new();
    reg.register_input(input(1, b"cam1")).unwrap();
    reg.register_output(output(2, b"cam1"));
    let mut engine = RelayEngine::new(sid(b"cam1"), 2);
    let targets = vec![2];
    assert!(relay_sends_done(&mut reg, &mut engine, &targets, &vec![false]).is_empty());
    // the run is broken by one delivered frame
    assert!(relay_sends_done(&mut reg, &mut engine, &targets, &vec![true]).is_empty());
    assert!(relay_sends_done(&mut reg, &mut engine, &targets, &vec![false]).is_empty());
    // only a second consecutive miss evicts
    assert_eq!(relay_sends_done(&mut reg, &mut engine, &targets, &vec![false]), vec![2]);
}

#[test]
fn accept_loop_decisions() {
    let mut reg = ConnectionRegistry::new();
    let mut val = StreamIdValidator::new();
    let exit = handle_accept_event(
        &mut reg,
        &mut val,
        ConnectionType::InputStream,
        AcceptEvent::ShutdownSignal,
    );
    assert_eq!(exit, ListenerAction::Exit);
    let backoff = handle_accept_event(
        &mut reg,
        &mut val,
        ConnectionType::InputStream,
        AcceptEvent::AcceptFailed,
    );
    assert_eq!(backoff, ListenerAction::Backoff { delay_ms: 1_000 });
    let rejected = handle_accept_event(
        &mut reg,
        &mut val,
        ConnectionType::InputStream,
        AcceptEvent::Accepted { socket: 1, raw_stream_id: Some(Vec::new()), now_ms: 0 },
    );
    assert_eq!(rejected, ListenerAction::Rejected {
        socket: 1,
        error: RelayError::EmptyIdentifier,
    });
    let registered = handle_accept_event(
        &mut reg,
        &mut val,
        ConnectionType::InputStream,
        AcceptEvent::Accepted { socket: 1, raw_stream_id: Some(b"cam1".to_vec()), now_ms: 0 },
    );
    assert_eq!(registered, ListenerAction::Registered);
    let duplicate = handle_accept_event(
        &mut reg,
        &mut val,
        ConnectionType::InputStream,
        AcceptEvent::Accepted { socket: 2, raw_stream_id: Some(b"cam1".to_vec()), now_ms: 0 },
    );
    assert_eq!(duplicate, ListenerAction::Rejected {
        socket: 2,
        error: RelayError::DuplicateInput,
    });
    let out = handle_accept_event(
        &mut reg,
        &mut val,
        ConnectionType::OutputStream,
        AcceptEvent::Accepted { socket: 3, raw_stream_id: Some(b"cam1".to_vec()), now_ms: 0 },
    );
    assert_eq!(out, ListenerAction::Registered);
    let g = reg.lookup(&sid(b"cam1")).unwrap();
    assert_eq!(g.input.unwrap().socket, 1);
    assert_eq!(g.outputs.len(), 1);
    assert_eq!(g.outputs[0].socket, 3);
}

#[test]
fn cam1_bytes_are_delivered_exactly_once() {
    // the input connects under "cam1", the output connects after it, and
    // one received byte sequence reaches that output exactly once
    let mut reg = ConnectionRegistry::new();
    let mut val = StreamIdValidator::new();
    handle_accept_event(
        &mut reg,
        &mut val,
        ConnectionType::InputStream,
        AcceptEvent::Accepted { socket: 10, raw_stream_id: Some(b"cam1".to_vec()), now_ms: 0 },
    );
    handle_accept_event(
        &mut reg,
        &mut val,
        ConnectionType::OutputStream,
        AcceptEvent::Accepted { socket: 20, raw_stream_id: Some(b"cam1".to_vec()), now_ms: 1 },
    );
    let mut engine = RelayEngine::new(sid(b"cam1"), 5);
    let step = relay_pump_step(
        &mut reg,
        &mut engine,
        RelayEvent::Received { payload: vec![0x01, 0x02, 0x03], now_ms: 2 },
    );
    match step {
        RelayStep::Deliver { frame, targets } => {
            assert_eq!(frame.payload, vec![0x01, 0x02, 0x03]);
            // exactly one send, to the one registered output
            assert_eq!(targets, vec![20]);
        },
        _ => panic!("expected a delivery"),
    }
}
