//! The relay server's decision core.
//!
//! The surrounding process runs the accept loops, the per-input pumps and
//! the shutdown wait; everything it decides, it decides by calling the
//! functions here with the plain values the transport produced. Each
//! function says exactly what the decision is, so the loops around them
//! hold no policy of their own.

use vstd::prelude::*;

use crate::connection::ConnModel;
use crate::connection::ConnectionType;
use crate::connection::SocketHandle;
use crate::connection::StreamConnection;
use crate::errors::RelayError;
use crate::registry::ConnectionRegistry;
use crate::registry::find_group;
use crate::registry::group_has_id;
use crate::registry::has_live_input;
use crate::registry::register_input_post;
use crate::registry::register_output_post;
use crate::registry::remove_input_post;
use crate::registry::existing_outputs;
use crate::registry::has_output_socket;
use crate::registry::output_index;
use crate::registry::preserves_others;
use crate::registry::lemma_found_group_wf;
use crate::registry::group_wf;
use crate::registry::GroupModel;
use crate::relay::FrameModel;
use crate::relay::RelayEngine;
use crate::relay::RelayFrame;
use crate::relay::fanout_targets;
use crate::relay::distinct_sockets;
use crate::relay::send_results_post;
use crate::relay::next_seq;
use crate::relay::EngineModel;
use crate::search::lemma_find_first_characterizes;
use crate::search::lemma_remove_membership;
use crate::search::lemma_take_plus_one;
use crate::settings::ACCEPT_BACKOFF_MS;
use crate::stream_id::StreamIdValidator;
use crate::stream_id::ValidatorModel;
use crate::stream_id::cache_verdict;
use crate::stream_id::cache_written;

verus! {

/// What one turn of an accept loop observed.
pub enum AcceptEvent {
    /// A session arrived; `raw_stream_id` is the identifier attribute as
    /// read from the socket, `None` when the read failed.
    Accepted { socket: SocketHandle, raw_stream_id: Option<Vec<u8>>, now_ms: u64 },
    /// The `accept` call itself failed.
    AcceptFailed,
    /// The shutdown broadcast was observed.
    ShutdownSignal,
}

/// What the accept loop does next.
#[derive(Debug, PartialEq, Eq, Structural)]
pub enum ListenerAction {
    /// The connection is registered; keep accepting.
    Registered,
    /// The connection was rejected: close this socket, log the error,
    /// keep accepting. The loop never crashes on a per-connection error.
    Rejected { socket: SocketHandle, error: RelayError },
    /// A transient accept error: wait this long, then retry.
    Backoff { delay_ms: u64 },
    /// Shutdown: stop accepting and exit the loop.
    Exit,
}

/// The ghost image of an accepted session's identifier attribute.
pub open spec fn opt_bytes_view(o: Option<Vec<u8>>) -> Option<Seq<u8>> {
    match o {
        Some(b) => Some(b@),
        None => None,
    }
}

/// The verdict validation reaches on one accepted session: a missing
/// attribute and an empty identifier are distinct rejections, a live
/// cached rejection holds, and otherwise the identifier is accepted.
pub open spec fn validation_verdict(pre: ValidatorModel, raw: Option<Seq<u8>>, now_ms: u64) -> Result<
    Seq<u8>,
    RelayError,
> {
    match raw {
        None => Err(RelayError::AttributeReadFailed),
        Some(b) => if b.len() == 0 {
            Err(RelayError::EmptyIdentifier)
        } else {
            match cache_verdict(pre, b, now_ms) {
                Some(true) => Ok(b),
                Some(false) => Err(RelayError::InvalidStreamId),
                None => Ok(b),
            }
        },
    }
}

/// How one validation leaves the cache: only an acceptance that missed
/// the cache writes to it.
pub open spec fn validator_effect(
    pre: ValidatorModel,
    post: ValidatorModel,
    raw: Option<Seq<u8>>,
    now_ms: u64,
) -> bool {
    match raw {
        Some(b) => if b.len() > 0 && cache_verdict(pre, b, now_ms) is None {
            cache_written(pre, post, b, now_ms)
        } else {
            post == pre
        },
        None => post == pre,
    }
}

/// Handles one turn of the accept loop for `role`: validate the
/// identifier, register the connection, and never let a per-connection
/// failure stop the loop. A rejected connection is handed back for the
/// caller to close; a transient accept error asks for a fixed backoff.
pub fn handle_accept_event(
    registry: &mut ConnectionRegistry,
    validator: &mut StreamIdValidator,
    role: ConnectionType,
    event: AcceptEvent,
) -> (r: ListenerAction)
    requires
        old(registry).wf(),
        old(validator).wf(),
    ensures
        final(registry).wf(),
        final(validator).wf(),
        match event {
            AcceptEvent::ShutdownSignal => r == ListenerAction::Exit && final(registry)@ == old(
                registry,
            )@ && final(validator)@ == old(validator)@,
            AcceptEvent::AcceptFailed => r == (ListenerAction::Backoff {
                delay_ms: ACCEPT_BACKOFF_MS,
            }) && final(registry)@ == old(registry)@ && final(validator)@ == old(validator)@,
            AcceptEvent::Accepted { socket, raw_stream_id, now_ms } => {
                &&& validator_effect(
                    old(validator)@,
                    final(validator)@,
                    opt_bytes_view(raw_stream_id),
                    now_ms,
                )
                &&& match validation_verdict(
                    old(validator)@,
                    opt_bytes_view(raw_stream_id),
                    now_ms,
                ) {
                    Err(e) => r == (ListenerAction::Rejected { socket, error: e })
                        && final(registry)@ == old(registry)@,
                    Ok(idb) => {
                        let c = ConnModel {
                            socket: socket,
                            connection_type: role,
                            stream_id: idb,
                            created_at_ms: now_ms,
                        };
                        if role is InputStream {
                            if has_live_input(old(registry)@, idb) {
                                &&& r == (ListenerAction::Rejected {
                                    socket,
                                    error: RelayError::DuplicateInput,
                                })
                                &&& register_input_post(
                                    old(registry)@,
                                    final(registry)@,
                                    c,
                                    Err(RelayError::DuplicateInput),
                                )
                            } else {
                                &&& r == ListenerAction::Registered
                                &&& register_input_post(
                                    old(registry)@,
                                    final(registry)@,
                                    c,
                                    Ok(()),
                                )
                            }
                        } else {
                            &&& r == ListenerAction::Registered
                            &&& register_output_post(old(registry)@, final(registry)@, c)
                        }
                    },
                }
            },
        },
{
    match event {
        AcceptEvent::ShutdownSignal => ListenerAction::Exit,
        AcceptEvent::AcceptFailed => ListenerAction::Backoff { delay_ms: ACCEPT_BACKOFF_MS },
        AcceptEvent::Accepted { socket, raw_stream_id, now_ms } => {
            let stream_id = match validator.validate_srt_stream_id(raw_stream_id, now_ms) {
                Err(e) => {
                    return ListenerAction::Rejected { socket, error: e };
                },
                Ok(sid) => sid,
            };
            let conn = StreamConnection {
                socket,
                connection_type: role,
                stream_id,
                created_at_ms: now_ms,
            };
            match role {
                ConnectionType::InputStream => {
                    match registry.register_input(conn) {
                        Ok(_) => ListenerAction::Registered,
                        Err(e) => ListenerAction::Rejected { socket, error: e },
                    }
                },
                ConnectionType::OutputStream => {
                    registry.register_output(conn);
                    ListenerAction::Registered
                },
            }
        },
    }
}

/// What one turn of a relay pump observed on its input socket.
pub enum RelayEvent {
    /// A payload arrived, read with the configured transfer unit.
    Received { payload: Vec<u8>, now_ms: u64 },
    /// The read failed or the input closed.
    RecvFailed,
}

/// What the relay pump does next.
pub enum RelayStep {
    /// Send the frame's payload to each target socket, in this order,
    /// then report the outcomes through `relay_sends_done`.
    Deliver { frame: RelayFrame, targets: Vec<SocketHandle> },
    /// No group is registered for this identifier: drop the payload.
    Idle,
    /// The input is deregistered; its outputs stay for a successor. The
    /// pump ends.
    InputClosed,
}

/// Handles one turn of the relay pump owned by `engine`: a received
/// payload is stamped and addressed to the identifier's current outputs;
/// a failed read deregisters the input and ends the pump, leaving any
/// outputs registered and idle until a new input appears.
pub fn relay_pump_step(
    registry: &mut ConnectionRegistry,
    engine: &mut RelayEngine,
    event: RelayEvent,
) -> (r: RelayStep)
    requires
        old(registry).wf(),
        old(engine).wf(),
    ensures
        final(registry).wf(),
        final(engine).wf(),
        match event {
            RelayEvent::Received { payload, now_ms } => {
                &&& final(registry)@ == old(registry)@
                &&& match find_group(old(registry)@, old(engine)@.stream_id) {
                    None => r is Idle && final(engine)@ == old(engine)@,
                    Some(g) => {
                        &&& r matches RelayStep::Deliver { frame, targets }
                        &&& frame@ == (FrameModel {
                            stream_id: old(engine)@.stream_id,
                            payload: payload@,
                            sequence: old(engine)@.next_sequence,
                            received_at_ms: now_ms,
                        })
                        &&& targets@ == fanout_targets(g)
                        &&& final(engine)@ == (EngineModel {
                            next_sequence: next_seq(old(engine)@.next_sequence),
                            ..old(engine)@
                        })
                    },
                }
            },
            RelayEvent::RecvFailed => {
                &&& r is InputClosed
                &&& final(engine)@ == old(engine)@
                &&& remove_input_post(old(registry)@, final(registry)@, old(engine)@.stream_id)
            },
        },
{
    match event {
        RelayEvent::Received { payload, now_ms } => {
            let snapshot = registry.lookup(engine.stream_id());
            match snapshot {
                None => RelayStep::Idle,
                Some(g) => {
                    proof {
                        lemma_find_first_characterizes(
                            old(registry)@,
                            group_has_id(old(engine)@.stream_id),
                        );
                    }
                    let (frame, targets) = engine.on_frame(payload, now_ms, &g);
                    RelayStep::Deliver { frame, targets }
                },
            }
        },
        RelayEvent::RecvFailed => {
            let stream_id = engine.stream_id().clone();
            registry.remove_input(&stream_id);
            RelayStep::InputClosed
        },
    }
}

/// How a fan-out pass's evictions leave the registry: every evicted
/// socket is gone from the identifier's group, every output that was not
/// evicted survives, the input and every other identifier are untouched.
pub open spec fn evictions_applied(
    pre: Seq<GroupModel>,
    post: Seq<GroupModel>,
    id: Seq<u8>,
    evicted: Seq<SocketHandle>,
) -> bool {
    &&& preserves_others(pre, post, id)
    &&& match find_group(pre, id) {
        None => post == pre,
        Some(g) => {
            &&& forall|x: SocketHandle|
                #[trigger] evicted.contains(x) ==> !has_output_socket(
                    existing_outputs(post, id),
                    x,
                )
            &&& forall|j: int|
                0 <= j < g.outputs.len() && !evicted.contains(
                    (#[trigger] g.outputs[j]).socket,
                ) ==> existing_outputs(post, id).contains(g.outputs[j])
            &&& forall|c: ConnModel|
                #[trigger] existing_outputs(post, id).contains(c) ==> g.outputs.contains(c)
                    && !evicted.contains(c.socket)
            &&& (find_group(post, id) matches Some(g2) ==> g2.input == g.input && g2.stream_id
                == id)
            &&& (find_group(post, id) is None ==> g.input is None)
        },
    }
}

/// Closes one fan-out pass: books the send outcomes with the engine and
/// deregisters every evicted output, after the pass, so the collection
/// being iterated during the sends was never mutated. An evicted output
/// receives no further frames; the others and the input stay registered.
pub fn relay_sends_done(
    registry: &mut ConnectionRegistry,
    engine: &mut RelayEngine,
    targets: &Vec<SocketHandle>,
    results: &Vec<bool>,
) -> (evicted: Vec<SocketHandle>)
    requires
        old(registry).wf(),
        old(engine).wf(),
        distinct_sockets(targets@),
        results@.len() == targets@.len(),
    ensures
        final(registry).wf(),
        final(engine).wf(),
        send_results_post(old(engine)@, final(engine)@, targets@, results@, evicted@),
        evictions_applied(old(registry)@, final(registry)@, old(engine)@.stream_id, evicted@),
{
    let evicted = engine.on_send_results(targets, results);
    let stream_id = engine.stream_id().clone();
    let ghost pre = registry@;
    let ghost id = old(engine)@.stream_id;
    let mut e: usize = 0;
    proof {
        lemma_found_group_wf(pre, id);
        assert(evicted@.take(0) =~= Seq::<SocketHandle>::empty());
    }
    while e < evicted.len()
        invariant
            0 <= e <= evicted.len(),
            stream_id@ == id,
            pre == old(registry)@,
            registry.wf(),
            preserves_others(pre, registry@, id),
            match find_group(pre, id) {
                None => registry@ == pre,
                Some(g) => {
                    &&& forall|w: int|
                        0 <= w < e ==> !has_output_socket(
                            existing_outputs(registry@, id),
                            #[trigger] evicted@[w],
                        )
                    &&& forall|j: int|
                        0 <= j < g.outputs.len() && !evicted@.take(e as int).contains(
                            (#[trigger] g.outputs[j]).socket,
                        ) ==> existing_outputs(registry@, id).contains(g.outputs[j])
                    &&& forall|c: ConnModel|
                        #[trigger] existing_outputs(registry@, id).contains(c) ==> g.outputs
                            .contains(c) && !evicted@.take(e as int).contains(c.socket)
                    &&& (find_group(registry@, id) matches Some(g2) ==> g2.input == g.input
                        && g2.stream_id == id)
                    &&& (find_group(registry@, id) is None ==> g.input is None)
                },
            },
        decreases evicted.len() - e,
    {
        let ghost cur = registry@;
        let s_e = evicted[e];
        registry.remove_output(&stream_id, s_e);
        proof {
            lemma_found_group_wf(cur, id);
            lemma_take_plus_one(evicted@, e as int);
            let post = registry@;
            match find_group(pre, id) {
                None => {},
                Some(g) => {
                    // settle what this one removal did
                    match find_group(cur, id) {
                        None => {
                            assert(post == cur);
                        },
                        Some(g1) => {
                            assert(group_wf(g1));
                            if !has_output_socket(g1.outputs, s_e) {
                                assert(post == cur);
                                // nothing of this socket was there to begin with
                                assert forall|c: ConnModel|
                                    #[trigger] existing_outputs(post, id).contains(c) implies c
                                    .socket != s_e by {
                                    let w = choose|w: int|
                                        0 <= w < g1.outputs.len() && #[trigger] g1.outputs[w]
                                            == c;
                                }
                            } else {
                                let idx = output_index(g1.outputs, s_e);
                                assert(0 <= idx < g1.outputs.len() && g1.outputs[idx].socket
                                    == s_e);
                                let outs2 = g1.outputs.remove(idx);
                                lemma_remove_membership(g1.outputs, idx);
                                assert forall|w: int|
                                    0 <= w < outs2.len() implies (#[trigger] outs2[w]).socket
                                    != s_e by {
                                    if w < idx {
                                        assert(outs2[w] == g1.outputs[w]);
                                    } else {
                                        assert(outs2[w] == g1.outputs[w + 1]);
                                    }
                                }
                                assert(!has_output_socket(outs2, s_e));
                                assert forall|j: int|
                                    0 <= j < g1.outputs.len() && g1.outputs[j].socket != s_e
                                    implies outs2.contains(#[trigger] g1.outputs[j]) by {
                                    assert(j != idx);
                                }
                                if g1.input is None && outs2.len() == 0 {
                                    assert(find_group(post, id) is None);
                                } else {
                                    assert(find_group(post, id) == Some(
                                        GroupModel {
                                            stream_id: g1.stream_id,
                                            input: g1.input,
                                            outputs: outs2,
                                        },
                                    ));
                                }
                            }
                        },
                    }
                    // no output with an evicted socket remains
                    assert forall|w: int| 0 <= w < e + 1 implies !has_output_socket(
                        existing_outputs(post, id),
                        #[trigger] evicted@[w],
                    ) by {
                        if has_output_socket(existing_outputs(post, id), evicted@[w]) {
                            let wi = choose|wi: int|
                                0 <= wi < existing_outputs(post, id).len() && (
                                #[trigger] existing_outputs(post, id)[wi]).socket == evicted@[w];
                            let c = existing_outputs(post, id)[wi];
                            assert(existing_outputs(post, id).contains(c));
                            assert(existing_outputs(cur, id).contains(c)) by {
                                match find_group(cur, id) {
                                    Some(g1) => if has_output_socket(g1.outputs, s_e) {
                                        let idx = output_index(g1.outputs, s_e);
                                        lemma_remove_membership(g1.outputs, idx);
                                    },
                                    None => {},
                                }
                            }
                            if w < e {
                                assert(has_output_socket(existing_outputs(cur, id), evicted@[w]));
                            } else {
                                assert(c.socket == s_e);
                                match find_group(cur, id) {
                                    Some(g1) => if has_output_socket(g1.outputs, s_e) {
                                        assert(existing_outputs(post, id).contains(c));
                                        assert(c.socket != s_e);
                                    },
                                    None => {},
                                }
                            }
                        }
                    }
                    // outputs that were there before the pass and were not evicted stay
                    assert forall|j: int|
                        0 <= j < g.outputs.len() && !evicted@.take(e + 1).contains(
                            (#[trigger] g.outputs[j]).socket,
                        ) implies existing_outputs(post, id).contains(g.outputs[j]) by {
                        let c = g.outputs[j];
                        assert(!evicted@.take(e as int).contains(c.socket));
                        assert(existing_outputs(cur, id).contains(c));
                        assert(c.socket != s_e);
                        match find_group(cur, id) {
                            Some(g1) => {
                                let jj = choose|jj: int|
                                    0 <= jj < g1.outputs.len() && #[trigger] g1.outputs[jj] == c;
                                if has_output_socket(g1.outputs, s_e) {
                                    assert(g1.outputs[jj].socket != s_e);
                                    assert(existing_outputs(post, id).contains(c));
                                }
                            },
                            None => {},
                        }
                    }
                    // and nothing new appeared
                    assert forall|c: ConnModel|
                        #[trigger] existing_outputs(post, id).contains(c) implies g.outputs
                        .contains(c) && !evicted@.take(e + 1).contains(c.socket) by {
                        assert(existing_outputs(cur, id).contains(c)) by {
                            match find_group(cur, id) {
                                Some(g1) => if has_output_socket(g1.outputs, s_e) {
                                    let idx = output_index(g1.outputs, s_e);
                                    lemma_remove_membership(g1.outputs, idx);
                                },
                                None => {},
                            }
                        }
                        assert(c.socket != s_e) by {
                            match find_group(cur, id) {
                                Some(g1) => if !has_output_socket(g1.outputs, s_e) {
                                    let w = choose|w: int|
                                        0 <= w < g1.outputs.len() && #[trigger] g1.outputs[w]
                                            == c;
                                },
                                None => {},
                            }
                        }
                    }
                },
            }
        }
        e = e + 1;
    }
    proof {
        assert(evicted@.take(evicted@.len() as int) =~= evicted@);
        match find_group(pre, id) {
            None => {},
            Some(g) => {
                assert forall|x: SocketHandle| #[trigger] evicted@.contains(x) implies
                    !has_output_socket(existing_outputs(registry@, id), x) by {
                    let w = choose|w: int| 0 <= w < evicted@.len() && evicted@[w] == x;
                }
            },
        }
    }
    evicted
}

} // verus!
