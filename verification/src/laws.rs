//! The laws of the relay, proved over the same spec functions its
//! executable contracts are stated with.

use vstd::prelude::*;

use crate::connection::ConnModel;
use crate::connection::ConnectionType;
use crate::connection::SocketHandle;
use crate::errors::RelayError;
use crate::registry::GroupModel;
use crate::registry::existing_input;
use crate::registry::existing_outputs;
use crate::registry::find_group;
use crate::registry::group_has_id;
use crate::registry::group_wf;
use crate::registry::has_live_input;
use crate::registry::has_output_socket;
use crate::registry::output_index;
use crate::registry::register_input_post;
use crate::registry::register_output_post;
use crate::registry::registry_inv;
use crate::registry::remove_input_post;
use crate::registry::remove_output_post;
use crate::registry::sockets_globally_distinct;
use crate::relay::EngineModel;
use crate::relay::bump;
use crate::relay::count_of;
use crate::relay::fanout_targets;
use crate::relay::next_seq;
use crate::relay::relayed_frames;
use crate::relay::send_results_post;
use crate::relay::updated_count;
use crate::search::lemma_find_first_characterizes;

verus! {

/// Fan-out correctness: a frame is addressed to every output of its
/// group, all of them and in the snapshot's order, and to no socket that
/// is not an output of exactly this group.
pub proof fn lemma_fanout_exact(g: GroupModel)
    requires
        group_wf(g),
    ensures
        fanout_targets(g).len() == g.outputs.len(),
        forall|k: int| 0 <= k < g.outputs.len() ==> fanout_targets(g)[k] == (
        #[trigger] g.outputs[k]).socket,
        forall|s: SocketHandle| #[trigger] fanout_targets(g).contains(s) ==> has_output_socket(
            g.outputs,
            s,
        ),
{
    assert forall|s: SocketHandle| #[trigger] fanout_targets(g).contains(s) implies
        has_output_socket(g.outputs, s) by {
        let k = choose|k: int| 0 <= k < fanout_targets(g).len() && fanout_targets(g)[k] == s;
        assert(g.outputs[k].socket == s);
    }
}

/// Isolation: when every output socket is registered under one identifier
/// only, a frame relayed for one identifier is never addressed to an
/// output registered under a different identifier.
pub proof fn lemma_relay_isolation(
    groups: Seq<GroupModel>,
    a: Seq<u8>,
    b: Seq<u8>,
    ga: GroupModel,
    gb: GroupModel,
    sock: SocketHandle,
)
    requires
        registry_inv(groups),
        sockets_globally_distinct(groups),
        a != b,
        find_group(groups, a) == Some(ga),
        find_group(groups, b) == Some(gb),
        has_output_socket(gb.outputs, sock),
    ensures
        !fanout_targets(ga).contains(sock),
{
    lemma_find_first_characterizes(groups, group_has_id(a));
    lemma_find_first_characterizes(groups, group_has_id(b));
    let ia = choose|i: int| 0 <= i < groups.len() && groups[i] == ga;
    let ib = choose|i: int| 0 <= i < groups.len() && groups[i] == gb;
    assert(ga.stream_id == a && gb.stream_id == b);
    assert(ia != ib);
    if fanout_targets(ga).contains(sock) {
        let x = choose|x: int| 0 <= x < fanout_targets(ga).len() && fanout_targets(ga)[x] == sock;
        assert(ga.outputs[x].socket == sock);
        let y = choose|y: int| 0 <= y < gb.outputs.len() && (#[trigger] gb.outputs[y]).socket
            == sock;
        assert(groups[ia].outputs[x].socket != groups[ib].outputs[y].socket);
    }
}

/// Single-output round trip: registering an input and then an output
/// under one identifier leaves a group whose fan-out reaches that output,
/// so every payload received from then on is forwarded to it, unmodified
/// and in receipt order, with sequence numbers rising one per frame.
pub proof fn lemma_round_trip(
    pre: Seq<GroupModel>,
    mid: Seq<GroupModel>,
    post: Seq<GroupModel>,
    cin: ConnModel,
    cout: ConnModel,
    payloads: Seq<Seq<u8>>,
    start: u64,
)
    requires
        cin.stream_id == cout.stream_id,
        cin.connection_type == ConnectionType::InputStream,
        cout.connection_type == ConnectionType::OutputStream,
        register_input_post(pre, mid, cin, Ok(())),
        register_output_post(mid, post, cout),
        !has_output_socket(existing_outputs(mid, cout.stream_id), cout.socket),
    ensures
        match find_group(post, cin.stream_id) {
            Some(g) => g.input == Some(cin) && fanout_targets(g).contains(cout.socket),
            None => false,
        },
        relayed_frames(start, payloads).len() == payloads.len(),
        forall|i: int|
            0 <= i < payloads.len() ==> (#[trigger] relayed_frames(start, payloads)[i]).0
                == payloads[i],
        start + payloads.len() <= u64::MAX ==> forall|i: int|
            0 <= i < payloads.len() ==> (#[trigger] relayed_frames(start, payloads)[i]).1 == start
                + i,
{
    let id = cin.stream_id;
    assert(find_group(mid, id) == Some(
        GroupModel { stream_id: id, input: Some(cin), outputs: existing_outputs(pre, id) },
    ));
    let outs_mid = existing_outputs(mid, id);
    assert(find_group(post, id) == Some(
        GroupModel { stream_id: id, input: existing_input(mid, id), outputs: outs_mid.push(cout) },
    ));
    let g = GroupModel {
        stream_id: id,
        input: existing_input(mid, id),
        outputs: outs_mid.push(cout),
    };
    assert(fanout_targets(g).contains(cout.socket)) by {
        assert(g.outputs[g.outputs.len() - 1] == cout);
        assert(fanout_targets(g)[g.outputs.len() - 1] == cout.socket);
    }
    lemma_relayed_frames_in_order(start, payloads);
}

/// The frames of a run carry the payloads unmodified and in order.
pub proof fn lemma_relayed_frames_in_order(start: u64, payloads: Seq<Seq<u8>>)
    ensures
        relayed_frames(start, payloads).len() == payloads.len(),
        forall|i: int|
            0 <= i < payloads.len() ==> (#[trigger] relayed_frames(start, payloads)[i]).0
                == payloads[i],
        start + payloads.len() <= u64::MAX ==> forall|i: int|
            0 <= i < payloads.len() ==> (#[trigger] relayed_frames(start, payloads)[i]).1 == start
                + i,
    decreases payloads.len(),
{
    if payloads.len() > 0 {
        lemma_relayed_frames_in_order(next_seq(start), payloads.drop_first());
        let rest = relayed_frames(next_seq(start), payloads.drop_first());
        assert forall|i: int| 0 <= i < payloads.len() implies (#[trigger] relayed_frames(
            start,
            payloads,
        )[i]).0 == payloads[i] by {
            if i > 0 {
                assert(relayed_frames(start, payloads)[i] == rest[i - 1]);
                assert(payloads.drop_first()[i - 1] == payloads[i]);
            }
        }
        if start + payloads.len() <= u64::MAX {
            assert(next_seq(start) == start + 1);
            assert forall|i: int| 0 <= i < payloads.len() implies (#[trigger] relayed_frames(
                start,
                payloads,
            )[i]).1 == start + i by {
                if i > 0 {
                    assert(relayed_frames(start, payloads)[i] == rest[i - 1]);
                }
            }
        }
    }
}

/// Duplicate rejection: registering a second input under an identifier
/// with a live input returns `DuplicateInput` and leaves the registry,
/// the existing input's relay included, exactly as it was.
pub proof fn lemma_duplicate_input_rejected(
    pre: Seq<GroupModel>,
    post: Seq<GroupModel>,
    c: ConnModel,
    r: Result<(), RelayError>,
)
    requires
        register_input_post(pre, post, c, r),
        has_live_input(pre, c.stream_id),
    ensures
        r == Err::<(), RelayError>(RelayError::DuplicateInput),
        post == pre,
{
    match r {
        Ok(_) => {
            assert(false);
        },
        Err(_) => {},
    }
}

/// Group collapse: once the input is gone, removing the only output of an
/// identifier deletes its group, and a lookup of that identifier reports
/// nothing registered.
pub proof fn lemma_group_collapses(
    pre: Seq<GroupModel>,
    mid: Seq<GroupModel>,
    post: Seq<GroupModel>,
    id: Seq<u8>,
    g: GroupModel,
    sock: SocketHandle,
)
    requires
        remove_input_post(pre, mid, id),
        remove_output_post(mid, post, id, sock),
        find_group(pre, id) == Some(g),
        g.outputs.len() == 1,
        g.outputs[0].socket == sock,
    ensures
        find_group(post, id) is None,
{
    assert(find_group(mid, id) == Some(
        GroupModel { stream_id: g.stream_id, input: None, outputs: g.outputs },
    ));
    assert(has_output_socket(g.outputs, sock)) by {
        assert(g.outputs[0].socket == sock);
    }
    let idx = output_index(g.outputs, sock);
    assert(idx == 0);
    assert(g.outputs.remove(0).len() == 0);
}

/// Backpressure eviction, the run so far: along frames where one output
/// misses its budget every time and another meets it every time, the
/// failing output's run grows one per frame while the healthy output's
/// record stays clean, and neither has been evicted yet.
proof fn lemma_failure_run(
    models: Seq<EngineModel>,
    targets: Seq<SocketHandle>,
    results: Seq<Seq<bool>>,
    evictions: Seq<Seq<SocketHandle>>,
    kf: int,
    ks: int,
    i: int,
)
    requires
        models.len() >= 1,
        results.len() == models.len() - 1,
        evictions.len() == models.len() - 1,
        forall|j: int|
            0 <= j < models.len() - 1 ==> send_results_post(
                models[j],
                models[j + 1],
                targets,
                results[j],
                #[trigger] evictions[j],
            ),
        forall|j: int| 0 <= j < results.len() ==> (#[trigger] results[j]).len() == targets.len(),
        0 <= kf < targets.len(),
        0 <= ks < targets.len(),
        forall|j: int| 0 <= j < results.len() ==> (#[trigger] results[j])[kf] == false,
        forall|j: int| 0 <= j < results.len() ==> (#[trigger] results[j])[ks] == true,
        count_of(models[0].counters, targets[kf]) == 0,
        count_of(models[0].counters, targets[ks]) == 0,
        models[0].eviction_threshold >= 1,
        0 <= i < models.len(),
        i < models[0].eviction_threshold,
    ensures
        models[i].eviction_threshold == models[0].eviction_threshold,
        count_of(models[i].counters, targets[kf]) == i,
        count_of(models[i].counters, targets[ks]) == 0,
        forall|j: int|
            0 <= j < i ==> !(#[trigger] evictions[j]).contains(targets[kf]) && !evictions[j]
                .contains(targets[ks]),
    decreases i,
{
    if i > 0 {
        lemma_failure_run(models, targets, results, evictions, kf, ks, i - 1);
        assert(send_results_post(
            models[i - 1],
            models[i],
            targets,
            results[i - 1],
            evictions[i - 1],
        ));
        let th = models[0].eviction_threshold;
        assert(updated_count(count_of(models[i - 1].counters, targets[kf]), results[i - 1][kf])
            == bump((i - 1) as u32));
        assert(bump((i - 1) as u32) == i as u32);
        assert(updated_count(count_of(models[i - 1].counters, targets[ks]), results[i - 1][ks])
            == 0);
    }
}

/// Backpressure eviction: an output that misses its send budget on every
/// frame is evicted exactly at the configured consecutive-failure
/// threshold, never earlier, while an output that keeps meeting its
/// budget under the same identifier is never evicted.
pub proof fn lemma_eviction_at_threshold(
    models: Seq<EngineModel>,
    targets: Seq<SocketHandle>,
    results: Seq<Seq<bool>>,
    evictions: Seq<Seq<SocketHandle>>,
    kf: int,
    ks: int,
)
    requires
        models.len() >= 2,
        results.len() == models.len() - 1,
        evictions.len() == models.len() - 1,
        forall|j: int|
            0 <= j < models.len() - 1 ==> send_results_post(
                models[j],
                models[j + 1],
                targets,
                results[j],
                #[trigger] evictions[j],
            ),
        forall|j: int| 0 <= j < results.len() ==> (#[trigger] results[j]).len() == targets.len(),
        0 <= kf < targets.len(),
        0 <= ks < targets.len(),
        forall|j: int| 0 <= j < results.len() ==> (#[trigger] results[j])[kf] == false,
        forall|j: int| 0 <= j < results.len() ==> (#[trigger] results[j])[ks] == true,
        count_of(models[0].counters, targets[kf]) == 0,
        count_of(models[0].counters, targets[ks]) == 0,
        models[0].eviction_threshold >= 1,
        models.len() - 1 == models[0].eviction_threshold,
    ensures
        evictions[models.len() - 2].contains(targets[kf]),
        forall|j: int| 0 <= j < models.len() - 2 ==> !(#[trigger] evictions[j]).contains(
            targets[kf],
        ),
        forall|j: int| 0 <= j < models.len() - 1 ==> !(#[trigger] evictions[j]).contains(
            targets[ks],
        ),
{
    let th = models[0].eviction_threshold;
    let n = models.len() - 1;
    lemma_failure_run(models, targets, results, evictions, kf, ks, n - 1);
    assert(send_results_post(models[n - 1], models[n], targets, results[n - 1], evictions[n - 1]));
    assert(updated_count(count_of(models[n - 1].counters, targets[kf]), results[n - 1][kf]) == bump(
        (n - 1) as u32,
    ));
    assert(bump((n - 1) as u32) == th);
    assert(updated_count(count_of(models[n - 1].counters, targets[ks]), results[n - 1][ks]) == 0);
}

} // verus!
