//! The relay engine: per-input frame fan-out and the backpressure policy.
//!
//! One engine instance serves one input connection. For every payload read
//! from the input it stamps a frame and addresses it to every output of
//! the identifier's group, exactly as the registry snapshot lists them:
//! payload received for one identifier is only ever forwarded to outputs
//! registered under that identifier. After each fan-out pass the caller
//! reports which sends met their budget; an output missing it for the
//! configured number of consecutive frames is evicted, after the pass,
//! never mid-iteration, so slow consumers cannot stall the pump or the
//! other outputs.

use vstd::prelude::*;

use crate::connection::ConnModel;
use crate::connection::SocketHandle;
use crate::registry::GroupModel;
use crate::registry::StreamGroup;
use crate::registry::group_wf;
use crate::search::find_first;
use crate::search::lemma_find_first_none;
use crate::search::lemma_find_first_push;
use crate::search::lemma_find_first_some;
use crate::stream_id::StreamId;

verus! {

/// One in-flight unit of relayed data: it exists only between a `recv`
/// and the matching fan-out sends, and is never persisted.
#[derive(Debug)]
pub struct RelayFrame {
    pub stream_id: StreamId,
    pub payload: Vec<u8>,
    pub sequence: u64,
    pub received_at_ms: u64,
}

/// The ghost image of a relay frame.
pub struct FrameModel {
    pub stream_id: Seq<u8>,
    pub payload: Seq<u8>,
    pub sequence: u64,
    pub received_at_ms: u64,
}

impl View for RelayFrame {
    type V = FrameModel;

    open spec fn view(&self) -> FrameModel {
        FrameModel {
            stream_id: self.stream_id@,
            payload: self.payload@,
            sequence: self.sequence,
            received_at_ms: self.received_at_ms,
        }
    }
}

/// The running count of consecutive send failures of one output.
#[derive(Debug, Clone, Copy, PartialEq, Eq, Structural)]
pub struct OutputHealth {
    pub socket: SocketHandle,
    pub failures: u32,
}

/// The ghost image of the engine: the identifier it pumps, the sequence
/// number of the next frame, the eviction threshold and the counters.
pub struct EngineModel {
    pub stream_id: Seq<u8>,
    pub next_sequence: u64,
    pub eviction_threshold: u32,
    pub counters: Seq<OutputHealth>,
}

/// The sockets a frame for group `g` is addressed to: exactly the
/// group's outputs, in the order the snapshot lists them.
pub open spec fn fanout_targets(g: GroupModel) -> Seq<SocketHandle> {
    g.outputs.map_values(|c: ConnModel| c.socket)
}

/// The lookup key of the counters: whether an entry concerns `sock`.
pub open spec fn counter_has_socket(sock: SocketHandle) -> spec_fn(OutputHealth) -> bool {
    |h: OutputHealth| h.socket == sock
}

/// The consecutive-failure count of `sock`: zero when not tracked.
pub open spec fn count_of(counters: Seq<OutputHealth>, sock: SocketHandle) -> u32 {
    match find_first(counters, counter_has_socket(sock)) {
        Some(h) => h.failures,
        None => 0,
    }
}

/// One more failure, saturating.
pub open spec fn bump(c: u32) -> u32 {
    if c == u32::MAX {
        u32::MAX
    } else {
        (c + 1) as u32
    }
}

/// The count after one frame: a send that met its budget clears the run
/// of failures, one that missed it lengthens the run by one.
pub open spec fn updated_count(c: u32, ok: bool) -> u32 {
    if ok {
        0
    } else {
        bump(c)
    }
}

/// The sequence number following `s`.
pub open spec fn next_seq(s: u64) -> u64 {
    if s == u64::MAX {
        0
    } else {
        (s + 1) as u64
    }
}

/// The (payload, sequence number) pairs stamped when `payloads` is
/// received in order on one input, numbering from `start`.
pub open spec fn relayed_frames(start: u64, payloads: Seq<Seq<u8>>) -> Seq<(Seq<u8>, u64)>
    decreases payloads.len(),
{
    if payloads.len() == 0 {
        Seq::empty()
    } else {
        seq![(payloads[0], start)] + relayed_frames(next_seq(start), payloads.drop_first())
    }
}

/// No socket appears twice.
pub open spec fn distinct_sockets(t: Seq<SocketHandle>) -> bool {
    forall|i: int, j: int| 0 <= i < j < t.len() ==> t[i] != t[j]
}

/// No two counters track one socket.
pub open spec fn distinct_counter_sockets(s: Seq<OutputHealth>) -> bool {
    forall|i: int, j: int|
        0 <= i < j < s.len() ==> (#[trigger] s[i]).socket != (#[trigger] s[j]).socket
}

/// What one fan-out pass does to the engine. For every target: a send
/// that met its budget clears the failure run; one that missed it
/// lengthens the run, and an output whose run reaches the threshold is in
/// the eviction list with its counter dropped. An output absent from this
/// pass starts over: the policy counts consecutive frames.
pub open spec fn send_results_post(
    pre: EngineModel,
    post: EngineModel,
    targets: Seq<SocketHandle>,
    results: Seq<bool>,
    evicted: Seq<SocketHandle>,
) -> bool {
    &&& post.stream_id == pre.stream_id
    &&& post.next_sequence == pre.next_sequence
    &&& post.eviction_threshold == pre.eviction_threshold
    &&& forall|k: int|
        0 <= k < targets.len() ==> {
            let c2 = updated_count(count_of(pre.counters, targets[k]), results[k]);
            if c2 >= pre.eviction_threshold {
                evicted.contains(#[trigger] targets[k]) && count_of(post.counters, targets[k])
                    == 0
            } else {
                !evicted.contains(targets[k]) && count_of(post.counters, targets[k]) == c2
            }
        }
    &&& forall|s: SocketHandle|
        #![trigger count_of(post.counters, s)]
        #![trigger evicted.contains(s)]
        !targets.contains(s) ==> count_of(post.counters, s) == 0 && !evicted.contains(s)
    &&& evicted.no_duplicates()
}

/// The data pump of one input connection. It owns no connection: each
/// pass works on a snapshot handed in by the caller, and all socket work
/// happens outside this type.
#[derive(Debug)]
pub struct RelayEngine {
    stream_id: StreamId,
    next_sequence: u64,
    eviction_threshold: u32,
    counters: Vec<OutputHealth>,
}

impl View for RelayEngine {
    type V = EngineModel;

    closed spec fn view(&self) -> EngineModel {
        EngineModel {
            stream_id: self.stream_id@,
            next_sequence: self.next_sequence,
            eviction_threshold: self.eviction_threshold,
            counters: self.counters@,
        }
    }
}

impl RelayEngine {
    /// The engine's invariant: a real identifier, a positive threshold,
    /// one counter per socket.
    pub open spec fn wf(&self) -> bool {
        &&& self@.stream_id.len() > 0
        &&& self@.eviction_threshold >= 1
        &&& distinct_counter_sockets(self@.counters)
    }

    /// A fresh engine for one input stream. Frames are numbered from zero
    /// and no output has a failure on record.
    pub fn new(stream_id: StreamId, eviction_threshold: u32) -> (e: RelayEngine)
        requires
            stream_id.wf(),
            eviction_threshold >= 1,
        ensures
            e.wf(),
            e@.stream_id == stream_id@,
            e@.next_sequence == 0,
            e@.eviction_threshold == eviction_threshold,
            e@.counters == Seq::<OutputHealth>::empty(),
    {
        let e = RelayEngine {
            stream_id,
            next_sequence: 0,
            eviction_threshold,
            counters: Vec::new(),
        };
        proof {
            assert(e@.counters =~= Seq::<OutputHealth>::empty());
        }
        e
    }

    /// The identifier this engine pumps.
    pub fn stream_id(&self) -> (r: &StreamId)
        ensures
            r@ == self@.stream_id,
    {
        &self.stream_id
    }

    /// Stamps one received payload as a frame and addresses it: the frame
    /// carries the payload unmodified and the next sequence number, and
    /// the targets are exactly the outputs of the snapshot's group, which
    /// carries this engine's own identifier.
    pub fn on_frame(&mut self, payload: Vec<u8>, now_ms: u64, snapshot: &StreamGroup) -> (r: (
        RelayFrame,
        Vec<SocketHandle>,
    ))
        requires
            old(self).wf(),
            snapshot@.stream_id == old(self)@.stream_id,
            group_wf(snapshot@),
        ensures
            final(self).wf(),
            final(self)@ == (EngineModel {
                next_sequence: next_seq(old(self)@.next_sequence),
                ..old(self)@
            }),
            r.0@ == (FrameModel {
                stream_id: old(self)@.stream_id,
                payload: payload@,
                sequence: old(self)@.next_sequence,
                received_at_ms: now_ms,
            }),
            r.1@ == fanout_targets(snapshot@),
    {
        let sequence = self.next_sequence;
        self.next_sequence = if self.next_sequence == u64::MAX {
            0
        } else {
            self.next_sequence + 1
        };
        let frame = RelayFrame {
            stream_id: self.stream_id.clone(),
            payload,
            sequence,
            received_at_ms: now_ms,
        };
        let mut targets: Vec<SocketHandle> = Vec::new();
        let mut i: usize = 0;
        while i < snapshot.outputs.len()
            invariant
                0 <= i <= snapshot.outputs.len(),
                targets@ == fanout_targets(snapshot@).take(i as int),
            decreases snapshot.outputs.len() - i,
        {
            let ghost before = targets@;
            targets.push(snapshot.outputs[i].socket);
            proof {
                assert(fanout_targets(snapshot@).take(i + 1) =~= fanout_targets(
                    snapshot@,
                ).take(i as int).push(fanout_targets(snapshot@)[i as int]));
                assert(fanout_targets(snapshot@)[i as int] == snapshot.outputs@[i as int]@.socket);
            }
            i = i + 1;
        }
        proof {
            assert(fanout_targets(snapshot@).take(fanout_targets(snapshot@).len() as int)
                =~= fanout_targets(snapshot@));
            assert(fanout_targets(snapshot@).len() == snapshot.outputs@.len());
        }
        (frame, targets)
    }

    /// The consecutive-failure count on record for `sock`.
    fn count_lookup(&self, sock: SocketHandle) -> (r: u32)
        ensures
            r == count_of(self@.counters, sock),
    {
        let mut i: usize = 0;
        while i < self.counters.len()
            invariant
                0 <= i <= self.counters.len(),
                self@.counters == self.counters@,
                forall|j: int|
                    0 <= j < i ==> !counter_has_socket(sock)(#[trigger] self@.counters[j]),
            decreases self.counters.len() - i,
        {
            if self.counters[i].socket == sock {
                proof {
                    lemma_find_first_some(self@.counters, counter_has_socket(sock), i as int);
                }
                return self.counters[i].failures;
            }
            i = i + 1;
        }
        proof {
            lemma_find_first_none(self@.counters, counter_has_socket(sock));
        }
        0
    }

    /// Books the outcome of one fan-out pass and names the outputs to
    /// evict. The caller deregisters each of them from the registry after
    /// the pass; this engine forgets their counters at once.
    pub fn on_send_results(&mut self, targets: &Vec<SocketHandle>, results: &Vec<bool>) -> (evicted:
        Vec<SocketHandle>)
        requires
            old(self).wf(),
            distinct_sockets(targets@),
            results@.len() == targets@.len(),
        ensures
            final(self).wf(),
            send_results_post(old(self)@, final(self)@, targets@, results@, evicted@),
    {
        let ghost pre = self@;
        let threshold = self.eviction_threshold;
        let mut kept: Vec<OutputHealth> = Vec::new();
        let mut evicted: Vec<SocketHandle> = Vec::new();
        let mut k: usize = 0;
        while k < targets.len()
            invariant
                0 <= k <= targets.len(),
                pre == old(self)@,
                *self == *old(self),
                threshold == pre.eviction_threshold,
                threshold >= 1,
                distinct_sockets(targets@),
                results@.len() == targets@.len(),
                // every kept counter and every eviction belongs to an already
                // processed target, so later targets are still untracked
                forall|j: int, kk: int|
                    #![trigger kept@[j], targets@[kk]]
                    0 <= j < kept@.len() && k <= kk < targets@.len() ==> kept@[j].socket
                        != targets@[kk],
                forall|j: int, kk: int|
                    #![trigger evicted@[j], targets@[kk]]
                    0 <= j < evicted@.len() && k <= kk < targets@.len() ==> evicted@[j]
                        != targets@[kk],
                forall|j: int|
                    0 <= j < kept@.len() ==> targets@.contains((#[trigger] kept@[j]).socket),
                forall|j: int| 0 <= j < evicted@.len() ==> targets@.contains(#[trigger] evicted@[j]),
                // what was decided for the processed prefix
                forall|kk: int|
                    0 <= kk < k ==> {
                        let c2 = updated_count(count_of(pre.counters, targets@[kk]), results@[kk]);
                        if c2 >= threshold {
                            evicted@.contains(#[trigger] targets@[kk]) && count_of(
                                kept@,
                                targets@[kk],
                            ) == 0
                        } else {
                            !evicted@.contains(targets@[kk]) && count_of(kept@, targets@[kk]) == c2
                        }
                    },
                // nothing else is tracked or evicted
                forall|s: SocketHandle|
                    #![trigger count_of(kept@, s)]
                    #![trigger evicted@.contains(s)]
                    !targets@.contains(s) ==> count_of(kept@, s) == 0 && !evicted@.contains(s),
                evicted@.no_duplicates(),
                distinct_counter_sockets(kept@),
            decreases targets.len() - k,
        {
            let sock = targets[k];
            let ghost t_k = targets@[k as int];
            let c_pre = self.count_lookup(sock);
            let ok = results[k];
            let c2: u32 = if ok {
                0
            } else if c_pre == u32::MAX {
                u32::MAX
            } else {
                c_pre + 1
            };
            let ghost kept_before = kept@;
            let ghost evicted_before = evicted@;
            proof {
                assert(c2 == updated_count(count_of(pre.counters, t_k), results@[k as int]));
                assert forall|kk: int| 0 <= kk < targets@.len() && kk != k implies targets@[kk]
                    != t_k by {
                    if kk < k {
                        assert(targets@[kk] != targets@[k as int]);
                    } else {
                        assert(targets@[k as int] != targets@[kk]);
                    }
                }
                assert(forall|j: int|
                    0 <= j < kept_before.len() ==> (#[trigger] kept_before[j]).socket != t_k);
                assert(forall|w: int| 0 <= w < evicted_before.len() ==> evicted_before[w] != t_k);
                lemma_find_first_none(kept_before, counter_has_socket(t_k));
            }
            if !ok && c2 >= threshold {
                evicted.push(sock);
            } else if c2 > 0 {
                kept.push(OutputHealth { socket: sock, failures: c2 });
            }
            proof {
                let entry = OutputHealth { socket: t_k, failures: c2 };
                // the count of the socket processed now, and of every other
                if kept@ != kept_before {
                    assert(kept@ =~= kept_before.push(entry));
                    lemma_find_first_push(kept_before, counter_has_socket(t_k), entry);
                    assert(count_of(kept@, t_k) == c2);
                } else {
                    assert(count_of(kept@, t_k) == 0);
                }
                assert forall|s: SocketHandle| s != t_k implies count_of(kept@, s) == count_of(
                    kept_before,
                    s,
                ) by {
                    if kept@ != kept_before {
                        lemma_find_first_push(kept_before, counter_has_socket(s), entry);
                    }
                }
                // every tracked socket is a target already processed
                assert(targets@.contains(t_k)) by {
                    assert(targets@[k as int] == t_k);
                }
                assert forall|j: int| 0 <= j < kept@.len() implies targets@.contains(
                    (#[trigger] kept@[j]).socket,
                ) by {
                    if j < kept_before.len() {
                        assert(kept@[j] == kept_before[j]);
                    } else {
                        assert(kept@[j].socket == t_k);
                    }
                }
                assert(distinct_counter_sockets(kept@)) by {
                    assert forall|x: int, y: int| 0 <= x < y < kept@.len() implies (
                    #[trigger] kept@[x]).socket != (#[trigger] kept@[y]).socket by {
                        if y < kept_before.len() {
                            assert(kept_before[x].socket != kept_before[y].socket);
                        } else if kept@ != kept_before {
                            assert(kept@[y].socket == t_k);
                            assert(kept@[x] == kept_before[x]);
                        }
                    }
                }
                // what the eviction list now holds
                if evicted@ != evicted_before {
                    assert(evicted@ =~= evicted_before.push(t_k));
                    assert(evicted@.contains(t_k)) by {
                        assert(evicted@[evicted@.len() - 1] == t_k);
                    }
                }
                assert forall|s: SocketHandle| #[trigger] evicted@.contains(s) implies (
                evicted_before.contains(s) || (evicted@ != evicted_before && s == t_k)) by {
                    let w = choose|w: int| 0 <= w < evicted@.len() && evicted@[w] == s;
                    if w < evicted_before.len() {
                        assert(evicted_before[w] == s);
                    } else {
                        assert(evicted@ != evicted_before && evicted@[w] == t_k);
                    }
                }
                assert forall|s: SocketHandle| evicted_before.contains(s) implies
                    evicted@.contains(s) by {
                    let w = choose|w: int| 0 <= w < evicted_before.len() && evicted_before[w] == s;
                    assert(evicted@[w] == s);
                }
                assert forall|j: int| 0 <= j < evicted@.len() implies targets@.contains(
                    #[trigger] evicted@[j],
                ) by {
                    if j < evicted_before.len() {
                        assert(evicted@[j] == evicted_before[j]);
                        assert(evicted_before.contains(evicted_before[j]));
                    } else {
                        assert(evicted@[j] == t_k);
                    }
                }
                assert(evicted@.no_duplicates()) by {
                    assert forall|x: int, y: int| 0 <= x < y < evicted@.len() implies evicted@[x]
                        != evicted@[y] by {
                        if y < evicted_before.len() {
                            assert(evicted_before[x] != evicted_before[y]);
                        } else if evicted@ != evicted_before {
                            assert(evicted@[y] == t_k);
                            assert(evicted@[x] == evicted_before[x]);
                        }
                    }
                }
                // the verdict for every processed target, the new one included
                assert forall|kk: int| 0 <= kk < k + 1 implies ({
                    let c2v = updated_count(count_of(pre.counters, targets@[kk]), results@[kk]);
                    if c2v >= threshold {
                        evicted@.contains(#[trigger] targets@[kk]) && count_of(
                            kept@,
                            targets@[kk],
                        ) == 0
                    } else {
                        !evicted@.contains(targets@[kk]) && count_of(kept@, targets@[kk]) == c2v
                    }
                }) by {
                    if kk == k {
                        assert(targets@[kk] == t_k);
                        if !ok && c2 >= threshold {
                            assert(evicted@.contains(t_k));
                            assert(kept@ == kept_before);
                            assert(count_of(kept@, t_k) == 0);
                        } else {
                            assert(evicted@ == evicted_before);
                            assert(!evicted_before.contains(t_k)) by {
                                if evicted_before.contains(t_k) {
                                    let w = choose|w: int|
                                        0 <= w < evicted_before.len() && evicted_before[w] == t_k;
                                }
                            }
                        }
                    } else {
                        assert(targets@[kk] != t_k);
                        assert(count_of(kept@, targets@[kk]) == count_of(
                            kept_before,
                            targets@[kk],
                        ));
                        let c2v = updated_count(count_of(pre.counters, targets@[kk]), results@[kk]);
                        if c2v >= threshold {
                            assert(evicted_before.contains(targets@[kk]));
                        } else {
                            assert(!evicted@.contains(targets@[kk])) by {
                                if evicted@.contains(targets@[kk]) {
                                    assert(evicted_before.contains(targets@[kk]) || (evicted@
                                        != evicted_before && targets@[kk] == t_k));
                                }
                            }
                        }
                    }
                }
                // sockets outside this pass stay untracked and unevicted
                assert forall|s: SocketHandle| !targets@.contains(s) implies count_of(kept@, s)
                    == 0 && !evicted@.contains(s) by {
                    assert(s != t_k) by {
                        if s == t_k {
                            assert(targets@.contains(s));
                        }
                    }
                    assert(count_of(kept@, s) == count_of(kept_before, s));
                    assert(!evicted@.contains(s)) by {
                        if evicted@.contains(s) {
                            assert(evicted_before.contains(s) || (evicted@ != evicted_before && s
                                == t_k));
                        }
                    }
                }
            }
            k = k + 1;
        }
        self.counters = kept;
        proof {
            assert(send_results_post(pre, self@, targets@, results@, evicted@));
        }
        evicted
    }
}

} // verus!
