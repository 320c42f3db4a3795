//! The connection registry: a directory from stream identifier to the one
//! input connection and the set of output connections sharing it.
//!
//! The registry is the single shared structure of the relay. Callers take
//! a lock around each operation and do no socket work while holding it;
//! the relay engine reads immutable snapshots and never keeps a borrow
//! across a blocking call. A group with no members is removed at once: an
//! empty group is garbage, never a valid state.

use vstd::prelude::*;

use crate::connection::ConnModel;
use crate::connection::ConnectionType;
use crate::connection::SocketHandle;
use crate::connection::StreamConnection;
use crate::errors::RelayError;
use crate::search::find_first;
use crate::search::lemma_find_first_characterizes;
use crate::search::lemma_find_first_none;
use crate::search::lemma_find_first_push;
use crate::search::lemma_find_first_remove_match;
use crate::search::lemma_find_first_remove_nomatch;
use crate::search::lemma_find_first_some;
use crate::search::lemma_find_first_update_match;
use crate::search::lemma_find_first_update_nomatch;
use crate::stream_id::StreamId;

verus! {

/// The ghost image of a stream group.
pub struct GroupModel {
    pub stream_id: Seq<u8>,
    pub input: Option<ConnModel>,
    pub outputs: Seq<ConnModel>,
}

/// All connections sharing one stream identifier: at most one input, any
/// number of outputs. Insertion order of the outputs carries no meaning.
#[derive(Debug)]
pub struct StreamGroup {
    pub stream_id: StreamId,
    pub input: Option<StreamConnection>,
    pub outputs: Vec<StreamConnection>,
}

impl View for StreamGroup {
    type V = GroupModel;

    open spec fn view(&self) -> GroupModel {
        GroupModel {
            stream_id: self.stream_id@,
            input: match self.input {
                Some(c) => Some(c@),
                None => None,
            },
            outputs: conns_view(self.outputs@),
        }
    }
}

/// The ghost image of a connection list.
pub open spec fn conns_view(s: Seq<StreamConnection>) -> Seq<ConnModel> {
    s.map_values(|c: StreamConnection| c@)
}

/// The ghost image of a group list.
pub open spec fn groups_view(s: Seq<StreamGroup>) -> Seq<GroupModel> {
    s.map_values(|g: StreamGroup| g@)
}

/// The lookup key of the registry: whether a group carries `id`.
pub open spec fn group_has_id(id: Seq<u8>) -> spec_fn(GroupModel) -> bool {
    |g: GroupModel| g.stream_id == id
}

/// The group registered under `id`, if any.
pub open spec fn find_group(groups: Seq<GroupModel>, id: Seq<u8>) -> Option<GroupModel> {
    find_first(groups, group_has_id(id))
}

/// Whether one of `outs` writes to socket `sock`.
pub open spec fn has_output_socket(outs: Seq<ConnModel>, sock: SocketHandle) -> bool {
    exists|i: int| 0 <= i < outs.len() && (#[trigger] outs[i]).socket == sock
}

/// The position of the output writing to `sock`; meaningful only when
/// `has_output_socket` holds and the sockets of `outs` are distinct.
pub open spec fn output_index(outs: Seq<ConnModel>, sock: SocketHandle) -> int {
    choose|i: int| 0 <= i < outs.len() && (#[trigger] outs[i]).socket == sock
}

/// No two groups share an identifier.
pub open spec fn distinct_group_ids(groups: Seq<GroupModel>) -> bool {
    forall|i: int, j: int|
        0 <= i < j < groups.len() ==> (#[trigger] groups[i]).stream_id != (
        #[trigger] groups[j]).stream_id
}

/// No two outputs of one group share a socket.
pub open spec fn distinct_output_sockets(outs: Seq<ConnModel>) -> bool {
    forall|i: int, j: int|
        0 <= i < j < outs.len() ==> (#[trigger] outs[i]).socket != (#[trigger] outs[j]).socket
}

/// A healthy group: a non-empty identifier, every member carrying exactly
/// that identifier in its proper role, at least one member, and no two
/// outputs on one socket.
pub open spec fn group_wf(g: GroupModel) -> bool {
    &&& g.stream_id.len() > 0
    &&& (g.input matches Some(c) ==> c.stream_id == g.stream_id && c.connection_type
        == ConnectionType::InputStream)
    &&& forall|i: int|
        0 <= i < g.outputs.len() ==> (#[trigger] g.outputs[i]).stream_id == g.stream_id
            && g.outputs[i].connection_type == ConnectionType::OutputStream
    &&& (g.input is Some || g.outputs.len() > 0)
    &&& distinct_output_sockets(g.outputs)
}

/// No output socket is registered under two different groups. The
/// process hands each accepted connection a fresh handle, so this holds
/// of every registry it builds.
pub open spec fn sockets_globally_distinct(groups: Seq<GroupModel>) -> bool {
    forall|i: int, j: int, x: int, y: int|
        0 <= i < groups.len() && 0 <= j < groups.len() && i != j && 0 <= x
            < groups[i].outputs.len() && 0 <= y < groups[j].outputs.len() ==> (
        #[trigger] groups[i].outputs[x]).socket != (#[trigger] groups[j].outputs[y]).socket
}

/// A healthy registry: distinct identifiers, healthy groups.
pub open spec fn registry_inv(groups: Seq<GroupModel>) -> bool {
    &&& distinct_group_ids(groups)
    &&& forall|i: int| 0 <= i < groups.len() ==> group_wf(#[trigger] groups[i])
}

/// Whether a live input is registered under `id`.
pub open spec fn has_live_input(groups: Seq<GroupModel>, id: Seq<u8>) -> bool {
    find_group(groups, id) matches Some(g) && g.input is Some
}

/// The input registered under `id`, if any.
pub open spec fn existing_input(groups: Seq<GroupModel>, id: Seq<u8>) -> Option<ConnModel> {
    match find_group(groups, id) {
        Some(g) => g.input,
        None => None,
    }
}

/// The outputs registered under `id`; none when the group is absent.
pub open spec fn existing_outputs(groups: Seq<GroupModel>, id: Seq<u8>) -> Seq<ConnModel> {
    match find_group(groups, id) {
        Some(g) => g.outputs,
        None => Seq::empty(),
    }
}

/// Every identifier other than `id` resolves to the same group before and
/// after an operation.
pub open spec fn preserves_others(
    pre: Seq<GroupModel>,
    post: Seq<GroupModel>,
    id: Seq<u8>,
) -> bool {
    forall|other: Seq<u8>|
        other != id ==> #[trigger] find_group(post, other) == find_group(pre, other)
}

/// What registering an input does: with no live input under the
/// connection's identifier it becomes the group's input and the group's
/// outputs are untouched; with one already there the registry is unchanged
/// and the caller must close the rejected connection.
pub open spec fn register_input_post(
    pre: Seq<GroupModel>,
    post: Seq<GroupModel>,
    c: ConnModel,
    r: Result<(), RelayError>,
) -> bool {
    match r {
        Ok(_) => {
            &&& !has_live_input(pre, c.stream_id)
            &&& find_group(post, c.stream_id) == Some(
                GroupModel {
                    stream_id: c.stream_id,
                    input: Some(c),
                    outputs: existing_outputs(pre, c.stream_id),
                },
            )
            &&& preserves_others(pre, post, c.stream_id)
        },
        Err(e) => {
            &&& e == RelayError::DuplicateInput
            &&& has_live_input(pre, c.stream_id)
            &&& post == pre
        },
    }
}

/// What registering an output does: it always succeeds; the group is
/// created if absent, the output is appended unless its socket is already
/// a member, and the group's input is untouched.
pub open spec fn register_output_post(
    pre: Seq<GroupModel>,
    post: Seq<GroupModel>,
    c: ConnModel,
) -> bool {
    if has_output_socket(existing_outputs(pre, c.stream_id), c.socket) {
        post == pre
    } else {
        &&& find_group(post, c.stream_id) == Some(
            GroupModel {
                stream_id: c.stream_id,
                input: existing_input(pre, c.stream_id),
                outputs: existing_outputs(pre, c.stream_id).push(c),
            },
        )
        &&& preserves_others(pre, post, c.stream_id)
    }
}

/// What removing the input does: absent group or absent input is a no-op;
/// otherwise the input goes, and a group left with no member goes with it.
pub open spec fn remove_input_post(
    pre: Seq<GroupModel>,
    post: Seq<GroupModel>,
    id: Seq<u8>,
) -> bool {
    match find_group(pre, id) {
        None => post == pre,
        Some(g) => {
            &&& (if g.outputs.len() == 0 {
                find_group(post, id) is None
            } else {
                find_group(post, id) == Some(
                    GroupModel { stream_id: g.stream_id, input: None, outputs: g.outputs },
                )
            })
            &&& preserves_others(pre, post, id)
        },
    }
}

/// What removing an output does: absent group or absent socket is a
/// no-op; otherwise that output goes, and a group left with no member
/// goes with it.
pub open spec fn remove_output_post(
    pre: Seq<GroupModel>,
    post: Seq<GroupModel>,
    id: Seq<u8>,
    sock: SocketHandle,
) -> bool {
    match find_group(pre, id) {
        None => post == pre,
        Some(g) => if !has_output_socket(g.outputs, sock) {
            post == pre
        } else {
            let outs2 = g.outputs.remove(output_index(g.outputs, sock));
            &&& (if g.input is None && outs2.len() == 0 {
                find_group(post, id) is None
            } else {
                find_group(post, id) == Some(
                    GroupModel { stream_id: g.stream_id, input: g.input, outputs: outs2 },
                )
            })
            &&& preserves_others(pre, post, id)
        },
    }
}

/// The concurrency-safe directory from stream identifier to its group.
/// One registry instance serves both listeners and every relay task.
#[derive(Debug)]
pub struct ConnectionRegistry {
    groups: Vec<StreamGroup>,
}

impl View for ConnectionRegistry {
    type V = Seq<GroupModel>;

    closed spec fn view(&self) -> Seq<GroupModel> {
        groups_view(self.groups@)
    }
}

impl ConnectionRegistry {
    /// The registry's invariant.
    pub open spec fn wf(&self) -> bool {
        registry_inv(self@)
    }

    /// An empty registry.
    pub fn new() -> (r: ConnectionRegistry)
        ensures
            r.wf(),
            r@ == Seq::<GroupModel>::empty(),
    {
        let r = ConnectionRegistry { groups: Vec::new() };
        proof {
            assert(r@ =~= Seq::<GroupModel>::empty());
        }
        r
    }

    /// The position of the group registered under `id`, if any.
    fn position_of(&self, id: &StreamId) -> (r: Option<usize>)
        ensures
            match r {
                Some(i) => i < self@.len() && self@[i as int].stream_id == id@ && forall|j: int|
                    0 <= j < i ==> (#[trigger] self@[j]).stream_id != id@,
                None => forall|j: int| 0 <= j < self@.len() ==> (#[trigger] self@[j]).stream_id != id@,
            },
    {
        let mut i: usize = 0;
        while i < self.groups.len()
            invariant
                0 <= i <= self.groups.len(),
                self@ == groups_view(self.groups@),
                forall|j: int| 0 <= j < i ==> (#[trigger] self@[j]).stream_id != id@,
            decreases self.groups.len() - i,
        {
            if self.groups[i].stream_id == *id {
                return Some(i);
            }
            i = i + 1;
        }
        None
    }

    /// Registers the one input of its identifier's group; a second live
    /// input for the same identifier is rejected, not silently replaced,
    /// and the existing input is not disturbed.
    pub fn register_input(&mut self, conn: StreamConnection) -> (r: Result<(), RelayError>)
        requires
            old(self).wf(),
            conn.wf(),
            conn.connection_type == ConnectionType::InputStream,
        ensures
            final(self).wf(),
            register_input_post(old(self)@, final(self)@, conn@, r),
    {
        let ghost pre = self@;
        let ghost c = conn@;
        match self.position_of(&conn.stream_id) {
            None => {
                proof {
                    lemma_find_first_none(pre, group_has_id(c.stream_id));
                }
                let g = StreamGroup {
                    stream_id: conn.stream_id.clone(),
                    input: Some(conn),
                    outputs: Vec::new(),
                };
                proof {
                    assert(g@.outputs =~= Seq::<ConnModel>::empty());
                }
                self.groups.push(g);
                proof {
                    assert(self@ =~= pre.push(g@));
                    lemma_find_first_push(pre, group_has_id(c.stream_id), g@);
                    assert(existing_outputs(pre, c.stream_id) =~= g@.outputs);
                    assert forall|other: Seq<u8>| other != c.stream_id implies #[trigger]
                    find_group(self@, other) == find_group(pre, other) by {
                        lemma_find_first_push(pre, group_has_id(other), g@);
                    }
                }
                Ok(())
            },
            Some(i) => {
                proof {
                    lemma_find_first_some(pre, group_has_id(c.stream_id), i as int);
                }
                if self.groups[i].input.is_some() {
                    return Err(RelayError::DuplicateInput);
                }
                let mut g = self.groups.remove(i);
                g.input = Some(conn);
                let ghost g2 = g@;
                self.groups.insert(i, g);
                proof {
                    assert(self@ =~= pre.update(i as int, g2));
                    lemma_find_first_update_match(pre, group_has_id(c.stream_id), i as int, g2);
                    assert(g2.outputs == existing_outputs(pre, c.stream_id));
                    assert forall|other: Seq<u8>| other != c.stream_id implies #[trigger]
                    find_group(self@, other) == find_group(pre, other) by {
                        lemma_find_first_update_nomatch(pre, group_has_id(other), i as int, g2);
                    }
                }
                Ok(())
            },
        }
    }

    /// Registers an output under its identifier; always succeeds, creating
    /// the group when it is absent. Registering a socket that is already a
    /// member of the group changes nothing.
    pub fn register_output(&mut self, conn: StreamConnection)
        requires
            old(self).wf(),
            conn.wf(),
            conn.connection_type == ConnectionType::OutputStream,
        ensures
            final(self).wf(),
            register_output_post(old(self)@, final(self)@, conn@),
    {
        let ghost pre = self@;
        let ghost c = conn@;
        match self.position_of(&conn.stream_id) {
            None => {
                proof {
                    lemma_find_first_none(pre, group_has_id(c.stream_id));
                }
                let mut outputs: Vec<StreamConnection> = Vec::new();
                outputs.push(conn);
                let g = StreamGroup { stream_id: outputs[0].stream_id.clone(), input: None, outputs };
                proof {
                    assert(g@.outputs =~= Seq::<ConnModel>::empty().push(c));
                    assert(existing_outputs(pre, c.stream_id) =~= Seq::<ConnModel>::empty());
                }
                self.groups.push(g);
                proof {
                    assert(self@ =~= pre.push(g@));
                    lemma_find_first_push(pre, group_has_id(c.stream_id), g@);
                    assert(existing_outputs(pre, c.stream_id).push(c) =~= g@.outputs);
                    assert forall|other: Seq<u8>| other != c.stream_id implies #[trigger]
                    find_group(self@, other) == find_group(pre, other) by {
                        lemma_find_first_push(pre, group_has_id(other), g@);
                    }
                }
            },
            Some(i) => {
                proof {
                    lemma_find_first_some(pre, group_has_id(c.stream_id), i as int);
                }
                if Self::socket_member(&self.groups[i].outputs, conn.socket) {
                    return ;
                }
                let mut g = self.groups.remove(i);
                let ghost old_outs = g@.outputs;
                g.outputs.push(conn);
                let ghost g2 = g@;
                self.groups.insert(i, g);
                proof {
                    assert(g2.outputs =~= old_outs.push(c));
                    assert(self@ =~= pre.update(i as int, g2));
                    lemma_find_first_update_match(pre, group_has_id(c.stream_id), i as int, g2);
                    assert forall|other: Seq<u8>| other != c.stream_id implies #[trigger]
                    find_group(self@, other) == find_group(pre, other) by {
                        lemma_find_first_update_nomatch(pre, group_has_id(other), i as int, g2);
                    }
                }
            },
        }
    }

    /// Whether one of `outs` writes to socket `sock`.
    fn socket_member(outs: &Vec<StreamConnection>, sock: SocketHandle) -> (r: bool)
        ensures
            r == has_output_socket(conns_view(outs@), sock),
    {
        let mut i: usize = 0;
        while i < outs.len()
            invariant
                0 <= i <= outs.len(),
                forall|j: int| 0 <= j < i ==> (#[trigger] conns_view(outs@)[j]).socket != sock,
            decreases outs.len() - i,
        {
            if outs[i].socket == sock {
                proof {
                    assert(conns_view(outs@)[i as int].socket == sock);
                }
                return true;
            }
            i = i + 1;
        }
        false
    }

    /// The position of the output writing to `sock`, if any.
    fn output_position(outs: &Vec<StreamConnection>, sock: SocketHandle) -> (r: Option<usize>)
        ensures
            match r {
                Some(k) => k < outs@.len() && conns_view(outs@)[k as int].socket == sock,
                None => !has_output_socket(conns_view(outs@), sock),
            },
    {
        let mut i: usize = 0;
        while i < outs.len()
            invariant
                0 <= i <= outs.len(),
                forall|j: int| 0 <= j < i ==> (#[trigger] conns_view(outs@)[j]).socket != sock,
            decreases outs.len() - i,
        {
            if outs[i].socket == sock {
                return Some(i);
            }
            i = i + 1;
        }
        None
    }

    /// Removes the input registered under `id`. Idempotent: an absent
    /// group or an absent input is a no-op, not an error. A group left
    /// with no member is deleted.
    pub fn remove_input(&mut self, id: &StreamId)
        requires
            old(self).wf(),
        ensures
            final(self).wf(),
            remove_input_post(old(self)@, final(self)@, id@),
    {
        let ghost pre = self@;
        match self.position_of(id) {
            None => {
                proof {
                    lemma_find_first_none(pre, group_has_id(id@));
                }
            },
            Some(i) => {
                proof {
                    lemma_find_first_some(pre, group_has_id(id@), i as int);
                }
                if self.groups[i].outputs.len() == 0 {
                    self.groups.remove(i);
                    proof {
                        assert(self@ =~= pre.remove(i as int));
                        lemma_find_first_remove_match(pre, group_has_id(id@), i as int);
                        assert forall|other: Seq<u8>| other != id@ implies #[trigger]
                        find_group(self@, other) == find_group(pre, other) by {
                            lemma_find_first_remove_nomatch(pre, group_has_id(other), i as int);
                        }
                    }
                } else {
                    let mut g = self.groups.remove(i);
                    g.input = None;
                    let ghost g2 = g@;
                    self.groups.insert(i, g);
                    proof {
                        assert(self@ =~= pre.update(i as int, g2));
                        lemma_find_first_update_match(pre, group_has_id(id@), i as int, g2);
                        assert forall|other: Seq<u8>| other != id@ implies #[trigger]
                        find_group(self@, other) == find_group(pre, other) by {
                            lemma_find_first_update_nomatch(pre, group_has_id(other), i as int, g2);
                        }
                    }
                }
            },
        }
    }

    /// Removes the output writing to `sock` from the group under `id`.
    /// Idempotent: an absent group or socket is a no-op, not an error. A
    /// group left with no member is deleted.
    pub fn remove_output(&mut self, id: &StreamId, sock: SocketHandle)
        requires
            old(self).wf(),
        ensures
            final(self).wf(),
            remove_output_post(old(self)@, final(self)@, id@, sock),
    {
        let ghost pre = self@;
        match self.position_of(id) {
            None => {
                proof {
                    lemma_find_first_none(pre, group_has_id(id@));
                }
            },
            Some(i) => {
                proof {
                    lemma_find_first_some(pre, group_has_id(id@), i as int);
                }
                let ghost g_pre = pre[i as int];
                match Self::output_position(&self.groups[i].outputs, sock) {
                    None => {},
                    Some(k) => {
                        proof {
                            assert(has_output_socket(g_pre.outputs, sock));
                            assert(output_index(g_pre.outputs, sock) == k as int) by {
                                let ki = output_index(g_pre.outputs, sock);
                                assert(0 <= ki < g_pre.outputs.len() && g_pre.outputs[ki].socket
                                    == sock);
                            }
                        }
                        let mut g = self.groups.remove(i);
                        g.outputs.remove(k);
                        let ghost g2 = g@;
                        proof {
                            assert(g2.outputs =~= g_pre.outputs.remove(k as int));
                        }
                        if g.outputs.len() == 0 && g.input.is_none() {
                            proof {
                                assert(self@ =~= pre.remove(i as int));
                                lemma_find_first_remove_match(pre, group_has_id(id@), i as int);
                                assert forall|other: Seq<u8>| other != id@ implies #[trigger]
                                find_group(self@, other) == find_group(pre, other) by {
                                    lemma_find_first_remove_nomatch(
                                        pre,
                                        group_has_id(other),
                                        i as int,
                                    );
                                }
                            }
                        } else {
                            self.groups.insert(i, g);
                            proof {
                                assert(self@ =~= pre.update(i as int, g2));
                                lemma_find_first_update_match(pre, group_has_id(id@), i as int, g2);
                                assert forall|other: Seq<u8>| other != id@ implies #[trigger]
                                find_group(self@, other) == find_group(pre, other) by {
                                    lemma_find_first_update_nomatch(
                                        pre,
                                        group_has_id(other),
                                        i as int,
                                        g2,
                                    );
                                }
                            }
                        }
                    },
                }
            },
        }
    }

    /// An immutable copy of the group under `id`, so the relay engine
    /// never holds the registry lock while doing socket work.
    pub fn lookup(&self, id: &StreamId) -> (r: Option<StreamGroup>)
        requires
            self.wf(),
        ensures
            match r {
                Some(g) => find_group(self@, id@) == Some(g@) && group_wf(g@),
                None => find_group(self@, id@) is None,
            },
    {
        match self.position_of(id) {
            None => {
                proof {
                    lemma_find_first_none(self@, group_has_id(id@));
                }
                None
            },
            Some(i) => {
                proof {
                    lemma_find_first_some(self@, group_has_id(id@), i as int);
                }
                Some(Self::clone_group(&self.groups[i]))
            },
        }
    }

    /// How many groups are live.
    pub fn group_count(&self) -> (r: usize)
        ensures
            r == self@.len(),
    {
        self.groups.len()
    }

    /// A deep copy of one group.
    fn clone_group(g: &StreamGroup) -> (r: StreamGroup)
        ensures
            r@ == g@,
    {
        let input = match &g.input {
            Some(c) => Some(c.clone()),
            None => None,
        };
        let mut outputs: Vec<StreamConnection> = Vec::new();
        let mut i: usize = 0;
        while i < g.outputs.len()
            invariant
                0 <= i <= g.outputs.len(),
                conns_view(outputs@) == conns_view(g.outputs@).take(i as int),
            decreases g.outputs.len() - i,
        {
            let ghost before = conns_view(outputs@);
            outputs.push(g.outputs[i].clone());
            proof {
                assert(conns_view(outputs@) =~= before.push(g.outputs@[i as int]@));
                assert(conns_view(g.outputs@).take(i + 1) =~= conns_view(g.outputs@).take(
                    i as int,
                ).push(g.outputs@[i as int]@));
            }
            i = i + 1;
        }
        let r = StreamGroup { stream_id: g.stream_id.clone(), input, outputs };
        proof {
            assert(conns_view(g.outputs@).take(g.outputs@.len() as int) =~= conns_view(
                g.outputs@,
            ));
            assert(r@ == g@);
        }
        r
    }
}

/// A group the registry hands out is healthy and carries the identifier
/// it was looked up under.
pub proof fn lemma_found_group_wf(groups: Seq<GroupModel>, id: Seq<u8>)
    requires
        registry_inv(groups),
    ensures
        match find_group(groups, id) {
            Some(g) => group_wf(g) && g.stream_id == id,
            None => true,
        },
{
    lemma_find_first_characterizes(groups, group_has_id(id));
    match find_group(groups, id) {
        Some(g) => {
            let i = choose|i: int| 0 <= i < groups.len() && groups[i] == g;
            assert(group_wf(groups[i]));
        },
        None => {},
    }
}

} // verus!
