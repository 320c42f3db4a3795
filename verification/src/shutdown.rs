//! The shutdown coordinator: `Running -> ShuttingDown -> Stopped`.
//!
//! An external trigger starts the shutdown; every listener and relay task
//! observes the broadcast, closes its sockets and reports completion. The
//! coordinator waits a bounded drain period for those reports; when the
//! drain timer fires first, the tasks still outstanding are handed back
//! for forced abort and the transition to `Stopped` proceeds regardless:
//! shutdown is bounded in wall-clock time and never blocks on a stuck
//! task.

use vstd::prelude::*;

verus! {

/// Identifies one spawned task to the coordinator.
pub type TaskId = u64;

/// Where the process stands in its lifecycle.
#[derive(Debug, Clone, Copy, PartialEq, Eq, Structural)]
pub enum ShutdownPhase {
    /// Serving; listeners accept and relay tasks pump.
    Running,
    /// The trigger fired; tasks are draining.
    ShuttingDown,
    /// Every task has completed or been aborted.
    Stopped,
}

/// The ghost image of the coordinator.
pub struct CoordinatorModel {
    pub phase: ShutdownPhase,
    pub pending: Seq<TaskId>,
}

/// What the trigger does: it only ever moves `Running` to
/// `ShuttingDown`; firing it again, or after the stop, changes nothing.
pub open spec fn trigger_post(pre: CoordinatorModel, post: CoordinatorModel) -> bool {
    &&& post.pending == pre.pending
    &&& post.phase == (if pre.phase is Running {
        ShutdownPhase::ShuttingDown
    } else {
        pre.phase
    })
}

/// What one completion report does: the task leaves the pending set, no
/// other task is touched, and the coordinator stops once it was the last
/// one out during a shutdown.
pub open spec fn task_completed_post(
    pre: CoordinatorModel,
    post: CoordinatorModel,
    id: TaskId,
) -> bool {
    &&& !post.pending.contains(id)
    &&& forall|t: TaskId| t != id ==> post.pending.contains(t) == #[trigger] pre.pending.contains(t)
    &&& post.pending.len() == (if pre.pending.contains(id) {
        pre.pending.len() - 1
    } else {
        pre.pending.len() as int
    })
    &&& post.phase == (if pre.phase is ShuttingDown && post.pending.len() == 0 {
        ShutdownPhase::Stopped
    } else {
        pre.phase
    })
}

/// What the drain timeout does: during a shutdown it stops the process
/// at once, handing back every task still pending for forced abort; in
/// any other phase it changes nothing.
pub open spec fn drain_timeout_post(
    pre: CoordinatorModel,
    post: CoordinatorModel,
    aborted: Seq<TaskId>,
) -> bool {
    if pre.phase is ShuttingDown {
        &&& post.phase == ShutdownPhase::Stopped
        &&& post.pending == Seq::<TaskId>::empty()
        &&& aborted == pre.pending
    } else {
        &&& post == pre
        &&& aborted == Seq::<TaskId>::empty()
    }
}

/// Tracks the lifecycle phase and which tasks have yet to report
/// completion. One instance serves the whole process.
#[derive(Debug)]
pub struct ShutdownCoordinator {
    phase: ShutdownPhase,
    pending: Vec<TaskId>,
}

impl View for ShutdownCoordinator {
    type V = CoordinatorModel;

    closed spec fn view(&self) -> CoordinatorModel {
        CoordinatorModel { phase: self.phase, pending: self.pending@ }
    }
}

impl ShutdownCoordinator {
    /// The coordinator's invariant: no task is tracked twice, and a
    /// stopped process has nothing pending.
    pub open spec fn wf(&self) -> bool {
        &&& self@.pending.no_duplicates()
        &&& self@.phase is Stopped ==> self@.pending.len() == 0
    }

    /// A fresh coordinator: running, nothing pending.
    pub fn new() -> (c: ShutdownCoordinator)
        ensures
            c.wf(),
            c@.phase == ShutdownPhase::Running,
            c@.pending == Seq::<TaskId>::empty(),
    {
        let c = ShutdownCoordinator { phase: ShutdownPhase::Running, pending: Vec::new() };
        proof {
            assert(c@.pending =~= Seq::<TaskId>::empty());
        }
        c
    }

    /// The current phase.
    pub fn phase(&self) -> (r: ShutdownPhase)
        ensures
            r == self@.phase,
    {
        self.phase
    }

    /// How many tasks have yet to report completion.
    pub fn pending_count(&self) -> (r: usize)
        ensures
            r == self@.pending.len(),
    {
        self.pending.len()
    }

    /// Whether `id` is still pending.
    pub fn is_pending(&self, id: TaskId) -> (r: bool)
        ensures
            r == self@.pending.contains(id),
    {
        let mut i: usize = 0;
        while i < self.pending.len()
            invariant
                0 <= i <= self.pending.len(),
                forall|j: int| 0 <= j < i ==> self@.pending[j] != id,
            decreases self.pending.len() - i,
        {
            if self.pending[i] == id {
                proof {
                    assert(self@.pending[i as int] == id);
                }
                return true;
            }
            i = i + 1;
        }
        proof {
            if self@.pending.contains(id) {
                let w = choose|w: int| 0 <= w < self@.pending.len() && self@.pending[w] == id;
            }
        }
        false
    }

    /// Enrolls a spawned task. Task identifiers are handed out once by
    /// the process, so an enrolled identifier is never reused while it is
    /// still pending.
    pub fn register_task(&mut self, id: TaskId)
        requires
            old(self).wf(),
            !old(self)@.pending.contains(id),
            !(old(self)@.phase is Stopped),
        ensures
            final(self).wf(),
            final(self)@.phase == old(self)@.phase,
            final(self)@.pending == old(self)@.pending.push(id),
    {
        self.pending.push(id);
        proof {
            assert(self@.pending.no_duplicates()) by {
                assert forall|x: int, y: int| 0 <= x < y < self@.pending.len() implies self@
                    .pending[x] != self@.pending[y] by {
                    if y < self@.pending.len() - 1 {
                        assert(old(self)@.pending[x] != old(self)@.pending[y]);
                    } else {
                        assert(self@.pending[y] == id);
                        assert(old(self)@.pending.contains(old(self)@.pending[x]));
                    }
                }
            }
        }
    }

    /// Fires the shutdown: `Running` moves to `ShuttingDown`; any other
    /// phase is left as it is.
    pub fn trigger(&mut self)
        requires
            old(self).wf(),
        ensures
            final(self).wf(),
            trigger_post(old(self)@, final(self)@),
    {
        match self.phase {
            ShutdownPhase::Running => {
                self.phase = ShutdownPhase::ShuttingDown;
            },
            _ => {},
        }
    }

    /// Books one task's completion report. During a shutdown, the last
    /// report moves the coordinator to `Stopped`.
    pub fn task_completed(&mut self, id: TaskId)
        requires
            old(self).wf(),
        ensures
            final(self).wf(),
            task_completed_post(old(self)@, final(self)@, id),
    {
        let ghost pre = self@;
        let mut i: usize = 0;
        while i < self.pending.len()
            invariant
                0 <= i <= self.pending.len(),
                *self == *old(self),
                pre == old(self)@,
                old(self).wf(),
                forall|j: int| 0 <= j < i ==> self@.pending[j] != id,
            decreases self.pending.len() - i,
        {
            if self.pending[i] == id {
                proof {
                    assert(pre.pending[i as int] == id);
                }
                self.pending.remove(i);
                proof {
                    assert(self@.pending =~= pre.pending.remove(i as int));
                    assert(!self@.pending.contains(id)) by {
                        if self@.pending.contains(id) {
                            let w = choose|w: int|
                                0 <= w < self@.pending.len() && self@.pending[w] == id;
                            if w < i {
                                assert(pre.pending[w] == id);
                            } else {
                                assert(pre.pending[w + 1] == id);
                            }
                        }
                    }
                    assert forall|t: TaskId| t != id implies self@.pending.contains(t)
                        == pre.pending.contains(t) by {
                        if self@.pending.contains(t) {
                            let w = choose|w: int|
                                0 <= w < self@.pending.len() && self@.pending[w] == t;
                            if w < i {
                                assert(pre.pending[w] == t);
                            } else {
                                assert(pre.pending[w + 1] == t);
                            }
                            assert(pre.pending.contains(t));
                        }
                        if pre.pending.contains(t) {
                            let w = choose|w: int|
                                0 <= w < pre.pending.len() && pre.pending[w] == t;
                            if w < i {
                                assert(self@.pending[w] == t);
                            } else {
                                assert(w != i);
                                assert(self@.pending[w - 1] == t);
                            }
                            assert(self@.pending.contains(t));
                        }
                    }
                    assert(pre.pending.contains(id)) by {
                        assert(pre.pending[i as int] == id);
                    }
                    assert(self@.pending.no_duplicates()) by {
                        assert forall|x: int, y: int|
                            0 <= x < y < self@.pending.len() implies self@.pending[x] != self@
                            .pending[y] by {
                            let px: int = if x < i {
                                x
                            } else {
                                x + 1
                            };
                            let py: int = if y < i {
                                y
                            } else {
                                y + 1
                            };
                            assert(self@.pending[x] == pre.pending[px]);
                            assert(self@.pending[y] == pre.pending[py]);
                        }
                    }
                }
                if self.pending.len() == 0 {
                    match self.phase {
                        ShutdownPhase::ShuttingDown => {
                            self.phase = ShutdownPhase::Stopped;
                        },
                        _ => {},
                    }
                }
                return ;
            }
            i = i + 1;
        }
        proof {
            assert(!pre.pending.contains(id)) by {
                if pre.pending.contains(id) {
                    let w = choose|w: int| 0 <= w < pre.pending.len() && pre.pending[w] == id;
                }
            }
            assert(self@.pending.len() == 0 ==> pre.pending.len() == 0);
        }
        if self.pending.len() == 0 {
            match self.phase {
                ShutdownPhase::ShuttingDown => {
                    self.phase = ShutdownPhase::Stopped;
                },
                _ => {},
            }
        }
    }

    /// Fires the drain timeout: during a shutdown the process stops now,
    /// and the returned tasks are still outstanding and must be aborted
    /// with their sockets closed out from under them.
    pub fn drain_timeout(&mut self) -> (aborted: Vec<TaskId>)
        requires
            old(self).wf(),
        ensures
            final(self).wf(),
            drain_timeout_post(old(self)@, final(self)@, aborted@),
    {
        match self.phase {
            ShutdownPhase::ShuttingDown => {
                self.phase = ShutdownPhase::Stopped;
                let mut aborted: Vec<TaskId> = Vec::new();
                std::mem::swap(&mut aborted, &mut self.pending);
                proof {
                    assert(self@.pending =~= Seq::<TaskId>::empty());
                }
                aborted
            },
            _ => {
                let aborted: Vec<TaskId> = Vec::new();
                proof {
                    assert(aborted@ =~= Seq::<TaskId>::empty());
                }
                aborted
            },
        }
    }
}

/// Along a run of completion reports, a task pending at the start either
/// reported completion or is still pending at the end.
pub proof fn lemma_completions_account(trace: Seq<CoordinatorModel>, completed: Seq<TaskId>)
    requires
        trace.len() >= 1,
        completed.len() == trace.len() - 1,
        forall|i: int|
            0 <= i < trace.len() - 1 ==> task_completed_post(
                trace[i],
                trace[i + 1],
                #[trigger] completed[i],
            ),
    ensures
        forall|t: TaskId|
            #[trigger] trace[0].pending.contains(t) ==> completed.contains(t)
                || trace[trace.len() - 1].pending.contains(t),
    decreases trace.len(),
{
    if trace.len() > 1 {
        let n = trace.len() - 1;
        let sub = trace.take(n);
        let subc = completed.take(n - 1);
        assert forall|i: int| 0 <= i < sub.len() - 1 implies task_completed_post(
            sub[i],
            sub[i + 1],
            #[trigger] subc[i],
        ) by {
            assert(subc[i] == completed[i]);
            assert(sub[i] == trace[i]);
            assert(sub[i + 1] == trace[i + 1]);
        }
        lemma_completions_account(sub, subc);
        assert forall|t: TaskId| #[trigger] trace[0].pending.contains(t) implies completed.contains(
            t,
        ) || trace[trace.len() - 1].pending.contains(t) by {
            assert(sub[0] == trace[0]);
            assert(sub[sub.len() - 1] == trace[n - 1]);
            if subc.contains(t) {
                let w = choose|w: int| 0 <= w < subc.len() && subc[w] == t;
                assert(completed[w] == t);
                assert(completed.contains(t));
            } else if trace[n - 1].pending.contains(t) {
                assert(task_completed_post(trace[n - 1], trace[n], completed[n - 1]));
                if t == completed[n - 1] {
                    assert(completed.contains(t)) by {
                        assert(completed[n - 1] == t);
                    }
                } else {
                    assert(trace[n].pending.contains(t));
                }
            }
        }
    }
}

/// After the trigger, the coordinator is shutting down or already
/// stopped, and once stopped it has nothing pending.
proof fn lemma_phase_stays_down(trace: Seq<CoordinatorModel>, completed: Seq<TaskId>, i: int)
    requires
        trace.len() >= 2,
        completed.len() == trace.len() - 2,
        trace[1].phase is ShuttingDown,
        forall|j: int|
            0 <= j < completed.len() ==> task_completed_post(
                trace[j + 1],
                trace[j + 2],
                #[trigger] completed[j],
            ),
        1 <= i < trace.len(),
    ensures
        trace[i].phase is ShuttingDown || trace[i].phase is Stopped,
        trace[i].phase is Stopped ==> trace[i].pending.len() == 0,
    decreases i,
{
    if i > 1 {
        lemma_phase_stays_down(trace, completed, i - 1);
        assert(task_completed_post(trace[i - 1], trace[i], completed[i - 2]));
    }
}

/// Bounded shutdown: after the trigger, however many completion reports
/// arrive before the drain timeout fires, the timeout leaves the
/// coordinator `Stopped` with nothing pending, and every task pending at
/// the trigger has either reported completion or stands in the aborted
/// set, whose sockets the process then closes out from under them.
pub proof fn lemma_shutdown_bounded(
    trace: Seq<CoordinatorModel>,
    completed: Seq<TaskId>,
    stopped: CoordinatorModel,
    aborted: Seq<TaskId>,
)
    requires
        trace.len() >= 2,
        trace[0].phase is Running,
        trigger_post(trace[0], trace[1]),
        completed.len() == trace.len() - 2,
        forall|i: int|
            0 <= i < completed.len() ==> task_completed_post(
                trace[i + 1],
                trace[i + 2],
                #[trigger] completed[i],
            ),
        drain_timeout_post(trace[trace.len() - 1], stopped, aborted),
    ensures
        stopped.phase is Stopped,
        stopped.pending.len() == 0,
        forall|t: TaskId|
            #[trigger] trace[0].pending.contains(t) ==> completed.contains(t) || aborted.contains(
                t,
            ),
{
    let last = trace[trace.len() - 1];
    assert(trace[1].phase is ShuttingDown);
    lemma_phase_stays_down(trace, completed, trace.len() - 1);
    if last.phase is ShuttingDown {
        assert(stopped.phase is Stopped);
        assert(aborted == last.pending);
    } else {
        // a completion report only stops the coordinator once nothing is
        // pending, so there was nothing left to abort
        assert(last.pending.len() == 0);
        assert(stopped == last);
        assert(aborted =~= last.pending);
    }
    let ctrace = trace.drop_first();
    assert(ctrace[0] == trace[1]);
    assert(ctrace.len() == trace.len() - 1);
    assert forall|i: int| 0 <= i < ctrace.len() - 1 implies task_completed_post(
        ctrace[i],
        ctrace[i + 1],
        #[trigger] completed[i],
    ) by {
        assert(ctrace[i] == trace[i + 1]);
        assert(ctrace[i + 1] == trace[i + 2]);
        assert(task_completed_post(trace[i + 1], trace[i + 2], completed[i]));
    }
    lemma_completions_account(ctrace, completed);
    assert forall|t: TaskId| #[trigger] trace[0].pending.contains(t) implies completed.contains(t)
        || aborted.contains(t) by {
        assert(trace[1].pending == trace[0].pending);
        assert(ctrace[0].pending.contains(t));
        assert(ctrace[ctrace.len() - 1] == last);
        if !completed.contains(t) {
            assert(last.pending.contains(t));
            assert(aborted.contains(t)) by {
                if last.phase is ShuttingDown {
                } else {
                    assert(last.pending.len() == 0);
                }
            }
        }
    }
}

} // verus!
