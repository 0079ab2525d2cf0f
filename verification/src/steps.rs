//! The Steps scheduler: stages run strictly in declared order; a stage
//! starts only once the stage before it is complete, and within a stage
//! every step with a satisfied guard runs in parallel while the rest are
//! skipped.

use vstd::prelude::*;

use crate::errors::PhaseError;
use crate::node::NodeStatus;
use crate::phase::NodePhase;
use crate::template::WorkflowStep;

verus! {

/// What starting a stage asks the engine to do with one step of it.
#[derive(Clone, Copy, Debug, PartialEq, Eq, Structural)]
pub enum StepAction {
    /// Materialize the step's node as `Pending` and create its handle.
    Dispatch(usize),
    /// Record the step's node as `Skipped`: its guard named a step that
    /// did not succeed, so its dependency was never satisfied.
    Skip(usize),
}

/// Scheduler state for one invocation of a steps template. `phases[j][k]`
/// is the observed phase of step `k` of stage `j`, `None` until a node
/// exists. `cursor` is the first stage that is not yet complete.
#[derive(Clone, Debug, PartialEq, Eq)]
pub struct StepsScheduler {
    pub stages: Vec<Vec<WorkflowStep>>,
    pub phases: Vec<Vec<Option<NodePhase>>>,
    pub cursor: usize,
    /// The template's `parallelism`: the most nodes of this invocation
    /// allowed to run at once, `None` for no limit.
    pub parallelism: Option<u32>,
}

/// How many nodes of a stage are `Running`.
pub open spec fn count_running(row: Seq<Option<NodePhase>>) -> int
    decreases row.len(),
{
    if row.len() == 0 {
        0
    } else {
        count_running(row.drop_last()) + if row.last() == Some(NodePhase::Running) {
            1int
        } else {
            0
        }
    }
}

proof fn lemma_count_running_update(row: Seq<Option<NodePhase>>, k: int, v: Option<NodePhase>)
    requires
        0 <= k < row.len(),
    ensures
        count_running(row.update(k, v)) == count_running(row) - (if row[k] == Some(
            NodePhase::Running,
        ) {
            1int
        } else {
            0
        }) + (if v == Some(NodePhase::Running) {
            1int
        } else {
            0
        }),
    decreases row.len(),
{
    if k == row.len() - 1 {
        assert(row.update(k, v).drop_last() =~= row.drop_last());
    } else {
        assert(row.update(k, v).drop_last() =~= row.drop_last().update(k, v));
        lemma_count_running_update(row.drop_last(), k, v);
    }
}

proof fn lemma_count_running_zero(row: Seq<Option<NodePhase>>)
    requires
        forall|k: int| 0 <= k < row.len() ==> (#[trigger] row[k]) != Some(NodePhase::Running),
    ensures
        count_running(row) == 0,
    decreases row.len(),
{
    if row.len() > 0 {
        lemma_count_running_zero(row.drop_last());
    }
}

impl StepsScheduler {
    /// Every node of stage `j` exists and is terminal.
    pub open spec fn spec_stage_complete(self, j: int) -> bool {
        forall|k: int|
            0 <= k < self.phases@[j]@.len() ==> match #[trigger] self.phases@[j]@[k] {
                Some(p) => p.spec_is_terminal(),
                None => false,
            }
    }

    /// No node of stage `j` exists yet.
    pub open spec fn spec_stage_untouched(self, j: int) -> bool {
        forall|k: int| 0 <= k < self.phases@[j]@.len() ==> (#[trigger] self.phases@[j]@[k]) is None
    }

    /// Every node of stage `j` exists.
    pub open spec fn spec_stage_materialized(self, j: int) -> bool {
        forall|k: int| 0 <= k < self.phases@[j]@.len() ==> (#[trigger] self.phases@[j]@[k]) is Some
    }

    /// The shape and ordering invariant: phases mirror the stages; every
    /// stage before the cursor is complete; every stage after it has no
    /// node at all — stages never pipeline; the cursor's own stage is
    /// either untouched or materialized as a whole.
    pub open spec fn wf(self) -> bool {
        &&& self.phases@.len() == self.stages@.len()
        &&& forall|j: int|
            0 <= j < self.stages@.len() ==> (#[trigger] self.phases@[j])@.len()
                == self.stages@[j]@.len()
        &&& self.cursor <= self.stages@.len()
        &&& forall|j: int| 0 <= j < self.cursor ==> self.spec_stage_complete(j)
        &&& forall|j: int|
            self.cursor < j < self.stages@.len() ==> self.spec_stage_untouched(j)
        &&& self.cursor < self.stages@.len() ==> (self.spec_stage_untouched(self.cursor as int)
            || self.spec_stage_materialized(self.cursor as int))
        &&& match self.parallelism {
            Some(p) => self.cursor < self.stages@.len() ==> count_running(
                self.phases@[self.cursor as int]@,
            ) <= p,
            None => true,
        }
    }

    /// Some step named `name`, in any stage, reached `Succeeded`.
    pub open spec fn spec_step_succeeded(self, name: Seq<char>) -> bool {
        exists|j: int, k: int|
            0 <= j < self.stages@.len() && 0 <= k < self.stages@[j]@.len()
                && (#[trigger] self.stages@[j]@[k]).name@ == name && self.phases@[j]@[k] == Some(
                NodePhase::Succeeded,
            )
    }

    /// The guard of step `k` of stage `j` holds: every step its guard
    /// requires has succeeded.
    pub open spec fn spec_guard_ok(self, j: int, k: int) -> bool {
        forall|n: int|
            0 <= n < self.stages@[j]@[k].requires_success_of@.len() ==> self.spec_step_succeeded(
                (#[trigger] self.stages@[j]@[k].requires_success_of@[n])@,
            )
    }

    /// A fresh scheduler: no node exists, the first stage is next.
    pub fn new(stages: Vec<Vec<WorkflowStep>>, parallelism: Option<u32>) -> (r: StepsScheduler)
        ensures
            r.stages == stages,
            r.cursor == 0,
            r.parallelism == parallelism,
            r.wf(),
            forall|j: int| 0 <= j < stages@.len() ==> r.spec_stage_untouched(j),
    {
        let mut phases: Vec<Vec<Option<NodePhase>>> = Vec::new();
        let mut j: usize = 0;
        while j < stages.len()
            invariant
                j <= stages@.len(),
                phases@.len() == j,
                forall|i: int| 0 <= i < j ==> (#[trigger] phases@[i])@.len() == stages@[i]@.len(),
                forall|i: int, k: int|
                    0 <= i < j && 0 <= k < phases@[i]@.len() ==> (#[trigger] phases@[i]@[k]) is None,
            decreases stages@.len() - j,
        {
            let mut row: Vec<Option<NodePhase>> = Vec::new();
            let mut k: usize = 0;
            let n = stages[j].len();
            while k < n
                invariant
                    k <= n,
                    row@.len() == k,
                    forall|i: int| 0 <= i < k ==> (#[trigger] row@[i]) is None,
                decreases n - k,
            {
                row.push(None);
                k = k + 1;
            }
            phases.push(row);
            j = j + 1;
        }
        proof {
            if stages@.len() > 0 {
                lemma_count_running_zero(phases@[0]@);
            }
        }
        StepsScheduler { stages, phases, cursor: 0, parallelism }
    }

    /// Did a step of this name reach `Succeeded`, anywhere?
    fn find_succeeded(&self, name: &String) -> (r: bool)
        requires
            self.wf(),
        ensures
            r == self.spec_step_succeeded(name@),
    {
        let mut j: usize = 0;
        while j < self.stages.len()
            invariant
                self.wf(),
                j <= self.stages@.len(),
                forall|i: int, k: int|
                    0 <= i < j && 0 <= k < self.stages@[i]@.len() ==> !((
                    #[trigger] self.stages@[i]@[k]).name@ == name@ && self.phases@[i]@[k] == Some(
                        NodePhase::Succeeded,
                    )),
            decreases self.stages@.len() - j,
        {
            let row = &self.stages[j];
            let mut k: usize = 0;
            while k < row.len()
                invariant
                    self.wf(),
                    j < self.stages@.len(),
                    row == &self.stages@[j as int],
                    k <= row@.len(),
                    forall|i: int|
                        0 <= i < k ==> !((#[trigger] self.stages@[j as int]@[i]).name@ == name@
                            && self.phases@[j as int]@[i] == Some(NodePhase::Succeeded)),
                decreases row@.len() - k,
            {
                if row[k].name.eq(name) {
                    match self.phases[j][k] {
                        Some(p) => if p == NodePhase::Succeeded {
                            assert(self.stages@[j as int]@[k as int].name@ == name@
                                && self.phases@[j as int]@[k as int] == Some(NodePhase::Succeeded));
                            return true;
                        },
                        None => {},
                    }
                }
                k = k + 1;
            }
            j = j + 1;
        }
        false
    }

    /// Does the guard of step `k` of the cursor's stage hold?
    fn check_guard(&self, k: usize) -> (r: bool)
        requires
            self.wf(),
            self.cursor < self.stages@.len(),
            k < self.stages@[self.cursor as int]@.len(),
        ensures
            r == self.spec_guard_ok(self.cursor as int, k as int),
    {
        let needs = &self.stages[self.cursor][k].requires_success_of;
        let mut n: usize = 0;
        while n < needs.len()
            invariant
                self.wf(),
                self.cursor < self.stages@.len(),
                k < self.stages@[self.cursor as int]@.len(),
                needs == &self.stages@[self.cursor as int]@[k as int].requires_success_of,
                n <= needs@.len(),
                forall|i: int|
                    0 <= i < n ==> self.spec_step_succeeded((#[trigger] needs@[i])@),
            decreases needs@.len() - n,
        {
            if !self.find_succeeded(&needs[n]) {
                return false;
            }
            n = n + 1;
        }
        true
    }

    /// Start the cursor's stage: every step whose guard holds is
    /// dispatched `Pending`, every other step is `Skipped` at once — its
    /// dependency was never satisfied. The `k`-th action is about the
    /// `k`-th step, so the whole stage is materialized in one tick, in
    /// parallel, and no earlier stage is touched.
    pub fn start_next_stage(&mut self) -> (acts: Vec<StepAction>)
        requires
            old(self).wf(),
            old(self).cursor < old(self).stages@.len(),
            old(self).spec_stage_untouched(old(self).cursor as int),
        ensures
            final(self).wf(),
            final(self).stages == old(self).stages,
            final(self).cursor == old(self).cursor,
            final(self).parallelism == old(self).parallelism,
            final(self).spec_stage_materialized(old(self).cursor as int),
            forall|j: int|
                0 <= j < old(self).phases@.len() && j != old(self).cursor ==> (
                #[trigger] final(self).phases@[j]) == old(self).phases@[j],
            acts@.len() == old(self).stages@[old(self).cursor as int]@.len(),
            forall|k: int|
                0 <= k < acts@.len() ==> (#[trigger] acts@[k]) == (
                if old(self).spec_guard_ok(old(self).cursor as int, k) {
                    StepAction::Dispatch(k as usize)
                } else {
                    StepAction::Skip(k as usize)
                }),
            forall|k: int|
                0 <= k < acts@.len() ==> final(self).phases@[old(self).cursor as int]@[k] == (
                if old(self).spec_guard_ok(old(self).cursor as int, k) {
                    Some(NodePhase::Pending)
                } else {
                    Some(NodePhase::Skipped)
                }),
    {
        let cur = self.cursor;
        let n = self.stages[cur].len();
        let mut row: Vec<Option<NodePhase>> = Vec::new();
        let mut acts: Vec<StepAction> = Vec::new();
        let mut k: usize = 0;
        while k < n
            invariant
                *self == *old(self),
                old(self).wf(),
                cur == old(self).cursor,
                cur < self.stages@.len(),
                n == self.stages@[cur as int]@.len(),
                k <= n,
                row@.len() == k,
                acts@.len() == k,
                forall|i: int|
                    0 <= i < k ==> (#[trigger] row@[i]) == (
                    if old(self).spec_guard_ok(cur as int, i) {
                        Some(NodePhase::Pending)
                    } else {
                        Some(NodePhase::Skipped)
                    }),
                forall|i: int|
                    0 <= i < k ==> (#[trigger] acts@[i]) == (
                    if old(self).spec_guard_ok(cur as int, i) {
                        StepAction::Dispatch(i as usize)
                    } else {
                        StepAction::Skip(i as usize)
                    }),
            decreases n - k,
        {
            if self.check_guard(k) {
                row.push(Some(NodePhase::Pending));
                acts.push(StepAction::Dispatch(k));
            } else {
                row.push(Some(NodePhase::Skipped));
                acts.push(StepAction::Skip(k));
            }
            k = k + 1;
        }
        proof {
            assert forall|i: int| 0 <= i < row@.len() implies (#[trigger] row@[i]) != Some(
                NodePhase::Running,
            ) by {}
            lemma_count_running_zero(row@);
        }
        self.phases.set(cur, row);
        proof {
            assert(final(self).phases@ =~= old(self).phases@.update(
                cur as int,
                final(self).phases@[cur as int],
            ));
            assert forall|j: int| 0 <= j < final(self).cursor implies final(self)
                .spec_stage_complete(j) by {
                assert(old(self).spec_stage_complete(j));
                assert(final(self).phases@[j] == old(self).phases@[j]);
            }
            assert forall|j: int|
                final(self).cursor < j < final(self).stages@.len() implies final(self)
                .spec_stage_untouched(j) by {
                assert(old(self).spec_stage_untouched(j));
                assert(final(self).phases@[j] == old(self).phases@[j]);
            }
        }
        acts
    }

    /// The engine observed (or decided) a phase change of step `k` of the
    /// cursor's stage: step it through the state machine. Refused outside
    /// the transition relation, and a node may newly enter `Running` only
    /// while fewer than `parallelism` nodes run — excess runnable nodes
    /// stay `Pending` until a slot frees up.
    pub fn advance_step(&mut self, k: usize, to: NodePhase) -> (r: Result<(), PhaseError>)
        requires
            old(self).wf(),
            old(self).cursor < old(self).stages@.len(),
            k < old(self).stages@[old(self).cursor as int]@.len(),
        ensures
            final(self).wf(),
            final(self).stages == old(self).stages,
            final(self).cursor == old(self).cursor,
            final(self).parallelism == old(self).parallelism,
            r is Ok <==> (old(self).phases@[old(self).cursor as int]@[k as int] matches Some(cur)
                && cur.spec_can_step_to(to) && (to == NodePhase::Running && cur
                != NodePhase::Running ==> (match old(self).parallelism {
                Some(p) => count_running(old(self).phases@[old(self).cursor as int]@) < p,
                None => true,
            }))),
            r is Ok ==> final(self).phases@[old(self).cursor as int]@ == old(self).phases@[
                old(self).cursor as int
            ]@.update(k as int, Some(to)) && forall|j: int|
                0 <= j < old(self).phases@.len() && j != old(self).cursor ==> (
                #[trigger] final(self).phases@[j]) == old(self).phases@[j],
            r is Err ==> *final(self) == *old(self) && r == Err::<(), PhaseError>(
                PhaseError::IllegalTransition,
            ),
    {
        let cur = self.cursor;
        let slots_free = match self.parallelism {
            Some(limit) => (self.running_in_stage() as u64) < (limit as u64),
            None => true,
        };
        let allowed = match self.phases[cur][k] {
            Some(p) => p.can_step_to(to) && (!(to == NodePhase::Running && p
                != NodePhase::Running) || slots_free),
            None => false,
        };
        if allowed {
            let ghost pre = *self;
            let row = &mut self.phases[cur];
            row.set(k, Some(to));
            proof {
                assert(self.phases@ =~= pre.phases@.update(cur as int, self.phases@[cur as int]));
                assert(self.phases@[cur as int]@ =~= pre.phases@[cur as int]@.update(
                    k as int,
                    Some(to),
                ));
                assert forall|j: int| 0 <= j < self.cursor implies self.spec_stage_complete(j) by {
                    assert(pre.spec_stage_complete(j));
                    assert(self.phases@[j] == pre.phases@[j]);
                }
                assert forall|j: int|
                    self.cursor < j < self.stages@.len() implies self.spec_stage_untouched(j) by {
                    assert(pre.spec_stage_untouched(j));
                    assert(self.phases@[j] == pre.phases@[j]);
                }
                assert(self.spec_stage_materialized(cur as int)) by {
                    assert(pre.phases@[cur as int]@[k as int] is Some);
                    assert(!pre.spec_stage_untouched(cur as int));
                    assert(pre.spec_stage_materialized(cur as int));
                }
                lemma_count_running_update(pre.phases@[cur as int]@, k as int, Some(to));
            }
            Ok(())
        } else {
            Err(PhaseError::IllegalTransition)
        }
    }

    /// How many nodes of the cursor's stage are `Running` right now?
    pub fn running_in_stage(&self) -> (r: usize)
        requires
            self.wf(),
            self.cursor < self.stages@.len(),
        ensures
            r == count_running(self.phases@[self.cursor as int]@),
    {
        let cur = self.cursor;
        let n = self.phases[cur].len();
        let mut count: usize = 0;
        let mut k: usize = 0;
        while k < n
            invariant
                self.wf(),
                cur == self.cursor,
                cur < self.stages@.len(),
                n == self.phases@[cur as int]@.len(),
                k <= n,
                count == count_running(self.phases@[cur as int]@.take(k as int)),
                count <= k,
            decreases n - k,
        {
            proof {
                assert(self.phases@[cur as int]@.take(k + 1).drop_last() =~= self.phases@[cur
                    as int]@.take(k as int));
                assert(self.phases@[cur as int]@.take(k + 1).last() == self.phases@[cur
                    as int]@[k as int]);
            }
            let is_running = match self.phases[cur][k] {
                Some(p) => p == NodePhase::Running,
                None => false,
            };
            if is_running {
                count = count + 1;
            }
            k = k + 1;
        }
        proof {
            assert(self.phases@[cur as int]@.take(n as int) =~= self.phases@[cur as int]@);
        }
        count
    }

    /// Is the cursor's stage complete — every node terminal?
    pub fn stage_complete(&self) -> (r: bool)
        requires
            self.wf(),
            self.cursor < self.stages@.len(),
        ensures
            r == self.spec_stage_complete(self.cursor as int),
    {
        let cur = self.cursor;
        let n = self.stages[cur].len();
        let mut k: usize = 0;
        while k < n
            invariant
                self.wf(),
                cur == self.cursor,
                cur < self.stages@.len(),
                n == self.phases@[cur as int]@.len(),
                k <= n,
                forall|i: int|
                    0 <= i < k ==> match #[trigger] self.phases@[cur as int]@[i] {
                        Some(p) => p.spec_is_terminal(),
                        None => false,
                    },
            decreases n - k,
        {
            let done = match self.phases[cur][k] {
                Some(p) => p.is_terminal(),
                None => false,
            };
            if !done {
                return false;
            }
            k = k + 1;
        }
        true
    }

    /// Once the cursor's stage is complete, move to the next: only then
    /// may a later stage ever start — no partial pipelining across
    /// stages.
    pub fn advance_stage(&mut self)
        requires
            old(self).wf(),
            old(self).cursor < old(self).stages@.len(),
            old(self).spec_stage_complete(old(self).cursor as int),
        ensures
            final(self).wf(),
            final(self).stages == old(self).stages,
            final(self).phases == old(self).phases,
            final(self).cursor == old(self).cursor + 1,
    {
        let n = self.stages.len();
        if self.cursor < n {
            self.cursor = self.cursor + 1;
        }
        proof {
            assert forall|j: int| 0 <= j < self.cursor implies self.spec_stage_complete(j) by {
                assert(old(self).spec_stage_complete(j));
            }
            assert forall|j: int|
                self.cursor < j < self.stages@.len() implies self.spec_stage_untouched(j) by {
                assert(old(self).spec_stage_untouched(j));
            }
            if (self.cursor as int) < self.stages@.len() {
                assert(old(self).spec_stage_untouched(self.cursor as int));
                assert forall|k: int|
                    0 <= k < self.phases@[self.cursor as int]@.len() implies (
                #[trigger] self.phases@[self.cursor as int]@[k]) != Some(NodePhase::Running) by {
                    assert(self.phases@[self.cursor as int]@[k] is None);
                }
                lemma_count_running_zero(self.phases@[self.cursor as int]@);
            }
        }
    }

    /// The workflow-level throttle: within one template invocation at
    /// most `parallelism` nodes run at once, so one more may start only
    /// under the limit. `None` leaves the count unlimited.
    pub fn may_start_more(running: usize, parallelism: Option<u32>) -> (r: bool)
        ensures
            r == match parallelism {
                Some(p) => running < p,
                None => true,
            },
    {
        match parallelism {
            Some(p) => (running as u64) < (p as u64),
            None => true,
        }
    }
}

/// Step the composite node that encloses a steps invocation to a
/// terminal phase: permitted only once every stage ran to its end, or
/// once the bounded grace period of a cancellation has elapsed — after
/// which the end is forced.
pub fn finish_enclosing(
    node: &mut NodeStatus,
    sched: &StepsScheduler,
    to: NodePhase,
    now: u64,
    grace_elapsed: bool,
) -> (r: Result<(), PhaseError>)
    requires
        old(node).wf(),
    ensures
        final(node).wf(),
        r is Ok <==> (old(node).phase.spec_can_step_to(to) && to.spec_is_terminal() && (
        sched.cursor == sched.stages@.len() || grace_elapsed)),
        r is Ok ==> {
            &&& final(node).phase == to
            &&& final(node).finished_at == Some(now)
            &&& final(node).started_at == old(node).started_at
            &&& NodeStatus::eq_except_phase_times(*old(node), *final(node))
        },
        r is Err ==> *final(node) == *old(node) && r == Err::<(), PhaseError>(
            PhaseError::IllegalTransition,
        ),
{
    let all_stages_done = sched.cursor == sched.stages.len();
    if to.is_terminal() && (all_stages_done || grace_elapsed) {
        node.transition_to(to, now)
    } else {
        Err(PhaseError::IllegalTransition)
    }
}

/// Law (parallelism): within one invocation of a steps template with a
/// declared limit, no stage ever has more than `parallelism` nodes
/// `Running` — completed stages run nothing, future stages have no node,
/// and the active stage is throttled by the invariant.
pub proof fn lemma_parallelism_bounded(s: StepsScheduler, j: int, p: u32)
    requires
        s.wf(),
        0 <= j < s.stages@.len(),
        s.parallelism == Some(p),
    ensures
        count_running(s.phases@[j]@) <= p,
{
    if j < s.cursor {
        assert(s.spec_stage_complete(j));
        assert forall|k: int|
            0 <= k < s.phases@[j]@.len() implies (#[trigger] s.phases@[j]@[k]) != Some(
            NodePhase::Running,
        ) by {
            assert(match s.phases@[j]@[k] {
                Some(q) => q.spec_is_terminal(),
                None => false,
            });
        }
        lemma_count_running_zero(s.phases@[j]@);
    } else if j > s.cursor {
        assert(s.spec_stage_untouched(j));
        lemma_count_running_zero(s.phases@[j]@);
    }
}

/// Law (no pipelining): while any step of stage `j1` is short of a
/// terminal phase — not yet materialized, `Pending` or `Running` — no
/// node of a later stage `j2` exists at all; in particular none is
/// `Running`.
pub proof fn lemma_no_stage_overlap(s: StepsScheduler, j1: int, k1: int, j2: int, k2: int)
    requires
        s.wf(),
        0 <= j1 < j2 < s.stages@.len(),
        0 <= k1 < s.phases@[j1]@.len(),
        0 <= k2 < s.phases@[j2]@.len(),
        match s.phases@[j1]@[k1] {
            Some(p) => !p.spec_is_terminal(),
            None => true,
        },
    ensures
        s.phases@[j2]@[k2] is None,
        s.phases@[j2]@[k2] != Some(NodePhase::Running),
{
    if j1 < s.cursor {
        assert(s.spec_stage_complete(j1));
        assert(match s.phases@[j1]@[k1] {
            Some(p) => p.spec_is_terminal(),
            None => false,
        });
    }
    assert(j2 > s.cursor);
    assert(s.spec_stage_untouched(j2));
}

} // verus!
