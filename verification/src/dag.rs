//! The DAG scheduler: walks a `dag` template's tasks, dispatches each at
//! most once when its dependencies allow it, and omits tasks whose
//! dependency guard can never be satisfied.

use vstd::prelude::*;

use crate::errors::PhaseError;
use crate::node::NodeStatus;
use crate::phase::NodePhase;
use crate::template::DagTask;

verus! {

/// What one evaluation tick asks the engine to do.
#[derive(Clone, Copy, Debug, PartialEq, Eq, Structural)]
pub enum DagAction {
    /// Materialize the task's node as `Pending` and create its execution
    /// handle.
    Dispatch(usize),
    /// Record the task's node as `Omitted`: no execution handle, no pod,
    /// never `Pending` or `Running`.
    Omit(usize),
}

/// Index of the first task of the given name.
pub open spec fn task_index(tasks: Seq<DagTask>, name: Seq<char>) -> Option<int>
    decreases tasks.len(),
{
    if tasks.len() == 0 {
        None
    } else if tasks[0].name@ == name {
        Some(0)
    } else {
        match task_index(tasks.drop_first(), name) {
            Some(j) => Some(j + 1),
            None => None,
        }
    }
}

/// Scheduler state for one invocation of a DAG template. `phases[i]` is
/// the observed phase of task `i`'s node, `None` until a node exists;
/// `dispatched[i]` records that an execution handle was ever created.
#[derive(Clone, Debug, PartialEq, Eq)]
pub struct DagScheduler {
    pub tasks: Vec<DagTask>,
    pub phases: Vec<Option<NodePhase>>,
    pub dispatched: Vec<bool>,
    /// The template's `parallelism`: the most tasks of this invocation
    /// allowed to run at once, `None` for no limit.
    pub parallelism: Option<u32>,
}

/// How many tasks are `Running`.
pub open spec fn count_running(phases: Seq<Option<NodePhase>>) -> int
    decreases phases.len(),
{
    if phases.len() == 0 {
        0
    } else {
        count_running(phases.drop_last()) + if phases.last() == Some(NodePhase::Running) {
            1int
        } else {
            0
        }
    }
}

proof fn lemma_count_running_update(phases: Seq<Option<NodePhase>>, k: int, v: Option<NodePhase>)
    requires
        0 <= k < phases.len(),
    ensures
        count_running(phases.update(k, v)) == count_running(phases) - (if phases[k] == Some(
            NodePhase::Running,
        ) {
            1int
        } else {
            0
        }) + (if v == Some(NodePhase::Running) {
            1int
        } else {
            0
        }),
    decreases phases.len(),
{
    if k == phases.len() - 1 {
        assert(phases.update(k, v).drop_last() =~= phases.drop_last());
    } else {
        assert(phases.update(k, v).drop_last() =~= phases.drop_last().update(k, v));
        lemma_count_running_update(phases.drop_last(), k, v);
    }
}

proof fn lemma_count_running_zero(phases: Seq<Option<NodePhase>>)
    requires
        forall|k: int| 0 <= k < phases.len() ==> (#[trigger] phases[k]) != Some(NodePhase::Running),
    ensures
        count_running(phases) == 0,
    decreases phases.len(),
{
    if phases.len() > 0 {
        lemma_count_running_zero(phases.drop_last());
    }
}

impl DagScheduler {
    /// Shape and bookkeeping invariants: a dispatched task has a node, an
    /// `Omitted` task was never dispatched, task names are unique and
    /// every dependency names a task of the graph.
    pub open spec fn wf(self) -> bool {
        &&& self.phases@.len() == self.tasks@.len()
        &&& self.dispatched@.len() == self.tasks@.len()
        &&& forall|i: int|
            0 <= i < self.tasks@.len() && self.dispatched@[i] ==> self.phases@[i] is Some
        &&& forall|i: int|
            0 <= i < self.tasks@.len() && self.phases@[i] == Some(NodePhase::Omitted)
                ==> !self.dispatched@[i]
        &&& forall|i: int, j: int|
            0 <= i < j < self.tasks@.len() ==> self.tasks@[i].name@ != self.tasks@[j].name@
        &&& forall|i: int, k: int|
            0 <= i < self.tasks@.len() && 0 <= k < self.tasks@[i].depends@.len() ==> task_index(
                self.tasks@,
                (#[trigger] self.tasks@[i].depends@[k])@,
            ) is Some
        &&& match self.parallelism {
            Some(p) => count_running(self.phases@) <= p,
            None => true,
        }
    }

    /// The named dependency reached `Succeeded`.
    pub open spec fn dep_succeeded(self, name: Seq<char>) -> bool {
        match task_index(self.tasks@, name) {
            Some(j) => self.phases@[j] == Some(NodePhase::Succeeded),
            None => false,
        }
    }

    /// The named dependency is terminal without `Succeeded`: the default
    /// guard — all dependencies succeeded — can never hold.
    pub open spec fn dep_doomed(self, name: Seq<char>) -> bool {
        match task_index(self.tasks@, name) {
            Some(j) => match self.phases@[j] {
                Some(p) => p.spec_is_terminal() && p != NodePhase::Succeeded,
                None => false,
            },
            None => false,
        }
    }

    /// Task `i` is runnable: every task it depends on succeeded.
    pub open spec fn spec_ready(self, i: int) -> bool {
        forall|k: int|
            0 <= k < self.tasks@[i].depends@.len() ==> self.dep_succeeded(
                (#[trigger] self.tasks@[i].depends@[k])@,
            )
    }

    /// Task `i`'s guard is unsatisfiable: some dependency is terminal and
    /// not succeeded.
    pub open spec fn spec_doomed(self, i: int) -> bool {
        exists|k: int|
            0 <= k < self.tasks@[i].depends@.len() && self.dep_doomed(
                (#[trigger] self.tasks@[i].depends@[k])@,
            )
    }

    /// A fresh scheduler over the tasks: no node exists, nothing was
    /// dispatched.
    pub fn new(tasks: Vec<DagTask>, parallelism: Option<u32>) -> (r: DagScheduler)
        requires
            forall|i: int, j: int| 0 <= i < j < tasks@.len() ==> tasks@[i].name@ != tasks@[j].name@,
            forall|i: int, k: int|
                0 <= i < tasks@.len() && 0 <= k < tasks@[i].depends@.len() ==> task_index(
                    tasks@,
                    (#[trigger] tasks@[i].depends@[k])@,
                ) is Some,
        ensures
            r.tasks == tasks,
            r.parallelism == parallelism,
            r.wf(),
            forall|i: int| 0 <= i < r.tasks@.len() ==> r.phases@[i] is None && !r.dispatched@[i],
    {
        let n = tasks.len();
        let mut phases: Vec<Option<NodePhase>> = Vec::new();
        let mut dispatched: Vec<bool> = Vec::new();
        let mut i: usize = 0;
        while i < n
            invariant
                i <= n,
                phases@.len() == i,
                dispatched@.len() == i,
                forall|j: int| 0 <= j < i ==> (#[trigger] phases@[j]) is None,
                forall|j: int| 0 <= j < i ==> !(#[trigger] dispatched@[j]),
            decreases n - i,
        {
            phases.push(None);
            dispatched.push(false);
            assert(phases@[i as int] is None);
            assert(!dispatched@[i as int]);
            i = i + 1;
        }
        proof {
            lemma_count_running_zero(phases@);
        }
        DagScheduler { tasks, phases, dispatched, parallelism }
    }

    /// First task of the given name, agreeing with `task_index`.
    fn find_task(&self, name: &String) -> (r: Option<usize>)
        ensures
            match r {
                Some(i) => i < self.tasks@.len() && task_index(self.tasks@, name@) == Some(
                    i as int,
                ),
                None => task_index(self.tasks@, name@) is None,
            },
    {
        find_task_index(&self.tasks, name)
    }
}

/// First task of the given name, agreeing with `task_index`.
pub fn find_task_index(tasks: &Vec<DagTask>, name: &String) -> (r: Option<usize>)
    ensures
        match r {
            Some(i) => i < tasks@.len() && task_index(tasks@, name@) == Some(i as int),
            None => task_index(tasks@, name@) is None,
        },
{
    let mut i: usize = 0;
    while i < tasks.len()
        invariant
            i <= tasks@.len(),
            forall|j: int| 0 <= j < i ==> tasks@[j].name@ != name@,
        decreases tasks@.len() - i,
    {
        if tasks[i].name.eq(name) {
            proof {
                lemma_task_index_char(tasks@, name@);
                match task_index(tasks@, name@) {
                    Some(j) => {
                        if j < i {
                            assert(tasks@[j].name@ != name@);
                        }
                        if j > i {
                            assert((#[trigger] tasks@[i as int]).name@ != name@);
                        }
                    },
                    None => {
                        assert((#[trigger] tasks@[i as int]).name@ != name@);
                    },
                }
            }
            return Some(i);
        }
        i = i + 1;
    }
    proof {
        lemma_task_index_char(tasks@, name@);
    }
    None
}

/// The task an action is about.
pub open spec fn action_target(a: DagAction) -> int {
    match a {
        DagAction::Dispatch(i) => i as int,
        DagAction::Omit(i) => i as int,
    }
}

/// Some action of `acts` is about task `i`.
pub open spec fn targeted(acts: Seq<DagAction>, i: int) -> bool {
    exists|k: int| 0 <= k < acts.len() && action_target(#[trigger] acts[k]) == i
}

/// The actions one tick plans against the state it observed: each is
/// justified — dispatch only of an unmaterialized, never-dispatched task
/// whose dependencies all succeeded; omission only of an unmaterialized
/// task whose guard is unsatisfiable — no task twice, and nothing ready
/// or doomed is passed over.
pub open spec fn acts_planned(pre: DagScheduler, acts: Seq<DagAction>) -> bool {
    &&& forall|k: int|
        0 <= k < acts.len() ==> match #[trigger] acts[k] {
            DagAction::Dispatch(i) => i < pre.phases@.len() && pre.phases@[i as int] is None
                && !pre.dispatched@[i as int] && pre.spec_ready(i as int),
            DagAction::Omit(i) => i < pre.phases@.len() && pre.phases@[i as int] is None
                && !pre.spec_ready(i as int) && pre.spec_doomed(i as int),
        }
    &&& forall|k1: int, k2: int|
        0 <= k1 < k2 < acts.len() ==> action_target(#[trigger] acts[k1]) != action_target(
            #[trigger] acts[k2],
        )
    &&& forall|i: int|
        0 <= i < pre.phases@.len() && (#[trigger] pre.phases@[i]) is None && pre.spec_ready(i)
            ==> acts.contains(DagAction::Dispatch(i as usize))
    &&& forall|i: int|
        0 <= i < pre.phases@.len() && (#[trigger] pre.phases@[i]) is None && !pre.spec_ready(i)
            && pre.spec_doomed(i) ==> acts.contains(DagAction::Omit(i as usize))
}

/// What applying the planned actions does to the state: dispatched tasks
/// become `Pending` with the dispatch recorded, omitted tasks become
/// `Omitted` with no dispatch ever, and every other task stands.
pub open spec fn acts_applied(pre: DagScheduler, post: DagScheduler, acts: Seq<DagAction>) -> bool {
    &&& post.tasks == pre.tasks
    &&& post.phases@.len() == pre.phases@.len()
    &&& post.dispatched@.len() == pre.dispatched@.len()
    &&& forall|k: int|
        0 <= k < acts.len() ==> match #[trigger] acts[k] {
            DagAction::Dispatch(i) => post.phases@[i as int] == Some(NodePhase::Pending)
                && post.dispatched@[i as int],
            DagAction::Omit(i) => post.phases@[i as int] == Some(NodePhase::Omitted)
                && post.dispatched@[i as int] == pre.dispatched@[i as int],
        }
    &&& forall|i: int|
        0 <= i < pre.phases@.len() && !targeted(acts, i) ==> (#[trigger] post.phases@[i])
            == pre.phases@[i] && post.dispatched@[i] == pre.dispatched@[i]
}

/// One evaluation tick, in full: the plan read off the observed state,
/// then applied.
pub open spec fn evaluate_rel(pre: DagScheduler, post: DagScheduler, acts: Seq<DagAction>) -> bool {
    &&& acts_planned(pre, acts)
    &&& acts_applied(pre, post, acts)
}

impl DagScheduler {
    /// Do all of task `i`'s dependencies hold `Succeeded`?
    fn check_ready(&self, i: usize) -> (r: bool)
        requires
            self.wf(),
            i < self.tasks@.len(),
        ensures
            r == self.spec_ready(i as int),
    {
        let deps = &self.tasks[i].depends;
        let mut k: usize = 0;
        while k < deps.len()
            invariant
                self.wf(),
                k <= deps@.len(),
                deps == &self.tasks@[i as int].depends,
                i < self.tasks@.len(),
                forall|j: int|
                    0 <= j < k ==> self.dep_succeeded((#[trigger] deps@[j])@),
            decreases deps@.len() - k,
        {
            let ok = match self.find_task(&deps[k]) {
                Some(j) => match self.phases[j] {
                    Some(p) => p == NodePhase::Succeeded,
                    None => false,
                },
                None => false,
            };
            if !ok {
                return false;
            }
            k = k + 1;
        }
        true
    }

    /// Is some dependency of task `i` terminal without success?
    fn check_doomed(&self, i: usize) -> (r: bool)
        requires
            self.wf(),
            i < self.tasks@.len(),
        ensures
            r == self.spec_doomed(i as int),
    {
        let deps = &self.tasks[i].depends;
        let mut k: usize = 0;
        while k < deps.len()
            invariant
                self.wf(),
                k <= deps@.len(),
                deps == &self.tasks@[i as int].depends,
                i < self.tasks@.len(),
                forall|j: int|
                    0 <= j < k ==> !self.dep_doomed((#[trigger] deps@[j])@),
            decreases deps@.len() - k,
        {
            let hit = match self.find_task(&deps[k]) {
                Some(j) => match self.phases[j] {
                    Some(p) => p.is_terminal() && p != NodePhase::Succeeded,
                    None => false,
                },
                None => false,
            };
            if hit {
                return true;
            }
            k = k + 1;
        }
        false
    }

    /// One reconcile tick: plan, against the state as observed, the
    /// dispatch of every runnable unmaterialized task and the omission of
    /// every doomed one, then apply the plan. Re-evaluating never
    /// dispatches a task twice: a dispatched task has a node, and only
    /// nodeless tasks are planned.
    pub fn evaluate(&mut self) -> (acts: Vec<DagAction>)
        requires
            old(self).wf(),
        ensures
            final(self).wf(),
            evaluate_rel(*old(self), *final(self), acts@),
    {
        let mut acts: Vec<DagAction> = Vec::new();
        let mut i: usize = 0;
        while i < self.tasks.len()
            invariant
                *self == *old(self),
                old(self).wf(),
                i <= self.tasks@.len(),
                forall|k: int|
                    0 <= k < acts@.len() ==> match #[trigger] acts@[k] {
                        DagAction::Dispatch(t) => t < i && self.phases@[t as int] is None
                            && !self.dispatched@[t as int] && self.spec_ready(t as int),
                        DagAction::Omit(t) => t < i && self.phases@[t as int] is None
                            && !self.spec_ready(t as int) && self.spec_doomed(t as int),
                    },
                forall|k1: int, k2: int|
                    0 <= k1 < k2 < acts@.len() ==> action_target(#[trigger] acts@[k1])
                        != action_target(#[trigger] acts@[k2]),
                forall|t: int|
                    0 <= t < i && (#[trigger] self.phases@[t]) is None && self.spec_ready(t)
                        ==> acts@.contains(DagAction::Dispatch(t as usize)),
                forall|t: int|
                    0 <= t < i && (#[trigger] self.phases@[t]) is None && !self.spec_ready(t)
                        && self.spec_doomed(t) ==> acts@.contains(DagAction::Omit(t as usize)),
            decreases self.tasks@.len() - i,
        {
            let ghost acts0 = acts@;
            if self.phases[i].is_none() {
                if self.check_ready(i) {
                    acts.push(DagAction::Dispatch(i));
                    assert(acts@.last() == DagAction::Dispatch(i));
                    assert(acts@.drop_last() =~= acts0);
                } else if self.check_doomed(i) {
                    acts.push(DagAction::Omit(i));
                    assert(acts@.last() == DagAction::Omit(i));
                    assert(acts@.drop_last() =~= acts0);
                }
            }
            proof {
                assert(forall|k: int| 0 <= k < acts0.len() ==> acts@[k] == acts0[k]);
                assert forall|t: int|
                    0 <= t < i + 1 && (#[trigger] self.phases@[t]) is None && self.spec_ready(t)
                        implies acts@.contains(DagAction::Dispatch(t as usize)) by {
                    if t < i {
                        assert(acts0.contains(DagAction::Dispatch(t as usize)));
                        let k = choose|k: int|
                            0 <= k < acts0.len() && acts0[k] == DagAction::Dispatch(t as usize);
                        assert(acts@[k] == DagAction::Dispatch(t as usize));
                    } else {
                        assert(acts@.last() == DagAction::Dispatch(t as usize));
                    }
                }
                assert forall|t: int|
                    0 <= t < i + 1 && (#[trigger] self.phases@[t]) is None && !self.spec_ready(t)
                        && self.spec_doomed(t) implies acts@.contains(DagAction::Omit(t as usize)) by {
                    if t < i {
                        assert(acts0.contains(DagAction::Omit(t as usize)));
                        let k = choose|k: int|
                            0 <= k < acts0.len() && acts0[k] == DagAction::Omit(t as usize);
                        assert(acts@[k] == DagAction::Omit(t as usize));
                    } else {
                        assert(acts@.last() == DagAction::Omit(t as usize));
                    }
                }
            }
            i = i + 1;
        }
        let ghost plan = acts@;
        proof {
            assert(acts_planned(*old(self), plan));
        }
        let mut k: usize = 0;
        while k < acts.len()
            invariant
                acts@ == plan,
                old(self).wf(),
                acts_planned(*old(self), plan),
                k <= plan.len(),
                self.tasks == old(self).tasks,
                self.phases@.len() == old(self).phases@.len(),
                self.dispatched@.len() == old(self).dispatched@.len(),
                forall|kk: int|
                    0 <= kk < k ==> match #[trigger] plan[kk] {
                        DagAction::Dispatch(t) => self.phases@[t as int] == Some(NodePhase::Pending)
                            && self.dispatched@[t as int],
                        DagAction::Omit(t) => self.phases@[t as int] == Some(NodePhase::Omitted)
                            && self.dispatched@[t as int] == old(self).dispatched@[t as int],
                    },
                forall|t: int|
                    0 <= t < old(self).phases@.len() && !targeted(plan.take(k as int), t) ==> (
                    #[trigger] self.phases@[t]) == old(self).phases@[t] && self.dispatched@[t]
                        == old(self).dispatched@[t],
                count_running(self.phases@) == count_running(old(self).phases@),
                self.parallelism == old(self).parallelism,
            decreases plan.len() - k,
        {
            let ghost prev = *self;
            proof {
                assert(match plan[k as int] {
                    DagAction::Dispatch(t) => t < old(self).phases@.len(),
                    DagAction::Omit(t) => t < old(self).phases@.len(),
                });
            }
            let ghost u = action_target(plan[k as int]);
            match acts[k] {
                DagAction::Dispatch(t) => {
                    self.phases.set(t, Some(NodePhase::Pending));
                    self.dispatched.set(t, true);
                    proof {
                        assert(self.phases@ =~= prev.phases@.update(u, Some(NodePhase::Pending)));
                        assert(self.dispatched@ =~= prev.dispatched@.update(u, true));
                    }
                },
                DagAction::Omit(t) => {
                    self.phases.set(t, Some(NodePhase::Omitted));
                    proof {
                        assert(self.phases@ =~= prev.phases@.update(u, Some(NodePhase::Omitted)));
                        assert(self.dispatched@ =~= prev.dispatched@);
                    }
                },
            }
            proof {
                if targeted(plan.take(k as int), u) {
                    let kk2 = choose|kk2: int|
                        0 <= kk2 < plan.take(k as int).len() && action_target(
                            #[trigger] plan.take(k as int)[kk2],
                        ) == u;
                    assert(plan.take(k as int)[kk2] == plan[kk2]);
                    assert(action_target(plan[kk2]) != action_target(plan[k as int]));
                    assert(false);
                }
                assert(prev.phases@[u] == old(self).phases@[u]);
                assert(match plan[k as int] {
                    DagAction::Dispatch(t) => old(self).phases@[t as int] is None,
                    DagAction::Omit(t) => old(self).phases@[t as int] is None,
                });
                assert(self.phases@ == prev.phases@.update(u, self.phases@[u]));
                assert(self.phases@[u] != Some(NodePhase::Running));
                lemma_count_running_update(prev.phases@, u, self.phases@[u]);
                assert(count_running(self.phases@) == count_running(old(self).phases@));
                assert forall|t: int|
                    0 <= t < old(self).phases@.len() && !targeted(plan.take(k as int + 1), t)
                        implies (#[trigger] self.phases@[t]) == old(self).phases@[t]
                        && self.dispatched@[t] == old(self).dispatched@[t] by {
                    assert(plan.take(k as int + 1)[k as int] == plan[k as int]);
                    assert(action_target(plan.take(k as int + 1)[k as int]) != t);
                    if targeted(plan.take(k as int), t) {
                        let kk = choose|kk: int|
                            0 <= kk < plan.take(k as int).len() && action_target(
                                #[trigger] plan.take(k as int)[kk],
                            ) == t;
                        assert(plan.take(k as int)[kk] == plan[kk]);
                        assert(plan.take(k as int + 1)[kk] == plan[kk]);
                        assert(action_target(plan.take(k as int + 1)[kk]) == t);
                        assert(false);
                    }
                    assert(prev.phases@[t] == old(self).phases@[t]);
                    assert(prev.dispatched@[t] == old(self).dispatched@[t]);
                    assert(t != u);
                }
                assert forall|kk: int|
                    0 <= kk < k + 1 implies match #[trigger] plan[kk] {
                        DagAction::Dispatch(t) => self.phases@[t as int] == Some(NodePhase::Pending)
                            && self.dispatched@[t as int],
                        DagAction::Omit(t) => self.phases@[t as int] == Some(NodePhase::Omitted)
                            && self.dispatched@[t as int] == old(self).dispatched@[t as int],
                    } by {
                    if kk < k {
                        assert(action_target(plan[kk]) != action_target(plan[k as int]));
                        assert(match plan[kk] {
                            DagAction::Dispatch(t) => prev.phases@[t as int] == Some(
                                NodePhase::Pending,
                            ) && prev.dispatched@[t as int],
                            DagAction::Omit(t) => prev.phases@[t as int] == Some(
                                NodePhase::Omitted,
                            ) && prev.dispatched@[t as int] == old(self).dispatched@[t as int],
                        });
                    } else {
                        if targeted(plan.take(k as int), u) {
                            let kk2 = choose|kk2: int|
                                0 <= kk2 < plan.take(k as int).len() && action_target(
                                    #[trigger] plan.take(k as int)[kk2],
                                ) == u;
                            assert(plan.take(k as int)[kk2] == plan[kk2]);
                            assert(action_target(plan[kk2]) != action_target(plan[k as int]));
                            assert(false);
                        }
                        assert(prev.phases@[u] == old(self).phases@[u]);
                        assert(prev.dispatched@[u] == old(self).dispatched@[u]);
                    }
                }
            }
            k = k + 1;
        }
        proof {
            assert(plan.take(plan.len() as int) =~= plan);
            assert(acts_applied(*old(self), *self, plan));
            assert forall|t: int|
                0 <= t < self.tasks@.len() && self.dispatched@[t] implies self.phases@[t] is Some by {
                if !targeted(plan, t) {
                } else {
                    let kk = choose|kk: int|
                        0 <= kk < plan.len() && action_target(#[trigger] plan[kk]) == t;
                    assert(match plan[kk] {
                        DagAction::Dispatch(u) => self.phases@[u as int] is Some,
                        DagAction::Omit(u) => self.phases@[u as int] is Some,
                    });
                }
            }
            assert forall|t: int|
                0 <= t < self.tasks@.len() && self.phases@[t] == Some(NodePhase::Omitted)
                    implies !self.dispatched@[t] by {
                if !targeted(plan, t) {
                } else {
                    let kk = choose|kk: int|
                        0 <= kk < plan.len() && action_target(#[trigger] plan[kk]) == t;
                    match plan[kk] {
                        DagAction::Dispatch(u) => {},
                        DagAction::Omit(u) => {
                            assert(!old(self).dispatched@[u as int]);
                        },
                    }
                }
            }
        }
        acts
    }

    /// How many tasks are `Running` right now?
    pub fn running_tasks(&self) -> (r: usize)
        ensures
            r == count_running(self.phases@),
    {
        let n = self.phases.len();
        let mut count: usize = 0;
        let mut k: usize = 0;
        while k < n
            invariant
                n == self.phases@.len(),
                k <= n,
                count == count_running(self.phases@.take(k as int)),
                count <= k,
            decreases n - k,
        {
            proof {
                assert(self.phases@.take(k + 1).drop_last() =~= self.phases@.take(k as int));
                assert(self.phases@.take(k + 1).last() == self.phases@[k as int]);
            }
            let is_running = match self.phases[k] {
                Some(p) => p == NodePhase::Running,
                None => false,
            };
            if is_running {
                count = count + 1;
            }
            k = k + 1;
        }
        proof {
            assert(self.phases@.take(n as int) =~= self.phases@);
        }
        count
    }

    /// The engine observed (or decided) a phase change of task `i`'s
    /// node: step it through the state machine. Refused outside the
    /// transition relation; a dispatched node is never `Omitted` —
    /// omission is a structural decision taken before any handle exists —
    /// and a node may newly enter `Running` only while fewer than
    /// `parallelism` tasks run, so excess runnable tasks wait `Pending`.
    pub fn advance_task(&mut self, i: usize, to: NodePhase) -> (r: Result<(), crate::errors::PhaseError>)
        requires
            old(self).wf(),
            i < old(self).tasks@.len(),
        ensures
            final(self).wf(),
            r is Ok <==> (old(self).phases@[i as int] matches Some(cur)
                && cur.spec_can_step_to(to) && !(to == NodePhase::Omitted
                && old(self).dispatched@[i as int]) && (to == NodePhase::Running && cur
                != NodePhase::Running ==> (match old(self).parallelism {
                Some(p) => count_running(old(self).phases@) < p,
                None => true,
            }))),
            r is Ok ==> final(self).phases@ == old(self).phases@.update(i as int, Some(to))
                && final(self).dispatched == old(self).dispatched && final(self).tasks == old(
                self,
            ).tasks && final(self).parallelism == old(self).parallelism,
            r is Err ==> *final(self) == *old(self) && r == Err::<(), crate::errors::PhaseError>(
                crate::errors::PhaseError::IllegalTransition,
            ),
    {
        let slots_free = match self.parallelism {
            Some(limit) => (self.running_tasks() as u64) < (limit as u64),
            None => true,
        };
        let allowed = match self.phases[i] {
            Some(cur) => cur.can_step_to(to) && !(to == NodePhase::Omitted && self.dispatched[i])
                && (!(to == NodePhase::Running && cur != NodePhase::Running) || slots_free),
            None => false,
        };
        if allowed {
            let ghost pre = self.phases@;
            self.phases.set(i, Some(to));
            proof {
                lemma_count_running_update(pre, i as int, Some(to));
            }
            Ok(())
        } else {
            Err(crate::errors::PhaseError::IllegalTransition)
        }
    }
}

/// The task indices whose nodes are `Running`, in order.
pub open spec fn running_indices(phases: Seq<Option<NodePhase>>) -> Seq<usize>
    decreases phases.len(),
{
    if phases.len() == 0 {
        Seq::empty()
    } else {
        running_indices(phases.drop_last()) + if phases.last() == Some(NodePhase::Running) {
            seq![(phases.len() - 1) as usize]
        } else {
            Seq::empty()
        }
    }
}

impl DagScheduler {
    /// `failFast`: one child reached `Failed` or `Error`, so the
    /// still-live siblings are cancelled eagerly — every `Pending` node
    /// is skipped at once, and the `Running` ones are returned so the
    /// engine can request their termination. The enclosing node stays
    /// live until they stop or a grace deadline forces them.
    pub fn fail_fast_cancel(&mut self) -> (stops: Vec<usize>)
        requires
            old(self).wf(),
        ensures
            final(self).wf(),
            final(self).tasks == old(self).tasks,
            final(self).dispatched == old(self).dispatched,
            final(self).phases@.len() == old(self).phases@.len(),
            stops@ == running_indices(old(self).phases@),
            forall|i: int|
                0 <= i < old(self).phases@.len() && (#[trigger] old(self).phases@[i]) == Some(
                    NodePhase::Pending,
                ) ==> final(self).phases@[i] == Some(NodePhase::Skipped),
            forall|i: int|
                0 <= i < old(self).phases@.len() && (#[trigger] old(self).phases@[i]) != Some(
                    NodePhase::Pending,
                ) ==> final(self).phases@[i] == old(self).phases@[i],
    {
        let mut stops: Vec<usize> = Vec::new();
        let mut i: usize = 0;
        while i < self.phases.len()
            invariant
                old(self).wf(),
                i <= self.phases@.len(),
                self.tasks == old(self).tasks,
                self.dispatched == old(self).dispatched,
                self.phases@.len() == old(self).phases@.len(),
                stops@ == running_indices(old(self).phases@.take(i as int)),
                forall|j: int|
                    0 <= j < i && (#[trigger] old(self).phases@[j]) == Some(NodePhase::Pending)
                        ==> self.phases@[j] == Some(NodePhase::Skipped),
                forall|j: int|
                    0 <= j < i && (#[trigger] old(self).phases@[j]) != Some(NodePhase::Pending)
                        ==> self.phases@[j] == old(self).phases@[j],
                forall|j: int|
                    i <= j < self.phases@.len() ==> (#[trigger] self.phases@[j]) == old(
                        self,
                    ).phases@[j],
                count_running(self.phases@) == count_running(old(self).phases@),
                self.parallelism == old(self).parallelism,
            decreases self.phases@.len() - i,
        {
            let ghost pre = self.phases@;
            match self.phases[i] {
                Some(NodePhase::Pending) => {
                    self.phases.set(i, Some(NodePhase::Skipped));
                    proof {
                        assert(self.phases@ =~= pre.update(i as int, Some(NodePhase::Skipped)));
                        lemma_count_running_update(pre, i as int, Some(NodePhase::Skipped));
                    }
                },
                Some(NodePhase::Running) => {
                    stops.push(i);
                },
                _ => {},
            }
            proof {
                assert(old(self).phases@.take(i + 1).drop_last() =~= old(self).phases@.take(
                    i as int,
                ));
                assert(old(self).phases@.take(i + 1).last() == old(self).phases@[i as int]);
            }
            i = i + 1;
        }
        proof {
            assert(old(self).phases@.take(old(self).phases@.len() as int) =~= old(self).phases@);
        }
        stops
    }
}

impl DagScheduler {
    /// Every task's node is settled: terminal, or never materialized.
    pub open spec fn spec_all_settled(self) -> bool {
        forall|i: int|
            0 <= i < self.phases@.len() ==> match #[trigger] self.phases@[i] {
                Some(p) => p.spec_is_terminal(),
                None => true,
            }
    }

    /// Is every task's node settled?
    pub fn all_settled(&self) -> (r: bool)
        ensures
            r == self.spec_all_settled(),
    {
        let mut i: usize = 0;
        while i < self.phases.len()
            invariant
                i <= self.phases@.len(),
                forall|j: int|
                    0 <= j < i ==> match #[trigger] self.phases@[j] {
                        Some(p) => p.spec_is_terminal(),
                        None => true,
                    },
            decreases self.phases@.len() - i,
        {
            let settled = match self.phases[i] {
                Some(p) => p.is_terminal(),
                None => true,
            };
            if !settled {
                return false;
            }
            i = i + 1;
        }
        true
    }
}

/// Step the composite node that encloses a DAG invocation to a terminal
/// phase: permitted only once every child is settled, or once the
/// bounded grace period of a cancellation has elapsed — after which the
/// end is forced.
pub fn finish_enclosing(
    node: &mut NodeStatus,
    sched: &DagScheduler,
    to: NodePhase,
    now: u64,
    grace_elapsed: bool,
) -> (r: Result<(), PhaseError>)
    requires
        old(node).wf(),
    ensures
        final(node).wf(),
        r is Ok <==> (old(node).phase.spec_can_step_to(to) && to.spec_is_terminal() && (
        sched.spec_all_settled() || grace_elapsed)),
        r is Ok ==> {
            &&& final(node).phase == to
            &&& final(node).finished_at == Some(now)
            &&& final(node).started_at == old(node).started_at
            &&& NodeStatus::eq_except_phase_times(*old(node), *final(node))
        },
        r is Err ==> *final(node) == *old(node) && r == Err::<(), PhaseError>(
            PhaseError::IllegalTransition,
        ),
{
    let children_stopped = sched.all_settled();
    if to.is_terminal() && (children_stopped || grace_elapsed) {
        node.transition_to(to, now)
    } else {
        Err(PhaseError::IllegalTransition)
    }
}

/// Law (parallelism): a well-formed scheduler of a template with a
/// declared limit never has more than `parallelism` tasks `Running` —
/// dispatch creates only `Pending` nodes, and the step into `Running` is
/// gated on a free slot.
pub proof fn lemma_dag_parallelism_bounded(s: DagScheduler, p: u32)
    requires
        s.wf(),
        s.parallelism == Some(p),
    ensures
        count_running(s.phases@) <= p,
{
}

/// Law: a task is dispatched at most once, however often the scheduler
/// re-evaluates readiness. A tick that dispatched task `i` leaves it with
/// a node, and a later tick plans only nodeless tasks.
pub proof fn lemma_dispatch_at_most_once(
    s0: DagScheduler,
    s1: DagScheduler,
    s2: DagScheduler,
    a1: Seq<DagAction>,
    a2: Seq<DagAction>,
    i: usize,
)
    requires
        evaluate_rel(s0, s1, a1),
        evaluate_rel(s1, s2, a2),
        a1.contains(DagAction::Dispatch(i)),
    ensures
        !a2.contains(DagAction::Dispatch(i)),
{
    let k1 = choose|k: int| 0 <= k < a1.len() && a1[k] == DagAction::Dispatch(i);
    assert(s1.phases@[i as int] == Some(NodePhase::Pending));
    if a2.contains(DagAction::Dispatch(i)) {
        let k2 = choose|k: int| 0 <= k < a2.len() && a2[k] == DagAction::Dispatch(i);
        assert(s1.phases@[i as int] is None);
    }
}

/// Law: an omitted task never ran and never got an execution handle —
/// its node reaches `Omitted` straight from nonexistence, with the
/// dispatch record still clear.
pub proof fn lemma_omission_never_dispatches(
    s0: DagScheduler,
    s1: DagScheduler,
    acts: Seq<DagAction>,
    i: usize,
)
    requires
        s0.wf(),
        evaluate_rel(s0, s1, acts),
        acts.contains(DagAction::Omit(i)),
    ensures
        s0.phases@[i as int] is None,
        !s0.dispatched@[i as int],
        s1.phases@[i as int] == Some(NodePhase::Omitted),
        !s1.dispatched@[i as int],
{
    let k = choose|k: int| 0 <= k < acts.len() && acts[k] == DagAction::Omit(i);
    assert(s0.phases@[i as int] is None);
    assert(!s0.dispatched@[i as int]);
}

/// `task_index` answers the first index carrying the name, or none.
pub proof fn lemma_task_index_char(tasks: Seq<DagTask>, name: Seq<char>)
    ensures
        match task_index(tasks, name) {
            Some(j) => 0 <= j < tasks.len() && tasks[j].name@ == name && forall|k: int|
                0 <= k < j ==> (#[trigger] tasks[k]).name@ != name,
            None => forall|k: int| 0 <= k < tasks.len() ==> (#[trigger] tasks[k]).name@ != name,
        },
    decreases tasks.len(),
{
    if tasks.len() > 0 {
        lemma_task_index_char(tasks.drop_first(), name);
        assert(forall|k: int| 1 <= k < tasks.len() ==> tasks.drop_first()[k - 1] == tasks[k]);
    }
}

} // verus!
