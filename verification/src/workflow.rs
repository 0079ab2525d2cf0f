//! The workflow resource: spec, observed status, submission validation,
//! cancellation, and the outbound-node bookkeeping of composite nodes.

use vstd::prelude::*;

use crate::bind::Argument;
use crate::errors::{AdmissionError, DefinitionError, PhaseError, SubmitError};
use crate::locks::SyncManager;
use crate::node::NodeStatus;
use crate::phase::NodePhase;
use crate::store::{
    acyclic, locks_declared, refs_resolve, tasks_valid, tmpl_index, TemplateStore,
};
use crate::strvec::{contains_str, contains_view, nodup_views};
use crate::template::DagTask;

verus! {

/// The immutable desired state of a workflow: an entrypoint template and
/// the templates it may invoke, with workflow-level arguments.
#[derive(Clone, Debug, PartialEq, Eq)]
pub struct WorkflowSpec {
    pub entrypoint: String,
    pub templates: TemplateStore,
    pub arguments: Vec<Argument>,
}

/// The mutable observed state: the full node mapping, kept for the life
/// of the workflow — node records are never deleted.
#[derive(Clone, Debug, PartialEq, Eq)]
pub struct WorkflowStatus {
    pub phase: NodePhase,
    pub nodes: Vec<NodeStatus>,
    pub started_at: Option<u64>,
    pub finished_at: Option<u64>,
}

impl WorkflowStatus {
    /// Node records are well-formed, their ids unique, and every child
    /// reference lands on an existing node of later-or-equal creation
    /// order — node order is creation order, since records are appended
    /// and never deleted.
    pub open spec fn wf(self) -> bool {
        &&& forall|i: int| 0 <= i < self.nodes@.len() ==> (#[trigger] self.nodes@[i]).wf()
        &&& forall|i: int, j: int|
            0 <= i < j < self.nodes@.len() ==> self.nodes@[i].id@ != self.nodes@[j].id@
        &&& forall|i: int, c: int|
            0 <= i < self.nodes@.len() && 0 <= c < self.nodes@[i].children@.len()
                ==> exists|j: int|
                i <= j < self.nodes@.len() && self.nodes@[j].id@ == (
                #[trigger] self.nodes@[i].children@[c])@
    }

    /// Index of the node with the given id, if one exists.
    pub fn find_node(&self, id: &String) -> (r: Option<usize>)
        ensures
            match r {
                Some(i) => i < self.nodes@.len() && self.nodes@[i as int].id@ == id@,
                None => forall|i: int|
                    0 <= i < self.nodes@.len() ==> (#[trigger] self.nodes@[i]).id@ != id@,
            },
    {
        let mut i: usize = 0;
        while i < self.nodes.len()
            invariant
                i <= self.nodes@.len(),
                forall|j: int| 0 <= j < i ==> (#[trigger] self.nodes@[j]).id@ != id@,
            decreases self.nodes@.len() - i,
        {
            if self.nodes[i].id.eq(id) {
                return Some(i);
            }
            i = i + 1;
        }
        None
    }

    /// Append a freshly created, still childless node record. Records are
    /// only ever appended: nothing is deleted for the life of the
    /// workflow. Refused when the id is already taken.
    pub fn add_node(&mut self, node: NodeStatus) -> (r: bool)
        requires
            old(self).wf(),
            node.wf(),
            node.children@.len() == 0,
        ensures
            final(self).wf(),
            r == (forall|i: int|
                0 <= i < old(self).nodes@.len() ==> (#[trigger] old(self).nodes@[i]).id@
                    != node.id@),
            r ==> final(self).nodes@ == old(self).nodes@.push(node),
            !r ==> *final(self) == *old(self),
            final(self).phase == old(self).phase,
    {
        match self.find_node(&node.id) {
            Some(i) => {
                assert(self.nodes@[i as int].id@ == node.id@);
                false
            },
            None => {
                let ghost pre = self.nodes@;
                self.nodes.push(node);
                proof {
                    assert forall|i: int, c: int|
                        0 <= i < self.nodes@.len() && 0 <= c < self.nodes@[i].children@.len()
                            implies exists|j: int|
                            i <= j < self.nodes@.len() && self.nodes@[j].id@ == (
                            #[trigger] self.nodes@[i].children@[c])@ by {
                        if i < pre.len() {
                            let j = choose|j: int|
                                i <= j < pre.len() && pre[j].id@ == pre[i].children@[c]@;
                            assert(self.nodes@[j].id@ == self.nodes@[i].children@[c]@);
                        }
                    }
                }
                true
            },
        }
    }

    /// Record that the node at `child` is a child of the node at
    /// `parent`: creation order is respected, so a parent only ever
    /// links to nodes created no earlier than itself.
    pub fn link_child(&mut self, parent: usize, child: usize)
        requires
            old(self).wf(),
            parent <= child < old(self).nodes@.len(),
        ensures
            final(self).wf(),
            final(self).nodes@.len() == old(self).nodes@.len(),
            final(self).phase == old(self).phase,
            final(self).nodes@[parent as int].children@ == old(self).nodes@[parent
                as int].children@.push(old(self).nodes@[child as int].id),
            forall|i: int|
                0 <= i < old(self).nodes@.len() && i != parent ==> final(self).nodes@[i] == (
                #[trigger] old(self).nodes@[i]),
            ({
                let a = old(self).nodes@[parent as int];
                let b = final(self).nodes@[parent as int];
                &&& b.id == a.id
                &&& b.name == a.name
                &&& b.node_type == a.node_type
                &&& b.phase == a.phase
                &&& b.message == a.message
                &&& b.started_at == a.started_at
                &&& b.finished_at == a.finished_at
                &&& b.outbound_nodes == a.outbound_nodes
                &&& b.held_locks == a.held_locks
            }),
    {
        let ghost pre = self.nodes@;
        let id = self.nodes[child].id.clone();
        let node = &mut self.nodes[parent];
        node.children.push(id);
        proof {
            assert(self.nodes@ =~= pre.update(parent as int, self.nodes@[parent as int]));
            assert(self.nodes@[parent as int].children@ =~= pre[parent as int].children@.push(
                pre[child as int].id,
            ));
            assert forall|i: int, c: int|
                0 <= i < self.nodes@.len() && 0 <= c < self.nodes@[i].children@.len()
                    implies exists|j: int|
                    i <= j < self.nodes@.len() && self.nodes@[j].id@ == (
                    #[trigger] self.nodes@[i].children@[c])@ by {
                if i == parent && c == self.nodes@[i].children@.len() - 1 {
                    assert(self.nodes@[child as int].id@ == self.nodes@[i].children@[c]@);
                } else {
                    let j = choose|j: int|
                        i <= j < pre.len() && pre[j].id@ == (pre[i].children@[c])@;
                    assert(self.nodes@[j].id@ == self.nodes@[i].children@[c]@);
                }
            }
        }
    }
}

/// A workflow resource: identity, desired state, observed state.
#[derive(Clone, Debug, PartialEq, Eq)]
pub struct Workflow {
    pub name: String,
    pub spec: WorkflowSpec,
    pub status: WorkflowStatus,
}

impl Workflow {
    /// A freshly admitted workflow: `Pending`, no nodes yet.
    pub fn new(name: &str, spec: WorkflowSpec) -> (r: Workflow)
        ensures
            r.name@ == name@,
            r.spec == spec,
            r.status.phase == NodePhase::Pending,
            r.status.nodes@.len() == 0,
            r.status.started_at is None,
            r.status.finished_at is None,
            r.status.wf(),
    {
        Workflow {
            name: name.to_owned(),
            spec,
            status: WorkflowStatus {
                phase: NodePhase::Pending,
                nodes: Vec::new(),
                started_at: None,
                finished_at: None,
            },
        }
    }

    /// The observed status of the workflow.
    pub fn get_status(&self) -> (r: &WorkflowStatus)
        ensures
            *r == self.status,
    {
        &self.status
    }
}

/// Admit a workflow: validate the definition — the entrypoint exists,
/// every template reference resolves, every task graph is well-formed,
/// the template graph has no cycle — and the lock configuration, and
/// only then create the resource. A rejected submission never reaches
/// execution; the errors fall in the order the checks run.
pub fn submit(name: &str, spec: WorkflowSpec, locks: &SyncManager) -> (r: Result<
    Workflow,
    SubmitError,
>)
    ensures
        r is Ok <==> ({
            let ts = spec.templates.templates@;
            &&& tmpl_index(ts, spec.entrypoint@) is Some
            &&& forall|i: int| 0 <= i < ts.len() ==> refs_resolve(ts, #[trigger] ts[i])
            &&& forall|i: int| 0 <= i < ts.len() ==> tasks_valid(#[trigger] ts[i])
            &&& acyclic(ts)
            &&& forall|i: int| 0 <= i < ts.len() ==> locks_declared(*locks, #[trigger] ts[i])
        }),
        r matches Ok(w) ==> {
            &&& w.name@ == name@
            &&& w.spec == spec
            &&& w.status.phase == NodePhase::Pending
            &&& w.status.nodes@.len() == 0
            &&& w.status.started_at is None
            &&& w.status.finished_at is None
        },
        r == Err::<Workflow, SubmitError>(SubmitError::Definition(
            DefinitionError::TemplateNotFound,
        )) ==> !(tmpl_index(spec.templates.templates@, spec.entrypoint@) is Some && forall|i: int|
            0 <= i < spec.templates.templates@.len() ==> refs_resolve(
                spec.templates.templates@,
                #[trigger] spec.templates.templates@[i],
            )),
        r == Err::<Workflow, SubmitError>(SubmitError::Definition(
            DefinitionError::MalformedTaskGraph,
        )) ==> !(forall|i: int|
            0 <= i < spec.templates.templates@.len() ==> tasks_valid(
                #[trigger] spec.templates.templates@[i],
            )),
        r == Err::<Workflow, SubmitError>(SubmitError::Definition(
            DefinitionError::RecursiveTemplateGraph,
        )) ==> !acyclic(spec.templates.templates@),
        r == Err::<Workflow, SubmitError>(SubmitError::Admission(AdmissionError::UndeclaredLock))
            ==> !(forall|i: int|
            0 <= i < spec.templates.templates@.len() ==> locks_declared(
                *locks,
                #[trigger] spec.templates.templates@[i],
            )),
        r is Err ==> (r == Err::<Workflow, SubmitError>(SubmitError::Definition(
            DefinitionError::TemplateNotFound,
        )) || r == Err::<Workflow, SubmitError>(SubmitError::Definition(
            DefinitionError::MalformedTaskGraph,
        )) || r == Err::<Workflow, SubmitError>(SubmitError::Definition(
            DefinitionError::RecursiveTemplateGraph,
        )) || r == Err::<Workflow, SubmitError>(SubmitError::Admission(
            AdmissionError::UndeclaredLock,
        ))),
        ({
            let ts = spec.templates.templates@;
            let entry_ok = tmpl_index(ts, spec.entrypoint@) is Some;
            let refs_ok = forall|i: int| 0 <= i < ts.len() ==> refs_resolve(ts, #[trigger] ts[i]);
            let tasks_ok = forall|i: int| 0 <= i < ts.len() ==> tasks_valid(#[trigger] ts[i]);
            let locks_ok = forall|i: int|
                0 <= i < ts.len() ==> locks_declared(*locks, #[trigger] ts[i]);
            &&& !(entry_ok && refs_ok) ==> r == Err::<Workflow, SubmitError>(
                SubmitError::Definition(DefinitionError::TemplateNotFound),
            )
            &&& entry_ok && refs_ok && !tasks_ok ==> r == Err::<Workflow, SubmitError>(
                SubmitError::Definition(DefinitionError::MalformedTaskGraph),
            )
            &&& entry_ok && refs_ok && tasks_ok && !acyclic(ts) ==> r == Err::<
                Workflow,
                SubmitError,
            >(SubmitError::Definition(DefinitionError::RecursiveTemplateGraph))
            &&& entry_ok && refs_ok && tasks_ok && acyclic(ts) && !locks_ok ==> r == Err::<
                Workflow,
                SubmitError,
            >(SubmitError::Admission(AdmissionError::UndeclaredLock))
        }),
{
    if !spec.templates.has_template(&spec.entrypoint) {
        return Err(SubmitError::Definition(DefinitionError::TemplateNotFound));
    }
    match spec.templates.validate_refs() {
        Ok(_) => {},
        Err(_) => {
            return Err(SubmitError::Definition(DefinitionError::TemplateNotFound));
        },
    }
    match spec.templates.validate_task_graphs() {
        Ok(_) => {},
        Err(_) => {
            return Err(SubmitError::Definition(DefinitionError::MalformedTaskGraph));
        },
    }
    match spec.templates.topo_order() {
        Ok(_) => {},
        Err(_) => {
            return Err(SubmitError::Definition(DefinitionError::RecursiveTemplateGraph));
        },
    }
    match spec.templates.validate_locks(locks) {
        Ok(_) => {},
        Err(_) => {
            return Err(SubmitError::Admission(AdmissionError::UndeclaredLock));
        },
    }
    Ok(Workflow::new(name, spec))
}

/// The ids of the nodes that are `Running`, in node order.
pub open spec fn running_ids(nodes: Seq<NodeStatus>) -> Seq<String>
    decreases nodes.len(),
{
    if nodes.len() == 0 {
        Seq::empty()
    } else {
        running_ids(nodes.drop_last()) + if nodes.last().phase == NodePhase::Running {
            seq![nodes.last().id]
        } else {
            Seq::empty()
        }
    }
}

impl WorkflowStatus {
    /// Cancel the workflow, top down: every `Pending` node is skipped at
    /// once — it never started — while every `Running` node keeps its
    /// phase and is returned so the engine can ask it to stop; the
    /// workflow is not forced terminal until those stop or a grace
    /// deadline passes. Terminal nodes stand untouched.
    pub fn cancel(&mut self, now: u64) -> (stops: Vec<String>)
        requires
            old(self).wf(),
        ensures
            final(self).wf(),
            final(self).nodes@.len() == old(self).nodes@.len(),
            final(self).phase == old(self).phase,
            stops@ == running_ids(old(self).nodes@),
            forall|i: int|
                0 <= i < old(self).nodes@.len() && (#[trigger] old(self).nodes@[i]).phase
                    == NodePhase::Pending ==> {
                    &&& final(self).nodes@[i].phase == NodePhase::Skipped
                    &&& final(self).nodes@[i].finished_at == Some(now)
                    &&& final(self).nodes@[i].started_at == old(self).nodes@[i].started_at
                    &&& NodeStatus::eq_except_phase_times(
                        old(self).nodes@[i],
                        final(self).nodes@[i],
                    )
                },
            forall|i: int|
                0 <= i < old(self).nodes@.len() && (#[trigger] old(self).nodes@[i]).phase
                    != NodePhase::Pending ==> final(self).nodes@[i] == old(self).nodes@[i],
    {
        let mut stops: Vec<String> = Vec::new();
        let mut i: usize = 0;
        while i < self.nodes.len()
            invariant
                old(self).wf(),
                i <= self.nodes@.len(),
                self.nodes@.len() == old(self).nodes@.len(),
                self.phase == old(self).phase,
                stops@ == running_ids(old(self).nodes@.take(i as int)),
                forall|j: int|
                    0 <= j < i && (#[trigger] old(self).nodes@[j]).phase == NodePhase::Pending
                        ==> {
                        &&& self.nodes@[j].phase == NodePhase::Skipped
                        &&& self.nodes@[j].finished_at == Some(now)
                        &&& self.nodes@[j].started_at == old(self).nodes@[j].started_at
                        &&& NodeStatus::eq_except_phase_times(
                            old(self).nodes@[j],
                            self.nodes@[j],
                        )
                        &&& self.nodes@[j].wf()
                    },
                forall|j: int|
                    0 <= j < i && (#[trigger] old(self).nodes@[j]).phase != NodePhase::Pending
                        ==> self.nodes@[j] == old(self).nodes@[j],
                forall|j: int| i <= j < self.nodes@.len() ==> (#[trigger] self.nodes@[j]) == old(
                    self,
                ).nodes@[j],
                forall|j: int|
                    0 <= j < self.nodes@.len() ==> (#[trigger] self.nodes@[j]).id == old(
                        self,
                    ).nodes@[j].id && self.nodes@[j].children == old(self).nodes@[j].children,
            decreases self.nodes@.len() - i,
        {
            let ghost pre = self.nodes@;
            let is_pending = self.nodes[i].phase == NodePhase::Pending;
            let is_running = self.nodes[i].phase == NodePhase::Running;
            if is_pending {
                let node = &mut self.nodes[i];
                let outcome = node.transition_to(NodePhase::Skipped, now);
                proof {
                    assert(outcome is Ok);
                    assert(self.nodes@ =~= pre.update(i as int, self.nodes@[i as int]));
                }
            } else if is_running {
                stops.push(self.nodes[i].id.clone());
            }
            proof {
                assert(old(self).nodes@.take(i + 1).drop_last() =~= old(self).nodes@.take(
                    i as int,
                ));
                assert(old(self).nodes@.take(i + 1).last() == old(self).nodes@[i as int]);
            }
            i = i + 1;
        }
        proof {
            assert(old(self).nodes@.take(old(self).nodes@.len() as int) =~= old(self).nodes@);
            assert forall|a: int, b: int|
                0 <= a < b < self.nodes@.len() implies self.nodes@[a].id@ != self.nodes@[b].id@ by {
                assert(self.nodes@[a].id == old(self).nodes@[a].id);
                assert(self.nodes@[b].id == old(self).nodes@[b].id);
            }
            assert forall|a: int, c: int|
                0 <= a < self.nodes@.len() && 0 <= c < self.nodes@[a].children@.len()
                    implies exists|j: int|
                    a <= j < self.nodes@.len() && self.nodes@[j].id@ == (
                    #[trigger] self.nodes@[a].children@[c])@ by {
                assert(self.nodes@[a].children == old(self).nodes@[a].children);
                let j = choose|j: int|
                    a <= j < old(self).nodes@.len() && old(self).nodes@[j].id@ == (old(
                        self,
                    ).nodes@[a].children@[c])@;
                assert(self.nodes@[j].id == old(self).nodes@[j].id);
            }
        }
        stops
    }

    /// The grace deadline passed: force every still-`Running` node to
    /// `Error`, recording the infrastructure-level end of its execution.
    pub fn force_stop(&mut self, now: u64)
        requires
            old(self).wf(),
        ensures
            final(self).wf(),
            final(self).nodes@.len() == old(self).nodes@.len(),
            final(self).phase == old(self).phase,
            forall|i: int|
                0 <= i < old(self).nodes@.len() && (#[trigger] old(self).nodes@[i]).phase
                    == NodePhase::Running ==> {
                    &&& final(self).nodes@[i].phase == NodePhase::Error
                    &&& final(self).nodes@[i].finished_at == Some(now)
                    &&& final(self).nodes@[i].started_at == old(self).nodes@[i].started_at
                    &&& NodeStatus::eq_except_phase_times(
                        old(self).nodes@[i],
                        final(self).nodes@[i],
                    )
                },
            forall|i: int|
                0 <= i < old(self).nodes@.len() && (#[trigger] old(self).nodes@[i]).phase
                    != NodePhase::Running ==> final(self).nodes@[i] == old(self).nodes@[i],
    {
        let mut i: usize = 0;
        while i < self.nodes.len()
            invariant
                old(self).wf(),
                i <= self.nodes@.len(),
                self.nodes@.len() == old(self).nodes@.len(),
                self.phase == old(self).phase,
                forall|j: int|
                    0 <= j < i && (#[trigger] old(self).nodes@[j]).phase == NodePhase::Running
                        ==> {
                        &&& self.nodes@[j].phase == NodePhase::Error
                        &&& self.nodes@[j].finished_at == Some(now)
                        &&& self.nodes@[j].started_at == old(self).nodes@[j].started_at
                        &&& NodeStatus::eq_except_phase_times(
                            old(self).nodes@[j],
                            self.nodes@[j],
                        )
                        &&& self.nodes@[j].wf()
                    },
                forall|j: int|
                    0 <= j < i && (#[trigger] old(self).nodes@[j]).phase != NodePhase::Running
                        ==> self.nodes@[j] == old(self).nodes@[j],
                forall|j: int| i <= j < self.nodes@.len() ==> (#[trigger] self.nodes@[j]) == old(
                    self,
                ).nodes@[j],
                forall|j: int|
                    0 <= j < self.nodes@.len() ==> (#[trigger] self.nodes@[j]).id == old(
                        self,
                    ).nodes@[j].id && self.nodes@[j].children == old(self).nodes@[j].children,
            decreases self.nodes@.len() - i,
        {
            let ghost pre = self.nodes@;
            if self.nodes[i].phase == NodePhase::Running {
                let node = &mut self.nodes[i];
                let outcome = node.transition_to(NodePhase::Error, now);
                proof {
                    assert(outcome is Ok);
                    assert(self.nodes@ =~= pre.update(i as int, self.nodes@[i as int]));
                }
            }
            i = i + 1;
        }
        proof {
            assert forall|a: int, b: int|
                0 <= a < b < self.nodes@.len() implies self.nodes@[a].id@ != self.nodes@[b].id@ by {
                assert(self.nodes@[a].id == old(self).nodes@[a].id);
                assert(self.nodes@[b].id == old(self).nodes@[b].id);
            }
            assert forall|a: int, c: int|
                0 <= a < self.nodes@.len() && 0 <= c < self.nodes@[a].children@.len()
                    implies exists|j: int|
                    a <= j < self.nodes@.len() && self.nodes@[j].id@ == (
                    #[trigger] self.nodes@[a].children@[c])@ by {
                assert(self.nodes@[a].children == old(self).nodes@[a].children);
                let j = choose|j: int|
                    a <= j < old(self).nodes@.len() && old(self).nodes@[j].id@ == (old(
                        self,
                    ).nodes@[a].children@[c])@;
                assert(self.nodes@[j].id == old(self).nodes@[j].id);
            }
        }
    }
}

/// Every node record of the status is terminal.
pub open spec fn spec_all_nodes_terminal(s: WorkflowStatus) -> bool {
    forall|i: int|
        0 <= i < s.nodes@.len() ==> (#[trigger] s.nodes@[i]).phase.spec_is_terminal()
}

impl WorkflowStatus {
    /// Has every node reached a terminal phase?
    pub fn all_nodes_terminal(&self) -> (r: bool)
        ensures
            r == spec_all_nodes_terminal(*self),
    {
        let mut i: usize = 0;
        while i < self.nodes.len()
            invariant
                i <= self.nodes@.len(),
                forall|j: int|
                    0 <= j < i ==> (#[trigger] self.nodes@[j]).phase.spec_is_terminal(),
            decreases self.nodes@.len() - i,
        {
            if !self.nodes[i].phase.is_terminal() {
                return false;
            }
            i = i + 1;
        }
        true
    }

    /// Step the workflow-level phase through the same state machine as a
    /// node's. A terminal phase is permitted only once every node has
    /// stopped: cancellation and failure propagate top-down, but the
    /// enclosing workflow goes terminal only after its nodes do.
    pub fn transition_phase(&mut self, to: NodePhase, now: u64) -> (r: Result<(), PhaseError>)
        requires
            old(self).wf(),
        ensures
            final(self).wf(),
            final(self).nodes == old(self).nodes,
            r is Ok <==> (old(self).phase.spec_can_step_to(to) && (to.spec_is_terminal()
                ==> spec_all_nodes_terminal(*old(self)))),
            r is Ok ==> {
                &&& final(self).phase == to
                &&& final(self).started_at == (if old(self).phase == NodePhase::Pending && to
                    == NodePhase::Running {
                    Some(now)
                } else {
                    old(self).started_at
                })
                &&& final(self).finished_at == (if to.spec_is_terminal() {
                    Some(now)
                } else {
                    old(self).finished_at
                })
            },
            r is Err ==> *final(self) == *old(self) && r == Err::<(), PhaseError>(
                PhaseError::IllegalTransition,
            ),
    {
        let allowed = self.phase.can_step_to(to) && (!to.is_terminal()
            || self.all_nodes_terminal());
        if allowed {
            if self.phase == NodePhase::Pending && to == NodePhase::Running {
                self.started_at = Some(now);
            }
            if to.is_terminal() {
                self.finished_at = Some(now);
            }
            self.phase = to;
            Ok(())
        } else {
            Err(PhaseError::IllegalTransition)
        }
    }
}

/// Another task names `name` among its dependencies.
pub open spec fn is_depended_on(tasks: Seq<DagTask>, name: Seq<char>) -> bool {
    exists|j: int, k: int|
        0 <= j < tasks.len() && 0 <= k < tasks[j].depends@.len() && (
        #[trigger] tasks[j].depends@[k])@ == name
}

/// The outbound tasks of a DAG: its targets — the tasks no other task
/// depends on. `r[i]` says whether task `i` is outbound.
pub fn dag_outbound_mask(tasks: &Vec<DagTask>) -> (r: Vec<bool>)
    ensures
        r@.len() == tasks@.len(),
        forall|i: int|
            0 <= i < tasks@.len() ==> (#[trigger] r@[i]) == !is_depended_on(
                tasks@,
                tasks@[i].name@,
            ),
{
    let mut out: Vec<bool> = Vec::new();
    let mut i: usize = 0;
    while i < tasks.len()
        invariant
            i <= tasks@.len(),
            out@.len() == i,
            forall|a: int|
                0 <= a < i ==> (#[trigger] out@[a]) == !is_depended_on(tasks@, tasks@[a].name@),
        decreases tasks@.len() - i,
    {
        out.push(!depended_on(tasks, &tasks[i].name));
        i = i + 1;
    }
    out
}

/// Does any task depend on this name?
fn depended_on(tasks: &Vec<DagTask>, name: &String) -> (r: bool)
    ensures
        r == is_depended_on(tasks@, name@),
{
    let mut j: usize = 0;
    while j < tasks.len()
        invariant
            j <= tasks@.len(),
            forall|a: int, b: int|
                0 <= a < j && 0 <= b < tasks@[a].depends@.len() ==> (
                #[trigger] tasks@[a].depends@[b])@ != name@,
        decreases tasks@.len() - j,
    {
        let deps = &tasks[j].depends;
        let mut k: usize = 0;
        while k < deps.len()
            invariant
                j < tasks@.len(),
                deps == &tasks@[j as int].depends,
                k <= deps@.len(),
                forall|b: int|
                    0 <= b < k ==> (#[trigger] tasks@[j as int].depends@[b])@ != name@,
            decreases deps@.len() - k,
        {
            if deps[k].eq(name) {
                assert(tasks@[j as int].depends@[k as int]@ == name@);
                return true;
            }
            k = k + 1;
        }
        j = j + 1;
    }
    false
}

/// Concatenate, then deduplicate, the outbound-node id lists of the
/// final children of a composite node: the composite's outbound set is
/// their exact union — each id of a child list appears, nothing else
/// does, and nothing twice — propagated upward through arbitrarily deep
/// composition.
pub fn union_outbound(lists: &Vec<Vec<String>>) -> (r: Vec<String>)
    ensures
        nodup_views(r@),
        forall|x: Seq<char>|
            contains_view(r@, x) <==> exists|i: int|
                0 <= i < lists@.len() && contains_view((#[trigger] lists@[i])@, x),
{
    let mut out: Vec<String> = Vec::new();
    let mut i: usize = 0;
    while i < lists.len()
        invariant
            i <= lists@.len(),
            nodup_views(out@),
            forall|x: Seq<char>|
                contains_view(out@, x) <==> exists|a: int|
                    0 <= a < i && contains_view((#[trigger] lists@[a])@, x),
        decreases lists@.len() - i,
    {
        let row = &lists[i];
        let mut k: usize = 0;
        while k < row.len()
            invariant
                i < lists@.len(),
                row == &lists@[i as int],
                k <= row@.len(),
                nodup_views(out@),
                forall|x: Seq<char>|
                    contains_view(out@, x) <==> (exists|a: int|
                        0 <= a < i && contains_view((#[trigger] lists@[a])@, x)) || contains_view(
                        row@.take(k as int),
                        x,
                    ),
            decreases row@.len() - k,
        {
            let ghost out0 = out@;
            if !contains_str(&out, &row[k]) {
                out.push(row[k].clone());
            }
            proof {
                assert(row@.take(k + 1).drop_last() =~= row@.take(k as int));
                assert(row@.take(k + 1).last() == row@[k as int]);
                assert forall|x: Seq<char>|
                    contains_view(out@, x) implies ((exists|a: int|
                        0 <= a < i && contains_view((#[trigger] lists@[a])@, x)) || contains_view(
                        row@.take(k + 1),
                        x,
                    )) by {
                    let ix = choose|ix: int| 0 <= ix < out@.len() && out@[ix]@ == x;
                    if ix < out0.len() {
                        assert(contains_view(out0, x));
                    } else {
                        assert(out@[ix]@ == row@[k as int]@);
                        assert(row@.take(k + 1)[k as int]@ == x);
                    }
                }
                assert forall|x: Seq<char>|
                    ((exists|a: int|
                        0 <= a < i && contains_view((#[trigger] lists@[a])@, x)) || contains_view(
                        row@.take(k + 1),
                        x,
                    )) implies contains_view(out@, x) by {
                    if exists|a: int| 0 <= a < i && contains_view((#[trigger] lists@[a])@, x) {
                        assert(contains_view(out0, x));
                        let ix = choose|ix: int| 0 <= ix < out0.len() && out0[ix]@ == x;
                        assert(out@[ix]@ == x);
                    } else {
                        let ix = choose|ix: int|
                            0 <= ix < row@.take(k + 1).len() && (#[trigger] row@.take(
                                k + 1,
                            )[ix])@ == x;
                        if ix < k {
                            assert(contains_view(row@.take(k as int), x));
                            assert(contains_view(out0, x));
                            let iy = choose|iy: int| 0 <= iy < out0.len() && out0[iy]@ == x;
                            assert(out@[iy]@ == x);
                        } else {
                            assert(row@[k as int]@ == x);
                            if contains_view(out0, x) {
                                let iy = choose|iy: int| 0 <= iy < out0.len() && out0[iy]@ == x;
                                assert(out@[iy]@ == x);
                            } else {
                                assert(out@[out@.len() - 1]@ == x);
                            }
                        }
                    }
                }
            }
            k = k + 1;
        }
        proof {
            assert(row@.take(row@.len() as int) =~= row@);
            assert forall|x: Seq<char>|
                contains_view(out@, x) implies exists|a: int|
                0 <= a < i + 1 && contains_view((#[trigger] lists@[a])@, x) by {
                if !(exists|a: int| 0 <= a < i && contains_view((#[trigger] lists@[a])@, x)) {
                    assert(contains_view(lists@[i as int]@, x));
                }
            }
            assert forall|x: Seq<char>|
                (exists|a: int| 0 <= a < i + 1 && contains_view((#[trigger] lists@[a])@, x))
                    implies contains_view(out@, x) by {
                let a = choose|a: int| 0 <= a < i + 1 && contains_view((#[trigger] lists@[a])@, x);
                if a < i {
                } else {
                    assert(contains_view(row@, x));
                }
            }
        }
        i = i + 1;
    }
    out
}

} // verus!
