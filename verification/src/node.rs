//! `NodeStatus`: the per-node execution record, mutated only through the
//! state machine in this module.

use vstd::prelude::*;

use crate::errors::PhaseError;
use crate::phase::NodePhase;

verus! {

/// Status of one executed node of a workflow. The `id` is a deterministic
/// content hash of the node's qualified `name` (see
/// `crate::ident::node_id_of`), so re-running the same graph path yields
/// the same id; `boundary_id` names the template-root node this node
/// nests under; `children` and `outbound_nodes` hold ids. Timestamps are
/// ticks of the engine clock.
#[derive(Clone, Debug, PartialEq, Eq)]
pub struct NodeStatus {
    pub id: String,
    pub name: String,
    pub node_type: String,
    pub display_name: Option<String>,
    pub template_name: Option<String>,
    pub boundary_id: Option<String>,
    pub phase: NodePhase,
    pub message: Option<String>,
    pub daemoned: bool,
    pub inputs: Option<crate::template::Inputs>,
    pub outputs: Option<crate::template::Outputs>,
    pub children: Vec<String>,
    pub outbound_nodes: Vec<String>,
    pub held_locks: Vec<String>,
    pub started_at: Option<u64>,
    pub finished_at: Option<u64>,
}

impl NodeStatus {
    /// Well-formedness of a node record: `finished_at` is set exactly when
    /// the phase is terminal, and a `Running` node has a start time.
    pub open spec fn wf(self) -> bool {
        &&& self.finished_at is Some <==> self.phase.spec_is_terminal()
        &&& self.phase == NodePhase::Running ==> self.started_at is Some
    }

    /// A fresh record: `Pending`, no timestamps, no children.
    pub fn new(id: &str, name: &str, node_type: &str) -> (r: NodeStatus)
        ensures
            r.id@ == id@,
            r.name@ == name@,
            r.node_type@ == node_type@,
            r.phase == NodePhase::Pending,
            r.display_name is None,
            r.template_name is None,
            r.boundary_id is None,
            r.message is None,
            !r.daemoned,
            r.inputs is None,
            r.outputs is None,
            r.children@.len() == 0,
            r.outbound_nodes@.len() == 0,
            r.held_locks@.len() == 0,
            r.started_at is None,
            r.finished_at is None,
            r.wf(),
    {
        NodeStatus {
            id: id.to_owned(),
            name: name.to_owned(),
            node_type: node_type.to_owned(),
            display_name: None,
            template_name: None,
            boundary_id: None,
            phase: NodePhase::Pending,
            message: None,
            daemoned: false,
            inputs: None,
            outputs: None,
            children: Vec::new(),
            outbound_nodes: Vec::new(),
            held_locks: Vec::new(),
            started_at: None,
            finished_at: None,
        }
    }

    /// A fresh record whose id is derived from the qualified name: the
    /// deterministic content hash that keys idempotent dispatch.
    pub fn new_for_name(name: &str, node_type: &str) -> (r: NodeStatus)
        ensures
            r.id@ == crate::ident::spec_node_id(
                vstd::string::StringSliceAdditionalSpecFns::spec_bytes(name),
            ),
            r.name@ == name@,
            r.node_type@ == node_type@,
            r.phase == NodePhase::Pending,
            r.children@.len() == 0,
            r.outbound_nodes@.len() == 0,
            r.held_locks@.len() == 0,
            r.started_at is None,
            r.finished_at is None,
            r.wf(),
    {
        let id = crate::ident::node_id_of(name);
        let mut node = NodeStatus::new("", name, node_type);
        node.id = id;
        node
    }

    /// Step the state machine. Succeeds exactly on the transitions the
    /// relation admits; a refused step leaves the record untouched. On the
    /// first arrival at a terminal phase `finished_at` is set to `now`, and
    /// entering `Running` from `Pending` records `started_at` — both are
    /// written exactly once, since no transition leaves a terminal phase.
    pub fn transition_to(&mut self, to: NodePhase, now: u64) -> (r: Result<(), PhaseError>)
        requires
            old(self).wf(),
        ensures
            final(self).wf(),
            r is Ok <==> old(self).phase.spec_can_step_to(to),
            r is Err ==> *final(self) == *old(self) && r == Err::<(), PhaseError>(PhaseError::IllegalTransition),
            r is Ok ==> final(self).phase == to,
            r is Ok ==> final(self).started_at == (if old(self).phase == NodePhase::Pending
                && to == NodePhase::Running { Some(now) } else { old(self).started_at }),
            r is Ok ==> final(self).finished_at == (if to.spec_is_terminal() { Some(now) }
                else { None::<u64> }),
            final(self).id == old(self).id,
            final(self).name == old(self).name,
            final(self).node_type == old(self).node_type,
            final(self).boundary_id == old(self).boundary_id,
            final(self).children == old(self).children,
            final(self).outbound_nodes == old(self).outbound_nodes,
            final(self).held_locks == old(self).held_locks,
            final(self).message == old(self).message,
            final(self).display_name == old(self).display_name,
            final(self).template_name == old(self).template_name,
            final(self).daemoned == old(self).daemoned,
            final(self).inputs == old(self).inputs,
            final(self).outputs == old(self).outputs,
    {
        if self.phase.can_step_to(to) {
            if self.phase == NodePhase::Pending && to == NodePhase::Running {
                self.started_at = Some(now);
            }
            if to.is_terminal() {
                self.finished_at = Some(now);
            }
            self.phase = to;
            Ok(())
        } else {
            Err(PhaseError::IllegalTransition)
        }
    }

    /// Everything but phase and timestamps agrees between `a` and `b`:
    /// the identity and content of the record stand.
    pub open spec fn eq_except_phase_times(a: NodeStatus, b: NodeStatus) -> bool {
        &&& a.id == b.id
        &&& a.name == b.name
        &&& a.node_type == b.node_type
        &&& a.display_name == b.display_name
        &&& a.template_name == b.template_name
        &&& a.boundary_id == b.boundary_id
        &&& a.message == b.message
        &&& a.daemoned == b.daemoned
        &&& a.inputs == b.inputs
        &&& a.outputs == b.outputs
        &&& a.children == b.children
        &&& a.outbound_nodes == b.outbound_nodes
        &&& a.held_locks == b.held_locks
    }

    /// Everything but the message agrees between `a` and `b`.
    pub open spec fn eq_except_message(a: NodeStatus, b: NodeStatus) -> bool {
        &&& a.id == b.id
        &&& a.name == b.name
        &&& a.node_type == b.node_type
        &&& a.display_name == b.display_name
        &&& a.template_name == b.template_name
        &&& a.boundary_id == b.boundary_id
        &&& a.phase == b.phase
        &&& a.daemoned == b.daemoned
        &&& a.inputs == b.inputs
        &&& a.outputs == b.outputs
        &&& a.children == b.children
        &&& a.outbound_nodes == b.outbound_nodes
        &&& a.held_locks == b.held_locks
        &&& a.started_at == b.started_at
        &&& a.finished_at == b.finished_at
    }

    /// Everything but the recorded lock holdings agrees between `a` and `b`.
    pub open spec fn eq_except_locks(a: NodeStatus, b: NodeStatus) -> bool {
        &&& a.id == b.id
        &&& a.name == b.name
        &&& a.node_type == b.node_type
        &&& a.display_name == b.display_name
        &&& a.template_name == b.template_name
        &&& a.boundary_id == b.boundary_id
        &&& a.phase == b.phase
        &&& a.message == b.message
        &&& a.daemoned == b.daemoned
        &&& a.inputs == b.inputs
        &&& a.outputs == b.outputs
        &&& a.children == b.children
        &&& a.outbound_nodes == b.outbound_nodes
        &&& a.started_at == b.started_at
        &&& a.finished_at == b.finished_at
    }

    /// Record that this node now holds the named lock. Recording twice is
    /// harmless: the name is kept once.
    pub fn hold_lock(&mut self, lock: &String)
        ensures
            NodeStatus::eq_except_locks(*old(self), *final(self)),
            old(self).wf() ==> final(self).wf(),
            crate::strvec::contains_view(old(self).held_locks@, lock@)
                ==> final(self).held_locks@ == old(self).held_locks@,
            !crate::strvec::contains_view(old(self).held_locks@, lock@)
                ==> final(self).held_locks@ == old(self).held_locks@.push(*lock),
            crate::strvec::contains_view(final(self).held_locks@, lock@),
    {
        if !crate::strvec::contains_str(&self.held_locks, lock) {
            self.held_locks.push(lock.clone());
            assert(self.held_locks@[self.held_locks@.len() - 1]@ == lock@);
        }
    }

    /// Record that this node released the named lock.
    pub fn drop_lock(&mut self, lock: &String)
        ensures
            NodeStatus::eq_except_locks(*old(self), *final(self)),
            old(self).wf() ==> final(self).wf(),
            final(self).held_locks@ == crate::strvec::remove_view(old(self).held_locks@, lock@),
    {
        match crate::strvec::find_view(&self.held_locks, lock) {
            Some(i) => {
                self.held_locks.remove(i);
                proof {
                    crate::strvec::lemma_remove_view_at(old(self).held_locks@, lock@, i as int);
                }
            },
            None => {
                proof {
                    crate::strvec::lemma_remove_view_absent(old(self).held_locks@, lock@);
                }
            },
        }
    }

    /// Record a human-readable message, typically the cause of a failure.
    /// Nothing else of the record changes.
    pub fn set_message(&mut self, message: &str)
        ensures
            final(self).message matches Some(m) && m@ == message@,
            NodeStatus::eq_except_message(*old(self), *final(self)),
            old(self).wf() ==> final(self).wf(),
    {
        self.message = Some(message.to_owned());
    }
}

/// Law: once a well-formed node is terminal, `transition_to` refuses every
/// request, so its phase and `finished_at` stand for the life of the
/// workflow.
pub proof fn lemma_terminal_node_is_frozen(n: NodeStatus, to: NodePhase)
    requires
        n.wf(),
        n.phase.spec_is_terminal(),
    ensures
        !n.phase.spec_can_step_to(to),
        n.finished_at is Some,
{
}

} // verus!
