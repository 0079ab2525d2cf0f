//! The lifecycle state machine of a single workflow node.

use vstd::prelude::*;

verus! {

/// Phase of a node: `Pending` and `Running` are live, the rest are terminal.
#[derive(Clone, Copy, Debug, PartialEq, Eq, Structural)]
pub enum NodePhase {
    Pending,
    Running,
    Succeeded,
    Failed,
    Error,
    Skipped,
    Omitted,
}

impl NodePhase {
    /// A terminal phase is final: the transition relation leaves none.
    pub open spec fn spec_is_terminal(self) -> bool {
        match self {
            NodePhase::Pending => false,
            NodePhase::Running => false,
            _ => true,
        }
    }

    #[verifier::when_used_as_spec(spec_is_terminal)]
    pub fn is_terminal(self) -> (r: bool)
        ensures
            r == self.spec_is_terminal(),
    {
        match self {
            NodePhase::Pending => false,
            NodePhase::Running => false,
            _ => true,
        }
    }

    /// The transition relation of the node state machine:
    /// `Pending -> Running` (once synchronization grants every lock),
    /// `Running -> Running` (daemon readiness re-observation),
    /// `Running -> Succeeded | Failed | Error | Skipped`,
    /// `Pending -> Skipped | Omitted`.
    pub open spec fn spec_can_step_to(self, to: NodePhase) -> bool {
        match (self, to) {
            (NodePhase::Pending, NodePhase::Running) => true,
            (NodePhase::Pending, NodePhase::Skipped) => true,
            (NodePhase::Pending, NodePhase::Omitted) => true,
            (NodePhase::Running, NodePhase::Running) => true,
            (NodePhase::Running, NodePhase::Succeeded) => true,
            (NodePhase::Running, NodePhase::Failed) => true,
            (NodePhase::Running, NodePhase::Error) => true,
            (NodePhase::Running, NodePhase::Skipped) => true,
            _ => false,
        }
    }

    #[verifier::when_used_as_spec(spec_can_step_to)]
    pub fn can_step_to(self, to: NodePhase) -> (r: bool)
        ensures
            r == self.spec_can_step_to(to),
    {
        match (self, to) {
            (NodePhase::Pending, NodePhase::Running) => true,
            (NodePhase::Pending, NodePhase::Skipped) => true,
            (NodePhase::Pending, NodePhase::Omitted) => true,
            (NodePhase::Running, NodePhase::Running) => true,
            (NodePhase::Running, NodePhase::Succeeded) => true,
            (NodePhase::Running, NodePhase::Failed) => true,
            (NodePhase::Running, NodePhase::Error) => true,
            (NodePhase::Running, NodePhase::Skipped) => true,
            _ => false,
        }
    }
}

/// Law: terminal phases are final — no transition leaves them, so a node
/// that has reached `Succeeded`, `Failed`, `Error`, `Skipped` or `Omitted`
/// can never change phase again.
pub proof fn lemma_terminal_phase_is_final(p: NodePhase, q: NodePhase)
    requires
        p.spec_is_terminal(),
    ensures
        !p.spec_can_step_to(q),
{
}

/// Law: a node can only ever reach `Running` by way of `Pending -> Running`
/// or the daemon self-step; in particular `Omitted` and `Skipped` nodes were
/// never `Running`.
pub proof fn lemma_running_only_from_live(p: NodePhase)
    requires
        p.spec_can_step_to(NodePhase::Running),
    ensures
        p == NodePhase::Pending || p == NodePhase::Running,
{
}

} // verus!
