//! Error taxonomy: definition and admission faults abort a submission;
//! execution and infrastructure faults are recorded in node status and
//! never thrown through the scheduler.

use vstd::prelude::*;

verus! {

/// A malformed workflow definition. Rejected at submission time; a workflow
/// carrying one of these never reaches execution.
#[derive(Clone, Copy, Debug, PartialEq, Eq, Structural)]
pub enum DefinitionError {
    /// No template of the referenced name exists in the store.
    TemplateNotFound,
    /// A placeholder in a text field names an input that has neither a
    /// supplied value, a declared value nor a default.
    UnresolvedReference,
    /// A template populates none of its type fields.
    NoTemplateKind,
    /// A template populates more than one of its type fields.
    MultipleTemplateKinds,
    /// The template graph cannot be ordered: some templates invoke each
    /// other in a cycle.
    RecursiveTemplateGraph,
    /// A DAG template repeats a task name, or a task depends on a task
    /// the graph does not declare.
    MalformedTaskGraph,
}

/// A lock misconfiguration. Rejected at submission time.
#[derive(Clone, Copy, Debug, PartialEq, Eq, Structural)]
pub enum AdmissionError {
    /// A node requires a semaphore that no configuration declares.
    UndeclaredLock,
}

/// Why a submission was rejected: a malformed definition or a lock
/// misconfiguration. Nothing else aborts the submission call.
#[derive(Clone, Copy, Debug, PartialEq, Eq, Structural)]
pub enum SubmitError {
    Definition(DefinitionError),
    Admission(AdmissionError),
}

/// Refusals of the node state machine.
#[derive(Clone, Copy, Debug, PartialEq, Eq, Structural)]
pub enum PhaseError {
    /// The requested phase change is outside the transition relation;
    /// in particular the node already reached a terminal phase.
    IllegalTransition,
}

/// Refusals of the artifact repository resolver.
#[derive(Clone, Copy, Debug, PartialEq, Eq, Structural)]
pub enum ArtifactError {
    /// No repository is set on the artifact, on the template's archive
    /// location, or as the orchestrator-wide default, and the artifact is
    /// not inline.
    NoRepositoryConfigured,
}

} // verus!
