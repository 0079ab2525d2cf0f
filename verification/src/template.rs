//! Templates: the reusable units of execution, re-encoded from the wire
//! schema's independently-optional type fields into a closed variant type,
//! with the submission-time check that exactly one type is populated.
//!
//! Text payloads (sources, commands, manifests) are carried as raw bytes:
//! argument binding substitutes into them byte-for-byte.

use vstd::prelude::*;

use crate::errors::DefinitionError;
use crate::retry::RetryStrategy;

verus! {

/// A declared input parameter: optionally a supplied value, optionally a
/// default to fall back on.
#[derive(Clone, Debug, PartialEq, Eq)]
pub struct Parameter {
    pub name: Vec<u8>,
    pub value: Option<Vec<u8>>,
    pub default: Option<Vec<u8>>,
}

/// Declared inputs of a template.
#[derive(Clone, Debug, PartialEq, Eq)]
pub struct Inputs {
    pub parameters: Vec<Parameter>,
}

/// Declared outputs of a template: parameters read back from the
/// execution unit once it finishes.
#[derive(Clone, Debug, PartialEq, Eq)]
pub struct Outputs {
    pub parameters: Vec<Parameter>,
}

/// Memoization policy: cache the node's output under a key computed
/// from the bound template — sound because binding is deterministic.
#[derive(Clone, Debug, PartialEq, Eq)]
pub struct CachePolicy {
    pub key: Vec<u8>,
    pub cache_name: String,
    pub max_age: Option<u64>,
}

/// Payload of a container template: an image and its command line.
#[derive(Clone, Debug, PartialEq, Eq)]
pub struct ContainerTemplate {
    pub image: Vec<u8>,
    pub command: Vec<Vec<u8>>,
    pub args: Vec<Vec<u8>>,
}

/// Payload of a script template: an image and an inline source.
#[derive(Clone, Debug, PartialEq, Eq)]
pub struct ScriptSpec {
    pub image: Vec<u8>,
    pub source: Vec<u8>,
}

/// Payload of a resource template: an action applied to a manifest.
#[derive(Clone, Debug, PartialEq, Eq)]
pub struct ResourceSpec {
    pub action: Vec<u8>,
    pub manifest: Vec<u8>,
    pub success_condition: Option<Vec<u8>>,
    pub failure_condition: Option<Vec<u8>>,
}

/// Payload of a suspend template: an optional duration in ticks, `None`
/// meaning until resumed.
#[derive(Clone, Copy, Debug, PartialEq, Eq)]
pub struct SuspendSpec {
    pub duration: Option<u64>,
}

/// Payload of an http template.
#[derive(Clone, Debug, PartialEq, Eq)]
pub struct HttpSpec {
    pub url: Vec<u8>,
    pub body: Option<Vec<u8>>,
}

/// Payload of a data template: a source expression.
#[derive(Clone, Debug, PartialEq, Eq)]
pub struct DataSpec {
    pub source: Vec<u8>,
}

/// One task of a DAG template: runnable once every task it depends on is
/// terminal and the dependency guard — by default, that all of them
/// succeeded — holds.
#[derive(Clone, Debug, PartialEq, Eq)]
pub struct DagTask {
    pub name: String,
    pub template: String,
    pub depends: Vec<String>,
    /// Arguments bound into the child template at this invocation.
    pub arguments: Vec<crate::bind::Argument>,
}

/// A DAG template: a set of named tasks with dependencies.
#[derive(Clone, Debug, PartialEq, Eq)]
pub struct DagTemplate {
    pub tasks: Vec<DagTask>,
}

/// One step of a steps template. `requires_success_of` names steps of
/// earlier stages whose success this step's guard demands; with an
/// unsatisfied guard the step is skipped, not run.
#[derive(Clone, Debug, PartialEq, Eq)]
pub struct WorkflowStep {
    pub name: String,
    pub template: String,
    pub requires_success_of: Vec<String>,
    /// Arguments bound into the child template at this invocation.
    pub arguments: Vec<crate::bind::Argument>,
}

/// A steps template: stages run strictly in order, the steps within one
/// stage in parallel.
#[derive(Clone, Debug, PartialEq, Eq)]
pub struct StepsTemplate {
    pub stages: Vec<Vec<WorkflowStep>>,
}

/// The closed variant type behind the schema's nine independently-optional
/// template type fields.
#[derive(Clone, Debug, PartialEq, Eq)]
pub enum TemplateKind {
    Container(ContainerTemplate),
    ContainerSet(Vec<ContainerTemplate>),
    Script(ScriptSpec),
    Resource(ResourceSpec),
    Suspend(SuspendSpec),
    Dag(DagTemplate),
    Steps(StepsTemplate),
    Http(HttpSpec),
    Data(DataSpec),
}

/// Locks a node must hold before it may enter `Running`, by name.
#[derive(Clone, Debug, PartialEq, Eq)]
pub struct Synchronization {
    pub mutexes: Vec<String>,
    pub semaphores: Vec<String>,
}

/// A template as the engine sees it: one kind, declared inputs, and the
/// policies that gate its nodes.
#[derive(Clone, Debug, PartialEq, Eq)]
pub struct Template {
    pub name: String,
    pub inputs: Inputs,
    pub outputs: Outputs,
    pub kind: TemplateKind,
    pub fail_fast: bool,
    pub daemon: bool,
    pub parallelism: Option<u32>,
    pub retry_strategy: Option<RetryStrategy>,
    pub synchronization: Option<Synchronization>,
    pub cache_policy: Option<CachePolicy>,
    pub archive_location: Option<crate::artifact::ArtifactRepository>,
}

impl Template {
    /// A template of the given name and kind, with no declared inputs or
    /// outputs and no policies set.
    pub fn new(name: &str, kind: TemplateKind) -> (r: Template)
        ensures
            r.name@ == name@,
            r.kind == kind,
            r.inputs.parameters@.len() == 0,
            r.outputs.parameters@.len() == 0,
            !r.fail_fast,
            !r.daemon,
            r.parallelism is None,
            r.retry_strategy is None,
            r.synchronization is None,
            r.cache_policy is None,
            r.archive_location is None,
    {
        Template {
            name: name.to_owned(),
            inputs: Inputs { parameters: Vec::new() },
            outputs: Outputs { parameters: Vec::new() },
            kind,
            fail_fast: false,
            daemon: false,
            parallelism: None,
            retry_strategy: None,
            synchronization: None,
            cache_policy: None,
            archive_location: None,
        }
    }
}

/// The wire shape of a template's type: nine independently nullable
/// fields, of which exactly one must be populated.
#[derive(Clone, Debug, PartialEq, Eq)]
pub struct TemplateTypeFields {
    pub container: Option<ContainerTemplate>,
    pub container_set: Option<Vec<ContainerTemplate>>,
    pub script: Option<ScriptSpec>,
    pub resource: Option<ResourceSpec>,
    pub suspend: Option<SuspendSpec>,
    pub dag: Option<DagTemplate>,
    pub steps: Option<StepsTemplate>,
    pub http: Option<HttpSpec>,
    pub data: Option<DataSpec>,
}

impl TemplateTypeFields {
    /// How many of the nine type fields are populated.
    pub open spec fn spec_populated(self) -> int {
        (if self.container is Some { 1int } else { 0 })
        + (if self.container_set is Some { 1int } else { 0 })
        + (if self.script is Some { 1int } else { 0 })
        + (if self.resource is Some { 1int } else { 0 })
        + (if self.suspend is Some { 1int } else { 0 })
        + (if self.dag is Some { 1int } else { 0 })
        + (if self.steps is Some { 1int } else { 0 })
        + (if self.http is Some { 1int } else { 0 })
        + (if self.data is Some { 1int } else { 0 })
    }

    /// Validate the wire shape into the closed variant: accepted exactly
    /// when one type field is populated, the empty shape and every
    /// many-typed shape rejected as a definition error.
    pub fn classify(self) -> (r: Result<TemplateKind, DefinitionError>)
        ensures
            r is Ok <==> self.spec_populated() == 1,
            r == Err::<TemplateKind, DefinitionError>(DefinitionError::NoTemplateKind)
                <==> self.spec_populated() == 0,
            r == Err::<TemplateKind, DefinitionError>(DefinitionError::MultipleTemplateKinds)
                <==> self.spec_populated() >= 2,
            self.spec_populated() == 1 ==> (self.container matches Some(c) ==> r
                == Ok::<TemplateKind, DefinitionError>(TemplateKind::Container(c))),
            self.spec_populated() == 1 ==> (self.container_set matches Some(c) ==> r
                == Ok::<TemplateKind, DefinitionError>(TemplateKind::ContainerSet(c))),
            self.spec_populated() == 1 ==> (self.script matches Some(c) ==> r
                == Ok::<TemplateKind, DefinitionError>(TemplateKind::Script(c))),
            self.spec_populated() == 1 ==> (self.resource matches Some(c) ==> r
                == Ok::<TemplateKind, DefinitionError>(TemplateKind::Resource(c))),
            self.spec_populated() == 1 ==> (self.suspend matches Some(c) ==> r
                == Ok::<TemplateKind, DefinitionError>(TemplateKind::Suspend(c))),
            self.spec_populated() == 1 ==> (self.dag matches Some(c) ==> r
                == Ok::<TemplateKind, DefinitionError>(TemplateKind::Dag(c))),
            self.spec_populated() == 1 ==> (self.steps matches Some(c) ==> r
                == Ok::<TemplateKind, DefinitionError>(TemplateKind::Steps(c))),
            self.spec_populated() == 1 ==> (self.http matches Some(c) ==> r
                == Ok::<TemplateKind, DefinitionError>(TemplateKind::Http(c))),
            self.spec_populated() == 1 ==> (self.data matches Some(c) ==> r
                == Ok::<TemplateKind, DefinitionError>(TemplateKind::Data(c))),
    {
        let mut populated: u32 = 0;
        if self.container.is_some() {
            populated = populated + 1;
        }
        if self.container_set.is_some() {
            populated = populated + 1;
        }
        if self.script.is_some() {
            populated = populated + 1;
        }
        if self.resource.is_some() {
            populated = populated + 1;
        }
        if self.suspend.is_some() {
            populated = populated + 1;
        }
        if self.dag.is_some() {
            populated = populated + 1;
        }
        if self.steps.is_some() {
            populated = populated + 1;
        }
        if self.http.is_some() {
            populated = populated + 1;
        }
        if self.data.is_some() {
            populated = populated + 1;
        }
        if populated == 0 {
            return Err(DefinitionError::NoTemplateKind);
        }
        if populated >= 2 {
            return Err(DefinitionError::MultipleTemplateKinds);
        }
        match self.container {
            Some(c) => return Ok(TemplateKind::Container(c)),
            None => {},
        }
        match self.container_set {
            Some(c) => return Ok(TemplateKind::ContainerSet(c)),
            None => {},
        }
        match self.script {
            Some(c) => return Ok(TemplateKind::Script(c)),
            None => {},
        }
        match self.resource {
            Some(c) => return Ok(TemplateKind::Resource(c)),
            None => {},
        }
        match self.suspend {
            Some(c) => return Ok(TemplateKind::Suspend(c)),
            None => {},
        }
        match self.dag {
            Some(c) => return Ok(TemplateKind::Dag(c)),
            None => {},
        }
        match self.steps {
            Some(c) => return Ok(TemplateKind::Steps(c)),
            None => {},
        }
        match self.http {
            Some(c) => return Ok(TemplateKind::Http(c)),
            None => {},
        }
        match self.data {
            Some(c) => return Ok(TemplateKind::Data(c)),
            None => {},
        }
        proof {
            assert(false);
        }
        Err(DefinitionError::NoTemplateKind)
    }
}

} // verus!
