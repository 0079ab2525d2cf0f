//! Wire-schema template subtypes, carried as plain values: the fields
//! the execution model reads, with the pod-level knobs the orchestrator
//! treats as opaque leaf payload left to the transport layer.

use vstd::prelude::*;

verus! {

/// `ResourceTemplate` is a template subtype to manipulate cluster
/// resources: an action — get, create, apply, delete, replace or patch —
/// applied to a manifest.
#[derive(Clone, Debug, PartialEq, Eq)]
pub struct ResourceTemplate {
    pub action: String,
    pub failure_condition: Option<String>,
    pub flags: Option<Vec<String>>,
    pub manifest: Option<String>,
    pub merge_strategy: Option<String>,
    pub set_owner_reference: Option<bool>,
    pub success_condition: Option<String>,
}

impl ResourceTemplate {
    /// A resource template carrying only its action.
    pub fn new(action: &str) -> (r: ResourceTemplate)
        ensures
            r.action@ == action@,
            r.failure_condition is None,
            r.flags is None,
            r.manifest is None,
            r.merge_strategy is None,
            r.set_owner_reference is None,
            r.success_condition is None,
    {
        ResourceTemplate {
            action: action.to_owned(),
            failure_condition: None,
            flags: None,
            manifest: None,
            merge_strategy: None,
            set_owner_reference: None,
            success_condition: None,
        }
    }
}

/// `ScriptTemplate` is a template subtype to run a script in a
/// container: an image and the inline source to execute in it.
#[derive(Clone, Debug, PartialEq, Eq)]
pub struct ScriptTemplate {
    pub args: Option<Vec<String>>,
    pub command: Option<Vec<String>>,
    pub image: String,
    pub name: Option<String>,
    pub source: String,
    pub working_dir: Option<String>,
}

impl ScriptTemplate {
    /// A script template carrying its image and source.
    pub fn new(image: &str, source: &str) -> (r: ScriptTemplate)
        ensures
            r.image@ == image@,
            r.source@ == source@,
            r.args is None,
            r.command is None,
            r.name is None,
            r.working_dir is None,
    {
        ScriptTemplate {
            args: None,
            command: None,
            image: image.to_owned(),
            name: None,
            source: source.to_owned(),
            working_dir: None,
        }
    }
}

/// `UserContainer` is a container to be run before or alongside the main
/// container of a pod-backed node.
#[derive(Clone, Debug, PartialEq, Eq)]
pub struct UserContainer {
    pub args: Option<Vec<String>>,
    pub command: Option<Vec<String>>,
    pub image: Option<String>,
    pub mirror_volume_mounts: Option<bool>,
    pub name: String,
    pub working_dir: Option<String>,
}

impl UserContainer {
    /// A user container carrying only its name.
    pub fn new(name: &str) -> (r: UserContainer)
        ensures
            r.name@ == name@,
            r.args is None,
            r.command is None,
            r.image is None,
            r.mirror_volume_mounts is None,
            r.working_dir is None,
    {
        UserContainer {
            args: None,
            command: None,
            image: None,
            mirror_volume_mounts: None,
            name: name.to_owned(),
            working_dir: None,
        }
    }
}

} // verus!
