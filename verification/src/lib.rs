//! Verified core of a Kubernetes-style workflow orchestrator: the template
//! store and argument binder, the node-status state machine, the DAG/Steps
//! scheduler, the synchronization (mutex/semaphore) manager, the retry
//! controller and the artifact-repository resolver.
//!
//! Transport, pod execution and artifact storage are external collaborators;
//! this crate holds the logic an orchestrator builds on top of them, with
//! contracts proved by Verus.

pub mod artifact;
pub mod bind;
pub mod dag;
pub mod errors;
pub mod ident;
pub mod locks;
pub mod node;
pub mod phase;
pub mod retry;
pub mod schema;
pub mod steps;
pub mod store;
pub mod strvec;
pub mod template;
pub mod workflow;
