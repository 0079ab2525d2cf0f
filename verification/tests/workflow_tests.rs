use argoflows::artifact::{
    resolve_repository, ArtifactRepository, ArtifactResolution, OSSArtifactRepository,
    S3ArtifactRepository,
};
use argoflows::errors::{AdmissionError, ArtifactError, DefinitionError, SubmitError};
use argoflows::locks::SyncManager;
use argoflows::node::NodeStatus;
use argoflows::phase::NodePhase;
use argoflows::schema::{ResourceTemplate, ScriptTemplate, UserContainer};
use argoflows::store::TemplateStore;
use argoflows::template::{
    DagTask, DagTemplate, Inputs, Outputs, ScriptSpec, Synchronization, Template, TemplateKind,
};
use argoflows::workflow::{
    dag_outbound_mask, submit, union_outbound, Workflow, WorkflowSpec, WorkflowStatus,
};

fn leaf(name: &str) -> Template {
    Template {
        name: name.to_string(),
        inputs: Inputs { parameters: vec![] },
        outputs: Outputs { parameters: vec![] },
        kind: TemplateKind::Script(ScriptSpec { image: b"img".to_vec(), source: b"pass".to_vec() }),
        fail_fast: false,
        daemon: false,
        parallelism: None,
        retry_strategy: None,
        synchronization: None,
        cache_policy: None,
        archive_location: None,
    }
}

fn spec(entry: &str, templates: Vec<Template>) -> WorkflowSpec {
    WorkflowSpec {
        entrypoint: entry.to_string(),
        templates: TemplateStore { templates },
        arguments: vec![],
    }
}

#[test]
fn submit_admits_a_valid_workflow_as_pending() {
    let locks = SyncManager::new();
    let w = submit("wf-1", spec("main", vec![leaf("main")]), &locks).unwrap();
    assert_eq!(w.name, "wf-1");
    assert_eq!(w.status.phase, NodePhase::Pending);
    assert!(w.status.nodes.is_empty());
}

#[test]
fn submit_rejects_a_missing_entrypoint() {
    let locks = SyncManager::new();
    let r = submit("wf-1", spec("ghost", vec![leaf("main")]), &locks);
    assert_eq!(
        r,
        Err(SubmitError::Definition(DefinitionError::TemplateNotFound))
    );
}

#[test]
fn submit_rejects_a_cyclic_template_graph() {
    let cyclic = Template {
        name: "main".to_string(),
        inputs: Inputs { parameters: vec![] },
        outputs: Outputs { parameters: vec![] },
        kind: TemplateKind::Dag(DagTemplate {
            tasks: vec![DagTask {
                name: "t".to_string(),
                template: "main".to_string(),
                depends: vec![],
                arguments: vec![],
            }],
        }),
        fail_fast: false,
        daemon: false,
        parallelism: None,
        retry_strategy: None,
        synchronization: None,
        cache_policy: None,
        archive_location: None,
    };
    let locks = SyncManager::new();
    let r = submit("wf-1", spec("main", vec![cyclic]), &locks);
    assert_eq!(
        r,
        Err(SubmitError::Definition(DefinitionError::RecursiveTemplateGraph))
    );
}

#[test]
fn submit_rejects_an_undeclared_lock() {
    let mut t = leaf("main");
    t.synchronization = Some(Synchronization {
        mutexes: vec!["db-lock".to_string()],
        semaphores: vec![],
    });
    let locks = SyncManager::new();
    let r = submit("wf-1", spec("main", vec![t.clone()]), &locks);
    assert_eq!(r, Err(SubmitError::Admission(AdmissionError::UndeclaredLock)));
    // With the mutex declared, the same workflow is admitted.
    let mut declared = SyncManager::new();
    assert!(declared.declare("db-lock", 1));
    assert!(submit("wf-1", spec("main", vec![t]), &declared).is_ok());
}

#[test]
fn cancel_skips_pending_and_asks_running_to_stop() {
    let mut running = NodeStatus::new("r1", "wf.a", "Pod");
    running.transition_to(NodePhase::Running, 1).unwrap();
    let pending = NodeStatus::new("p1", "wf.b", "Pod");
    let mut done = NodeStatus::new("d1", "wf.c", "Pod");
    done.transition_to(NodePhase::Running, 1).unwrap();
    done.transition_to(NodePhase::Succeeded, 2).unwrap();

    let mut status = WorkflowStatus {
        phase: NodePhase::Running,
        nodes: vec![running, pending, done.clone()],
        started_at: Some(0),
        finished_at: None,
    };
    let stops = status.cancel(7);
    assert_eq!(stops, vec!["r1".to_string()]);
    assert_eq!(status.nodes[0].phase, NodePhase::Running);
    assert_eq!(status.nodes[1].phase, NodePhase::Skipped);
    assert_eq!(status.nodes[1].finished_at, Some(7));
    assert_eq!(status.nodes[2], done);
}

#[test]
fn force_stop_errors_the_survivors_after_grace() {
    let mut running = NodeStatus::new("r1", "wf.a", "Pod");
    running.transition_to(NodePhase::Running, 1).unwrap();
    let mut status = WorkflowStatus {
        phase: NodePhase::Running,
        nodes: vec![running],
        started_at: Some(0),
        finished_at: None,
    };
    status.force_stop(30);
    assert_eq!(status.nodes[0].phase, NodePhase::Error);
    assert_eq!(status.nodes[0].finished_at, Some(30));
}

#[test]
fn workflow_goes_terminal_only_after_its_nodes() {
    let mut running = NodeStatus::new("r1", "wf.a", "Pod");
    running.transition_to(NodePhase::Running, 1).unwrap();
    let mut status = WorkflowStatus {
        phase: NodePhase::Running,
        nodes: vec![running],
        started_at: Some(0),
        finished_at: None,
    };
    // A node is still live: the workflow may not reach a terminal phase.
    assert!(status.transition_phase(NodePhase::Failed, 9).is_err());
    assert_eq!(status.phase, NodePhase::Running);
    status.force_stop(9);
    assert!(status.transition_phase(NodePhase::Failed, 9).is_ok());
    assert_eq!(status.phase, NodePhase::Failed);
    assert_eq!(status.finished_at, Some(9));
    // Terminal is final at the workflow level too.
    assert!(status.transition_phase(NodePhase::Running, 10).is_err());
}

#[test]
fn dag_targets_are_the_outbound_tasks() {
    let tasks = vec![
        DagTask {
            name: "a".to_string(),
            template: "t".to_string(),
            depends: vec![],
            arguments: vec![],
        },
        DagTask {
            name: "b".to_string(),
            template: "t".to_string(),
            depends: vec!["a".to_string()],
            arguments: vec![],
        },
        DagTask {
            name: "c".to_string(),
            template: "t".to_string(),
            depends: vec!["a".to_string()],
            arguments: vec![],
        },
    ];
    let mask = dag_outbound_mask(&tasks);
    assert_eq!(mask, vec![false, true, true]);
}

#[test]
fn outbound_union_is_exact_and_free_of_duplicates() {
    let lists = vec![
        vec!["n1".to_string(), "n2".to_string()],
        vec!["n2".to_string(), "n3".to_string()],
        vec![],
    ];
    let u = union_outbound(&lists);
    assert_eq!(u, vec!["n1".to_string(), "n2".to_string(), "n3".to_string()]);
}

#[test]
fn repository_resolution_follows_the_declared_order() {
    let s3 = ArtifactRepository::S3(S3ArtifactRepository::new());
    let oss = ArtifactRepository::Oss(OSSArtifactRepository::new());
    // Explicit beats the template's archive location.
    assert_eq!(
        resolve_repository(Some(s3.clone()), Some(oss.clone()), None, false),
        Ok(ArtifactResolution::Repository(s3.clone()))
    );
    // The archive location beats the orchestrator default.
    assert_eq!(
        resolve_repository(None, Some(oss.clone()), Some(s3.clone()), false),
        Ok(ArtifactResolution::Repository(oss.clone()))
    );
    assert_eq!(
        resolve_repository(None, None, Some(s3.clone()), false),
        Ok(ArtifactResolution::Repository(s3))
    );
    // Inline artifacts need no repository at all.
    assert_eq!(
        resolve_repository(None, None, None, true),
        Ok(ArtifactResolution::Inline)
    );
    assert_eq!(
        resolve_repository(None, None, None, false),
        Err(ArtifactError::NoRepositoryConfigured)
    );
}

#[test]
fn schema_constructors_carry_their_arguments() {
    let r = ResourceTemplate::new("apply");
    assert_eq!(r.action, "apply");
    assert!(r.manifest.is_none());
    let s = ScriptTemplate::new("python:3", "print(1)");
    assert_eq!(s.image, "python:3");
    assert_eq!(s.source, "print(1)");
    let c = UserContainer::new("sidecar");
    assert_eq!(c.name, "sidecar");
    let w = Workflow::new("wf", spec("main", vec![leaf("main")]));
    assert_eq!(w.name, "wf");
    assert_eq!(w.status.phase, NodePhase::Pending);
}
