use argoflows::dag::{finish_enclosing, DagAction, DagScheduler};
use argoflows::node::NodeStatus;
use argoflows::phase::NodePhase;
use argoflows::template::DagTask;

fn task(name: &str, deps: &[&str]) -> DagTask {
    DagTask {
        name: name.to_string(),
        template: "leaf".to_string(),
        depends: deps.iter().map(|d| d.to_string()).collect(),
        arguments: vec![],
    }
}

#[test]
fn roots_are_dispatched_on_the_first_tick() {
    let mut s = DagScheduler::new(vec![task("a", &[]), task("b", &[]), task("c", &["a"])], None);
    let acts = s.evaluate();
    assert_eq!(acts, vec![DagAction::Dispatch(0), DagAction::Dispatch(1)]);
    assert_eq!(s.phases[0], Some(NodePhase::Pending));
    assert_eq!(s.phases[1], Some(NodePhase::Pending));
    assert_eq!(s.phases[2], None);
}

#[test]
fn a_task_is_dispatched_at_most_once_across_reevaluations() {
    let mut s = DagScheduler::new(vec![task("a", &[]), task("b", &["a"])], None);
    let first = s.evaluate();
    assert_eq!(first, vec![DagAction::Dispatch(0)]);
    // Re-evaluating readiness any number of times never re-dispatches.
    assert_eq!(s.evaluate(), vec![]);
    assert_eq!(s.evaluate(), vec![]);
    assert!(s.dispatched[0]);
    // Even after its phase moves on, the task is not dispatched again.
    s.advance_task(0, NodePhase::Running).unwrap();
    assert_eq!(s.evaluate(), vec![]);
    s.advance_task(0, NodePhase::Succeeded).unwrap();
    let next = s.evaluate();
    assert_eq!(next, vec![DagAction::Dispatch(1)]);
    assert_eq!(s.evaluate(), vec![]);
}

#[test]
fn dependent_runs_only_after_all_dependencies_succeed() {
    let mut s = DagScheduler::new(vec![
        task("a", &[]),
        task("b", &[]),
        task("join", &["a", "b"]),
    ], None);
    s.evaluate();
    s.advance_task(0, NodePhase::Running).unwrap();
    s.advance_task(0, NodePhase::Succeeded).unwrap();
    // Only one of two dependencies done: the join must wait.
    assert_eq!(s.evaluate(), vec![]);
    s.advance_task(1, NodePhase::Running).unwrap();
    s.advance_task(1, NodePhase::Succeeded).unwrap();
    assert_eq!(s.evaluate(), vec![DagAction::Dispatch(2)]);
}

#[test]
fn scenario_unsatisfiable_guard_omits_without_dispatch() {
    // A task whose dependency failed reaches Omitted without ever being
    // Pending or Running and without an execution handle.
    let mut s = DagScheduler::new(vec![task("a", &[]), task("b", &["a"])], None);
    s.evaluate();
    s.advance_task(0, NodePhase::Running).unwrap();
    s.advance_task(0, NodePhase::Failed).unwrap();
    let acts = s.evaluate();
    assert_eq!(acts, vec![DagAction::Omit(1)]);
    assert_eq!(s.phases[1], Some(NodePhase::Omitted));
    assert!(!s.dispatched[1]);
}

#[test]
fn omission_cascades_through_the_graph() {
    let mut s = DagScheduler::new(vec![
        task("a", &[]),
        task("b", &["a"]),
        task("c", &["b"]),
    ], None);
    s.evaluate();
    s.advance_task(0, NodePhase::Running).unwrap();
    s.advance_task(0, NodePhase::Error).unwrap();
    assert_eq!(s.evaluate(), vec![DagAction::Omit(1)]);
    assert_eq!(s.evaluate(), vec![DagAction::Omit(2)]);
    assert!(!s.dispatched[1]);
    assert!(!s.dispatched[2]);
}

#[test]
fn fail_fast_cancels_live_siblings_eagerly() {
    let mut s = DagScheduler::new(vec![
        task("a", &[]),
        task("b", &[]),
        task("c", &[]),
        task("d", &["a"]),
    ], None);
    s.evaluate();
    s.advance_task(0, NodePhase::Running).unwrap();
    s.advance_task(1, NodePhase::Running).unwrap();
    // a fails with failFast set: b must be asked to stop, the still
    // Pending c is skipped at once, and d (no node yet) stays as it is.
    s.advance_task(0, NodePhase::Failed).unwrap();
    let stops = s.fail_fast_cancel();
    assert_eq!(stops, vec![1]);
    assert_eq!(s.phases[2], Some(NodePhase::Skipped));
    assert_eq!(s.phases[3], None);
    assert_eq!(s.phases[0], Some(NodePhase::Failed));
}

#[test]
fn a_dispatched_node_cannot_be_omitted() {
    let mut s = DagScheduler::new(vec![task("a", &[])], None);
    s.evaluate();
    assert!(s.advance_task(0, NodePhase::Omitted).is_err());
    assert_eq!(s.phases[0], Some(NodePhase::Pending));
}

#[test]
fn at_most_parallelism_tasks_run_at_once() {
    let mut s = DagScheduler::new(
        vec![task("a", &[]), task("b", &[]), task("c", &[])],
        Some(2),
    );
    s.evaluate();
    s.advance_task(0, NodePhase::Running).unwrap();
    s.advance_task(1, NodePhase::Running).unwrap();
    assert_eq!(s.running_tasks(), 2);
    // The limit is reached: the third runnable task must wait in Pending.
    assert!(s.advance_task(2, NodePhase::Running).is_err());
    assert_eq!(s.phases[2], Some(NodePhase::Pending));
    // A slot frees up once a running task finishes.
    s.advance_task(0, NodePhase::Succeeded).unwrap();
    s.advance_task(2, NodePhase::Running).unwrap();
    assert_eq!(s.running_tasks(), 2);
}

#[test]
fn enclosing_node_finishes_only_after_children_or_grace() {
    let mut s = DagScheduler::new(vec![task("a", &[])], None);
    s.evaluate();
    s.advance_task(0, NodePhase::Running).unwrap();
    let mut enclosing = NodeStatus::new("d1", "wf.dag", "DAG");
    enclosing.transition_to(NodePhase::Running, 0).unwrap();
    // A child still runs and the grace period stands: no terminal phase.
    assert!(finish_enclosing(&mut enclosing, &s, NodePhase::Failed, 5, false).is_err());
    assert_eq!(enclosing.phase, NodePhase::Running);
    // Once the grace period elapsed, the end is forced.
    let mut forced = enclosing.clone();
    assert!(finish_enclosing(&mut forced, &s, NodePhase::Failed, 20, true).is_ok());
    assert_eq!(forced.finished_at, Some(20));
    // Or the child settles, and the composite may complete normally.
    s.advance_task(0, NodePhase::Succeeded).unwrap();
    assert!(finish_enclosing(&mut enclosing, &s, NodePhase::Succeeded, 9, false).is_ok());
    assert_eq!(enclosing.phase, NodePhase::Succeeded);
}
