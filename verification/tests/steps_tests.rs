use argoflows::node::NodeStatus;
use argoflows::phase::NodePhase;
use argoflows::steps::{finish_enclosing, StepAction, StepsScheduler};
use argoflows::template::WorkflowStep;

fn step(name: &str, needs: &[&str]) -> WorkflowStep {
    WorkflowStep {
        name: name.to_string(),
        template: "leaf".to_string(),
        requires_success_of: needs.iter().map(|n| n.to_string()).collect(),
        arguments: vec![],
    }
}

#[test]
fn stages_start_strictly_in_order() {
    let mut s = StepsScheduler::new(
        vec![vec![step("a", &[]), step("b", &[])], vec![step("c", &[])]],
        None,
    );
    let acts = s.start_next_stage();
    assert_eq!(acts, vec![StepAction::Dispatch(0), StepAction::Dispatch(1)]);
    // Stage 1 is running; stage 2 has no node at all.
    assert_eq!(s.phases[1], vec![None]);
    assert!(!s.stage_complete());
    s.advance_step(0, NodePhase::Running).unwrap();
    s.advance_step(0, NodePhase::Succeeded).unwrap();
    // One step of the stage is still live: the stage is not complete and
    // the cursor stands.
    assert!(!s.stage_complete());
    assert_eq!(s.cursor, 0);
    assert_eq!(s.phases[1], vec![None]);
    s.advance_step(1, NodePhase::Running).unwrap();
    s.advance_step(1, NodePhase::Succeeded).unwrap();
    assert!(s.stage_complete());
    s.advance_stage();
    assert_eq!(s.cursor, 1);
    let acts2 = s.start_next_stage();
    assert_eq!(acts2, vec![StepAction::Dispatch(0)]);
}

#[test]
fn scenario_two_stage_pipeline_both_succeed() {
    // Stage 1 = [A, B], both Succeeded: stage 2 starts.
    let mut s = StepsScheduler::new(
        vec![
            vec![step("A", &[]), step("B", &[])],
            vec![step("C", &["A"]), step("D", &["B"])],
        ],
        None,
    );
    s.start_next_stage();
    for k in 0..2 {
        s.advance_step(k, NodePhase::Running).unwrap();
        s.advance_step(k, NodePhase::Succeeded).unwrap();
    }
    assert!(s.stage_complete());
    s.advance_stage();
    let acts = s.start_next_stage();
    assert_eq!(acts, vec![StepAction::Dispatch(0), StepAction::Dispatch(1)]);
}

#[test]
fn scenario_failure_without_fail_fast_skips_only_dependents() {
    // A fails, failFast unset: B still completes, and in stage 2 only
    // the dependents of A are skipped, not everything.
    let mut s = StepsScheduler::new(
        vec![
            vec![step("A", &[]), step("B", &[])],
            vec![step("C", &["A"]), step("D", &["B"])],
        ],
        None,
    );
    s.start_next_stage();
    s.advance_step(0, NodePhase::Running).unwrap();
    s.advance_step(0, NodePhase::Failed).unwrap();
    // B keeps running to completion regardless of A's failure.
    s.advance_step(1, NodePhase::Running).unwrap();
    s.advance_step(1, NodePhase::Succeeded).unwrap();
    assert!(s.stage_complete());
    s.advance_stage();
    let acts = s.start_next_stage();
    assert_eq!(acts, vec![StepAction::Skip(0), StepAction::Dispatch(1)]);
    assert_eq!(s.phases[1][0], Some(NodePhase::Skipped));
    assert_eq!(s.phases[1][1], Some(NodePhase::Pending));
}

#[test]
fn no_later_stage_has_a_node_while_an_earlier_one_is_live() {
    let mut s = StepsScheduler::new(
        vec![vec![step("A", &[])], vec![step("B", &[])], vec![step("C", &[])]],
        None,
    );
    s.start_next_stage();
    s.advance_step(0, NodePhase::Running).unwrap();
    // Stage 1 is Running: stages 2 and 3 are untouched.
    assert_eq!(s.phases[1], vec![None]);
    assert_eq!(s.phases[2], vec![None]);
}

#[test]
fn skipped_steps_count_towards_stage_completion() {
    let mut s = StepsScheduler::new(
        vec![vec![step("A", &[])], vec![step("B", &["missing"])], vec![step("C", &[])]],
        None,
    );
    s.start_next_stage();
    s.advance_step(0, NodePhase::Running).unwrap();
    s.advance_step(0, NodePhase::Succeeded).unwrap();
    s.advance_stage();
    let acts = s.start_next_stage();
    assert_eq!(acts, vec![StepAction::Skip(0)]);
    // A skipped step is terminal at once: the stage is complete.
    assert!(s.stage_complete());
    s.advance_stage();
    assert_eq!(s.start_next_stage(), vec![StepAction::Dispatch(0)]);
}

#[test]
fn parallelism_limit_gates_extra_starts() {
    assert!(StepsScheduler::may_start_more(0, Some(2)));
    assert!(StepsScheduler::may_start_more(1, Some(2)));
    assert!(!StepsScheduler::may_start_more(2, Some(2)));
    assert!(StepsScheduler::may_start_more(1000, None));
}

#[test]
fn at_most_parallelism_nodes_run_at_once() {
    let mut s = StepsScheduler::new(
        vec![vec![step("a", &[]), step("b", &[]), step("c", &[])]],
        Some(2),
    );
    s.start_next_stage();
    s.advance_step(0, NodePhase::Running).unwrap();
    s.advance_step(1, NodePhase::Running).unwrap();
    assert_eq!(s.running_in_stage(), 2);
    // The limit is reached: the third runnable node must wait in Pending.
    assert!(s.advance_step(2, NodePhase::Running).is_err());
    assert_eq!(s.phases[0][2], Some(NodePhase::Pending));
    // A slot frees up once a running node finishes.
    s.advance_step(0, NodePhase::Succeeded).unwrap();
    assert_eq!(s.running_in_stage(), 1);
    s.advance_step(2, NodePhase::Running).unwrap();
    assert_eq!(s.running_in_stage(), 2);
}

#[test]
fn steps_enclosing_node_waits_for_the_last_stage() {
    let mut s = StepsScheduler::new(vec![vec![step("a", &[])]], None);
    s.start_next_stage();
    s.advance_step(0, NodePhase::Running).unwrap();
    let mut enclosing = NodeStatus::new("st1", "wf.steps", "Steps");
    enclosing.transition_to(NodePhase::Running, 0).unwrap();
    assert!(finish_enclosing(&mut enclosing, &s, NodePhase::Succeeded, 5, false).is_err());
    s.advance_step(0, NodePhase::Succeeded).unwrap();
    s.advance_stage();
    assert!(finish_enclosing(&mut enclosing, &s, NodePhase::Succeeded, 6, false).is_ok());
    assert_eq!(enclosing.finished_at, Some(6));
}
