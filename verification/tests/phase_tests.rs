use argoflows::errors::PhaseError;
use argoflows::ident::node_id_of;
use argoflows::node::NodeStatus;
use argoflows::phase::NodePhase;

#[test]
fn terminal_phases_are_recognised() {
    assert!(!NodePhase::Pending.is_terminal());
    assert!(!NodePhase::Running.is_terminal());
    assert!(NodePhase::Succeeded.is_terminal());
    assert!(NodePhase::Failed.is_terminal());
    assert!(NodePhase::Error.is_terminal());
    assert!(NodePhase::Skipped.is_terminal());
    assert!(NodePhase::Omitted.is_terminal());
}

#[test]
fn transition_relation_matches_the_table() {
    assert!(NodePhase::Pending.can_step_to(NodePhase::Running));
    assert!(NodePhase::Pending.can_step_to(NodePhase::Skipped));
    assert!(NodePhase::Pending.can_step_to(NodePhase::Omitted));
    assert!(NodePhase::Running.can_step_to(NodePhase::Running));
    assert!(NodePhase::Running.can_step_to(NodePhase::Succeeded));
    assert!(NodePhase::Running.can_step_to(NodePhase::Failed));
    assert!(NodePhase::Running.can_step_to(NodePhase::Error));
    assert!(NodePhase::Running.can_step_to(NodePhase::Skipped));
    assert!(!NodePhase::Pending.can_step_to(NodePhase::Succeeded));
    assert!(!NodePhase::Pending.can_step_to(NodePhase::Failed));
    assert!(!NodePhase::Running.can_step_to(NodePhase::Omitted));
}

#[test]
fn terminal_phases_admit_no_transition() {
    let terminals = [
        NodePhase::Succeeded,
        NodePhase::Failed,
        NodePhase::Error,
        NodePhase::Skipped,
        NodePhase::Omitted,
    ];
    let all = [
        NodePhase::Pending,
        NodePhase::Running,
        NodePhase::Succeeded,
        NodePhase::Failed,
        NodePhase::Error,
        NodePhase::Skipped,
        NodePhase::Omitted,
    ];
    for from in terminals {
        for to in all {
            assert!(!from.can_step_to(to));
        }
    }
}

#[test]
fn new_node_is_pending_with_no_timestamps() {
    let n = NodeStatus::new("id-1", "wf.task-a", "Pod");
    assert_eq!(n.id, "id-1");
    assert_eq!(n.name, "wf.task-a");
    assert_eq!(n.node_type, "Pod");
    assert_eq!(n.phase, NodePhase::Pending);
    assert!(n.started_at.is_none());
    assert!(n.finished_at.is_none());
    assert!(n.children.is_empty());
    assert!(n.outbound_nodes.is_empty());
}

#[test]
fn finished_at_is_set_exactly_once_at_terminal_arrival() {
    let mut n = NodeStatus::new("id-1", "wf.task-a", "Pod");
    assert!(n.transition_to(NodePhase::Running, 3).is_ok());
    assert_eq!(n.started_at, Some(3));
    assert!(n.finished_at.is_none());
    assert!(n.transition_to(NodePhase::Succeeded, 9).is_ok());
    assert_eq!(n.finished_at, Some(9));
    // Terminal is final: no later transition can touch the record.
    assert_eq!(
        n.transition_to(NodePhase::Failed, 12),
        Err(PhaseError::IllegalTransition)
    );
    assert_eq!(n.finished_at, Some(9));
    assert_eq!(n.phase, NodePhase::Succeeded);
}

#[test]
fn illegal_transition_is_refused_and_leaves_the_node() {
    let mut n = NodeStatus::new("id-2", "wf.task-b", "Pod");
    let before = n.clone();
    assert_eq!(
        n.transition_to(NodePhase::Succeeded, 1),
        Err(PhaseError::IllegalTransition)
    );
    assert_eq!(n, before);
}

#[test]
fn daemon_self_transition_keeps_running() {
    let mut n = NodeStatus::new("id-3", "wf.daemon", "Pod");
    assert!(n.transition_to(NodePhase::Running, 1).is_ok());
    assert!(n.transition_to(NodePhase::Running, 2).is_ok());
    assert_eq!(n.phase, NodePhase::Running);
    assert_eq!(n.started_at, Some(1));
    assert!(n.finished_at.is_none());
}

#[test]
fn omitted_from_pending_never_started() {
    let mut n = NodeStatus::new("id-4", "wf.guarded", "Pod");
    assert!(n.transition_to(NodePhase::Omitted, 5).is_ok());
    assert_eq!(n.phase, NodePhase::Omitted);
    assert!(n.started_at.is_none());
    assert_eq!(n.finished_at, Some(5));
}

#[test]
fn node_ids_are_deterministic_content_hashes() {
    // Equal qualified names give equal ids, across re-runs.
    let a1 = node_id_of("wf.stage-1.task-a");
    let a2 = node_id_of("wf.stage-1.task-a");
    assert_eq!(a1, a2);
    // Sixteen lower-case hex digits of the 64-bit hash.
    assert_eq!(a1.len(), 16);
    assert!(a1.chars().all(|c| c.is_ascii_hexdigit()));
    // Distinct names in one workflow land on distinct ids.
    let b = node_id_of("wf.stage-1.task-b");
    assert_ne!(a1, b);
    // The exact 64-bit FNV-1a of an empty name, in hex.
    assert_eq!(node_id_of(""), "cbf29ce484222325");
}

#[test]
fn new_for_name_derives_the_id_from_the_name() {
    let n = NodeStatus::new_for_name("wf.task-a", "Pod");
    assert_eq!(n.id, node_id_of("wf.task-a"));
    assert_eq!(n.name, "wf.task-a");
    assert_eq!(n.phase, NodePhase::Pending);
    let again = NodeStatus::new_for_name("wf.task-a", "Pod");
    assert_eq!(n.id, again.id);
}
