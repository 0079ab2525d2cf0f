use argoflows::errors::AdmissionError;
use argoflows::errors::PhaseError;
use argoflows::locks::{rebuild_lock, start_node, AcquireOutcome, SyncLock, SyncManager};
use argoflows::node::NodeStatus;
use argoflows::phase::NodePhase;

#[test]
fn mutex_grants_one_holder_only() {
    let mut l = SyncLock::new_mutex("db-lock");
    assert_eq!(l.capacity, 1);
    assert_eq!(l.request(&"n1".to_string()), AcquireOutcome::Granted);
    assert_eq!(l.request(&"n2".to_string()), AcquireOutcome::Blocked);
    assert_eq!(l.request(&"n3".to_string()), AcquireOutcome::Blocked);
    // Never more holders than the declared capacity.
    assert_eq!(l.holders.len(), 1);
    assert_eq!(l.waiters, vec!["n2".to_string(), "n3".to_string()]);
}

#[test]
fn semaphore_respects_weighted_capacity() {
    let mut l = SyncLock::new("pool", 2);
    assert_eq!(l.request(&"a".to_string()), AcquireOutcome::Granted);
    assert_eq!(l.request(&"b".to_string()), AcquireOutcome::Granted);
    assert_eq!(l.request(&"c".to_string()), AcquireOutcome::Blocked);
    assert_eq!(l.holders.len(), 2);
    l.release(&"a".to_string());
    assert!(l.holders.len() <= 2);
    assert!(l.holders.contains(&"c".to_string()));
}

#[test]
fn scenario_mutex_handover_at_release_time() {
    // A mutex requested by two nodes: the first finishes, and only then
    // does the second hold the lock — never earlier.
    let mut l = SyncLock::new_mutex("db-lock");
    // t=0
    assert_eq!(l.request(&"N1".to_string()), AcquireOutcome::Granted);
    // t=1
    assert_eq!(l.request(&"N2".to_string()), AcquireOutcome::Blocked);
    // t=2..4: re-evaluation ticks change nothing.
    assert_eq!(l.request(&"N2".to_string()), AcquireOutcome::Blocked);
    assert!(!l.holders.contains(&"N2".to_string()));
    // t=5: N1 reaches a terminal phase; release is automatic and the
    // freed slot goes to N2 at once.
    l.release(&"N1".to_string());
    assert_eq!(l.holders, vec!["N2".to_string()]);
    assert!(l.waiters.is_empty());
    assert_eq!(l.request(&"N2".to_string()), AcquireOutcome::Granted);
}

#[test]
fn fifo_order_among_waiters_is_respected() {
    let mut l = SyncLock::new_mutex("m");
    assert_eq!(l.request(&"w0".to_string()), AcquireOutcome::Granted);
    assert_eq!(l.request(&"w1".to_string()), AcquireOutcome::Blocked);
    assert_eq!(l.request(&"w2".to_string()), AcquireOutcome::Blocked);
    assert_eq!(l.request(&"w3".to_string()), AcquireOutcome::Blocked);
    l.release(&"w0".to_string());
    // The earliest waiter is granted; the rest keep their places.
    assert_eq!(l.holders, vec!["w1".to_string()]);
    assert_eq!(l.waiters, vec!["w2".to_string(), "w3".to_string()]);
    l.release(&"w1".to_string());
    assert_eq!(l.holders, vec!["w2".to_string()]);
    assert_eq!(l.waiters, vec!["w3".to_string()]);
}

#[test]
fn a_blocked_node_that_gives_up_leaves_the_queue() {
    let mut l = SyncLock::new_mutex("m");
    assert_eq!(l.request(&"a".to_string()), AcquireOutcome::Granted);
    assert_eq!(l.request(&"b".to_string()), AcquireOutcome::Blocked);
    assert_eq!(l.request(&"c".to_string()), AcquireOutcome::Blocked);
    l.release(&"b".to_string());
    assert_eq!(l.holders, vec!["a".to_string()]);
    assert_eq!(l.waiters, vec!["c".to_string()]);
}

#[test]
fn manager_routes_by_name_and_rejects_undeclared_locks() {
    let mut m = SyncManager::new();
    assert!(m.declare("db-lock", 1));
    assert!(m.declare("pool", 3));
    assert!(!m.declare("db-lock", 5));
    assert_eq!(
        m.acquire(&"n1".to_string(), &"db-lock".to_string()),
        Ok(AcquireOutcome::Granted)
    );
    assert_eq!(
        m.acquire(&"n1".to_string(), &"missing".to_string()),
        Err(AdmissionError::UndeclaredLock)
    );
}

#[test]
fn release_all_frees_every_lock_of_a_node() {
    let mut m = SyncManager::new();
    assert!(m.declare("a", 1));
    assert!(m.declare("b", 1));
    assert_eq!(m.acquire(&"n1".to_string(), &"a".to_string()), Ok(AcquireOutcome::Granted));
    assert_eq!(m.acquire(&"n1".to_string(), &"b".to_string()), Ok(AcquireOutcome::Granted));
    assert_eq!(m.acquire(&"n2".to_string(), &"a".to_string()), Ok(AcquireOutcome::Blocked));
    m.release_all(&"n1".to_string());
    assert_eq!(m.locks[0].holders, vec!["n2".to_string()]);
    assert!(m.locks[1].holders.is_empty());
}

#[test]
fn running_is_gated_on_holding_every_declared_lock() {
    let mut m = SyncManager::new();
    assert!(m.declare("a", 1));
    assert!(m.declare("b", 1));
    let node = "n1".to_string();
    let needed = vec!["a".to_string(), "b".to_string()];
    assert!(!m.holds_all(&node, &needed));
    assert_eq!(m.acquire(&node, &"a".to_string()), Ok(AcquireOutcome::Granted));
    // One of two locks held: the node may not enter Running yet.
    assert!(!m.holds_all(&node, &needed));
    assert_eq!(m.acquire(&node, &"b".to_string()), Ok(AcquireOutcome::Granted));
    assert!(m.holds_all(&node, &needed));
}

#[test]
fn start_node_waits_for_its_locks() {
    let mut m = SyncManager::new();
    assert!(m.declare("db-lock", 1));
    let mut n = NodeStatus::new("n1", "wf.a", "Pod");
    let needed = vec!["db-lock".to_string()];
    // The lock is not yet granted: the node must stay Pending.
    assert_eq!(
        start_node(&mut n, &m, &needed, 3),
        Err(PhaseError::IllegalTransition)
    );
    assert_eq!(n.phase, NodePhase::Pending);
    assert!(n.started_at.is_none());
    assert_eq!(m.acquire(&n.id, &"db-lock".to_string()), Ok(AcquireOutcome::Granted));
    assert_eq!(start_node(&mut n, &m, &needed, 5), Ok(()));
    assert_eq!(n.phase, NodePhase::Running);
    assert_eq!(n.started_at, Some(5));
}

#[test]
fn rebuilding_from_node_status_restores_held_locks() {
    // The lock table holds nothing the node records cannot restore: after
    // a simulated crash, re-deriving holders from non-terminal node
    // status yields the same holders.
    let mut l = SyncLock::new("pool", 2);
    assert_eq!(l.request(&"n1".to_string()), AcquireOutcome::Granted);
    assert_eq!(l.request(&"n2".to_string()), AcquireOutcome::Granted);

    let mut n1 = NodeStatus::new("n1", "wf.a", "Pod");
    n1.transition_to(NodePhase::Running, 1).unwrap();
    n1.hold_lock(&"pool".to_string());
    let mut n2 = NodeStatus::new("n2", "wf.b", "Pod");
    n2.transition_to(NodePhase::Running, 1).unwrap();
    n2.hold_lock(&"pool".to_string());
    // A node that finished does not hold its lock any more.
    let mut n3 = NodeStatus::new("n3", "wf.c", "Pod");
    n3.transition_to(NodePhase::Running, 1).unwrap();
    n3.hold_lock(&"pool".to_string());
    n3.drop_lock(&"pool".to_string());
    n3.transition_to(NodePhase::Succeeded, 2).unwrap();

    let nodes = vec![n1, n2, n3];
    let rebuilt = rebuild_lock(&"pool".to_string(), 2, &nodes);
    assert_eq!(rebuilt.name, l.name);
    assert_eq!(rebuilt.capacity, l.capacity);
    assert_eq!(rebuilt.holders, l.holders);
    assert!(rebuilt.waiters.is_empty());
}

#[test]
fn a_terminal_node_contributes_no_held_lock() {
    let mut n = NodeStatus::new("n1", "wf.a", "Pod");
    n.transition_to(NodePhase::Running, 1).unwrap();
    n.hold_lock(&"m".to_string());
    n.transition_to(NodePhase::Failed, 2).unwrap();
    let rebuilt = rebuild_lock(&"m".to_string(), 1, &vec![n]);
    assert!(rebuilt.holders.is_empty());
}
