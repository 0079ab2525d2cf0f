use argoflows::phase::NodePhase;
use argoflows::retry::{Backoff, RetryDecision, RetryPolicy, RetryState, RetryStrategy};

fn fixed(base: u64) -> Backoff {
    Backoff { base, factor: 1, cap: None }
}

fn strategy(limit: u32, backoff: Backoff) -> RetryStrategy {
    RetryStrategy {
        limit: Some(limit),
        max_duration: None,
        backoff,
        policy: RetryPolicy::OnFailureOrError,
    }
}

#[test]
fn fixed_backoff_is_constant() {
    let b = fixed(10);
    assert_eq!(b.delay(0), 10);
    assert_eq!(b.delay(1), 10);
    assert_eq!(b.delay(7), 10);
}

#[test]
fn exponential_backoff_grows_and_caps() {
    let b = Backoff { base: 3, factor: 2, cap: Some(20) };
    assert_eq!(b.delay(0), 3);
    assert_eq!(b.delay(1), 6);
    assert_eq!(b.delay(2), 12);
    // 3 * 2^3 = 24, clamped to the cap.
    assert_eq!(b.delay(3), 20);
    let unbounded = Backoff { base: 3, factor: 2, cap: None };
    assert_eq!(unbounded.delay(3), 24);
}

#[test]
fn huge_exponents_saturate_instead_of_overflowing() {
    let b = Backoff { base: u64::MAX / 2, factor: 3, cap: None };
    assert_eq!(b.delay(5), u64::MAX);
}

#[test]
fn scenario_two_attempts_then_exhausted() {
    // limit 2, fixed 10-tick backoff: attempt 1 fails at t=0, attempt 2
    // starts at t=10 and fails at t=11; the retry node is Failed with no
    // third attempt.
    let mut r = RetryState::new(strategy(2, fixed(10)));
    r.start_attempt(0);
    assert_eq!(r.attempts, 1);
    let d1 = r.on_attempt_finished(NodePhase::Failed, None, 0);
    assert_eq!(d1, RetryDecision::RetryAt(10));
    assert_eq!(r.next_eligible, Some(10));
    assert_eq!(r.phase, NodePhase::Pending);
    r.start_attempt(10);
    assert_eq!(r.attempts, 2);
    let d2 = r.on_attempt_finished(NodePhase::Failed, Some("pod failed: exit 1".to_string()), 11);
    assert_eq!(d2, RetryDecision::Exhausted);
    assert_eq!(r.phase, NodePhase::Failed);
    assert!(r.phase.is_terminal());
    // The retry node inherits the last attempt's message on exhaustion.
    assert_eq!(r.message, Some("pod failed: exit 1".to_string()));
}

#[test]
fn first_successful_attempt_completes_the_retry_node() {
    let mut r = RetryState::new(strategy(5, fixed(1)));
    r.start_attempt(0);
    let d = r.on_attempt_finished(NodePhase::Succeeded, None, 4);
    assert_eq!(d, RetryDecision::Completed);
    assert_eq!(r.phase, NodePhase::Succeeded);
}

#[test]
fn error_counts_as_retryable_by_default() {
    let mut r = RetryState::new(strategy(2, fixed(3)));
    r.start_attempt(0);
    let d = r.on_attempt_finished(NodePhase::Error, None, 2);
    assert_eq!(d, RetryDecision::RetryAt(5));
}

#[test]
fn non_retryable_failure_fails_with_the_attempt_phase() {
    let mut r = RetryState::new(RetryStrategy {
        limit: Some(5),
        max_duration: None,
        backoff: fixed(1),
        policy: RetryPolicy::OnFailure,
    });
    r.start_attempt(0);
    let d = r.on_attempt_finished(NodePhase::Error, None, 1);
    assert_eq!(d, RetryDecision::Exhausted);
    assert_eq!(r.phase, NodePhase::Error);
}

#[test]
fn duration_budget_stops_retrying() {
    let mut r = RetryState::new(RetryStrategy {
        limit: None,
        max_duration: Some(10),
        backoff: fixed(2),
        policy: RetryPolicy::OnFailureOrError,
    });
    r.start_attempt(0);
    let d1 = r.on_attempt_finished(NodePhase::Failed, None, 4);
    assert_eq!(d1, RetryDecision::RetryAt(6));
    r.start_attempt(6);
    // The failure lands past first_started + max_duration: no new attempt.
    let d2 = r.on_attempt_finished(NodePhase::Failed, Some("budget spent".to_string()), 11);
    assert_eq!(d2, RetryDecision::Exhausted);
    assert_eq!(r.phase, NodePhase::Failed);
    assert_eq!(r.message, Some("budget spent".to_string()));
}

#[test]
fn backoff_exponent_follows_the_attempt_count() {
    let mut r = RetryState::new(RetryStrategy {
        limit: Some(4),
        max_duration: None,
        backoff: Backoff { base: 10, factor: 2, cap: None },
        policy: RetryPolicy::OnFailureOrError,
    });
    r.start_attempt(0);
    assert_eq!(r.on_attempt_finished(NodePhase::Failed, None, 0), RetryDecision::RetryAt(10));
    r.start_attempt(10);
    assert_eq!(r.on_attempt_finished(NodePhase::Failed, None, 10), RetryDecision::RetryAt(30));
    r.start_attempt(30);
    assert_eq!(r.on_attempt_finished(NodePhase::Failed, None, 30), RetryDecision::RetryAt(70));
}
