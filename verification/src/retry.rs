//! The retry controller: a synthetic retry node wraps successive attempts
//! of a target node, schedules backoff and decides exhaustion.

use vstd::prelude::*;

use crate::phase::NodePhase;

verus! {

/// Which failed phases are worth another attempt. The default treats any
/// `Failed` or `Error` child as retryable.
#[derive(Clone, Copy, Debug, PartialEq, Eq, Structural)]
pub enum RetryPolicy {
    OnFailureOrError,
    OnFailure,
    OnError,
}

impl RetryPolicy {
    pub open spec fn spec_retryable(self, p: NodePhase) -> bool {
        match self {
            RetryPolicy::OnFailureOrError => p == NodePhase::Failed || p == NodePhase::Error,
            RetryPolicy::OnFailure => p == NodePhase::Failed,
            RetryPolicy::OnError => p == NodePhase::Error,
        }
    }

    #[verifier::when_used_as_spec(spec_retryable)]
    pub fn retryable(self, p: NodePhase) -> (r: bool)
        ensures
            r == self.spec_retryable(p),
    {
        match self {
            RetryPolicy::OnFailureOrError => p == NodePhase::Failed || p == NodePhase::Error,
            RetryPolicy::OnFailure => p == NodePhase::Failed,
            RetryPolicy::OnError => p == NodePhase::Error,
        }
    }
}

/// Backoff between attempts: `base * factor^k` ticks after the `k`-th
/// failure (zero-based), clamped to `cap` when one is set. A fixed backoff
/// is `factor == 1`.
#[derive(Clone, Copy, Debug, PartialEq, Eq)]
pub struct Backoff {
    pub base: u64,
    pub factor: u32,
    pub cap: Option<u64>,
}

/// `base` multiplied by `factor`, `exp` times over, each step saturating
/// at `u64::MAX` — the value the machine can represent of
/// `base * factor^exp`.
pub open spec fn spec_geometric(base: u64, factor: u32, exp: nat) -> int
    decreases exp,
{
    if exp == 0 {
        base as int
    } else {
        let p = spec_geometric(base, factor, (exp - 1) as nat);
        if p * factor > u64::MAX {
            u64::MAX as int
        } else {
            p * factor
        }
    }
}

/// The delay a backoff prescribes after the `exp`-th failure: the
/// geometric term clamped to the cap.
pub open spec fn spec_delay(b: Backoff, exp: nat) -> int {
    let raw = spec_geometric(b.base, b.factor, exp);
    match b.cap {
        Some(c) => if raw > c {
            c as int
        } else {
            raw
        },
        None => raw,
    }
}

/// `base * factor^exp`, the mathematical value.
pub open spec fn spec_pow_term(base: u64, factor: u32, exp: nat) -> int
    decreases exp,
{
    if exp == 0 {
        base as int
    } else {
        spec_pow_term(base, factor, (exp - 1) as nat) * factor
    }
}

proof fn lemma_pow_term_monotone(base: u64, factor: u32, exp: nat)
    requires
        factor >= 1,
        exp >= 1,
    ensures
        spec_pow_term(base, factor, (exp - 1) as nat) <= spec_pow_term(base, factor, exp),
        spec_pow_term(base, factor, exp) >= 0,
    decreases exp,
{
    if exp > 1 {
        lemma_pow_term_monotone(base, factor, (exp - 1) as nat);
    }
    let p = spec_pow_term(base, factor, (exp - 1) as nat);
    assert(p >= 0 && factor >= 1 ==> p * factor >= p) by (nonlinear_arith);
}

/// Law: while `base * factor^exp` fits the machine, the saturating
/// geometric computation is exact.
pub proof fn lemma_geometric_exact(base: u64, factor: u32, exp: nat)
    requires
        factor >= 1,
        spec_pow_term(base, factor, exp) <= u64::MAX,
    ensures
        spec_geometric(base, factor, exp) == spec_pow_term(base, factor, exp),
    decreases exp,
{
    if exp > 0 {
        lemma_pow_term_monotone(base, factor, exp);
        lemma_geometric_exact(base, factor, (exp - 1) as nat);
    }
}

impl Backoff {
    /// The delay to wait after the `exp`-th failure of the target.
    pub fn delay(&self, exp: u32) -> (r: u64)
        ensures
            r == spec_delay(*self, exp as nat),
    {
        let mut d: u64 = self.base;
        let mut i: u32 = 0;
        while i < exp
            invariant
                i <= exp,
                d == spec_geometric(self.base, self.factor, i as nat),
            decreases exp - i,
        {
            d = match d.checked_mul(self.factor as u64) {
                Some(nd) => nd,
                None => u64::MAX,
            };
            i = i + 1;
        }
        match self.cap {
            Some(c) => if d > c {
                c
            } else {
                d
            },
            None => d,
        }
    }
}

/// Bounds on retrying: a total attempt count, a duration budget counted
/// from the first attempt's start, the backoff, and which failures are
/// retryable at all.
#[derive(Clone, Copy, Debug, PartialEq, Eq)]
pub struct RetryStrategy {
    pub limit: Option<u32>,
    pub max_duration: Option<u64>,
    pub backoff: Backoff,
    pub policy: RetryPolicy,
}

/// What the controller decides when an attempt reaches a terminal phase.
#[derive(Clone, Copy, Debug, PartialEq, Eq, Structural)]
pub enum RetryDecision {
    /// The attempt succeeded; the retry node is `Succeeded`.
    Completed,
    /// Another attempt is due, no earlier than the carried tick.
    RetryAt(u64),
    /// No attempt remains; the retry node is terminal with the last
    /// attempt's phase.
    Exhausted,
}

/// The synthetic retry node, modelled as an explicit state machine with
/// attempt count and deadline fields so that it can restart from
/// persisted state.
#[derive(Clone, Debug, PartialEq, Eq)]
pub struct RetryState {
    pub strategy: RetryStrategy,
    /// Attempts started so far.
    pub attempts: u32,
    /// Phase of the retry node itself.
    pub phase: NodePhase,
    /// Message of the retry node: on exhaustion, inherited from the last
    /// attempt.
    pub message: Option<String>,
    /// Tick before which the next attempt must not start.
    pub next_eligible: Option<u64>,
    /// Tick at which the first attempt started.
    pub first_started: Option<u64>,
}

impl RetryState {
    /// May one more attempt start, going by the count limit alone?
    pub open spec fn spec_attempts_left(self) -> bool {
        match self.strategy.limit {
            Some(l) => self.attempts < l,
            None => true,
        }
    }

    /// Is `now` still inside the duration budget?
    pub open spec fn spec_within_budget(self, now: u64) -> bool {
        match (self.strategy.max_duration, self.first_started) {
            (Some(d), Some(s)) => now <= s + d,
            _ => true,
        }
    }

    /// A fresh retry node: no attempt yet, `Pending`.
    pub fn new(strategy: RetryStrategy) -> (r: RetryState)
        ensures
            r.strategy == strategy,
            r.attempts == 0,
            r.phase == NodePhase::Pending,
            r.message is None,
            r.next_eligible is None,
            r.first_started is None,
    {
        RetryState {
            strategy,
            attempts: 0,
            phase: NodePhase::Pending,
            message: None,
            next_eligible: None,
            first_started: None,
        }
    }

    /// Start the next attempt at tick `now`: permitted only once any
    /// backoff has expired and an attempt is still allowed.
    pub fn start_attempt(&mut self, now: u64)
        requires
            !old(self).phase.spec_is_terminal(),
            old(self).spec_attempts_left(),
            old(self).attempts < u32::MAX,
            match old(self).next_eligible {
                Some(t) => now >= t,
                None => true,
            },
        ensures
            final(self).strategy == old(self).strategy,
            final(self).attempts == old(self).attempts + 1,
            final(self).message == old(self).message,
            final(self).phase == NodePhase::Running,
            final(self).next_eligible is None,
            final(self).first_started == (if old(self).first_started is None {
                Some(now)
            } else {
                old(self).first_started
            }),
    {
        if self.first_started.is_none() {
            self.first_started = Some(now);
        }
        self.attempts = self.attempts + 1;
        self.phase = NodePhase::Running;
        self.next_eligible = None;
    }

    /// An attempt reached the terminal phase `outcome` at tick `now`,
    /// with `message` as the attempt's recorded message. The retry node
    /// becomes `Succeeded` on the first successful attempt; a retryable
    /// failure with attempts and budget to spare schedules the next
    /// attempt after backoff; otherwise the node is terminal with the
    /// attempt's own phase, exhausted, and inherits the last attempt's
    /// message.
    pub fn on_attempt_finished(
        &mut self,
        outcome: NodePhase,
        message: Option<String>,
        now: u64,
    ) -> (d: RetryDecision)
        requires
            old(self).phase == NodePhase::Running,
            old(self).attempts >= 1,
            outcome == NodePhase::Succeeded || outcome == NodePhase::Failed || outcome
                == NodePhase::Error,
            now + spec_delay(old(self).strategy.backoff, (old(self).attempts - 1) as nat)
                <= u64::MAX,
        ensures
            final(self).strategy == old(self).strategy,
            final(self).attempts == old(self).attempts,
            final(self).first_started == old(self).first_started,
            outcome == NodePhase::Succeeded ==> d == RetryDecision::Completed && final(self).phase
                == NodePhase::Succeeded && final(self).next_eligible is None
                && final(self).message is None,
            outcome != NodePhase::Succeeded && old(self).strategy.policy.spec_retryable(outcome)
                && old(self).spec_attempts_left() && old(self).spec_within_budget(now) ==> {
                let t = now + spec_delay(old(self).strategy.backoff, (old(self).attempts - 1) as nat);
                &&& d == RetryDecision::RetryAt(t as u64)
                &&& final(self).phase == NodePhase::Pending
                &&& final(self).next_eligible == Some(t as u64)
                &&& final(self).message == message
            },
            outcome != NodePhase::Succeeded && !(old(self).strategy.policy.spec_retryable(outcome)
                && old(self).spec_attempts_left() && old(self).spec_within_budget(now)) ==> {
                &&& d == RetryDecision::Exhausted
                &&& final(self).phase == outcome
                &&& final(self).next_eligible is None
                &&& final(self).message == message
            },
            final(self).phase.spec_is_terminal() == (outcome == NodePhase::Succeeded
                || !(old(self).strategy.policy.spec_retryable(outcome)
                && old(self).spec_attempts_left() && old(self).spec_within_budget(now))),
    {
        if outcome == NodePhase::Succeeded {
            self.phase = NodePhase::Succeeded;
            self.message = None;
            self.next_eligible = None;
            return RetryDecision::Completed;
        }
        let attempts_left = match self.strategy.limit {
            Some(l) => self.attempts < l,
            None => true,
        };
        let within_budget = match (self.strategy.max_duration, self.first_started) {
            (Some(dur), Some(s)) => match s.checked_add(dur) {
                Some(deadline) => now <= deadline,
                None => true,
            },
            _ => true,
        };
        if self.strategy.policy.retryable(outcome) && attempts_left && within_budget {
            let wait = self.strategy.backoff.delay(self.attempts - 1);
            let t = now + wait;
            self.phase = NodePhase::Pending;
            self.message = message;
            self.next_eligible = Some(t);
            RetryDecision::RetryAt(t)
        } else {
            self.phase = outcome;
            self.message = message;
            self.next_eligible = None;
            RetryDecision::Exhausted
        }
    }
}

} // verus!
