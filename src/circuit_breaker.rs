//! Per-provider circuit breaker: Closed -> Open -> HalfOpen -> Closed.
use crate::current_timestamp_ms;
use crate::CircuitBreakerConfig;
use vstd::prelude::*;

verus! {

#[derive(Debug, Clone, Copy, PartialEq, Eq, Structural)]
pub enum CircuitState {
    Closed,
    Open,
    HalfOpen,
}

/// A snapshot of one breaker.
#[derive(Debug, Clone, Copy, PartialEq, Eq, Structural)]
pub struct CircuitBreakerState {
    pub state: CircuitState,
    /// Consecutive failures, counted while closed.
    pub failure_count: u32,
    /// Consecutive successes, counted while half-open.
    pub success_count: u32,
    pub last_failure_at_ms: u64,
    /// When an open breaker may let a probing call through.
    pub next_attempt_at_ms: u64,
}

/// The state of a breaker that has seen nothing yet.
pub open spec fn initial_state() -> CircuitBreakerState {
    CircuitBreakerState {
        state: CircuitState::Closed,
        failure_count: 0,
        success_count: 0,
        last_failure_at_ms: 0,
        next_attempt_at_ms: 0,
    }
}

impl Default for CircuitBreakerState {
    fn default() -> (r: Self)
        ensures
            r == initial_state(),
    {
        CircuitBreakerState {
            state: CircuitState::Closed,
            failure_count: 0,
            success_count: 0,
            last_failure_at_ms: 0,
            next_attempt_at_ms: 0,
        }
    }
}

/// `n + 1`, held at `u32::MAX`.
pub open spec fn inc_sat(n: u32) -> u32 {
    if n == u32::MAX {
        n
    } else {
        (n + 1) as u32
    }
}

/// `a + b`, held at `u64::MAX`.
pub open spec fn add_sat(a: u64, b: u64) -> u64 {
    if a + b > u64::MAX {
        u64::MAX
    } else {
        (a + b) as u64
    }
}

/// Whether a gating check at time `now` lets a call through.
pub open spec fn admits(s: CircuitBreakerState, now: u64) -> bool {
    s.state != CircuitState::Open || now >= s.next_attempt_at_ms
}

/// The state after a gating check at time `now`: an open breaker whose
/// timeout has run out becomes half-open with no successes counted.
pub open spec fn gated(s: CircuitBreakerState, now: u64) -> CircuitBreakerState {
    if s.state == CircuitState::Open && now >= s.next_attempt_at_ms {
        CircuitBreakerState { state: CircuitState::HalfOpen, success_count: 0, ..s }
    } else {
        s
    }
}

/// Closed, with both counters zero; the timestamps are kept.
pub open spec fn closed_from(s: CircuitBreakerState) -> CircuitBreakerState {
    CircuitBreakerState { state: CircuitState::Closed, failure_count: 0, success_count: 0, ..s }
}

/// The state after one recorded success.
pub open spec fn succeeded(cfg: CircuitBreakerConfig, s: CircuitBreakerState) -> CircuitBreakerState {
    match s.state {
        CircuitState::Closed => CircuitBreakerState { failure_count: 0, ..s },
        CircuitState::HalfOpen => if inc_sat(s.success_count) >= cfg.success_threshold {
            closed_from(s)
        } else {
            CircuitBreakerState { success_count: inc_sat(s.success_count), ..s }
        },
        CircuitState::Open => closed_from(s),
    }
}

/// The state after one failure recorded at time `now`.
pub open spec fn failed(cfg: CircuitBreakerConfig, s: CircuitBreakerState, now: u64) -> CircuitBreakerState {
    let until = add_sat(now, cfg.timeout_duration_ms);
    match s.state {
        CircuitState::Closed => if inc_sat(s.failure_count) >= cfg.failure_threshold {
            CircuitBreakerState {
                state: CircuitState::Open,
                failure_count: inc_sat(s.failure_count),
                last_failure_at_ms: now,
                next_attempt_at_ms: until,
                ..s
            }
        } else {
            CircuitBreakerState { failure_count: inc_sat(s.failure_count), last_failure_at_ms: now, ..s }
        },
        CircuitState::HalfOpen => CircuitBreakerState {
            state: CircuitState::Open,
            failure_count: cfg.failure_threshold,
            success_count: 0,
            last_failure_at_ms: now,
            next_attempt_at_ms: until,
        },
        CircuitState::Open => CircuitBreakerState { last_failure_at_ms: now, next_attempt_at_ms: until, ..s },
    }
}

/// The state after `n` successes in a row.
pub open spec fn successes(cfg: CircuitBreakerConfig, s: CircuitBreakerState, n: nat) -> CircuitBreakerState
    decreases n,
{
    if n == 0 {
        s
    } else {
        succeeded(cfg, successes(cfg, s, (n - 1) as nat))
    }
}

/// The state after failures recorded at each of `times`, in order.
pub open spec fn failures(cfg: CircuitBreakerConfig, s: CircuitBreakerState, times: Seq<u64>) -> CircuitBreakerState
    decreases times.len(),
{
    if times.len() == 0 {
        s
    } else {
        failed(cfg, failures(cfg, s, times.drop_last()), times.last())
    }
}

/// A fresh breaker whose failure threshold is `n` (at least 1) stays closed
/// through its first `n - 1` failures, counting each of them, and opens on the
/// `n`-th failure, whatever the times at which they are recorded.
pub proof fn law_opens_on_threshold_failure(cfg: CircuitBreakerConfig, times: Seq<u64>)
    requires
        cfg.failure_threshold >= 1,
        times.len() <= cfg.failure_threshold,
    ensures
        failures(cfg, initial_state(), times).failure_count == times.len(),
        times.len() < cfg.failure_threshold ==> failures(cfg, initial_state(), times).state
            == CircuitState::Closed,
        times.len() == cfg.failure_threshold ==> failures(cfg, initial_state(), times).state
            == CircuitState::Open,
    decreases times.len(),
{
    if times.len() > 0 {
        law_opens_on_threshold_failure(cfg, times.drop_last());
    }
}

/// After `j` successes, a half-open breaker that has counted `c` successes is
/// closed with both counters zero once `c + j` reaches the threshold, and is
/// otherwise still half-open with `c + j` successes counted.
proof fn lemma_successes_from_half_open(cfg: CircuitBreakerConfig, s: CircuitBreakerState, j: nat)
    requires
        s.state == CircuitState::HalfOpen,
    ensures
        j >= 1 && s.success_count + j >= cfg.success_threshold ==> successes(cfg, s, j)
            == closed_from(s),
        !(j >= 1 && s.success_count + j >= cfg.success_threshold) ==> successes(cfg, s, j) == (
        CircuitBreakerState { success_count: (s.success_count + j) as u32, ..s }),
    decreases j,
{
    if j > 0 {
        lemma_successes_from_half_open(cfg, s, (j - 1) as nat);
    }
}

/// Starting half-open, as many successes in a row as the success threshold
/// (at least 1) close the breaker and zero both counters.
pub proof fn law_half_open_closes_after_threshold_successes(
    cfg: CircuitBreakerConfig,
    s: CircuitBreakerState,
)
    requires
        s.state == CircuitState::HalfOpen,
        cfg.success_threshold >= 1,
    ensures
        successes(cfg, s, cfg.success_threshold as nat).state == CircuitState::Closed,
        successes(cfg, s, cfg.success_threshold as nat).failure_count == 0,
        successes(cfg, s, cfg.success_threshold as nat).success_count == 0,
{
    lemma_successes_from_half_open(cfg, s, cfg.success_threshold as nat);
}

/// A circuit breaker guarding one provider.
#[derive(Debug)]
pub struct CircuitBreaker {
    config: CircuitBreakerConfig,
    state: CircuitBreakerState,
}

impl CircuitBreaker {
    /// The configuration this breaker was made with.
    pub closed spec fn config(&self) -> CircuitBreakerConfig {
        self.config
    }

    /// The breaker's current state.
    pub closed spec fn current(&self) -> CircuitBreakerState {
        self.state
    }

    pub fn new(config: CircuitBreakerConfig) -> (r: Self)
        ensures
            r.config() == config,
            r.current() == initial_state(),
    {
        CircuitBreaker { config, state: CircuitBreakerState::default() }
    }

    pub fn with_state(config: CircuitBreakerConfig, state: CircuitBreakerState) -> (r: Self)
        ensures
            r.config() == config,
            r.current() == state,
    {
        CircuitBreaker { config, state }
    }

    /// Whether a call may go out now; an open breaker whose timeout has run
    /// out turns half-open on this check.
    pub fn can_proceed(&mut self) -> (r: bool)
        ensures
            final(self).config() == old(self).config(),
            exists|now: u64|
                r == admits(old(self).current(), now) && final(self).current() == gated(
                    old(self).current(),
                    now,
                ),
    {
        let now = current_timestamp_ms();
        self.can_proceed_at(now)
    }

    /// The gating check, at time `now`.
    pub fn can_proceed_at(&mut self, now: u64) -> (r: bool)
        ensures
            final(self).config() == old(self).config(),
            r == admits(old(self).current(), now),
            final(self).current() == gated(old(self).current(), now),
            old(self).current().state == CircuitState::Closed ==> r && final(self).current() == old(
                self,
            ).current(),
            old(self).current().state == CircuitState::HalfOpen ==> r && final(self).current()
                == old(self).current(),
            old(self).current().state == CircuitState::Open && now < old(
                self,
            ).current().next_attempt_at_ms ==> !r && final(self).current() == old(self).current(),
            old(self).current().state == CircuitState::Open && now >= old(
                self,
            ).current().next_attempt_at_ms ==> r && final(self).current().state
                == CircuitState::HalfOpen && final(self).current().success_count == 0,
    {
        match self.state.state {
            CircuitState::Closed => true,
            CircuitState::Open => {
                if now >= self.state.next_attempt_at_ms {
                    self.state.state = CircuitState::HalfOpen;
                    self.state.success_count = 0;
                    true
                } else {
                    false
                }
            },
            CircuitState::HalfOpen => true,
        }
    }

    /// Records a successful call.
    pub fn record_success(&mut self)
        ensures
            final(self).config() == old(self).config(),
            final(self).current() == succeeded(old(self).config(), old(self).current()),
            old(self).current().state == CircuitState::Closed ==> final(self).current().state
                == CircuitState::Closed && final(self).current().failure_count == 0,
    {
        match self.state.state {
            CircuitState::Closed => {
                self.state.failure_count = 0;
            },
            CircuitState::HalfOpen => {
                self.state.success_count = self.state.success_count.saturating_add(1);
                if self.state.success_count >= self.config.success_threshold {
                    self.state.state = CircuitState::Closed;
                    self.state.failure_count = 0;
                    self.state.success_count = 0;
                }
            },
            CircuitState::Open => {
                self.state.state = CircuitState::Closed;
                self.state.failure_count = 0;
                self.state.success_count = 0;
            },
        }
    }

    /// Records a failed call at the present time.
    pub fn record_failure(&mut self)
        ensures
            final(self).config() == old(self).config(),
            exists|now: u64| final(self).current() == failed(old(self).config(), old(self).current(), now),
            old(self).current().state == CircuitState::HalfOpen ==> final(self).current().state
                == CircuitState::Open,
    {
        let now = current_timestamp_ms();
        self.record_failure_at(now);
    }

    /// Records a failed call at time `now`.
    pub fn record_failure_at(&mut self, now: u64)
        ensures
            final(self).config() == old(self).config(),
            final(self).current() == failed(old(self).config(), old(self).current(), now),
            final(self).current().last_failure_at_ms == now,
            old(self).current().state == CircuitState::HalfOpen ==> final(self).current().state
                == CircuitState::Open,
    {
        let until = now.saturating_add(self.config.timeout_duration_ms);
        self.state.last_failure_at_ms = now;
        match self.state.state {
            CircuitState::Closed => {
                self.state.failure_count = self.state.failure_count.saturating_add(1);
                if self.state.failure_count >= self.config.failure_threshold {
                    self.state.state = CircuitState::Open;
                    self.state.next_attempt_at_ms = until;
                }
            },
            CircuitState::HalfOpen => {
                self.state.state = CircuitState::Open;
                self.state.failure_count = self.config.failure_threshold;
                self.state.success_count = 0;
                self.state.next_attempt_at_ms = until;
            },
            CircuitState::Open => {
                self.state.next_attempt_at_ms = until;
            },
        }
    }

    /// A snapshot of the breaker's state.
    pub fn get_state(&self) -> (r: CircuitBreakerState)
        ensures
            r == self.current(),
    {
        self.state
    }

    /// Puts the breaker back in its initial state.
    pub fn reset(&mut self)
        ensures
            final(self).config() == old(self).config(),
            final(self).current() == initial_state(),
    {
        self.state = CircuitBreakerState::default();
    }
}

} // verus!
