//! Resilience layer for calls to payment-service providers: a per-provider
//! circuit breaker, an exponential-backoff retry policy, a dead-letter store,
//! and the engine that combines them into one retry decision.
use vstd::prelude::*;

pub mod circuit_breaker;
pub mod retry_policy;
pub mod dlq;
pub mod registry;
pub mod engine;
pub mod wide;

verus! {

/// Parameters of a retry policy.
#[derive(Debug, Clone, Copy, PartialEq, Eq, Structural)]
pub struct RetryConfig {
    /// Attempts below this index may be retried.
    pub max_attempts: u32,
    pub initial_delay_ms: u64,
    pub max_delay_ms: u64,
    /// Growth factor of the delay from one attempt to the next, in
    /// thousandths (2000 doubles it). The delay is computed exactly and
    /// truncated toward zero once.
    pub backoff_multiplier_permille: u32,
    /// Whether a random jitter of up to a fifth of the delay is applied.
    pub jitter: bool,
}

impl Default for RetryConfig {
    fn default() -> (r: Self)
        ensures
            r.max_attempts == 5,
            r.initial_delay_ms == 1000,
            r.max_delay_ms == 60000,
            r.backoff_multiplier_permille == 2000,
            r.jitter,
    {
        RetryConfig {
            max_attempts: 5,
            initial_delay_ms: 1000,
            max_delay_ms: 60000,
            backoff_multiplier_permille: 2000,
            jitter: true,
        }
    }
}

/// Parameters of the circuit breakers that one engine manages.
#[derive(Debug, Clone, Copy, PartialEq, Eq, Structural)]
pub struct CircuitBreakerConfig {
    /// Consecutive failures (while closed) that open the circuit.
    pub failure_threshold: u32,
    /// Consecutive successes (while half-open) that close the circuit.
    pub success_threshold: u32,
    /// How long an open circuit blocks calls, in milliseconds.
    pub timeout_duration_ms: u64,
}

impl Default for CircuitBreakerConfig {
    fn default() -> (r: Self)
        ensures
            r.failure_threshold == 5,
            r.success_threshold == 3,
            r.timeout_duration_ms == 30000,
    {
        CircuitBreakerConfig { failure_threshold: 5, success_threshold: 3, timeout_duration_ms: 30000 }
    }
}

/// Milliseconds since the Unix epoch, read from the system clock.
///
/// Relies on `std::time::SystemTime::elapsed` (applied to `UNIX_EPOCH`): the
/// value depends on the clock, so nothing is promised of it. A clock set
/// before the epoch reads as 0.
#[verifier::external_body]
pub fn current_timestamp_ms() -> u64 {
    match std::time::UNIX_EPOCH.elapsed() {
        Ok(d) => d.as_millis() as u64,
        Err(_) => 0,
    }
}

} // verus!
