use retry_engine::circuit_breaker::{CircuitBreaker, CircuitBreakerState, CircuitState};
use retry_engine::CircuitBreakerConfig;

fn config(failure_threshold: u32, success_threshold: u32, timeout_duration_ms: u64) -> CircuitBreakerConfig {
    CircuitBreakerConfig { failure_threshold, success_threshold, timeout_duration_ms }
}

#[test]
fn test_circuit_starts_closed() {
    let config = CircuitBreakerConfig::default();
    let mut cb = CircuitBreaker::new(config);

    assert!(cb.can_proceed());
    assert_eq!(cb.get_state().state, CircuitState::Closed);
}

#[test]
fn test_circuit_opens_on_threshold() {
    let mut cb = CircuitBreaker::new(config(3, 2, 1000));

    cb.record_failure();
    assert_eq!(cb.get_state().state, CircuitState::Closed);
    assert_eq!(cb.get_state().failure_count, 1);

    cb.record_failure();
    assert_eq!(cb.get_state().state, CircuitState::Closed);
    assert_eq!(cb.get_state().failure_count, 2);

    cb.record_failure();
    assert_eq!(cb.get_state().state, CircuitState::Open);
    assert_eq!(cb.get_state().failure_count, 3);
}

#[test]
fn test_circuit_blocks_when_open() {
    let mut cb = CircuitBreaker::new(config(2, 2, 10000));

    cb.record_failure();
    cb.record_failure();
    assert_eq!(cb.get_state().state, CircuitState::Open);

    assert!(!cb.can_proceed());
}

#[test]
fn test_circuit_closes_after_successes() {
    let mut cb = CircuitBreaker::new(config(2, 2, 0));

    cb.record_failure();
    cb.record_failure();
    assert_eq!(cb.get_state().state, CircuitState::Open);

    // A zero timeout lets the very next check through.
    assert!(cb.can_proceed());
    assert_eq!(cb.get_state().state, CircuitState::HalfOpen);

    cb.record_success();
    assert_eq!(cb.get_state().state, CircuitState::HalfOpen);

    cb.record_success();
    assert_eq!(cb.get_state().state, CircuitState::Closed);
}

#[test]
fn test_half_open_reopens_on_failure() {
    let mut cb = CircuitBreaker::new(config(2, 2, 0));

    cb.record_failure();
    cb.record_failure();

    assert!(cb.can_proceed());
    assert_eq!(cb.get_state().state, CircuitState::HalfOpen);

    cb.record_failure();
    assert_eq!(cb.get_state().state, CircuitState::Open);
}

#[test]
fn test_closed_to_open_transition() {
    let mut cb = CircuitBreaker::new(config(3, 2, 5000));

    assert_eq!(cb.get_state().state, CircuitState::Closed);

    cb.record_failure();
    assert_eq!(cb.get_state().state, CircuitState::Closed);

    cb.record_failure();
    assert_eq!(cb.get_state().state, CircuitState::Closed);

    cb.record_failure();
    assert_eq!(cb.get_state().state, CircuitState::Open);
}

#[test]
fn test_open_to_half_open_transition() {
    let mut cb = CircuitBreaker::new(config(2, 2, 100));
    let t0: u64 = 1_000_000;

    cb.record_failure_at(t0);
    cb.record_failure_at(t0);
    assert_eq!(cb.get_state().state, CircuitState::Open);

    assert!(!cb.can_proceed_at(t0));

    // 150 ms later the 100 ms timeout has run out.
    assert!(cb.can_proceed_at(t0 + 150));
    assert_eq!(cb.get_state().state, CircuitState::HalfOpen);
}

#[test]
fn test_half_open_to_closed_transition() {
    let mut cb = CircuitBreaker::new(config(2, 3, 0));

    cb.record_failure();
    cb.record_failure();

    cb.can_proceed();
    assert_eq!(cb.get_state().state, CircuitState::HalfOpen);

    cb.record_success();
    assert_eq!(cb.get_state().state, CircuitState::HalfOpen);

    cb.record_success();
    assert_eq!(cb.get_state().state, CircuitState::HalfOpen);

    cb.record_success();
    assert_eq!(cb.get_state().state, CircuitState::Closed);
}

#[test]
fn test_half_open_to_open_transition() {
    let mut cb = CircuitBreaker::new(config(2, 3, 0));

    cb.record_failure();
    cb.record_failure();

    cb.can_proceed();
    assert_eq!(cb.get_state().state, CircuitState::HalfOpen);

    cb.record_success();
    assert_eq!(cb.get_state().state, CircuitState::HalfOpen);

    cb.record_failure();
    assert_eq!(cb.get_state().state, CircuitState::Open);
}

#[test]
fn test_closed_state_resets_on_success() {
    let mut cb = CircuitBreaker::new(config(5, 2, 5000));

    cb.record_failure();
    cb.record_failure();
    cb.record_failure();
    assert_eq!(cb.get_state().failure_count, 3);
    assert_eq!(cb.get_state().state, CircuitState::Closed);

    cb.record_success();
    assert_eq!(cb.get_state().failure_count, 0);
    assert_eq!(cb.get_state().state, CircuitState::Closed);
}

#[test]
fn test_complete_state_cycle() {
    let mut cb = CircuitBreaker::new(config(2, 2, 50));
    let t0: u64 = 5_000;

    assert_eq!(cb.get_state().state, CircuitState::Closed);
    cb.record_failure_at(t0);
    cb.record_failure_at(t0);
    assert_eq!(cb.get_state().state, CircuitState::Open);

    // 100 ms later the 50 ms timeout has run out.
    cb.can_proceed_at(t0 + 100);
    assert_eq!(cb.get_state().state, CircuitState::HalfOpen);

    cb.record_success();
    cb.record_success();
    assert_eq!(cb.get_state().state, CircuitState::Closed);
}

#[test]
fn failure_threshold_counts_each_failure_then_opens() {
    for n in 1u32..=6 {
        let mut cb = CircuitBreaker::new(config(n, 1, 1000));
        for k in 1..n {
            cb.record_failure_at(10);
            assert_eq!(cb.get_state().state, CircuitState::Closed);
            assert_eq!(cb.get_state().failure_count, k);
        }
        cb.record_failure_at(10);
        assert_eq!(cb.get_state().state, CircuitState::Open);
        assert_eq!(cb.get_state().failure_count, n);
        assert_eq!(cb.get_state().next_attempt_at_ms, 1010);
        assert_eq!(cb.get_state().last_failure_at_ms, 10);
    }
}

#[test]
fn zero_failure_threshold_opens_on_first_failure() {
    let mut cb = CircuitBreaker::new(config(0, 1, 1000));
    cb.record_failure_at(7);
    assert_eq!(cb.get_state().state, CircuitState::Open);
    assert_eq!(cb.get_state().failure_count, 1);
}

#[test]
fn open_breaker_blocks_before_and_admits_at_next_attempt() {
    let mut cb = CircuitBreaker::new(config(1, 1, 500));
    cb.record_failure_at(1000);
    assert_eq!(cb.get_state().next_attempt_at_ms, 1500);
    assert!(!cb.can_proceed_at(1499));
    assert_eq!(cb.get_state().state, CircuitState::Open);
    assert!(cb.can_proceed_at(1500));
    assert_eq!(cb.get_state().state, CircuitState::HalfOpen);
    assert_eq!(cb.get_state().success_count, 0);
}

#[test]
fn half_open_failure_reopens_after_successes() {
    let state = CircuitBreakerState {
        state: CircuitState::HalfOpen,
        failure_count: 4,
        success_count: 2,
        last_failure_at_ms: 100,
        next_attempt_at_ms: 200,
    };
    let mut cb = CircuitBreaker::with_state(config(4, 3, 300), state);
    cb.record_failure_at(1000);
    let s = cb.get_state();
    assert_eq!(s.state, CircuitState::Open);
    assert_eq!(s.failure_count, 4);
    assert_eq!(s.success_count, 0);
    assert_eq!(s.last_failure_at_ms, 1000);
    assert_eq!(s.next_attempt_at_ms, 1300);
}

#[test]
fn half_open_closes_after_threshold_successes_and_zeroes_counters() {
    let state = CircuitBreakerState {
        state: CircuitState::HalfOpen,
        failure_count: 2,
        success_count: 0,
        last_failure_at_ms: 100,
        next_attempt_at_ms: 200,
    };
    let mut cb = CircuitBreaker::with_state(config(2, 4, 300), state);
    for _ in 0..3 {
        cb.record_success();
        assert_eq!(cb.get_state().state, CircuitState::HalfOpen);
    }
    cb.record_success();
    let s = cb.get_state();
    assert_eq!(s.state, CircuitState::Closed);
    assert_eq!(s.failure_count, 0);
    assert_eq!(s.success_count, 0);
}

#[test]
fn success_while_open_closes_the_breaker() {
    let mut cb = CircuitBreaker::new(config(1, 5, 10_000));
    cb.record_failure_at(50);
    assert_eq!(cb.get_state().state, CircuitState::Open);
    cb.record_success();
    let s = cb.get_state();
    assert_eq!(s.state, CircuitState::Closed);
    assert_eq!(s.failure_count, 0);
    assert_eq!(s.success_count, 0);
}

#[test]
fn failure_while_open_pushes_next_attempt_forward() {
    let mut cb = CircuitBreaker::new(config(1, 1, 100));
    cb.record_failure_at(1000);
    cb.record_failure_at(1050);
    let s = cb.get_state();
    assert_eq!(s.state, CircuitState::Open);
    assert_eq!(s.next_attempt_at_ms, 1150);
    assert_eq!(s.last_failure_at_ms, 1050);
}

#[test]
fn next_attempt_saturates_at_the_end_of_time() {
    let mut cb = CircuitBreaker::new(config(1, 1, 100));
    cb.record_failure_at(u64::MAX - 10);
    assert_eq!(cb.get_state().next_attempt_at_ms, u64::MAX);
}

#[test]
fn reset_restores_initial_state() {
    let mut cb = CircuitBreaker::new(config(1, 1, 100));
    cb.record_failure_at(1000);
    cb.reset();
    let s = cb.get_state();
    assert_eq!(s, CircuitBreakerState::default());
    assert_eq!(s.state, CircuitState::Closed);
    assert_eq!(s.failure_count, 0);
    assert_eq!(s.last_failure_at_ms, 0);
}

#[test]
fn scenario_two_failures_zero_timeout_then_two_successes() {
    let mut cb = CircuitBreaker::new(config(2, 2, 0));
    cb.record_failure();
    cb.record_failure();
    assert_eq!(cb.get_state().state, CircuitState::Open);
    assert!(cb.can_proceed());
    assert_eq!(cb.get_state().state, CircuitState::HalfOpen);
    cb.record_success();
    cb.record_success();
    assert_eq!(cb.get_state().state, CircuitState::Closed);
}

#[test]
fn clock_reads_a_plausible_time() {
    // 2020-01-01 in milliseconds since the epoch.
    assert!(retry_engine::current_timestamp_ms() > 1_577_836_800_000);
}
