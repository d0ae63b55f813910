use retry_engine::circuit_breaker::CircuitState;
use retry_engine::engine::{RetryEngineService, RetryOutcome, RetryRequest, RetryStatus};
use retry_engine::{CircuitBreakerConfig, RetryConfig};

fn retry_config(max_attempts: u32, jitter: bool) -> RetryConfig {
    RetryConfig {
        max_attempts,
        initial_delay_ms: 1000,
        max_delay_ms: 10000,
        backoff_multiplier_permille: 2000,
        jitter,
    }
}

fn circuit_config(failure_threshold: u32, timeout_duration_ms: u64) -> CircuitBreakerConfig {
    CircuitBreakerConfig { failure_threshold, success_threshold: 2, timeout_duration_ms }
}

fn request(txn: &str, psp: &str, attempt: u32) -> RetryRequest {
    RetryRequest {
        transaction_id: txn.to_string(),
        psp_name: psp.to_string(),
        attempt_number: attempt,
        payload: vec![9, 8, 7],
    }
}

#[test]
fn scheduled_retry_reports_next_attempt_time() {
    let mut engine = RetryEngineService::new(retry_config(3, false), circuit_config(5, 30000));
    let r = engine.schedule_retry_at(request("txn_1", "stripe", 2), 50_000, 0, true);
    assert!(r.scheduled);
    assert_eq!(r.outcome, RetryOutcome::Scheduled);
    assert_eq!(r.retry_id, "txn_1");
    assert_eq!(r.next_retry_at_ms, 52_000);
    assert_eq!(r.message, "Retry scheduled for attempt 3");

    let status = engine.get_retry_status("txn_1");
    assert_eq!(status.status, RetryStatus::Retrying);
    assert_eq!(status.attempt_count, 2);
    assert_eq!(status.last_error, "");
    assert!(!status.in_dlq);
}

#[test]
fn scheduled_retry_applies_the_jitter_draw() {
    let mut engine = RetryEngineService::new(retry_config(5, true), circuit_config(5, 30000));
    // Attempt 3: base 4000, moved down by 300.
    let r = engine.schedule_retry_at(request("txn_j", "stripe", 3), 1_000, 300, false);
    assert!(r.scheduled);
    assert_eq!(r.next_retry_at_ms, 4_700);
}

#[test]
fn first_attempt_is_scheduled_without_delay() {
    let mut engine = RetryEngineService::new(retry_config(3, true), circuit_config(5, 30000));
    let r = engine.schedule_retry_at(request("txn_0", "stripe", 0), 77, 0, true);
    assert!(r.scheduled);
    assert_eq!(r.next_retry_at_ms, 77);
    assert_eq!(r.message, "Retry scheduled for attempt 1");
}

#[test]
fn scenario_dead_lettered_transaction_is_rejected_without_change() {
    let mut engine = RetryEngineService::new(retry_config(3, false), circuit_config(5, 30000));
    let r = engine.schedule_retry_at(request("txn_d", "stripe", 3), 1_000, 0, true);
    assert_eq!(r.outcome, RetryOutcome::MovedToDeadLetter);

    let again = engine.schedule_retry_at(request("txn_d", "adyen", 0), 2_000, 0, true);
    assert!(!again.scheduled);
    assert_eq!(again.outcome, RetryOutcome::AlreadyDeadLettered);
    assert_eq!(again.next_retry_at_ms, 0);
    assert_eq!(again.message, "Transaction already in dead letter queue");

    // The status still comes from the first dead-letter entry.
    let status = engine.get_retry_status("txn_d");
    assert_eq!(status.status, RetryStatus::InDlq);
    assert_eq!(status.attempt_count, 3);
    // No breaker was made for the second provider.
    let fresh = engine.get_circuit_status("adyen");
    assert_eq!(fresh.state, CircuitState::Closed);
    assert_eq!(fresh.failure_count, 0);
}

#[test]
fn scenario_exhausted_attempt_moves_to_dead_letter() {
    let mut engine = RetryEngineService::new(retry_config(3, false), circuit_config(5, 30000));
    let r = engine.schedule_retry(request("txn_x", "stripe", 3));
    assert!(!r.scheduled);
    assert_eq!(r.outcome, RetryOutcome::MovedToDeadLetter);
    assert_eq!(r.next_retry_at_ms, 0);
    assert_eq!(r.message, "Max retries exceeded, moved to DLQ");

    let status = engine.get_retry_status("txn_x");
    assert!(status.in_dlq);
    assert_eq!(status.status, RetryStatus::InDlq);
    assert_eq!(status.attempt_count, 3);
    assert_eq!(status.last_error, "Max retry attempts exceeded");
}

#[test]
fn unknown_transaction_is_not_found() {
    let engine = RetryEngineService::new(retry_config(3, false), circuit_config(5, 30000));
    let status = engine.get_retry_status("nobody");
    assert_eq!(status.transaction_id, "nobody");
    assert_eq!(status.status, RetryStatus::NotFound);
    assert_eq!(status.attempt_count, 0);
    assert_eq!(status.last_error, "");
    assert!(!status.in_dlq);
}

#[test]
fn unseen_provider_gets_a_fresh_breaker() {
    let mut engine = RetryEngineService::new(retry_config(3, false), circuit_config(5, 30000));
    let s = engine.get_circuit_status("new_psp");
    assert_eq!(s.state, CircuitState::Closed);
    assert_eq!(s.failure_count, 0);
    assert_eq!(s.success_count, 0);
    assert_eq!(s.last_failure_at_ms, 0);
    assert_eq!(s.next_attempt_at_ms, 0);
}

#[test]
fn zero_max_attempts_dead_letters_immediately() {
    let mut engine = RetryEngineService::new(retry_config(0, false), circuit_config(5, 30000));
    let r = engine.schedule_retry_at(request("txn_z", "stripe", 0), 10, 0, true);
    assert_eq!(r.outcome, RetryOutcome::MovedToDeadLetter);
    assert!(engine.get_retry_status("txn_z").in_dlq);
}
