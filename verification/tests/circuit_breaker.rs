use std::time::Duration;
use zeroclaw::circuit_breaker::{CircuitBreaker, CircuitState};

#[test]
fn new_provider_is_available() {
    let mut cb = CircuitBreaker::new(3, Duration::from_secs(60), 1);
    assert!(cb.is_available("test_provider"));
    assert_eq!(cb.state("test_provider"), CircuitState::Closed);
}

#[test]
fn stays_closed_below_threshold() {
    let mut cb = CircuitBreaker::new(3, Duration::from_secs(60), 1);
    cb.record_failure("p1");
    cb.record_failure("p1");
    assert!(cb.is_available("p1"));
    assert_eq!(cb.state("p1"), CircuitState::Closed);
}

#[test]
fn opens_at_threshold() {
    let mut cb = CircuitBreaker::new(3, Duration::from_secs(60), 1);
    for _ in 0..3 {
        cb.record_failure("p1");
    }
    assert_eq!(cb.state("p1"), CircuitState::Open);
    assert!(!cb.is_available("p1"));
}

#[test]
fn success_resets_failure_count() {
    let mut cb = CircuitBreaker::new(3, Duration::from_secs(60), 1);
    cb.record_failure("p1");
    cb.record_failure("p1");
    cb.record_success("p1");
    assert_eq!(cb.state("p1"), CircuitState::Closed);
    // Now two more failures should not open (count was reset).
    cb.record_failure("p1");
    cb.record_failure("p1");
    assert_eq!(cb.state("p1"), CircuitState::Closed);
}

#[test]
fn transitions_to_half_open_after_timeout() {
    let mut cb = CircuitBreaker::new(2, Duration::from_millis(0), 1);
    cb.record_failure("p1");
    cb.record_failure("p1");
    assert_eq!(cb.state("p1"), CircuitState::Open);
    // With zero timeout, should immediately transition to HalfOpen.
    assert!(cb.is_available("p1"));
    assert_eq!(cb.state("p1"), CircuitState::HalfOpen);
}

#[test]
fn half_open_success_closes_circuit() {
    let mut cb = CircuitBreaker::new(2, Duration::from_millis(0), 1);
    cb.record_failure("p1");
    cb.record_failure("p1");
    // Trigger HalfOpen transition.
    assert!(cb.is_available("p1"));
    assert_eq!(cb.state("p1"), CircuitState::HalfOpen);
    // Probe succeeds.
    cb.record_success("p1");
    assert_eq!(cb.state("p1"), CircuitState::Closed);
    assert!(cb.is_available("p1"));
}

#[test]
fn half_open_failure_reopens_circuit() {
    // Use a long timeout so that after reopening, `is_available` stays false.
    let mut cb = CircuitBreaker::new(2, Duration::from_secs(3600), 1);
    cb.record_failure("p1");
    cb.record_failure("p1");
    assert_eq!(cb.state("p1"), CircuitState::Open);
    // Reach HalfOpen by asking when the last failure is far in the past.
    let failed_at = cb.entry("p1").last_failure_time.unwrap();
    assert!(cb.is_available_at("p1", failed_at + 3_600_000_000_000));
    assert_eq!(cb.state("p1"), CircuitState::HalfOpen);
    // Probe fails.
    cb.record_failure("p1");
    assert_eq!(cb.state("p1"), CircuitState::Open);
    assert!(!cb.is_available("p1"));
}

#[test]
fn providers_are_independent() {
    let mut cb = CircuitBreaker::new(2, Duration::from_secs(60), 1);
    cb.record_failure("p1");
    cb.record_failure("p1");
    assert_eq!(cb.state("p1"), CircuitState::Open);
    // p2 should be unaffected.
    assert!(cb.is_available("p2"));
    assert_eq!(cb.state("p2"), CircuitState::Closed);
}

#[test]
fn half_open_respects_max_calls() {
    let mut cb = CircuitBreaker::new(2, Duration::from_millis(0), 2);
    cb.record_failure("p1");
    cb.record_failure("p1");
    // Trigger HalfOpen with budget of 2.
    assert!(cb.is_available("p1"));
    assert_eq!(cb.state("p1"), CircuitState::HalfOpen);
    // First probe call fails but consumes budget.
    cb.record_failure("p1");
    // After a probe failure in HalfOpen, circuit reopens immediately.
    assert_eq!(cb.state("p1"), CircuitState::Open);
}

#[test]
fn open_circuit_not_available_before_timeout() {
    let mut cb = CircuitBreaker::new(1, Duration::from_secs(3600), 1);
    cb.record_failure("p1");
    assert_eq!(cb.state("p1"), CircuitState::Open);
    // Timeout is 1 hour, so it should not be available.
    assert!(!cb.is_available("p1"));
}

#[test]
fn threshold_clamped_to_minimum_one() {
    // Even if someone passes 0, it should require at least 1 failure.
    let mut cb = CircuitBreaker::new(0, Duration::from_secs(60), 1);
    // One failure should open (threshold clamped to 1).
    cb.record_failure("p1");
    assert_eq!(cb.state("p1"), CircuitState::Open);
}

#[test]
fn quarantine_ends_exactly_at_the_recovery_time() {
    let mut cb = CircuitBreaker::new(1, Duration::from_nanos(500), 1);
    cb.record_failure_at("p1", 1_000);
    assert!(!cb.is_available_at("p1", 1_499));
    assert_eq!(cb.state("p1"), CircuitState::Open);
    assert!(cb.is_available_at("p1", 1_500));
    assert_eq!(cb.state("p1"), CircuitState::HalfOpen);
}

#[test]
fn clock_running_backwards_keeps_the_quarantine() {
    let mut cb = CircuitBreaker::new(1, Duration::from_nanos(1), 1);
    cb.record_failure_at("p1", 1_000);
    assert!(!cb.is_available_at("p1", 10));
    assert_eq!(cb.state("p1"), CircuitState::Open);
}

#[test]
fn failures_of_an_open_circuit_prolong_the_quarantine() {
    let mut cb = CircuitBreaker::new(1, Duration::from_nanos(100), 3);
    cb.record_failure_at("p1", 0);
    cb.record_failure_at("p1", 60);
    assert_eq!(cb.entry("p1").consecutive_failures, 2);
    assert!(!cb.is_available_at("p1", 120));
    assert!(cb.is_available_at("p1", 160));
    assert_eq!(cb.entry("p1").half_open_calls_remaining, 2);
    cb.record_failure_at("p1", 200);
    assert_eq!(cb.entry("p1").half_open_calls_remaining, 1);
    assert_eq!(cb.state("p1"), CircuitState::Open);
}

#[test]
fn zero_probe_budget_is_raised_to_one() {
    let mut cb = CircuitBreaker::new(1, Duration::from_nanos(0), 0);
    cb.record_failure_at("p1", 7);
    assert!(cb.is_available_at("p1", 7));
    assert_eq!(cb.entry("p1").half_open_calls_remaining, 0);
    assert!(!cb.is_available_at("p1", 8));
}

#[test]
fn half_open_circuit_lets_a_limited_number_of_calls_through() {
    let mut cb = CircuitBreaker::new(1, Duration::from_nanos(10), 3);
    cb.record_failure_at("p1", 0);
    let passed = (0..20).filter(|now| cb.is_available_at("p1", *now)).count();
    assert_eq!(passed, 3);
    assert_eq!(cb.state("p1"), CircuitState::HalfOpen);
    assert!(!cb.is_available_at("p1", 1_000_000));
    // A result opens the way again.
    cb.record_success("p1");
    assert!(cb.is_available_at("p1", 1_000_001));
    assert_eq!(cb.entry("p1").half_open_calls_remaining, 3);
    cb.record_failure_at("p1", 2_000_000);
    assert!(cb.is_available_at("p1", 2_000_010));
    assert_eq!(cb.entry("p1").half_open_calls_remaining, 2);
}

#[test]
fn unknown_provider_is_closed() {
    let cb = CircuitBreaker::new(1, Duration::from_secs(1), 1);
    assert_eq!(cb.state("never seen"), CircuitState::Closed);
    assert_eq!(cb.entry("never seen").consecutive_failures, 0);
    assert_eq!(cb.entry("never seen").last_failure_time, None);
}
