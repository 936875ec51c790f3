use payment_gateway::breaker::{CircuitBreaker, CircuitBreakerState};

const START_MS: u64 = 1_700_000_000_000;

#[test]
fn breaker_trips_after_threshold_failures() {
    let mut b = CircuitBreaker::new(3, 30);
    b.record_failure(START_MS);
    b.record_failure(START_MS + 10);
    assert_eq!(b.state(), CircuitBreakerState::Closed);
    assert!(b.can_execute(START_MS + 20));
    b.record_failure(START_MS + 20);
    assert_eq!(b.state(), CircuitBreakerState::Open);
    assert_eq!(b.failure_count(), 3);
    assert_eq!(b.last_failure_at(), Some(START_MS + 20));
    assert!(!b.can_execute(START_MS + 20));
    assert!(!b.can_execute(START_MS + 20 + 29_999));
    assert_eq!(b.state(), CircuitBreakerState::Open);
    assert!(b.can_execute(START_MS + 20 + 30_000));
    assert_eq!(b.state(), CircuitBreakerState::HalfOpen);
    assert!(b.can_execute(START_MS + 20 + 30_001));
}

#[test]
fn breaker_success_resets() {
    let mut b = CircuitBreaker::new(2, 30);
    b.record_failure(START_MS);
    b.record_failure(START_MS);
    assert_eq!(b.state(), CircuitBreakerState::Open);
    b.record_success();
    assert_eq!(b.state(), CircuitBreakerState::Closed);
    assert_eq!(b.failure_count(), 0);
    assert_eq!(b.last_failure_at(), None);
    assert!(b.can_execute(START_MS));
}

#[test]
fn breaker_half_open_failure_reopens() {
    let mut b = CircuitBreaker::new(1, 5);
    b.record_failure(START_MS);
    assert!(!b.can_execute(START_MS + 4_999));
    assert!(b.can_execute(START_MS + 5_000));
    assert_eq!(b.state(), CircuitBreakerState::HalfOpen);
    b.record_failure(START_MS + 6_000);
    assert_eq!(b.state(), CircuitBreakerState::Open);
    assert!(!b.can_execute(START_MS + 6_001));
    assert!(b.can_execute(START_MS + 11_000));
}

#[test]
fn breaker_clock_going_back_counts_as_no_time() {
    let mut b = CircuitBreaker::new(1, 1);
    b.record_failure(START_MS);
    assert!(!b.can_execute(START_MS - 10_000));
    assert_eq!(b.state(), CircuitBreakerState::Open);
}

#[test]
fn breaker_zero_timeout_reopens_at_once() {
    let mut b = CircuitBreaker::new(1, 0);
    b.record_failure(START_MS);
    assert!(b.can_execute(START_MS));
    assert_eq!(b.state(), CircuitBreakerState::HalfOpen);
}

#[test]
fn breaker_state_labels() {
    assert_eq!(CircuitBreakerState::Closed.label(), "Closed");
    assert_eq!(CircuitBreakerState::Open.label(), "Open");
    assert_eq!(CircuitBreakerState::HalfOpen.label(), "HalfOpen");
}
