use payment_gateway::breaker::CircuitBreakerState;
use payment_gateway::config::Config;
use payment_gateway::ledger::{Ledger, SummaryResult};
use payment_gateway::payment::{PaymentRecord, PaymentRequest, ProcessorPayload, ProcessorTag};
use payment_gateway::queue::RecvOutcome;
use payment_gateway::router::{
    first_route_step, next_route_step, AttemptResult, DispatchOutcome, RouteStep, Upstream,
};
use payment_gateway::service::{PaymentService, ServiceError, SummaryFilters};

const T0: u64 = 1_700_000_000_000;

fn config(queue: &str, threshold: &str) -> Config {
    Config::from_settings(None, None, None, None, None, Some(queue), Some(threshold), Some("30"))
}

fn request(id: &str, amount: u64) -> PaymentRequest {
    PaymentRequest { id: id.to_string(), amount }
}

fn no_filters() -> SummaryFilters {
    SummaryFilters { from_date: None, to_date: None }
}

/// Takes the next request and routes it; `answer` says how each upstream
/// answers a call. Returns the outcome and the upstreams that were called.
fn dispatch_next(
    svc: &mut PaymentService,
    now: u64,
    answer: impl Fn(Upstream) -> bool,
) -> Option<(DispatchOutcome, Vec<Upstream>)> {
    let req = match svc.take_next() {
        RecvOutcome::Item(r) => r,
        _ => return None,
    };
    let mut called = Vec::new();
    let mut step = first_route_step();
    loop {
        match step {
            RouteStep::Call(up) => {
                let result = if svc.can_attempt(up, now) {
                    called.push(up);
                    svc.record_attempt(up, answer(up), now)
                } else {
                    AttemptResult::Skipped
                };
                step = next_route_step(up, result);
            }
            RouteStep::Finish(outcome) => {
                assert!(svc.complete_payment(&req.id, outcome, now));
                return Some((outcome, called));
            }
        }
    }
}

fn summary(svc: &PaymentService) -> SummaryResult {
    svc.get_summary(no_filters())
}

#[test]
fn happy_path_summary() {
    let mut svc = PaymentService::new(config("10", "5"));
    for (id, amount) in [("a", 1000), ("b", 2200), ("c", 500)] {
        assert_eq!(svc.submit_payment(request(id, amount)), Ok(()));
    }
    for _ in 0..3 {
        let (outcome, called) = dispatch_next(&mut svc, T0, |_| true).unwrap();
        assert_eq!(outcome, DispatchOutcome::Processed(Upstream::Default));
        assert_eq!(called, vec![Upstream::Default]);
    }
    let s = summary(&svc);
    assert_eq!(s.total_amount_cents, 3700);
    assert_eq!(s.total_fee_cents, 185);
    assert_eq!(s.count, 3);
    assert_eq!(s.count_processed, 3);
    assert_eq!(s.count_failed, 0);
    assert_eq!(svc.get_submitted(), 3);
    assert_eq!(svc.get_processed(), 3);
    assert_eq!(svc.get_failed(), 0);
}

#[test]
fn default_down_fallback_up() {
    let mut svc = PaymentService::new(config("10", "5"));
    svc.submit_payment(request("x", 10000)).unwrap();
    let (outcome, called) = dispatch_next(&mut svc, T0, |u| u == Upstream::Fallback).unwrap();
    assert_eq!(outcome, DispatchOutcome::Processed(Upstream::Fallback));
    assert_eq!(called, vec![Upstream::Default, Upstream::Fallback]);
    let p = svc.get_payment("x").unwrap();
    assert_eq!(p.processor, ProcessorTag::Fallback);
    assert_eq!(p.fee, 500);
    assert_eq!(p.processed_at, Some(T0));
    let s = summary(&svc);
    assert_eq!(s.count_processed, 1);
    assert_eq!(s.count_failed, 0);
    assert_eq!(svc.processor_client().breaker_failures(Upstream::Default), 1);
    assert_eq!(svc.processor_client().breaker_failures(Upstream::Fallback), 0);
}

#[test]
fn breakers_open_then_recover() {
    let mut svc = PaymentService::new(config("10", "3"));
    for id in ["pay1", "pay2", "pay3"] {
        svc.submit_payment(request(id, 100)).unwrap();
    }
    for _ in 0..3 {
        let (outcome, _) = dispatch_next(&mut svc, T0, |_| false).unwrap();
        assert_eq!(outcome, DispatchOutcome::Failed);
    }
    assert_eq!(svc.get_circuit_breaker_status("default"), "Open");
    assert_eq!(svc.get_circuit_breaker_status("fallback"), "Open");
    let s = summary(&svc);
    assert_eq!(s.count_failed, 3);
    assert_eq!(s.count_processed, 0);

    // both breakers refuse: no call goes out and the payment fails
    svc.submit_payment(request("pay4", 100)).unwrap();
    let (outcome, called) = dispatch_next(&mut svc, T0 + 1_000, |_| true).unwrap();
    assert_eq!(outcome, DispatchOutcome::Failed);
    assert!(called.is_empty());
    assert_eq!(svc.get_payment("pay4").unwrap().processor, ProcessorTag::Failed);

    // after the timeout the default is tried again and recovers
    svc.submit_payment(request("pay5", 2000)).unwrap();
    let (outcome, called) = dispatch_next(&mut svc, T0 + 31_000, |u| u == Upstream::Default).unwrap();
    assert_eq!(outcome, DispatchOutcome::Processed(Upstream::Default));
    assert_eq!(called, vec![Upstream::Default]);
    assert_eq!(svc.processor_client().breaker_state(Upstream::Default), CircuitBreakerState::Closed);
    assert_eq!(svc.get_circuit_breaker_status("default"), "Closed");
    assert_eq!(svc.get_circuit_breaker_status("fallback"), "Open");
    assert_eq!(svc.get_circuit_breaker_status("other"), "unknown");

    svc.submit_payment(request("pay6", 40)).unwrap();
    let (outcome, _) = dispatch_next(&mut svc, T0 + 31_001, |u| u == Upstream::Default).unwrap();
    assert_eq!(outcome, DispatchOutcome::Processed(Upstream::Default));
    assert_eq!(svc.get_payment("pay6").unwrap().fee, 2);
}

#[test]
fn queue_full_refuses_third() {
    let mut svc = PaymentService::new(config("2", "5"));
    assert_eq!(svc.submit_payment(request("q1", 10)), Ok(()));
    assert_eq!(svc.submit_payment(request("q2", 20)), Ok(()));
    assert_eq!(svc.submit_payment(request("q3", 30)), Err(ServiceError::QueueFull));
    assert_eq!(svc.get_total_payments(), 2);
    assert_eq!(svc.get_payment("q1").unwrap().processor, ProcessorTag::Pending);
    assert_eq!(svc.get_payment("q2").unwrap().processor, ProcessorTag::Pending);
    assert!(svc.get_payment("q3").is_none());
    assert_eq!(svc.get_submitted(), 2);
    assert_eq!(svc.queued_len(), 2);
}

#[test]
fn backpressure_exactly_one_refusal() {
    let capacity = 5usize;
    let mut svc = PaymentService::new(config("5", "5"));
    let mut refused = 0;
    for i in 0..=capacity {
        match svc.submit_payment(request(&format!("r{}", i), 1)) {
            Ok(()) => {}
            Err(ServiceError::QueueFull) => refused += 1,
            Err(e) => panic!("unexpected {:?}", e),
        }
    }
    assert_eq!(refused, 1);
    assert_eq!(svc.get_submitted(), capacity as u64);
}

#[test]
fn refused_resubmission_keeps_earlier_record() {
    let mut svc = PaymentService::new(config("1", "5"));
    svc.submit_payment(request("d", 100)).unwrap();
    dispatch_next(&mut svc, T0, |_| true).unwrap();
    svc.submit_payment(request("e", 1)).unwrap();
    assert_eq!(svc.submit_payment(request("d", 999)), Err(ServiceError::QueueFull));
    let p = svc.get_payment("d").unwrap();
    assert_eq!(p.amount, 100);
    assert_eq!(p.processor, ProcessorTag::Default);
}

#[test]
fn duplicate_id_last_writer_wins() {
    let mut svc = PaymentService::new(config("10", "5"));
    svc.submit_payment(request("d", 100)).unwrap();
    dispatch_next(&mut svc, T0, |_| true).unwrap();
    assert_eq!(svc.get_payment("d").unwrap().processor, ProcessorTag::Default);
    svc.submit_payment(request("d", 999)).unwrap();
    dispatch_next(&mut svc, T0 + 5, |u| u == Upstream::Fallback).unwrap();
    let p = svc.get_payment("d").unwrap();
    assert_eq!(p.amount, 999);
    assert_eq!(p.processor, ProcessorTag::Fallback);
    assert_eq!(p.fee, 49);
    assert_eq!(svc.get_submitted(), 2);
    assert_eq!(svc.get_processed(), 2);
    assert_eq!(svc.get_total_payments(), 1);
}

#[test]
fn accepted_payment_is_in_ledger_at_once() {
    let mut svc = PaymentService::new(config("10", "5"));
    svc.submit_payment(request("z", 1234)).unwrap();
    let p = svc.get_payment("z").unwrap();
    assert_eq!(p.id, "z");
    assert_eq!(p.amount, 1234);
    assert_eq!(p.processor, ProcessorTag::Pending);
    assert_eq!(p.fee, 0);
    assert_eq!(p.processed_at, None);
    // pending records count but add no amount
    let s = summary(&svc);
    assert_eq!(s.count, 1);
    assert_eq!(s.total_amount_cents, 0);
    assert_eq!(s.count_processed, 0);
    assert_eq!(s.count_failed, 0);
    assert_eq!(svc.get_total_amount(), 1234);
    assert_eq!(svc.get_total_fees(), 0);
}

#[test]
fn counters_conserved_at_rest() {
    let mut svc = PaymentService::new(config("10", "2"));
    for i in 0..6u64 {
        svc.submit_payment(request(&format!("c{}", i), 100 * i)).unwrap();
    }
    let mut n = 0u64;
    while dispatch_next(&mut svc, T0 + n, |u| u == Upstream::Fallback && n % 2 == 0).is_some() {
        n += 1;
        assert!(svc.get_processed() <= svc.get_submitted());
    }
    assert_eq!(n, 6);
    assert_eq!(svc.queued_len(), 0);
    assert_eq!(svc.in_flight_len(), 0);
    assert_eq!(svc.get_submitted(), svc.get_processed() + svc.get_failed());
    for i in 0..6u64 {
        assert_ne!(svc.get_payment(&format!("c{}", i)).unwrap().processor, ProcessorTag::Pending);
    }
}

#[test]
fn completing_unknown_payment_changes_nothing() {
    let mut svc = PaymentService::new(config("10", "5"));
    svc.submit_payment(request("k", 100)).unwrap();
    assert!(!svc.complete_payment("k", DispatchOutcome::Failed, T0));
    assert_eq!(svc.get_payment("k").unwrap().processor, ProcessorTag::Pending);
    assert_eq!(svc.get_failed(), 0);
}

#[test]
fn closed_intake_drains_then_reports_closed() {
    let mut svc = PaymentService::new(config("10", "5"));
    svc.submit_payment(request("s1", 1)).unwrap();
    svc.close_intake();
    assert_eq!(svc.submit_payment(request("s2", 1)), Err(ServiceError::ProcessingError));
    assert!(svc.get_payment("s2").is_none());
    assert!(matches!(svc.take_next(), RecvOutcome::Item(r) if r.id == "s1"));
    assert!(matches!(svc.take_next(), RecvOutcome::Closed));
}

#[test]
fn empty_queue_reports_empty() {
    let mut svc = PaymentService::new(config("10", "5"));
    assert!(matches!(svc.take_next(), RecvOutcome::Empty));
    let s = summary(&svc);
    assert_eq!(s.count, 0);
    assert_eq!(s.total_amount_cents, 0);
}

#[test]
fn router_prefers_default() {
    assert_eq!(first_route_step(), RouteStep::Call(Upstream::Default));
    assert_eq!(
        next_route_step(Upstream::Default, AttemptResult::Succeeded),
        RouteStep::Finish(DispatchOutcome::Processed(Upstream::Default))
    );
    assert_eq!(
        next_route_step(Upstream::Default, AttemptResult::Failed),
        RouteStep::Call(Upstream::Fallback)
    );
    assert_eq!(
        next_route_step(Upstream::Default, AttemptResult::Skipped),
        RouteStep::Call(Upstream::Fallback)
    );
    assert_eq!(
        next_route_step(Upstream::Fallback, AttemptResult::Succeeded),
        RouteStep::Finish(DispatchOutcome::Processed(Upstream::Fallback))
    );
    assert_eq!(
        next_route_step(Upstream::Fallback, AttemptResult::Failed),
        RouteStep::Finish(DispatchOutcome::Failed)
    );
    assert_eq!(Upstream::from_name("default"), Some(Upstream::Default));
    assert_eq!(Upstream::from_name("fallback"), Some(Upstream::Fallback));
    assert_eq!(Upstream::from_name("Default"), None);
}

#[test]
fn ledger_put_get_remove_and_sums() {
    let mut l = Ledger::new();
    let rec = |amount: u64, processor: ProcessorTag, fee: u64, at: Option<u64>| PaymentRecord {
        amount,
        processor,
        fee,
        processed_at: at,
    };
    assert_eq!(l.put("a".to_string(), rec(100, ProcessorTag::Pending, 0, None)), None);
    let old = l.put("a".to_string(), rec(100, ProcessorTag::Default, 5, Some(T0)));
    assert_eq!(old, Some(rec(100, ProcessorTag::Pending, 0, None)));
    l.put("b".to_string(), rec(u64::MAX, ProcessorTag::Failed, 0, Some(T0)));
    l.put("c".to_string(), rec(7, ProcessorTag::Pending, 0, None));
    assert_eq!(l.len(), 3);
    let s = l.summary();
    assert_eq!(s.count, 3);
    assert_eq!(s.count_processed, 1);
    assert_eq!(s.count_failed, 1);
    assert_eq!(s.total_amount_cents, u64::MAX);
    assert_eq!(s.total_fee_cents, 5);
    assert_eq!(l.sums().total_fees, 5);
    assert_eq!(l.remove("c"), Some(rec(7, ProcessorTag::Pending, 0, None)));
    assert_eq!(l.get("c"), None);
    assert_eq!(l.get("a"), Some(rec(100, ProcessorTag::Default, 5, Some(T0))));
}

#[test]
fn payload_for_request() {
    let p = ProcessorPayload::for_request(&request("abc", 42), T0);
    assert_eq!(p.correlation_id, "abc");
    assert_eq!(p.amount, 42);
    assert_eq!(p.requested_at, T0);
}

#[test]
fn client_settings_come_from_config() {
    let svc = PaymentService::new(Config::from_settings(
        None,
        Some("tok"),
        Some("http://d"),
        Some("http://f"),
        None,
        Some("4"),
        None,
        None,
    ));
    let c = svc.processor_client();
    assert_eq!(c.token(), "tok");
    assert_eq!(c.processor_url(Upstream::Default), "http://d");
    assert_eq!(c.processor_url(Upstream::Fallback), "http://f");
    assert_eq!(c.get_breaker_status("default"), Some(CircuitBreakerState::Closed));
    assert_eq!(c.get_breaker_status("nope"), None);
}
