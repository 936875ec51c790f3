use payment_gateway::metrics::AtomicMetrics;

#[test]
fn counters_start_at_zero_and_go_up() {
    let mut m = AtomicMetrics::new();
    assert_eq!((m.get_submitted(), m.get_processed(), m.get_failed()), (0, 0, 0));
    m.increment_submitted();
    m.increment_submitted();
    m.increment_processed();
    m.increment_failed();
    assert_eq!(m.get_submitted(), 2);
    assert_eq!(m.get_processed(), 1);
    assert_eq!(m.get_failed(), 1);
}
