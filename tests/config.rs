use payment_gateway::config::{parse_unsigned, setting_or, Config};

#[test]
fn config_defaults_when_unset() {
    let c = Config::from_settings(None, None, None, None, None, None, None, None);
    assert_eq!(c.server_port, 9999);
    assert_eq!(c.token, "123");
    assert_eq!(c.default_processor_url, "http://payment-processor-default:8080");
    assert_eq!(c.fallback_processor_url, "http://payment-processor-fallback:8080");
    assert_eq!(c.batch_size, 50);
    assert_eq!(c.queue_buffer_size, 1000);
    assert_eq!(c.circuit_breaker_threshold, 5);
    assert_eq!(c.circuit_breaker_timeout_secs, 30);
}

#[test]
fn config_reads_given_values() {
    let c = Config::from_settings(
        Some("8080"),
        Some("abc"),
        Some("http://a:1"),
        Some("http://b:2"),
        Some("7"),
        Some("2"),
        Some("3"),
        Some("+45"),
    );
    assert_eq!(c.server_port, 8080);
    assert_eq!(c.token, "abc");
    assert_eq!(c.default_processor_url, "http://a:1");
    assert_eq!(c.fallback_processor_url, "http://b:2");
    assert_eq!(c.batch_size, 7);
    assert_eq!(c.queue_buffer_size, 2);
    assert_eq!(c.circuit_breaker_threshold, 3);
    assert_eq!(c.circuit_breaker_timeout_secs, 45);
}

#[test]
fn config_malformed_numbers_fall_back() {
    let c = Config::from_settings(
        Some("70000"),
        None,
        None,
        None,
        Some("-1"),
        Some("ten"),
        Some(""),
        Some("3 "),
    );
    assert_eq!(c.server_port, 9999);
    assert_eq!(c.batch_size, 50);
    assert_eq!(c.queue_buffer_size, 1000);
    assert_eq!(c.circuit_breaker_threshold, 5);
    assert_eq!(c.circuit_breaker_timeout_secs, 30);
}

#[test]
fn parse_unsigned_matches_std() {
    for s in ["0", "7", "+7", "007", "65535", "65536", "", "+", "-0", " 1", "1.0", "18446744073709551615", "18446744073709551616"] {
        let ours = parse_unsigned(s, u64::MAX);
        let std_result = s.parse::<u64>().ok();
        assert_eq!(ours, std_result, "input {:?}", s);
        let ours16 = parse_unsigned(s, u16::MAX as u64).map(|v| v as u16);
        assert_eq!(ours16, s.parse::<u16>().ok(), "input {:?}", s);
    }
    assert_eq!(setting_or(Some("12"), 100, 5), 12);
    assert_eq!(setting_or(Some("101"), 100, 5), 5);
    assert_eq!(setting_or(None, 100, 5), 5);
}
