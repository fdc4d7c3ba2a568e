use rtes::config::{otlp_base_endpoint, otlp_endpoint, parse_unsigned, Config};
use rtes::consumer::{settle_delivery, supervise, Settlement, SupervisorAction};

fn vars(pairs: &[(&str, &str)]) -> Vec<(String, String)> {
    pairs.iter().map(|(k, v)| (k.to_string(), v.to_string())).collect()
}

#[test]
fn defaults_apply_without_environment() {
    let c = Config::get(&vec![]);
    assert_eq!(c.redis_url, "redis://127.0.0.1/");
    assert_eq!(c.rabbitmq_token_queue, "execution.token");
    assert_eq!(c.rabbitmq_execution_queue, "workflow.worker.initiated");
    assert_eq!(c.rabbitmq_prefetch_count, 10);
    assert_eq!(c.rabbitmq_concurrent_messages, 10);
    assert_eq!(c.port, 3000);
    assert!(c.rabbitmq_queue_durable);
}

#[test]
fn environment_overrides_and_bad_numbers_fall_back() {
    let c = Config::get(&vars(&[
        ("PORT", "8080"),
        ("RABBITMQ_PREFETCH_COUNT", "70000"),
        ("RABBITMQ_CONCURRENT_MESSAGES", "+4"),
        ("RABBITMQ_QUEUE_DURABLE", "false"),
        ("JWT_SECRET", "SECRET-REDACTED"),
    ]));
    assert_eq!(c.port, 8080);
    assert_eq!(c.rabbitmq_prefetch_count, 10);
    assert_eq!(c.rabbitmq_concurrent_messages, 4);
    assert!(!c.rabbitmq_queue_durable);
    assert_eq!(c.jwt_secret, "SECRET-REDACTED");
}

#[test]
fn parse_unsigned_cases() {
    assert_eq!(parse_unsigned("65535", 65535), Some(65535));
    assert_eq!(parse_unsigned("65536", 65535), None);
    assert_eq!(parse_unsigned("+12", 100), Some(12));
    assert_eq!(parse_unsigned("", 100), None);
    assert_eq!(parse_unsigned("+", 100), None);
    assert_eq!(parse_unsigned("1a", 100), None);
    assert_eq!(parse_unsigned("-1", 100), None);
    assert_eq!(parse_unsigned("99999999999999999999999", u64::MAX), None);
}

#[test]
fn otlp_base_drops_signal_paths() {
    assert_eq!(otlp_base_endpoint("http://c:4318/"), "http://c:4318");
    assert_eq!(otlp_base_endpoint("http://c:4318/v1/traces"), "http://c:4318");
    assert_eq!(otlp_base_endpoint("http://c:4318//v1/metrics//"), "http://c:4318");
    assert_eq!(otlp_base_endpoint("http://c:4318/v1/logs"), "http://c:4318");
    assert_eq!(otlp_base_endpoint("http://c:4318/v1"), "http://c:4318/v1");
}

#[test]
fn otlp_endpoint_joins_path() {
    assert_eq!(otlp_endpoint("http://c:4318/v1/traces", "/v1/logs"), "http://c:4318/v1/logs");
    assert_eq!(otlp_endpoint("http://c:4318", "v1/metrics"), "http://c:4318/v1/metrics");
}

#[test]
fn deliveries_are_acked_only_after_storing() {
    assert_eq!(settle_delivery(true, true), Settlement { ack: true, publish: true });
    assert_eq!(settle_delivery(true, false), Settlement { ack: false, publish: false });
    assert_eq!(settle_delivery(false, true), Settlement { ack: false, publish: false });
}

#[test]
fn consumers_restart_until_cancelled() {
    assert_eq!(supervise(false, 0), SupervisorAction::Restart { delay_ms: 5000, attempt: 1 });
    assert_eq!(supervise(false, u64::MAX), SupervisorAction::Restart { delay_ms: 5000, attempt: u64::MAX });
    assert_eq!(supervise(true, 3), SupervisorAction::Stop);
}
