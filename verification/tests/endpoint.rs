use lumberjack_sender::endpoint::{EndpointState, LumberjackEndpoint};
use lumberjack_sender::text::decimal_text;

const SEC: u128 = 1_000_000_000;

fn endpoint() -> LumberjackEndpoint<u8> {
    LumberjackEndpoint::new("10.0.0.7".to_string(), 5044)
}

#[test]
fn decimal_numerals() {
    assert_eq!(decimal_text(0), "0");
    assert_eq!(decimal_text(9), "9");
    assert_eq!(decimal_text(10), "10");
    assert_eq!(decimal_text(5044), "5044");
    assert_eq!(decimal_text(65535), "65535");
}

#[test]
fn new_endpoint_is_available_and_not_connected() {
    let ep = endpoint();
    assert_eq!(ep.ip, "10.0.0.7");
    assert_eq!(ep.port, 5044);
    assert!(ep.client.is_none());
    assert_eq!(ep.consecutive_failures, 0);
    assert!(ep.is_available());
    assert!(!ep.is_slow());
    assert!(ep.can_try_at(0));
}

#[test]
fn address_has_ip_and_port() {
    assert_eq!(endpoint().addr(), "10.0.0.7:5044");
    let other: LumberjackEndpoint<u8> = LumberjackEndpoint::new("host".to_string(), 0);
    assert_eq!(other.addr(), "host:0");
}

#[test]
fn cooldown_doubles_up_to_forty_seconds() {
    let mut ep = endpoint();
    for (failures, secs) in [(1u8, 10u128), (2, 20), (3, 40), (4, 40), (5, 40)] {
        ep.mark_failure_at(7, 0);
        assert_eq!(ep.consecutive_failures, failures);
        assert_eq!(ep.state, EndpointState::Cooldown { until: 7 + secs * SEC });
    }
}

#[test]
fn failures_saturate() {
    let mut ep = endpoint();
    ep.consecutive_failures = 255;
    ep.mark_failure_at(0, 0);
    assert_eq!(ep.consecutive_failures, 255);
    assert_eq!(ep.state, EndpointState::Cooldown { until: 40 * SEC });
}

#[test]
fn jitter_is_below_five_seconds() {
    let mut ep = endpoint();
    ep.mark_failure_at(0, 4999);
    assert_eq!(ep.state, EndpointState::Cooldown { until: 10 * SEC + 4_999_000_000 });
    let mut ep = endpoint();
    ep.mark_failure_at(0, 5000);
    assert_eq!(ep.state, EndpointState::Cooldown { until: 10 * SEC });
    let mut ep = endpoint();
    ep.mark_failure_at(0, u64::MAX);
    assert_eq!(
        ep.state,
        EndpointState::Cooldown { until: 10 * SEC + (u64::MAX % 5000) as u128 * 1_000_000 }
    );
}

#[test]
fn failure_gives_up_the_connection() {
    let mut ep = endpoint();
    ep.client = Some(1);
    ep.mark_failure_at(0, 0);
    assert!(ep.client.is_none());
}

#[test]
fn cooldown_ends_at_its_moment() {
    let mut ep = endpoint();
    ep.mark_failure_at(0, 0);
    assert!(!ep.is_available());
    assert!(!ep.is_slow());
    assert!(!ep.can_try_at(10 * SEC - 1));
    assert!(ep.can_try_at(10 * SEC));
}

#[test]
fn success_makes_available_or_slow() {
    let mut ep = endpoint();
    ep.client = Some(1);
    ep.mark_failure_at(0, 0);
    ep.client = Some(2);
    ep.mark_success(0);
    assert_eq!(ep.state, EndpointState::Available);
    assert_eq!(ep.consecutive_failures, 0);
    assert_eq!(ep.client, Some(2));
    ep.mark_success(3);
    assert_eq!(ep.state, EndpointState::Slow { keepalive_count: 3 });
    assert!(ep.is_slow());
    assert!(ep.can_try_at(0));
    ep.mark_success(255);
    assert_eq!(ep.state, EndpointState::Slow { keepalive_count: 255 });
    ep.mark_success(100_000);
    assert_eq!(ep.state, EndpointState::Slow { keepalive_count: 255 });
}

#[test]
fn failure_after_a_slow_success_is_the_first() {
    let mut ep = endpoint();
    ep.mark_failure_at(0, 0);
    ep.mark_failure_at(0, 0);
    ep.mark_success(9);
    assert_eq!(ep.consecutive_failures, 0);
    ep.mark_failure_at(0, 0);
    assert_eq!(ep.consecutive_failures, 1);
    assert_eq!(ep.state, EndpointState::Cooldown { until: 10 * SEC });
}
