use std::time::Duration;

use lumberjack_sender::endpoint::{EndpointState, LumberjackEndpoint};
use lumberjack_sender::pool::{LumberjackConnectionPool, PoolConfig};

const SEC: u128 = 1_000_000_000;
const SLOW: EndpointState = EndpointState::Slow { keepalive_count: 1 };

fn pool(total: u16) -> LumberjackConnectionPool<u8> {
    let endpoints = (0..total).map(|i| (format!("10.0.0.{i}"), 5000 + i)).collect();
    LumberjackConnectionPool::new(
        endpoints,
        PoolConfig {
            compression_level: 3,
            ack_timeout: Duration::from_secs(30),
            local_port_range: Some((40000, 41000)),
        },
    )
}

fn resting(until: u128) -> EndpointState {
    EndpointState::Cooldown { until }
}

#[test]
fn new_pool_has_the_endpoints_in_order() {
    let pool = pool(3);
    let addrs: Vec<String> = pool.endpoints.iter().map(|ep| ep.addr()).collect();
    assert_eq!(addrs, vec!["10.0.0.0:5000", "10.0.0.1:5001", "10.0.0.2:5002"]);
    assert_eq!(pool.next_index, 0);
    assert_eq!(pool.config.compression_level, 3);
    assert_eq!(pool.config.ack_timeout, Duration::from_secs(30));
    assert_eq!(pool.config.local_port_range, Some((40000, 41000)));
}

#[test]
fn available_endpoints_take_turns() {
    let mut pool = pool(3);
    let picks: Vec<Option<usize>> = (0..7).map(|_| pool.pick_endpoint_at(0)).collect();
    assert_eq!(
        picks,
        vec![Some(0), Some(1), Some(2), Some(0), Some(1), Some(2), Some(0)]
    );
    assert_eq!(pool.next_index, 7);
}

#[test]
fn empty_pool_has_none_to_pick() {
    let mut pool = pool(0);
    assert_eq!(pool.pick_endpoint_at(0), None);
    assert_eq!(pool.pick_endpoint(), None);
    assert_eq!(pool.next_index, 0);
}

#[test]
fn available_goes_before_slow_before_rested() {
    let mut pool = pool(3);
    pool.endpoints[0].state = resting(5);
    pool.endpoints[1].state = SLOW;
    assert_eq!(pool.pick_endpoint_at(10), Some(2));
    assert_eq!(pool.next_index, 3);
    pool.endpoints[2].state = resting(5);
    assert_eq!(pool.pick_endpoint_at(10), Some(1));
    assert_eq!(pool.next_index, 3 + 3 + 2);
    pool.endpoints[1].state = resting(20);
    assert_eq!(pool.pick_endpoint_at(10), Some(2));
    assert_eq!(pool.next_index, 8 + 3 + 3 + 1);
}

#[test]
fn none_is_picked_while_all_rest() {
    let mut pool = pool(2);
    pool.endpoints[0].state = resting(5);
    pool.endpoints[1].state = resting(7);
    assert_eq!(pool.pick_endpoint_at(4), None);
    assert_eq!(pool.next_index, 6);
    assert_eq!(pool.pick_endpoint_at(5), Some(0));
}

#[test]
fn pick_by_a_predicate_of_ones_own() {
    let mut pool = pool(4);
    assert_eq!(pool.pick_endpoint_by(|ep: &LumberjackEndpoint<u8>| ep.port == 5002), Some(2));
    assert_eq!(pool.next_index, 3);
    assert_eq!(pool.pick_endpoint_by(|ep: &LumberjackEndpoint<u8>| ep.port == 5002), Some(2));
    assert_eq!(pool.next_index, 7);
    assert_eq!(pool.pick_endpoint_by(|ep: &LumberjackEndpoint<u8>| ep.port == 1), None);
    assert_eq!(pool.next_index, 11);
}

#[test]
fn cursor_wraps_around() {
    let mut pool = pool(2);
    pool.next_index = usize::MAX;
    assert_eq!(pool.pick_endpoint_at(0), Some(1));
    assert_eq!(pool.next_index, 0);
    assert_eq!(pool.pick_endpoint_at(0), Some(0));
}

#[test]
fn a_scan_over_the_end_of_the_range_may_miss_an_endpoint() {
    let mut pool = pool(3);
    pool.next_index = usize::MAX;
    pool.endpoints[0].state = SLOW;
    pool.endpoints[1].state = resting(100);
    let visited = [usize::MAX % 3, 0, 1];
    assert!(!visited.contains(&2));
    assert_eq!(pool.pick_endpoint_at(0), Some(0));
}

#[test]
fn marks_touch_one_endpoint() {
    let mut pool = pool(3);
    pool.endpoints[1].client = Some(9);
    pool.mark_failure_at(1, 3 * SEC, 1500);
    assert_eq!(pool.endpoints[1].state, resting(13 * SEC + 1_500_000_000));
    assert!(pool.endpoints[1].client.is_none());
    assert_eq!(pool.endpoints[0].state, EndpointState::Available);
    assert_eq!(pool.endpoints[2].state, EndpointState::Available);
    pool.mark_success(1, 300);
    assert_eq!(pool.endpoints[1].state, EndpointState::Slow { keepalive_count: 255 });
    pool.mark_success(1, 0);
    assert_eq!(pool.endpoints[1].state, EndpointState::Available);
    assert_eq!(pool.endpoints[1].consecutive_failures, 0);
}

#[test]
fn failed_endpoint_rests_on_the_clock() {
    let mut pool = pool(1);
    let before = pool.clock.now();
    pool.mark_failure(0);
    let after = pool.clock.now();
    assert!(before <= after);
    match pool.endpoints[0].state {
        EndpointState::Cooldown { until } => {
            assert!(before + 10 * SEC <= until);
            assert!(until < after + 15 * SEC);
        }
        _ => panic!("not resting"),
    }
    assert!(!pool.endpoints[0].can_try_now(&pool.clock));
    assert_eq!(pool.pick_endpoint(), None);
    pool.endpoints[0].state = resting(0);
    assert!(pool.endpoints[0].can_try_now(&pool.clock));
    assert_eq!(pool.pick_endpoint(), Some(0));
}

#[test]
fn jitter_varies() {
    let mut seen: Vec<u128> = Vec::new();
    for _ in 0..20 {
        let mut pool = pool(1);
        pool.mark_failure(0);
        if let EndpointState::Cooldown { until } = pool.endpoints[0].state {
            seen.push(until / 1_000_000);
        }
    }
    seen.sort();
    seen.dedup();
    assert!(seen.len() > 1);
}

#[test]
fn clock_goes_on() {
    let pool = pool(1);
    let first = pool.clock.now();
    let mut later = pool.clock.now();
    while later == first {
        later = pool.clock.now();
    }
    assert!(first < later);
    assert!(later < 3600 * SEC);
}
