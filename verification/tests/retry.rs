use std::time::Duration;

use lumberjack_sender::endpoint::EndpointState;
use lumberjack_sender::pool::{LumberjackConnectionPool, PoolConfig};
use lumberjack_sender::retry::{Attempt, SendStep};
use lumberjack_sender::stats::{PoolStats, SenderCounter};

const SEC: u128 = 1_000_000_000;

fn pool(total: u16) -> LumberjackConnectionPool<u8> {
    let endpoints = (0..total).map(|i| (format!("10.0.0.{i}"), 5000 + i)).collect();
    LumberjackConnectionPool::new(
        endpoints,
        PoolConfig {
            compression_level: 0,
            ack_timeout: Duration::from_secs(30),
            local_port_range: None,
        },
    )
}

fn stats(write_failures: u64, retry_successes: u64, all_endpoints_failed: u64) -> PoolStats {
    PoolStats { write_failures, retry_successes, all_endpoints_failed }
}

fn connect(step: SendStep<u8>) -> (Attempt, String) {
    match step {
        SendStep::Connect { attempt, addr } => (attempt, addr),
        SendStep::Transmit { .. } => panic!("transmit"),
        SendStep::Finished { .. } => panic!("finished"),
    }
}

fn transmit(step: SendStep<u8>) -> (Attempt, u8) {
    match step {
        SendStep::Transmit { attempt, client } => (attempt, client),
        SendStep::Connect { .. } => panic!("connect"),
        SendStep::Finished { .. } => panic!("finished"),
    }
}

fn finished(step: SendStep<u8>) -> Result<u32, String> {
    match step {
        SendStep::Finished { result } => result,
        SendStep::Connect { .. } => panic!("connect"),
        SendStep::Transmit { .. } => panic!("transmit"),
    }
}

#[test]
fn stats_start_at_zero() {
    assert_eq!(PoolStats::default(), stats(0, 0, 0));
}

#[test]
fn first_attempt_succeeds() {
    let mut pool = pool(2);
    let mut seen = stats(0, 0, 0);
    let (attempt, addr) = connect(pool.send_with_retry_at(&mut seen, 0));
    assert_eq!(attempt, Attempt { idx: 0, retry: false });
    assert_eq!(addr, "10.0.0.0:5000");
    let (attempt, client) = transmit(pool.connected_at(&mut seen, attempt, Ok(7), 0, 0));
    assert_eq!(client, 7);
    let step = pool.transmitted_at(&mut seen, attempt, 8, Ok(5), 0, 0);
    assert_eq!(finished(step), Ok(5));
    assert_eq!(seen, stats(0, 0, 0));
    assert_eq!(pool.endpoints[0].client, Some(8));
    assert_eq!(pool.endpoints[0].state, EndpointState::Available);
}

#[test]
fn connection_is_used_again() {
    let mut pool = pool(1);
    let mut seen = stats(0, 0, 0);
    pool.endpoints[0].client = Some(4);
    let (attempt, client) = transmit(pool.send_with_retry_at(&mut seen, 0));
    assert_eq!(client, 4);
    assert!(pool.endpoints[0].client.is_none());
    pool.transmitted(&mut seen, attempt, 4, Ok(1));
    assert_eq!(pool.endpoints[0].client, Some(4));
    transmit(pool.try_send(Attempt { idx: 0, retry: false }));
    connect(pool.try_send(Attempt { idx: 0, retry: false }));
}

#[test]
fn second_attempt_succeeds_elsewhere() {
    let mut pool = pool(2);
    let mut seen = stats(0, 0, 0);
    let (attempt, _) = connect(pool.send_with_retry_at(&mut seen, 0));
    let step = pool.connected_at(&mut seen, attempt, Err("refused".to_string()), SEC, 0);
    let (retry, addr) = connect(step);
    assert_eq!(retry, Attempt { idx: 1, retry: true });
    assert_eq!(addr, "10.0.0.1:5001");
    assert_eq!(seen, stats(1, 0, 0));
    assert_eq!(pool.endpoints[0].state, EndpointState::Cooldown { until: 11 * SEC });
    let (retry, client) = transmit(pool.connected(&mut seen, retry, Ok(3)));
    let step = pool.transmitted(&mut seen, retry, client, Ok(9));
    assert_eq!(finished(step), Ok(9));
    assert_eq!(seen, stats(1, 1, 0));
}

#[test]
fn both_attempts_fail() {
    let mut pool = pool(2);
    let mut seen = stats(0, 0, 0);
    pool.endpoints[0].client = Some(1);
    let (attempt, client) = transmit(pool.send_with_retry(&mut seen));
    let step = pool.transmitted(&mut seen, attempt, client, Err("reset".to_string()));
    assert!(pool.endpoints[0].client.is_none());
    let (retry, _) = connect(step);
    let step = pool.connected(&mut seen, retry, Err("refused".to_string()));
    assert_eq!(
        finished(step),
        Err("retry also failed: connect to 10.0.0.1:5001: refused".to_string())
    );
    assert_eq!(seen, stats(1, 0, 1));
    assert_eq!(pool.endpoints[0].consecutive_failures, 1);
    assert_eq!(pool.endpoints[1].consecutive_failures, 1);
}

#[test]
fn failed_retry_over_a_connection_says_so() {
    let mut pool = pool(1);
    let mut seen = stats(0, 0, 0);
    let attempt = Attempt { idx: 0, retry: true };
    let step = pool.transmitted_at(&mut seen, attempt, 1, Err("timeout".to_string()), 0, 0);
    assert_eq!(finished(step), Err("retry also failed: send: timeout".to_string()));
    assert_eq!(seen, stats(0, 0, 1));
}

#[test]
fn only_endpoint_is_not_tried_twice() {
    let mut pool = pool(1);
    let mut seen = stats(0, 0, 0);
    let (attempt, _) = connect(pool.send_with_retry_at(&mut seen, 0));
    let step = pool.attempt_failed_at(&mut seen, attempt, "no route", 0, 0);
    assert_eq!(finished(step), Err("all endpoints unavailable after retry".to_string()));
    assert_eq!(seen, stats(1, 0, 1));
    let step = pool.send_with_retry_at(&mut seen, 10 * SEC - 1);
    assert_eq!(finished(step), Err("all endpoints unavailable".to_string()));
    assert_eq!(seen, stats(1, 0, 2));
    connect(pool.send_with_retry_at(&mut seen, 10 * SEC));
}

#[test]
fn statistics_wrap_around() {
    let mut pool = pool(0);
    let mut seen = stats(0, 0, u64::MAX);
    finished(pool.send_with_retry(&mut seen)).unwrap_err();
    assert_eq!(seen, stats(0, 0, 0));
}

#[test]
fn sends_that_go_well_go_around() {
    let mut pool = pool(3);
    let mut seen = stats(0, 0, 0);
    for send in 0..9usize {
        let (attempt, client) = match pool.send_with_retry_at(&mut seen, 0) {
            SendStep::Connect { attempt, .. } => {
                assert!(send < 3);
                transmit(pool.connected(&mut seen, attempt, Ok(send as u8)))
            }
            step => {
                assert!(send >= 3);
                transmit(step)
            }
        };
        assert_eq!(attempt, Attempt { idx: send % 3, retry: false });
        assert_eq!(client as usize, send % 3);
        finished(pool.transmitted(&mut seen, attempt, client, Ok(1))).unwrap();
    }
    assert_eq!(seen, stats(0, 0, 0));
}

#[test]
fn endpoints_fit_together_throughout() {
    let mut pool = pool(2);
    let mut seen = stats(0, 0, 0);
    for round in 0..8u32 {
        match pool.send_with_retry_at(&mut seen, round as u128 * 7 * SEC) {
            SendStep::Connect { attempt, .. } => {
                let result = if round % 3 == 0 { Err("no".to_string()) } else { Ok(1) };
                let now = round as u128 * 7 * SEC;
                if let SendStep::Transmit { attempt, client } =
                    pool.connected_at(&mut seen, attempt, result, now, 0)
                {
                    pool.transmitted_at(&mut seen, attempt, client, Ok(1), now, 0);
                }
            }
            SendStep::Transmit { attempt, client } => {
                pool.transmitted(&mut seen, attempt, client, Err("no".to_string()));
            }
            SendStep::Finished { .. } => {}
        }
        for endpoint in &pool.endpoints {
            let resting = matches!(endpoint.state, EndpointState::Cooldown { .. });
            assert_eq!(endpoint.consecutive_failures > 0, resting);
            assert!(!resting || endpoint.client.is_none());
        }
    }
}

#[test]
fn statistics_are_carried_over() {
    let mut sum = stats(10, 20, u64::MAX);
    sum.count_between(&stats(1, u64::MAX, 5), &stats(4, 2, 6));
    assert_eq!(sum, stats(13, 23, 0));
    let mut counter = SenderCounter { rx: 1, tx: 2, tx_bytes: 3, dropped: 4 };
    let before = SenderCounter { rx: 5, tx: 5, tx_bytes: 5, dropped: 5 };
    let after = SenderCounter { rx: 6, tx: 7, tx_bytes: 8, dropped: 5 };
    counter.count_between(&before, &after);
    assert_eq!(counter, SenderCounter { rx: 2, tx: 4, tx_bytes: 6, dropped: 4 });
}

#[test]
fn every_send_is_counted_in_whole() {
    for outcomes in 0..16u32 {
        let fails = |exchange: u32| outcomes & (1 << exchange) != 0;
        let mut pool = pool(2);
        let mut seen = stats(0, 0, 0);
        let mut step = pool.send_with_retry_at(&mut seen, 0);
        let mut exchange = 0;
        let mut first_failed = false;
        let result = loop {
            step = match step {
                SendStep::Connect { attempt, .. } => {
                    let failed = fails(exchange);
                    first_failed |= failed && !attempt.retry;
                    let opened = if failed { Err("no".to_string()) } else { Ok(1) };
                    pool.connected_at(&mut seen, attempt, opened, 0, 0)
                }
                SendStep::Transmit { attempt, client } => {
                    let failed = fails(exchange);
                    first_failed |= failed && !attempt.retry;
                    let acked = if failed { Err("no".to_string()) } else { Ok(3) };
                    pool.transmitted_at(&mut seen, attempt, client, acked, 0, 0)
                }
                SendStep::Finished { result } => break result,
            };
            exchange += 1;
        };
        assert!(exchange <= 4);
        assert_eq!(
            seen,
            stats(
                first_failed as u64,
                (first_failed && result.is_ok()) as u64,
                result.is_err() as u64
            )
        );
    }
}
