use std::collections::HashMap;
use std::sync::Arc;
use std::time::Duration;

use lumberjack_sender::event::{Encoded, SenderConfig};
use lumberjack_sender::retry::Attempt;
use lumberjack_sender::sender::{batch_size, Action, LumberjackSender};
use lumberjack_sender::stats::{PoolStats, SenderCounter};
use serde_json::Value;

type Sender = LumberjackSender<u32, u8>;

fn config(endpoints: u16, batch_size: usize) -> Arc<SenderConfig> {
    Arc::new(settings(endpoints, batch_size))
}

fn settings(endpoints: u16, batch_size: usize) -> SenderConfig {
    SenderConfig {
        lumberjack_endpoints: (0..endpoints).map(|i| (format!("10.0.0.{i}"), 5000 + i)).collect(),
        lumberjack_compression_level: 6,
        lumberjack_ack_timeout: Duration::from_secs(20),
        lumberjack_local_port_range: Some((1, 2)),
        lumberjack_batch_size: batch_size,
        agent_id: 1,
        team_id: 2,
        organize_id: 3,
        topics: HashMap::new(),
        labels: HashMap::new(),
    }
}

fn sender() -> Sender {
    LumberjackSender::new(SenderCounter::default(), PoolStats::default())
}

fn counts(rx: u64, tx: u64, tx_bytes: u64, dropped: u64) -> SenderCounter {
    SenderCounter { rx, tx, tx_bytes, dropped }
}

fn number(n: u64) -> Encoded {
    Encoded { message_type: 0, json: Some(Value::from(n)) }
}

fn unreadable() -> Encoded {
    Encoded { message_type: 0, json: None }
}

/// Takes a sender to where it asks for the admission of these messages.
fn admitting(sender: &mut Sender, config: &Arc<SenderConfig>, messages: Vec<Encoded>) -> u64 {
    assert!(matches!(sender.poll(true, config.clone()), Action::Receive { timeout_secs: 3 }));
    for i in 1..messages.len() {
        assert!(matches!(
            sender.received(Some(i as u32)),
            Action::Receive { timeout_secs: 0 }
        ));
    }
    assert!(matches!(sender.received(Some(0)), Action::Encode { .. }));
    match sender.encoded(messages) {
        Action::Admit { raw_bytes } => raw_bytes,
        _ => panic!("not admitting"),
    }
}

#[test]
fn batch_sizes() {
    assert_eq!(batch_size(0), 1);
    assert_eq!(batch_size(1), 1);
    assert_eq!(batch_size(100), 100);
    assert_eq!(batch_size(1024), 1024);
    assert_eq!(batch_size(1025), 1024);
    assert_eq!(batch_size(usize::MAX), 1024);
}

#[test]
fn loop_stops_when_told() {
    let mut sender = sender();
    assert!(matches!(sender.poll(false, config(1, 1)), Action::Stop));
    assert!(sender.pool_config().is_none());
}

#[test]
fn pool_is_made_once_there_are_endpoints() {
    let mut sender = sender();
    sender.ensure_pool(&config(0, 1));
    assert!(sender.pool_config().is_none());
    sender.ensure_pool(&config(2, 1));
    let made = sender.pool_config().unwrap();
    assert_eq!(made.compression_level, 6);
    assert_eq!(made.ack_timeout, Duration::from_secs(20));
    assert_eq!(made.local_port_range, Some((1, 2)));
    let mut other = settings(2, 1);
    other.lumberjack_compression_level = 1;
    sender.ensure_pool(&other);
    assert_eq!(sender.pool_config().unwrap().compression_level, 6);
}

#[test]
fn no_message_in_time_ends_the_batch() {
    let mut sender = sender();
    sender.poll(true, config(1, 10));
    assert!(matches!(sender.received(None), Action::Poll { failure: None }));
    assert_eq!(sender.counter(), counts(0, 0, 0, 0));
}

#[test]
fn batch_is_handed_on_when_the_queue_is_empty() {
    let mut sender = sender();
    sender.poll(true, config(1, 10));
    assert!(matches!(sender.received(Some(5)), Action::Receive { timeout_secs: 0 }));
    assert!(matches!(sender.received(Some(6)), Action::Receive { timeout_secs: 0 }));
    match sender.received(None) {
        Action::Encode { batch } => assert_eq!(batch, vec![5, 6]),
        _ => panic!("not encoding"),
    }
    assert_eq!(sender.counter(), counts(2, 0, 0, 0));
}

#[test]
fn batch_is_handed_on_when_it_is_full() {
    let mut sender = sender();
    sender.poll(true, config(1, 2));
    assert!(matches!(sender.received(Some(5)), Action::Receive { timeout_secs: 0 }));
    match sender.received(Some(6)) {
        Action::Encode { batch } => assert_eq!(batch, vec![5, 6]),
        _ => panic!("not encoding"),
    }
    let mut single = LumberjackSender::<u32, u8>::new(counts(10, 0, 0, 0), PoolStats::default());
    single.poll(true, config(1, 0));
    match single.received(Some(5)) {
        Action::Encode { batch } => assert_eq!(batch, vec![5]),
        _ => panic!("not encoding"),
    }
    assert_eq!(single.counter(), counts(11, 0, 0, 0));
}

#[test]
fn unreadable_messages_are_dropped() {
    let mut sender = sender();
    sender.poll(true, config(1, 2));
    sender.received(Some(1));
    sender.received(Some(2));
    let action = sender.encoded(vec![unreadable(), unreadable()]);
    assert!(matches!(action, Action::Poll { failure: None }));
    assert_eq!(sender.counter(), counts(2, 0, 0, 2));
}

#[test]
fn batch_that_is_not_admitted_is_dropped() {
    let mut sender = sender();
    let config = config(1, 3);
    let raw_bytes = admitting(&mut sender, &config, vec![number(1), unreadable(), number(23)]);
    assert_eq!(raw_bytes, 3);
    assert_eq!(sender.counter(), counts(3, 0, 0, 1));
    assert!(matches!(sender.admitted(false), Action::Poll { failure: None }));
    assert_eq!(sender.counter(), counts(3, 0, 0, 3));
}

#[test]
fn batch_without_a_pool_is_dropped() {
    let mut sender = sender();
    admitting(&mut sender, &config(0, 1), vec![number(1)]);
    assert!(matches!(sender.admitted(true), Action::Poll { failure: None }));
    assert_eq!(sender.counter(), counts(1, 0, 0, 1));
    assert_eq!(sender.pool_stats(), PoolStats::default());
}

#[test]
fn batch_is_sent() {
    let mut sender = sender();
    let config = config(1, 2);
    admitting(&mut sender, &config, vec![number(1), number(23)]);
    match sender.admitted(true) {
        Action::Connect { attempt, addr } => {
            assert_eq!(attempt, Attempt { idx: 0, retry: false });
            assert_eq!(addr, "10.0.0.0:5000");
        }
        _ => panic!("not connecting"),
    }
    assert!(sender.events().is_none());
    assert!(matches!(sender.connected(Ok(4)), Action::Transmit { client: 4, .. }));
    assert_eq!(sender.events().unwrap(), &vec![Value::from(1), Value::from(23)]);
    assert!(matches!(sender.transmitted(4, Ok(2)), Action::Poll { failure: None }));
    assert_eq!(sender.counter(), counts(2, 2, 3, 0));
    assert!(sender.events().is_none());
    admitting(&mut sender, &config, vec![number(5), number(6)]);
    assert!(matches!(sender.admitted(true), Action::Transmit { client: 4, .. }));
}

#[test]
fn batch_that_fails_goes_elsewhere() {
    let mut sender = sender();
    admitting(&mut sender, &config(2, 1), vec![number(1)]);
    assert!(matches!(sender.admitted_at(true, 0), Action::Connect { .. }));
    match sender.connected_at(Err("refused".to_string()), 0, 0) {
        Action::Connect { attempt, addr } => {
            assert_eq!(attempt, Attempt { idx: 1, retry: true });
            assert_eq!(addr, "10.0.0.1:5001");
        }
        _ => panic!("not connecting"),
    }
    assert_eq!(sender.counter(), counts(1, 0, 0, 0));
    assert!(matches!(sender.connected_at(Ok(1), 0, 0), Action::Transmit { client: 1, .. }));
    assert!(matches!(sender.transmitted_at(1, Ok(1), 0, 0), Action::Poll { failure: None }));
    assert_eq!(sender.counter(), counts(1, 1, 1, 0));
    assert_eq!(
        sender.pool_stats(),
        PoolStats { write_failures: 1, retry_successes: 1, all_endpoints_failed: 0 }
    );
}

#[test]
fn batch_that_no_endpoint_takes_is_dropped() {
    let mut sender = sender();
    admitting(&mut sender, &config(1, 1), vec![number(1)]);
    sender.admitted(true);
    match sender.connected(Err("refused".to_string())) {
        Action::Poll { failure } => {
            assert_eq!(failure, Some("all endpoints unavailable after retry".to_string()))
        }
        _ => panic!("not over"),
    }
    assert_eq!(sender.counter(), counts(1, 0, 0, 1));
    admitting(&mut sender, &config(1, 1), vec![number(1)]);
    match sender.admitted(true) {
        Action::Poll { failure } => {
            assert_eq!(failure, Some("all endpoints unavailable".to_string()))
        }
        _ => panic!("not over"),
    }
    assert_eq!(sender.counter(), counts(2, 0, 0, 2));
    assert_eq!(
        sender.pool_stats(),
        PoolStats { write_failures: 1, retry_successes: 0, all_endpoints_failed: 2 }
    );
}

#[test]
fn counters_wrap_around() {
    let mut sender: Sender =
        LumberjackSender::new(counts(u64::MAX, 0, 0, u64::MAX), PoolStats::default());
    admitting(&mut sender, &config(1, 1), vec![number(1)]);
    sender.admitted(false);
    assert_eq!(sender.counter(), counts(0, 0, 0, 0));
}

#[test]
fn batch_goes_by_the_settings_it_was_begun_with() {
    let mut sender = sender();
    let mut first = settings(1, 2);
    first.topics.insert(4, "first".to_string());
    let mut second = settings(1, 2);
    second.topics.insert(4, "second".to_string());
    for (settings, topic) in [(first, "first"), (second, "second")] {
        sender.poll(true, Arc::new(settings));
        sender.received(Some(1));
        sender.received(None);
        let object = Value::Object(serde_json::Map::new());
        sender.encoded(vec![Encoded { message_type: 4, json: Some(object) }]);
        match sender.admitted(true) {
            Action::Connect { .. } => {
                sender.connected(Ok(1));
            }
            Action::Transmit { .. } => {}
            _ => panic!("not sending"),
        }
        assert_eq!(sender.events().unwrap()[0]["@topic"], Value::from(topic));
        sender.transmitted(1, Ok(1));
    }
}

#[test]
fn endpoints_have_addresses() {
    let mut sender = sender();
    assert_eq!(sender.endpoint_addr(0), None);
    sender.ensure_pool(&config(2, 1));
    assert_eq!(sender.endpoint_addr(1), Some("10.0.0.1:5001".to_string()));
    assert_eq!(sender.endpoint_addr(2), None);
}

#[test]
fn received_is_sent_and_dropped() {
    let mut sender = sender();
    let config = config(2, 2);
    for round in 0..6 {
        let messages = if round % 2 == 0 {
            vec![number(round), unreadable()]
        } else {
            vec![number(round), number(round)]
        };
        let events = if round % 2 == 0 { 1 } else { 2 };
        admitting(&mut sender, &config, messages);
        if round == 3 {
            sender.admitted(false);
            continue;
        }
        match sender.admitted(true) {
            Action::Connect { .. } => {
                sender.connected(Ok(1));
            }
            Action::Transmit { .. } => {}
            _ => panic!("not sending"),
        }
        sender.transmitted(1, Ok(events));
    }
    let counter = sender.counter();
    assert_eq!((counter.rx, counter.tx, counter.dropped), (12, 7, 5));
    assert_eq!(counter.rx, counter.tx + counter.dropped);
}
