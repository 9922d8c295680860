use std::collections::HashMap;
use std::time::Duration;

use lumberjack_sender::event::{
    enrich, event_len, labels_object, prepare, written_len, Encoded, SenderConfig,
};
use serde_json::Value;

fn json(text: &str) -> Value {
    serde_json::from_str(text).unwrap()
}

fn config() -> SenderConfig {
    SenderConfig {
        lumberjack_endpoints: Vec::new(),
        lumberjack_compression_level: 0,
        lumberjack_ack_timeout: Duration::from_secs(1),
        lumberjack_local_port_range: None,
        lumberjack_batch_size: 0,
        agent_id: 7,
        team_id: 4_000_000_000,
        organize_id: 1,
        topics: HashMap::from([(1, "flows".to_string())]),
        labels: HashMap::from([(
            2,
            vec![
                ("env".to_string(), "test".to_string()),
                ("zone".to_string(), "a".to_string()),
                ("env".to_string(), "prod".to_string()),
            ],
        )]),
    }
}

#[test]
fn origin_is_added_to_an_object() {
    let event = enrich(json(r#"{"b":[1,2.5,null]}"#), 9, &config());
    assert_eq!(
        event,
        json(r#"{"b":[1,2.5,null],"_agent_id":7,"_team_id":4000000000,"_org_id":1}"#)
    );
}

#[test]
fn topic_is_added_where_the_type_has_one() {
    let event = enrich(json("{}"), 1, &config());
    assert_eq!(
        event,
        json(r#"{"@topic":"flows","_agent_id":7,"_team_id":4000000000,"_org_id":1}"#)
    );
}

#[test]
fn labels_are_added_where_the_type_has_any() {
    let event = enrich(json(r#"{"labels":1,"@topic":2,"_org_id":3}"#), 2, &config());
    assert_eq!(
        event,
        json(concat_parts(&[
            r#"{"labels":{"env":"prod","zone":"a"},"@topic":2,"#,
            r#""_agent_id":7,"_team_id":4000000000,"_org_id":1}"#,
        ])
        .as_str())
    );
}

fn concat_parts(parts: &[&str]) -> String {
    parts.concat()
}

#[test]
fn what_is_no_object_stays_as_it_is() {
    for text in ["null", "true", "3", "\"x\"", "[{\"a\":1}]"] {
        assert_eq!(enrich(json(text), 1, &config()), json(text));
    }
}

#[test]
fn enriching_twice_is_enriching_once() {
    let once = enrich(json(r#"{"a":1}"#), 2, &config());
    assert_eq!(enrich(once.clone(), 2, &config()), once);
}

#[test]
fn labels_become_an_object() {
    assert_eq!(labels_object(&Vec::new()), json("{}"));
    assert_eq!(labels_object(&config().labels[&2]), json(r#"{"env":"prod","zone":"a"}"#));
}

#[test]
fn length_is_that_of_the_compact_text() {
    assert_eq!(event_len(&json(r#"{ "a" : 1 }"#)), 7);
    assert_eq!(event_len(&json("null")), 4);
    assert_eq!(event_len(&json("\"\u{e9}\"")), 4);
}

#[test]
fn length_of_a_text_that_could_not_be_written_is_zero() {
    assert_eq!(written_len(&Ok(vec![1, 2, 3])), 3);
    let error = serde_json::from_str::<Value>("{").unwrap_err();
    assert_eq!(written_len(&Err(error)), 0);
}

#[test]
fn messages_become_events_in_order() {
    let messages = vec![
        Encoded { message_type: 9, json: Some(json("1")) },
        Encoded { message_type: 9, json: None },
        Encoded { message_type: 1, json: Some(json("{}")) },
        Encoded { message_type: 9, json: Some(json("[]")) },
    ];
    let prepared = prepare(messages, &config());
    let object = r#"{"@topic":"flows","_agent_id":7,"_org_id":1,"_team_id":4000000000}"#;
    assert_eq!(prepared.events, vec![json("1"), json(object), json("[]")]);
    assert_eq!(prepared.raw_bytes, 1 + object.len() as u64 + 2);
}

#[test]
fn no_messages_become_no_events() {
    let prepared = prepare(Vec::new(), &config());
    assert!(prepared.events.is_empty());
    assert_eq!(prepared.raw_bytes, 0);
}
