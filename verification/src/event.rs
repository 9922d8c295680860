//! From messages to the events that are sent.
use crate::json::{
    from_integer, from_members, from_text, insert_member, into_members, json_of, json_text,
    members_of, new_members, to_bytes, Json,
};
use crate::stats::{count, counted};
use serde_json::Value;
use std::collections::HashMap;
use std::time::Duration;
use vstd::prelude::*;

verus! {

broadcast use vstd::std_specs::hash::group_hash_axioms;

/// The settings of a sender.
pub struct SenderConfig {
    pub lumberjack_endpoints: Vec<(String, u16)>,
    pub lumberjack_compression_level: u32,
    pub lumberjack_ack_timeout: Duration,
    pub lumberjack_local_port_range: Option<(u16, u16)>,
    pub lumberjack_batch_size: usize,
    pub agent_id: u16,
    pub team_id: u32,
    pub organize_id: u32,
    /// The topic of each type of message that has one.
    pub topics: HashMap<u8, String>,
    /// The labels, by name and value, of each type of message that has any.
    pub labels: HashMap<u8, Vec<(String, String)>>,
}

/// A message, put into JSON if it can be.
pub struct Encoded {
    pub message_type: u8,
    pub json: Option<Value>,
}

/// The labels as members of an object. A name that comes twice has the value
/// that comes last.
pub open spec fn label_members(labels: Seq<(String, String)>) -> Map<Seq<char>, Json>
    decreases labels.len(),
{
    if labels.len() == 0 {
        Map::empty()
    } else {
        label_members(labels.drop_last()).insert(
            labels.last().0@,
            Json::Text(labels.last().1@),
        )
    }
}

/// The members of an event with what is known of its origin.
pub open spec fn enriched_members(
    members: Map<Seq<char>, Json>,
    message_type: u8,
    config: SenderConfig,
) -> Map<Seq<char>, Json> {
    let with_topic = if config.topics@.contains_key(message_type) {
        members.insert("@topic"@, Json::Text(config.topics@[message_type]@))
    } else {
        members
    };
    let with_origin = with_topic.insert(
        "_agent_id"@,
        Json::Integer(config.agent_id as int),
    ).insert("_team_id"@, Json::Integer(config.team_id as int)).insert(
        "_org_id"@,
        Json::Integer(config.organize_id as int),
    );
    if config.labels@.contains_key(message_type) {
        with_origin.insert("labels"@, Json::Object(label_members(config.labels@[message_type]@)))
    } else {
        with_origin
    }
}

/// An event with what is known of its origin, if it is an object; else the event
/// as it is.
pub open spec fn enriched(json: Json, message_type: u8, config: SenderConfig) -> Json {
    match json {
        Json::Object(members) => Json::Object(enriched_members(members, message_type, config)),
        _ => json,
    }
}

/// The length of a text that may be missing.
pub open spec fn text_len(text: Option<Seq<u8>>) -> nat {
    match text {
        Some(bytes) => bytes.len(),
        None => 0,
    }
}

/// The length of the texts of these events together.
pub open spec fn total_len(events: Seq<Json>) -> nat
    decreases events.len(),
{
    if events.len() == 0 {
        0
    } else {
        total_len(events.drop_last()) + text_len(json_text(events.last()))
    }
}

/// The event that a message becomes.
pub open spec fn event_of(message: Encoded, config: SenderConfig) -> Json {
    enriched(json_of(message.json->0), message.message_type, config)
}

/// The events that messages become: one for each that is in JSON.
pub open spec fn events_of(messages: Seq<Encoded>, config: SenderConfig) -> Seq<Json> {
    messages.filter(|message: Encoded| message.json is Some).map_values(
        |message: Encoded| event_of(message, config),
    )
}

/// What events hold.
pub open spec fn contents(events: Seq<Value>) -> Seq<Json> {
    events.map_values(|event: Value| json_of(event))
}

/// Makes an object of labels.
pub fn labels_object(labels: &Vec<(String, String)>) -> (object: Value)
    ensures
        json_of(object) == Json::Object(label_members(labels@)),
{
    let mut members = new_members();
    let mut i: usize = 0;
    assert(labels@.take(0) =~= Seq::empty());
    while i < labels.len()
        invariant
            i <= labels@.len(),
            members_of(members) == label_members(labels@.take(i as int)),
        decreases labels@.len() - i,
    {
        insert_member(&mut members, labels[i].0.clone(), from_text(labels[i].1.clone()));
        i += 1;
        assert(labels@.take(i as int).drop_last() =~= labels@.take(i - 1));
    }
    assert(labels@.take(i as int) =~= labels@);
    from_members(members)
}

/// Adds to an event what is known of its origin.
pub fn enrich(event: Value, message_type: u8, config: &SenderConfig) -> (enriched_event: Value)
    ensures
        json_of(enriched_event) == enriched(json_of(event), message_type, *config),
{
    match into_members(event) {
        Err(other) => other,
        Ok(mut members) => {
            if let Some(topic) = config.topics.get(&message_type) {
                insert_member(&mut members, "@topic".to_owned(), from_text(topic.clone()));
            }
            insert_member(
                &mut members,
                "_agent_id".to_owned(),
                from_integer(config.agent_id as u32),
            );
            insert_member(&mut members, "_team_id".to_owned(), from_integer(config.team_id));
            insert_member(&mut members, "_org_id".to_owned(), from_integer(config.organize_id));
            if let Some(labels) = config.labels.get(&message_type) {
                insert_member(&mut members, "labels".to_owned(), labels_object(labels));
            }
            from_members(members)
        },
    }
}

/// The length of a text, or zero where it could not be written.
pub fn written_len(text: &Result<Vec<u8>, serde_json::Error>) -> (len: u64)
    ensures
        len == match *text {
            Ok(bytes) => bytes@.len(),
            Err(_) => 0,
        },
{
    match text {
        Ok(bytes) => bytes.len() as u64,
        Err(_) => 0,
    }
}

/// The length of an event's text.
pub fn event_len(event: &Value) -> (len: u64)
    ensures
        len == text_len(json_text(json_of(*event))),
{
    written_len(&to_bytes(event))
}

/// The events of a batch, and the length of their texts together. The length
/// wraps around at the end of its range.
pub struct Prepared {
    pub events: Vec<Value>,
    pub raw_bytes: u64,
}

/// Makes events of messages, in their order, and leaves out those that are not in
/// JSON.
pub fn prepare(messages: Vec<Encoded>, config: &SenderConfig) -> (prepared: Prepared)
    ensures
        contents(prepared.events@) == events_of(messages@, *config),
        prepared.raw_bytes == counted(0, total_len(events_of(messages@, *config))),
        prepared.events@.len() <= messages@.len(),
{
    let mut events: Vec<Value> = Vec::new();
    let mut raw_bytes: u64 = 0;
    let ghost all = messages@;
    for message in it: messages
        invariant
            it.seq() == all,
            contents(events@) == events_of(all.take(it.index()), *config),
            raw_bytes == counted(0, total_len(contents(events@))),
            events@.len() <= it.index(),
    {
        let ghost done = it.index();
        assert(all.take(done + 1).drop_last() =~= all.take(done));
        proof {
            reveal_with_fuel(Seq::filter, 2);
        }
        if let Some(json) = message.json {
            let event = enrich(json, message.message_type, config);
            let len: u64 = event_len(&event);
            count(&mut raw_bytes, len);
            let ghost before = events@;
            events.push(event);
            proof {
                assert(contents(events@) =~= contents(before).push(json_of(event)));
                assert(contents(events@).drop_last() =~= contents(before));
                crate::stats::lemma_counted_twice(0, total_len(contents(before)), len as nat);
            }
        }
    }
    assert(all.take(all.len() as int) =~= all);
    Prepared { events, raw_bytes }
}

} // verus!
