//! What holds of every event.
use crate::event::{
    contents, enriched, enriched_members, events_of, label_members, text_len, total_len, Encoded,
    SenderConfig,
};
use crate::json::{json_of, json_text, Json};
use serde_json::Value;
use vstd::prelude::*;

verus! {

/// The members that say where an event comes from.
pub open spec fn is_origin(key: Seq<char>) -> bool {
    ||| key == "@topic"@
    ||| key == "_agent_id"@
    ||| key == "_team_id"@
    ||| key == "_org_id"@
    ||| key == "labels"@
}

/// No two of them have the same name.
proof fn lemma_names_differ()
    ensures
        "@topic"@ != "_agent_id"@,
        "@topic"@ != "_team_id"@,
        "@topic"@ != "_org_id"@,
        "@topic"@ != "labels"@,
        "_agent_id"@ != "_team_id"@,
        "_agent_id"@ != "_org_id"@,
        "_agent_id"@ != "labels"@,
        "_team_id"@ != "_org_id"@,
        "_team_id"@ != "labels"@,
        "_org_id"@ != "labels"@,
{
    reveal_strlit("@topic");
    reveal_strlit("_agent_id");
    reveal_strlit("_team_id");
    reveal_strlit("_org_id");
    reveal_strlit("labels");
    assert("_agent_id"@.len() == 9 && "_team_id"@.len() == 8 && "_org_id"@.len() == 7);
    assert("@topic"@[0] != "labels"@[0]);
}

/// Every event that is an object says which agent, team and organisation it comes
/// from, and under which topic and with which labels it goes, if its type has
/// any.
pub proof fn law_origin_is_set(
    members: Map<Seq<char>, Json>,
    message_type: u8,
    config: SenderConfig,
)
    ensures
        ({
            let after = enriched_members(members, message_type, config);
            &&& after.contains_key("_agent_id"@)
            &&& after["_agent_id"@] == Json::Integer(config.agent_id as int)
            &&& after.contains_key("_team_id"@)
            &&& after["_team_id"@] == Json::Integer(config.team_id as int)
            &&& after.contains_key("_org_id"@)
            &&& after["_org_id"@] == Json::Integer(config.organize_id as int)
            &&& config.topics@.contains_key(message_type) ==> after.contains_key("@topic"@)
                && after["@topic"@] == Json::Text(config.topics@[message_type]@)
            &&& config.labels@.contains_key(message_type) ==> after.contains_key("labels"@)
                && after["labels"@] == Json::Object(
                label_members(config.labels@[message_type]@),
            )
        }),
{
    lemma_names_differ();
}

/// What an event said otherwise it still says, and nothing else is added: a topic
/// or labels of its own are replaced only where its type has them.
pub proof fn law_rest_is_kept(
    members: Map<Seq<char>, Json>,
    message_type: u8,
    config: SenderConfig,
    key: Seq<char>,
)
    requires
        !is_origin(key) || (key == "@topic"@ && !config.topics@.contains_key(message_type)) || (key
            == "labels"@ && !config.labels@.contains_key(message_type)),
    ensures
        enriched_members(members, message_type, config).contains_key(key) == members.contains_key(
            key,
        ),
        members.contains_key(key) ==> enriched_members(members, message_type, config)[key]
            == members[key],
{
    lemma_names_differ();
}

/// Saying it twice says no more.
pub proof fn law_enrich_once(json: Json, message_type: u8, config: SenderConfig)
    ensures
        enriched(enriched(json, message_type, config), message_type, config) == enriched(
            json,
            message_type,
            config,
        ),
{
    lemma_names_differ();
    if let Json::Object(members) = json {
        let once = enriched_members(members, message_type, config);
        assert(enriched_members(once, message_type, config) =~= once);
    }
}

/// An event that is no object is sent as it is, and one that is stays one.
pub proof fn law_enrich_keeps_kind(json: Json, message_type: u8, config: SenderConfig)
    ensures
        json is Object <==> enriched(json, message_type, config) is Object,
        !(json is Object) ==> enriched(json, message_type, config) == json,
{
}

/// Batches that follow each other become events that follow each other, and their
/// lengths add up.
pub proof fn law_events_in_order(
    first: Seq<Encoded>,
    second: Seq<Encoded>,
    config: SenderConfig,
)
    ensures
        events_of(first + second, config) == events_of(first, config) + events_of(second, config),
        total_len(events_of(first + second, config)) == total_len(events_of(first, config))
            + total_len(events_of(second, config)),
{
    let in_json = |message: Encoded| message.json is Some;
    Seq::filter_distributes_over_add(first, second, in_json);
    assert(events_of(first + second, config) =~= events_of(first, config) + events_of(
        second,
        config,
    ));
    lemma_total_len_adds(events_of(first, config), events_of(second, config));
}

proof fn lemma_total_len_adds(first: Seq<Json>, second: Seq<Json>)
    ensures
        total_len(first + second) == total_len(first) + total_len(second),
    decreases second.len(),
{
    if second.len() == 0 {
        assert(first + second =~= first);
    } else {
        assert((first + second).drop_last() =~= first + second.drop_last());
        lemma_total_len_adds(first, second.drop_last());
    }
}

/// Whether one of the labels has this name.
pub open spec fn is_label(labels: Seq<(String, String)>, key: Seq<char>) -> bool {
    exists|i: int| 0 <= i < labels.len() && (#[trigger] labels[i]).0@ == key
}

/// Whether the label number `i` is the last one of its name.
pub open spec fn is_last(labels: Seq<(String, String)>, i: int) -> bool {
    forall|later: int|
        i < later < labels.len() ==> (#[trigger] labels[later]).0@ != labels[i].0@
}

/// Whether an object says these labels and nothing else: its members are their
/// names, and a name that comes more than once has the value that comes last.
pub open spec fn says_labels(object: Map<Seq<char>, Json>, labels: Seq<(String, String)>) -> bool {
    &&& forall|key: Seq<char>| #[trigger] object.contains_key(key) <==> is_label(labels, key)
    &&& forall|i: int|
        0 <= i < labels.len() && #[trigger] is_last(labels, i) ==> object[labels[i].0@]
            == Json::Text(labels[i].1@)
}

/// The object of labels says them and nothing else.
pub proof fn law_labels(labels: Seq<(String, String)>)
    ensures
        says_labels(label_members(labels), labels),
    decreases labels.len(),
{
    let object = label_members(labels);
    if labels.len() > 0 {
        let earlier = labels.drop_last();
        let before = label_members(earlier);
        law_labels(earlier);
        assert forall|key: Seq<char>| #[trigger] object.contains_key(key) <==> is_label(
            labels,
            key,
        ) by {
            lemma_one_label_more(labels, key);
            assert(before.contains_key(key) <==> is_label(earlier, key));
        }
        assert forall|i: int| 0 <= i < labels.len() && #[trigger] is_last(
            labels,
            i,
        ) implies object[labels[i].0@] == Json::Text(labels[i].1@) by {
            if i < earlier.len() {
                assert(labels[labels.len() - 1].0@ != labels[i].0@);
                assert(is_last(earlier, i)) by {
                    assert forall|later: int| i < later < earlier.len() implies (
                    #[trigger] earlier[later]).0@ != earlier[i].0@ by {
                        assert(labels[later].0@ != labels[i].0@);
                    }
                }
                assert(before[earlier[i].0@] == Json::Text(earlier[i].1@));
            }
        }
    }
}

/// A name is among labels if it is that of the last one or is among the others.
proof fn lemma_one_label_more(labels: Seq<(String, String)>, key: Seq<char>)
    requires
        labels.len() > 0,
    ensures
        is_label(labels, key) <==> labels.last().0@ == key || is_label(labels.drop_last(), key),
{
    let earlier = labels.drop_last();
    if is_label(labels, key) {
        let i = choose|i: int| 0 <= i < labels.len() && (#[trigger] labels[i]).0@ == key;
        if i < earlier.len() {
            assert(earlier[i].0@ == key);
        }
    }
    if labels.last().0@ == key {
        assert(labels[labels.len() - 1].0@ == key);
    }
    if is_label(earlier, key) {
        let i = choose|i: int| 0 <= i < earlier.len() && (#[trigger] earlier[i]).0@ == key;
        assert(labels[i].0@ == key);
    }
}

/// The event that an object becomes says which agent, team and organisation it
/// comes from; under which topic it goes, if its type has one; with which labels it
/// goes, if its type has any, whether or not it has a topic; and otherwise what the
/// object said, no more and no less.
pub proof fn law_enriched_event(
    members: Map<Seq<char>, Json>,
    message_type: u8,
    config: SenderConfig,
)
    ensures
        enriched(Json::Object(members), message_type, config) matches Json::Object(after) && {
            let has_topic = config.topics@.contains_key(message_type);
            let has_labels = config.labels@.contains_key(message_type);
            &&& after.contains_key("_agent_id"@)
            &&& after["_agent_id"@] == Json::Integer(config.agent_id as int)
            &&& after.contains_key("_team_id"@)
            &&& after["_team_id"@] == Json::Integer(config.team_id as int)
            &&& after.contains_key("_org_id"@)
            &&& after["_org_id"@] == Json::Integer(config.organize_id as int)
            &&& has_topic ==> after.contains_key("@topic"@) && after["@topic"@] == Json::Text(
                config.topics@[message_type]@,
            )
            &&& has_labels ==> after.contains_key("labels"@) && (
            after["labels"@] matches Json::Object(object) && says_labels(
                object,
                config.labels@[message_type]@,
            ))
            &&& forall|key: Seq<char>|
                {
                    &&& key != "_agent_id"@
                    &&& key != "_team_id"@
                    &&& key != "_org_id"@
                    &&& has_topic ==> key != "@topic"@
                    &&& has_labels ==> key != "labels"@
                } ==> #[trigger] after.contains_key(key) == members.contains_key(key) && (
                members.contains_key(key) ==> after[key] == members[key])
        },
{
    lemma_names_differ();
    if config.labels@.contains_key(message_type) {
        law_labels(config.labels@[message_type]@);
    }
}

/// Each message that is in JSON becomes one event, by its own type, behind those of
/// the messages before it, and its text adds to their length; any other adds
/// nothing.
pub proof fn law_one_event_each(messages: Seq<Encoded>, last: Encoded, config: SenderConfig)
    ensures
        events_of(Seq::empty(), config).len() == 0,
        total_len(Seq::empty()) == 0,
        last.json is None ==> events_of(messages.push(last), config) == events_of(messages, config),
        last.json matches Some(value) ==> {
            let event = enriched(json_of(value), last.message_type, config);
            &&& events_of(messages.push(last), config) == events_of(messages, config).push(event)
            &&& total_len(events_of(messages.push(last), config)) == total_len(
                events_of(messages, config),
            ) + match json_text(event) {
                Some(text) => text.len(),
                None => 0,
            }
        },
{
    reveal(Seq::filter);
    assert(messages.push(last).drop_last() =~= messages);
    assert(events_of(Seq::empty(), config) =~= Seq::empty());
    if let Some(value) = last.json {
        let event = enriched(json_of(value), last.message_type, config);
        assert(events_of(messages.push(last), config) =~= events_of(messages, config).push(event));
        assert(events_of(messages, config).push(event).drop_last() =~= events_of(
            messages,
            config,
        ));
    } else {
        assert(events_of(messages.push(last), config) =~= events_of(messages, config));
    }
}

/// What events hold is what each of them holds, in their order.
pub proof fn law_contents(events: Seq<Value>)
    ensures
        contents(events).len() == events.len(),
        forall|i: int|
            0 <= i < events.len() ==> #[trigger] contents(events)[i] == json_of(events[i]),
{
}

/// A text that is missing has no length.
pub proof fn law_text_len(bytes: Seq<u8>)
    ensures
        text_len(Some(bytes)) == bytes.len(),
        text_len(None) == 0,
{
}

} // verus!
