//! JSON documents, as `serde_json` holds and writes them.
use serde_json::Value;
use vstd::prelude::*;

verus! {

/// What a JSON document says.
#[verifier::ext_equal]
pub enum Json {
    Null,
    Bool(bool),
    /// A number without fraction or exponent.
    Integer(int),
    /// Any other number, by its text.
    Fraction(Seq<char>),
    Text(Seq<char>),
    List(Seq<Json>),
    Object(Map<Seq<char>, Json>),
}

/// `serde_json::Value`, carried as an opaque value.
#[verifier::external_type_specification]
#[verifier::external_body]
pub struct ExValue(serde_json::Value);

/// `serde_json::Map`, the collection of an object's members.
#[verifier::external_type_specification]
#[verifier::external_body]
#[verifier::reject_recursive_types(K)]
#[verifier::reject_recursive_types(V)]
pub struct ExMap<K, V>(serde_json::Map<K, V>);

/// `serde_json::Error`, carried as an opaque value.
#[verifier::external_type_specification]
#[verifier::external_body]
pub struct ExError(serde_json::Error);

/// What a `serde_json::Value` holds. Its variants are those of `Json`; a
/// `serde_json::Number` is an `Integer` where it holds a `u64` or an `i64`, and
/// else a `Fraction` of the text that it is written as.
pub uninterp spec fn json_of(value: serde_json::Value) -> Json;

/// The members that a `serde_json::Map` holds, by key.
pub uninterp spec fn members_of(object: serde_json::Map<String, serde_json::Value>) -> Map<
    Seq<char>,
    Json,
>;

/// The text that `serde_json::to_vec` writes for a document, or `None` where it
/// fails. It writes the members of an object in the order of their keys, which
/// is the order that a `serde_json::Map` keeps them in.
pub uninterp spec fn json_text(json: Json) -> Option<Seq<u8>>;

/// `serde_json::Map::new`: a map without members.
#[verifier::external_body]
pub(crate) fn new_members() -> (object: serde_json::Map<String, Value>)
    ensures
        (members_of(object) == Map::<Seq<char>, Json>::empty()),
{
    serde_json::Map::new()
}

/// `serde_json::Map::insert`: the member under `key` is `value` afterwards, the
/// others are as before, and the member that was under `key` comes back.
#[verifier::external_body]
pub(crate) fn insert_member(
    object: &mut serde_json::Map<String, Value>,
    key: String,
    value: Value,
) -> (previous: Option<Value>)
    ensures
        members_of(*final(object)) == members_of(*old(object)).insert(key@, json_of(value)),
        match previous {
            Some(v) => members_of(*old(object)).contains_key(key@) && json_of(v) == members_of(
                *old(object),
            )[key@],
            None => !members_of(*old(object)).contains_key(key@),
        },
{
    object.insert(key, value)
}

/// Tells `serde_json::Value::Object` from the other variants: the members of an
/// object, or else the value as it was.
#[verifier::external_body]
pub(crate) fn into_members(value: Value) -> (parts: Result<serde_json::Map<String, Value>, Value>)
    ensures
        match parts {
            Ok(object) => json_of(value) == Json::Object(members_of(object)),
            Err(other) => other == value && !(json_of(value) is Object),
        },
{
    match value {
        Value::Object(object) => Ok(object),
        other => Err(other),
    }
}

/// `serde_json::Value::from`, for a `serde_json::Map`: the object with those
/// members.
#[verifier::external_body]
pub(crate) fn from_members(object: serde_json::Map<String, Value>) -> (value: Value)
    ensures
        json_of(value) == Json::Object(members_of(object)),
{
    Value::from(object)
}

/// `serde_json::Value::from`, for a `String`: the text.
#[verifier::external_body]
pub(crate) fn from_text(text: String) -> (value: Value)
    ensures
        json_of(value) == Json::Text(text@),
{
    Value::from(text)
}

/// `serde_json::Value::from`, for a `u32`: the integer.
#[verifier::external_body]
pub(crate) fn from_integer(number: u32) -> (value: Value)
    ensures
        json_of(value) == Json::Integer(number as int),
{
    Value::from(number)
}

/// `serde_json::to_vec`, for a `serde_json::Value`: the bytes of the compact
/// text, which depend on nothing but what the value holds.
#[verifier::external_body]
pub(crate) fn to_bytes(value: &Value) -> (bytes: Result<Vec<u8>, serde_json::Error>)
    ensures
        match bytes {
            Ok(text) => json_text(json_of(*value)) == Some(text@),
            Err(_) => json_text(json_of(*value)) is None,
        },
{
    serde_json::to_vec(value)
}

} // verus!
