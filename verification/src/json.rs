//! JSON documents, as `serde_json` parses and holds them.

use vstd::prelude::*;

verus! {

#[verifier::external_type_specification]
#[verifier::external_body]
pub struct ExValue(serde_json::Value);

#[verifier::external_type_specification]
#[verifier::external_body]
pub struct ExError(serde_json::Error);

/// A JSON document as contracts see it. A number is held as the decimal
/// numeral that it prints as; an object maps each of its keys to one value.
pub enum Json {
    Null,
    Bool(bool),
    Number(Seq<char>),
    Text(Seq<char>),
    Array(Seq<Json>),
    Object(Map<Seq<char>, Json>),
}

/// The document that a parsed value holds.
pub uninterp spec fn json_of(value: serde_json::Value) -> Json;

/// The document that a body of bytes parses to, if it is one JSON document.
pub uninterp spec fn json_parse(body: Seq<u8>) -> Option<Json>;

/// What a value is at its top: its kind, and for all kinds but objects
/// what it holds.
pub enum Node<'a> {
    Null,
    Bool(bool),
    Number(String),
    Text(&'a str),
    Array(&'a Vec<serde_json::Value>),
    Object,
}

/// Whether `node` shows the top of `json`.
pub open spec fn shows(node: Node, json: Json) -> bool {
    match node {
        Node::Null => json is Null,
        Node::Bool(b) => json == Json::Bool(b),
        Node::Number(numeral) => json == Json::Number(numeral@),
        Node::Text(text) => json == Json::Text(text@),
        Node::Array(items) => json == Json::Array(
            items@.map_values(|item: serde_json::Value| json_of(item)),
        ),
        Node::Object => json is Object,
    }
}

/// `serde_json::from_slice` at the type `Value`: the document that the
/// bytes hold, or an error where they are not exactly one JSON document.
#[verifier::external_body]
pub(crate) fn parse(body: &[u8]) -> (parsed: Result<serde_json::Value, serde_json::Error>)
    ensures
        match parsed {
            Ok(value) => json_parse(body@) == Some(json_of(value)),
            Err(_) => json_parse(body@) is None,
        },
{
    serde_json::from_slice::<serde_json::Value>(body)
}

/// Tells the variants of `Value` apart. A number comes as the numeral that
/// the `Display` of `Number` prints; the members of an object are reached
/// through `member`.
#[verifier::external_body]
pub(crate) fn inspect<'a>(value: &'a serde_json::Value) -> (node: Node<'a>)
    ensures
        shows(node, json_of(*value)),
{
    match value {
        serde_json::Value::Null => Node::Null,
        serde_json::Value::Bool(b) => Node::Bool(*b),
        serde_json::Value::Number(n) => Node::Number(n.to_string()),
        serde_json::Value::String(s) => Node::Text(s),
        serde_json::Value::Array(items) => Node::Array(items),
        serde_json::Value::Object(_) => Node::Object,
    }
}

/// `Value::get` with a string: the member of an object under `key`; `None`
/// where the value is no object or the object has no such key.
#[verifier::external_body]
pub(crate) fn member<'a>(value: &'a serde_json::Value, key: &str) -> (found: Option<
    &'a serde_json::Value,
>)
    ensures
        match found {
            Some(m) => member_of(json_of(*value), key@) == Some(json_of(*m)),
            None => member_of(json_of(*value), key@) is None,
        },
{
    value.get(key)
}

/// The member of an object under `key`; `None` where `json` is no object
/// or has no such key.
pub open spec fn member_of(json: Json, key: Seq<char>) -> Option<Json> {
    match json {
        Json::Object(members) => if members.contains_key(key) {
            Some(members[key])
        } else {
            None
        },
        _ => None,
    }
}

} // verus!
