//! JSON values of the devtools protocol, as the client reads them: the value a packet's payload
//! carries (parsed by serde_json), member lookup, the typed views (`as_str`, `as_u64`, `as_bool`,
//! `as_array`) and the compact text of a value (written by serde_json).

use vstd::prelude::*;

use crate::text::same_text;

verus! {

#[verifier::external_type_specification]
#[verifier::external_body]
pub struct ExJsonValue(serde_json::Value);

/// A JSON number: its value when it is an integer that fits in `u64`, and its JSON text.
#[derive(Debug)]
pub struct JsonNumber {
    pub as_u64: Option<u64>,
    pub text: String,
}

/// A JSON value. Object members keep their order.
#[derive(Debug)]
pub enum Json {
    Null,
    Bool(bool),
    Number(JsonNumber),
    Str(String),
    Array(Vec<Json>),
    Object(Vec<(String, Json)>),
}

/// The value of the first member named `key`.
pub open spec fn member_value(members: Seq<(String, Json)>, key: Seq<char>) -> Option<Json>
    decreases members.len(),
{
    if members.len() == 0 {
        None
    } else if members[0].0@ == key {
        Some(members[0].1)
    } else {
        member_value(members.drop_first(), key)
    }
}

/// `value[key]` for an object; `None` for a missing member or a value that is no object.
pub open spec fn json_get(v: Json, key: Seq<char>) -> Option<Json> {
    match v {
        Json::Object(members) => member_value(members@, key),
        _ => None,
    }
}

/// The text of a string value.
pub open spec fn json_as_str(v: Option<Json>) -> Option<Seq<char>> {
    match v {
        Some(Json::Str(s)) => Some(s@),
        _ => None,
    }
}

/// The number of a non-negative integer value that fits in `u64`.
pub open spec fn json_as_u64(v: Option<Json>) -> Option<u64> {
    match v {
        Some(Json::Number(n)) => n.as_u64,
        _ => None,
    }
}

/// The boolean of a boolean value.
pub open spec fn json_as_bool(v: Option<Json>) -> Option<bool> {
    match v {
        Some(Json::Bool(b)) => Some(b),
        _ => None,
    }
}

/// The elements of an array value.
pub open spec fn json_as_array(v: Option<Json>) -> Option<Seq<Json>> {
    match v {
        Some(Json::Array(items)) => Some(items@),
        _ => None,
    }
}

/// `value[key]` (see [`json_get`]).
pub fn get<'a>(v: &'a Json, key: &str) -> (r: Option<&'a Json>)
    ensures
        match r {
            Some(x) => json_get(*v, key@) == Some(*x),
            None => json_get(*v, key@) is None,
        },
{
    match v {
        Json::Object(members) => {
            let mut i: usize = 0;
            assert(members@.skip(0) =~= members@);
            while i < members.len()
                invariant
                    *v == Json::Object(*members),
                    i <= members@.len(),
                    member_value(members@, key@) == member_value(members@.skip(i as int), key@),
                decreases members@.len() - i,
            {
                assert(members@.skip(i as int)[0] == members@[i as int]);
                if same_text(members[i].0.as_str(), key) {
                    assert(member_value(members@.skip(i as int), key@) == Some(members@[i as int].1));
                    return Some(&members[i].1);
                }
                assert(members@.skip(i as int).drop_first() =~= members@.skip(i + 1));
                i = i + 1;
            }
            None
        },
        _ => None,
    }
}

/// The text of a string value (see [`json_as_str`]).
pub fn as_str<'a>(v: Option<&'a Json>) -> (r: Option<&'a String>)
    ensures
        match r {
            Some(s) => json_as_str(opt(v)) == Some(s@),
            None => json_as_str(opt(v)) is None,
        },
{
    match v {
        Some(Json::Str(s)) => Some(s),
        _ => None,
    }
}

/// The number of an integer value that fits in `u64` (see [`json_as_u64`]).
pub fn as_u64(v: Option<&Json>) -> (r: Option<u64>)
    ensures
        r == json_as_u64(opt(v)),
{
    match v {
        Some(Json::Number(n)) => n.as_u64,
        _ => None,
    }
}

/// The boolean of a boolean value (see [`json_as_bool`]).
pub fn as_bool(v: Option<&Json>) -> (r: Option<bool>)
    ensures
        r == json_as_bool(opt(v)),
{
    match v {
        Some(Json::Bool(b)) => Some(*b),
        _ => None,
    }
}

/// The elements of an array value (see [`json_as_array`]).
pub fn as_array<'a>(v: Option<&'a Json>) -> (r: Option<&'a Vec<Json>>)
    ensures
        match r {
            Some(items) => json_as_array(opt(v)) == Some(items@),
            None => json_as_array(opt(v)) is None,
        },
{
    match v {
        Some(Json::Array(items)) => Some(items),
        _ => None,
    }
}

/// An optional reference as an optional value.
pub open spec fn opt(v: Option<&Json>) -> Option<Json> {
    match v {
        Some(x) => Some(*x),
        None => None,
    }
}

/// What `serde_json::from_slice` parses from `bytes` (a `serde_json::Value`), in this model:
/// `None` when the bytes are not exactly one JSON value. Object members come in the order of
/// serde_json's map (sorted by key); a number keeps its text and, when it is an integer that fits
/// in `u64`, that integer.
pub uninterp spec fn parsed_json(bytes: Seq<u8>) -> Option<Json>;

/// The compact text that serde_json writes for a value (`Display` of `serde_json::Value`): no
/// spaces, strings quoted and escaped, numbers as their text.
pub uninterp spec fn compact_text(v: Json) -> Seq<char>;

/// Calls `serde_json::from_slice` into a `serde_json::Value` and converts the result; the result
/// is the name [`parsed_json`] of the bytes.
#[verifier::external_body]
fn parse_json(bytes: &[u8]) -> (r: Option<Json>)
    ensures
        r == parsed_json(bytes@),
{
    match serde_json::from_slice::<serde_json::Value>(bytes) {
        Ok(v) => Some(json_of_value(v)),
        Err(_) => None,
    }
}

/// Converts a `serde_json::Value` into this model, variant by variant (a number keeps
/// `Number::as_u64` and its text).
#[verifier::external_body]
fn json_of_value(value: serde_json::Value) -> Json {
    match value {
        serde_json::Value::Null => Json::Null,
        serde_json::Value::Bool(b) => Json::Bool(b),
        serde_json::Value::Number(n) => Json::Number(JsonNumber { as_u64: n.as_u64(), text: n.to_string() }),
        serde_json::Value::String(s) => Json::Str(s),
        serde_json::Value::Array(items) => Json::Array(items.into_iter().map(json_of_value).collect()),
        serde_json::Value::Object(members) => Json::Object(members.into_iter().map(|(k, v)| (k, json_of_value(v))).collect()),
    }
}

/// Calls `Display` of `serde_json::Value` (`to_string`) on the value converted to serde_json's
/// model; the result is the name [`compact_text`] of the value.
#[verifier::external_body]
fn compact_json_text(value: &Json) -> (text: String)
    ensures
        text@ == compact_text(*value),
{
    value_of_json(value).to_string()
}

/// Converts a value of this model into a `serde_json::Value`, variant by variant (a number from
/// its text; a text that is no JSON number becomes `null`).
#[verifier::external_body]
fn value_of_json(value: &Json) -> serde_json::Value {
    match value {
        Json::Null => serde_json::Value::Null,
        Json::Bool(b) => serde_json::Value::Bool(*b),
        Json::Number(n) => match n.text.parse::<serde_json::Number>() {
            Ok(num) => serde_json::Value::Number(num),
            Err(_) => serde_json::Value::Null,
        },
        Json::Str(s) => serde_json::Value::String(s.clone()),
        Json::Array(items) => serde_json::Value::Array(items.iter().map(value_of_json).collect()),
        Json::Object(members) => serde_json::Value::Object(members.iter().map(|(k, v)| (k.clone(), value_of_json(v))).collect()),
    }
}

/// The JSON value carried by a packet's payload (see [`parsed_json`]); `None` when the payload is
/// not one JSON value.
pub fn parse_payload(payload: &[u8]) -> (value: Option<Json>)
    ensures
        value == parsed_json(payload@),
{
    parse_json(payload)
}

/// The compact JSON text of a value (see [`compact_text`]).
pub fn to_json_text(value: &Json) -> (text: String)
    ensures
        text@ == compact_text(*value),
{
    compact_json_text(value)
}

} // verus!
