//! The JSON values that travel through the bridge.
//!
//! A payload is carried as a `serde_json::Value` and never interpreted here.
//! What the bridge needs to know of a value is named by the spec functions
//! below; the functions that make the calls into `serde_json` state their
//! results over those names and are believed, not proved.

use crate::text::one_line;
use vstd::prelude::*;

verus! {

/// `serde_json::Value`, opaque to the verifier.
#[verifier::external_type_specification]
#[verifier::external_body]
pub struct ExValue(serde_json::Value);

/// `serde_json::Error`, opaque to the verifier.
#[verifier::external_type_specification]
#[verifier::external_body]
pub struct ExJsonError(serde_json::Error);

/// The value that a text parses to as JSON, if it is one JSON document.
pub uninterp spec fn json_parse(text: Seq<char>) -> Option<serde_json::Value>;

/// The member of a JSON object under a key; `None` for a missing key and for
/// a value that is no object.
pub uninterp spec fn json_member(value: serde_json::Value, key: Seq<char>) -> Option<
    serde_json::Value,
>;

/// The number that a JSON value holds, if it is a non-negative integer that
/// fits 64 bits.
pub uninterp spec fn json_u64(value: serde_json::Value) -> Option<u64>;

/// The text that a JSON value holds, if it is a string.
pub uninterp spec fn json_str(value: serde_json::Value) -> Option<Seq<char>>;

/// The JSON string value that holds a text.
pub uninterp spec fn json_string(text: Seq<char>) -> serde_json::Value;

/// The compact JSON text of a value, if it can be written.
pub uninterp spec fn json_text(value: serde_json::Value) -> Option<Seq<char>>;

/// Calls `serde_json::from_str` for a `Value`: the outcome is `json_parse` of
/// the text, an error standing for `None`.
#[verifier::external_body]
pub(crate) fn parse_value(text: &str) -> (r: Result<serde_json::Value, serde_json::Error>)
    ensures
        r is Ok <==> json_parse(text@) is Some,
        r matches Ok(v) ==> json_parse(text@) == Some(v),
{
    serde_json::from_str::<serde_json::Value>(text)
}

/// Calls `Value::get` with a string key: the member of an object under that
/// key, as `json_member` names it.
#[verifier::external_body]
pub(crate) fn member<'a>(value: &'a serde_json::Value, key: &str) -> (r: Option<
    &'a serde_json::Value,
>)
    ensures
        r is Some <==> json_member(*value, key@) is Some,
        r matches Some(m) ==> json_member(*value, key@) == Some(*m),
{
    value.get(key)
}

/// Calls `Value::as_u64`: the number held, as `json_u64` names it.
#[verifier::external_body]
pub(crate) fn as_u64(value: &serde_json::Value) -> (r: Option<u64>)
    ensures
        r == json_u64(*value),
{
    value.as_u64()
}

/// Calls `Value::as_str`: the text held, as `json_str` names it.
#[verifier::external_body]
pub(crate) fn as_str<'a>(value: &'a serde_json::Value) -> (r: Option<&'a str>)
    ensures
        r is Some <==> json_str(*value) is Some,
        r matches Some(s) ==> json_str(*value) == Some(s@),
{
    value.as_str()
}

/// Calls `Value::from` on a string slice: the JSON string of that text.
#[verifier::external_body]
pub(crate) fn string_value(text: &str) -> (r: serde_json::Value)
    ensures
        r == json_string(text@),
{
    serde_json::Value::from(text)
}

/// Calls `serde_json::to_string` on a `Value`: the outcome is `json_text` of
/// the value, an error standing for `None`. The text is compact JSON: it
/// holds no white space between its parts, and a newline inside a string is
/// written as an escape, so that the text holds no newline.
#[verifier::external_body]
pub(crate) fn value_text(value: &serde_json::Value) -> (r: Result<String, serde_json::Error>)
    ensures
        r is Ok <==> json_text(*value) is Some,
        r matches Ok(s) ==> json_text(*value) == Some(s@) && one_line(s@),
{
    serde_json::to_string(value)
}

/// `Value::clone`: the copy is the same JSON value.
pub assume_specification[ <serde_json::Value as Clone>::clone ](value: &serde_json::Value) -> (r:
    serde_json::Value)
    ensures
        r == *value,
;

} // verus!
