//! JSON values in the textual forms that the JSON crates give them.

use crate::json::{Json, JsonModel, JsonNumber, Member};
use vstd::prelude::*;

verus! {

/// `serde_json::Value`: carried from one call to the next, with nothing claimed of
/// what it holds.
#[verifier::external_type_specification]
#[verifier::external_body]
pub struct ExValue(serde_json::Value);

/// The constructors of `serde_json::Value`: turns a value into that crate's form.
#[verifier::external_body]
pub(crate) fn outside_value(value: &Json) -> serde_json::Value {
    match value {
        Json::Null => serde_json::Value::Null,
        Json::Bool(value) => serde_json::Value::Bool(*value),
        Json::Number(number) => serde_json::Value::Number(crate::numbers::outside_number(number)),
        Json::Text(text) => serde_json::Value::String(text.clone()),
        Json::Array(items) => serde_json::Value::Array(items.iter().map(outside_value).collect()),
        Json::Object(members) => serde_json::Value::Object(
            members.iter().map(|member| (member.key.clone(), outside_value(&member.value))).collect(),
        ),
    }
}

/// The canonical JSON text of a value; nothing where it has none.
pub uninterp spec fn canonical_text(value: JsonModel) -> Option<Seq<char>>;

/// The compact JSON text of a value.
pub uninterp spec fn compact_text(value: JsonModel) -> Seq<char>;

/// `serde_jcs::to_string`: the text, and whether there is one, depend on the
/// value alone. Nothing is claimed of the error's text.
#[verifier::external_body]
pub(crate) fn to_canonical_text(value: &Json) -> (result: Result<String, String>)
    ensures
        match result {
            Ok(text) => canonical_text(value@) == Some(text@),
            Err(_) => canonical_text(value@) is None,
        },
{
    serde_jcs::to_string(&outside_value(value)).map_err(|error| error.to_string())
}

/// The `Display` form of `serde_json::Value`: the text depends on the value
/// alone.
#[verifier::external_body]
pub(crate) fn to_compact_text(value: &Json) -> (result: String)
    ensures
        result@ == compact_text(value@),
{
    outside_value(value).to_string()
}

/// The accessors of `serde_json::Number`: turns that crate's number into one of the
/// library. An integer stays one; another number takes its `Display` form.
#[verifier::external_body]
fn inside_number(number: &serde_json::Number) -> JsonNumber {
    number.as_u64().map(JsonNumber::Unsigned).or_else(
        || number.as_i64().map(JsonNumber::Negative),
    ).unwrap_or_else(|| JsonNumber::Decimal(number.to_string()))
}

/// The variants of `serde_json::Value`: turns that crate's value into one of the
/// library.
#[verifier::external_body]
fn inside_value(value: &serde_json::Value) -> Json {
    match value {
        serde_json::Value::Null => Json::Null,
        serde_json::Value::Bool(value) => Json::Bool(*value),
        serde_json::Value::Number(number) => Json::Number(inside_number(number)),
        serde_json::Value::String(text) => Json::Text(text.clone()),
        serde_json::Value::Array(items) => Json::Array(items.iter().map(inside_value).collect()),
        serde_json::Value::Object(members) => Json::Object(
            members.iter().map(
                |(key, value)| Member { key: key.clone(), value: inside_value(value) },
            ).collect(),
        ),
    }
}

/// The value that a JSON text stands for; nothing where it is no JSON text.
pub uninterp spec fn parsed_json(text: Seq<char>) -> Option<JsonModel>;

/// `serde_json::from_str` into `serde_json::Value`: the value, and whether there is
/// one, depend on the text alone.
#[verifier::external_body]
pub(crate) fn parse_json(text: &str) -> (result: Option<Json>)
    ensures
        match result {
            Some(value) => parsed_json(text@) == Some(value@),
            None => parsed_json(text@) is None,
        },
{
    serde_json::from_str(text).ok().map(|value| inside_value(&value))
}

/// The YAML text of a value; nothing where it has none.
pub uninterp spec fn yaml_text(value: JsonModel) -> Option<Seq<char>>;

/// `serde_yaml::to_string`: the text, and whether there is one, depend on the value
/// alone. Nothing is claimed of the error's text.
#[verifier::external_body]
pub(crate) fn to_yaml_text(value: &Json) -> (result: Result<String, String>)
    ensures
        match result {
            Ok(text) => yaml_text(value@) == Some(text@),
            Err(_) => yaml_text(value@) is None,
        },
{
    serde_yaml::to_string(&outside_value(value)).map_err(|error| error.to_string())
}

/// The canonical text of a value, or an empty text.
pub open spec fn canonical_or_empty(value: JsonModel) -> Seq<char> {
    match canonical_text(value) {
        Some(text) => text,
        None => Seq::empty(),
    }
}

pub fn canonical_text_or_empty(value: &Json) -> (result: String)
    ensures
        result@ == canonical_or_empty(value@),
{
    match to_canonical_text(value) {
        Ok(text) => text,
        Err(_) => String::new(),
    }
}

/// The textual digest of a value's canonical text; nothing where it has none.
pub open spec fn json_digest(value: JsonModel) -> Option<Seq<char>> {
    match canonical_text(value) {
        Some(text) => Some(crate::digest::digest_of(vstd::utf8::encode_utf8(text))),
        None => None,
    }
}

pub fn digest_json(value: &Json) -> (result: Result<String, String>)
    ensures
        match result {
            Ok(digest) => json_digest(value@) == Some(digest@),
            Err(_) => json_digest(value@) is None,
        },
{
    match to_canonical_text(value) {
        Ok(text) => Ok(crate::digest::revision(text.as_str().as_bytes())),
        Err(message) => Err(message),
    }
}

} // verus!
