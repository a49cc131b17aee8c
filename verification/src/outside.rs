//! The library's only trusted boundary: the calls into `serde_json` (parsing
//! and serializing JSON text), `chrono` (the current time) and the one std
//! case-mapping call. Everything else in the crate is verified against the
//! contracts stated here.

use vstd::prelude::*;

use crate::json::{Json, JsonVal};

verus! {

#[verifier::external_type_specification]
#[verifier::external_body]
pub struct ExValue(serde_json::Value);

/// What parsing a text as JSON yields: `None` where `serde_json`'s parser
/// fails (text that is not valid JSON, or nesting beyond its limit),
/// otherwise the model of the parsed tree (object keys in the key order of
/// `serde_json`'s map, numbers as their decimal text). A fixed function of
/// the text alone.
pub uninterp spec fn json_parse(s: Seq<char>) -> Option<JsonVal>;

/// Relies on `serde_json::from_str::<serde_json::Value>`: succeeds exactly
/// where that parser does, and the parsed tree is a function of the text
/// alone. The error text is serde_json's message.
#[verifier::external_body]
pub(crate) fn parse_json_text(s: &str) -> (r: Result<Json, String>)
    ensures
        match r {
            Ok(j) => json_parse(s@) == Some(j@),
            Err(_) => json_parse(s@) is None,
        },
{
    match serde_json::from_str::<serde_json::Value>(s) {
        Ok(v) => Ok(json_of_value(&v)),
        Err(e) => Err(e.to_string()),
    }
}

/// The conversion that `parse_json_text` relies on: one arm per
/// `serde_json::Value` variant, each moved into the library's own tree;
/// numbers are carried as their decimal text.
#[verifier::external_body]
fn json_of_value(v: &serde_json::Value) -> Json {
    match v {
        serde_json::Value::Null => Json::Null,
        serde_json::Value::Bool(b) => Json::Bool(*b),
        serde_json::Value::Number(n) => Json::Num(n.to_string()),
        serde_json::Value::String(s) => Json::Str(s.clone()),
        serde_json::Value::Array(items) => Json::Arr(items.iter().map(json_of_value).collect()),
        serde_json::Value::Object(entries) => Json::Obj(
            entries.iter().map(|(k, x)| (k.clone(), json_of_value(x))).collect(),
        ),
    }
}

/// What serializing a value with this model yields: the compact JSON text
/// that `serde_json` renders for it. A fixed function of the model alone.
pub uninterp spec fn json_text(v: JsonVal) -> Seq<char>;

/// Relies on `serde_json::value::Value`'s `Display`: the compact JSON text
/// of the value, a function of the value alone.
#[verifier::external_body]
pub(crate) fn json_to_text(j: &Json) -> (r: String)
    ensures
        r@ == json_text(j@),
{
    value_of_json(j).to_string()
}

/// The conversion that `json_to_text` relies on: one arm per variant of the
/// library's tree, each moved into a `serde_json::Value`. A number whose
/// text does not read back as a JSON number becomes null.
#[verifier::external_body]
fn value_of_json(j: &Json) -> serde_json::Value {
    match j {
        Json::Null => serde_json::Value::Null,
        Json::Bool(b) => serde_json::Value::Bool(*b),
        Json::Num(s) => match s.parse::<serde_json::Number>() {
            Ok(n) => serde_json::Value::Number(n),
            Err(_) => serde_json::Value::Null,
        },
        Json::Str(s) => serde_json::Value::String(s.clone()),
        Json::Arr(items) => serde_json::Value::Array(items.iter().map(value_of_json).collect()),
        Json::Obj(entries) => serde_json::Value::Object(
            entries.iter().map(|(k, x)| (k.clone(), value_of_json(x))).collect(),
        ),
    }
}

/// What `str::to_uppercase` yields: a fixed function of the characters alone.
pub uninterp spec fn upper_of(s: Seq<char>) -> Seq<char>;

/// Relies on `str::to_uppercase`: the Unicode uppercase form of the text,
/// a function of the characters alone.
#[verifier::external_body]
pub(crate) fn to_upper(s: &str) -> (r: String)
    ensures
        r@ == upper_of(s@),
{
    s.to_uppercase()
}

/// Relies on `chrono::Utc::now`: the current time as Unix milliseconds.
/// Nothing is assumed of the value. On a machine whose clock is set before
/// the Unix epoch, chrono's own reading of the system time aborts; that
/// environmental failure is inherited here.
#[verifier::external_body]
pub(crate) fn now_unix_millis() -> i64 {
    chrono::Utc::now().timestamp_millis()
}

} // verus!
