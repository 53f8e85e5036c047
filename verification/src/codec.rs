//! The boundary to serde_json: JSON text is parsed and printed by that crate,
//! and only there. The rest of the library works on [`JsonValue`] and is
//! verified against the two names `json_parse` and `json_text`.

use vstd::prelude::*;

use crate::json::{JsonData, JsonValue};

verus! {

/// What `serde_json::from_str::<serde_json::Value>` returns on a given text,
/// carried over to this library's document model. `None` stands for a parse
/// error. The result depends on the text alone.
pub uninterp spec fn json_parse(s: Seq<char>) -> Option<JsonData>;

/// What `serde_json::to_string` prints for a given document. The result
/// depends on the document alone.
pub uninterp spec fn json_text(v: JsonData) -> Seq<char>;

#[verifier::external_type_specification]
#[verifier::external_body]
pub struct ExSerdeJsonValue(serde_json::Value);

/// Relies on `serde_json::Value`'s variants: each arm moves one variant into
/// the library's document model. A number that is not a 64-bit integer keeps
/// its decimal text.
#[verifier::external_body]
fn json_value_of_outside(v: serde_json::Value) -> JsonValue {
    match v {
        serde_json::Value::Null => JsonValue::Null,
        serde_json::Value::Bool(b) => JsonValue::Bool(b),
        serde_json::Value::Number(n) => match n.as_i64() {
            Some(i) => JsonValue::Int(i),
            None => JsonValue::Num(n.to_string()),
        },
        serde_json::Value::String(s) => JsonValue::Str(s),
        serde_json::Value::Array(a) => JsonValue::Arr(a.into_iter().map(json_value_of_outside).collect()),
        serde_json::Value::Object(m) => JsonValue::Obj(m.into_iter().map(|(k, v)| (k, json_value_of_outside(v))).collect()),
    }
}

/// Relies on `serde_json::Value`'s variants: each arm moves one variant of
/// the library's document model back, the inverse of `json_value_of_outside`.
#[verifier::external_body]
fn outside_of_json_value(v: &JsonValue) -> serde_json::Value {
    match v {
        JsonValue::Null => serde_json::Value::Null,
        JsonValue::Bool(b) => serde_json::Value::Bool(*b),
        JsonValue::Int(i) => serde_json::Value::Number(serde_json::Number::from(*i)),
        JsonValue::Num(t) => match t.parse::<serde_json::Number>() {
            Ok(n) => serde_json::Value::Number(n),
            Err(_) => serde_json::Value::Null,
        },
        JsonValue::Str(s) => serde_json::Value::String(s.clone()),
        JsonValue::Arr(a) => serde_json::Value::Array(a.iter().map(outside_of_json_value).collect()),
        JsonValue::Obj(m) => serde_json::Value::Object(m.iter().map(|(k, v)| (k.clone(), outside_of_json_value(v))).collect()),
    }
}

/// Relies on `serde_json::from_str`: the result is a function of the text
/// alone, named `json_parse`; `None` is a parse error.
#[verifier::external_body]
pub fn parse_json(text: &str) -> (r: Option<JsonValue>)
    ensures
        r.deep_view() == json_parse(text@),
{
    match serde_json::from_str::<serde_json::Value>(text) {
        Ok(v) => Some(json_value_of_outside(v)),
        Err(_) => None,
    }
}

/// Relies on `serde_json::to_string`: the printed text is a function of the
/// document alone, named `json_text`. Printing a document of this library
/// cannot fail, since its object keys are strings and it holds no number
/// that serde_json refuses.
#[verifier::external_body]
pub fn print_json(v: &JsonValue) -> (r: String)
    ensures
        r@ == json_text(v.deep_view()),
{
    serde_json::to_string(&outside_of_json_value(v)).unwrap_or_default()
}

} // verus!
