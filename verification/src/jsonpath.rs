//! JSONPath (RFC 9535) on the library's JSON values, evaluated by `serde_json_path`.
use vstd::prelude::*;
use crate::json::{JsonNumber, JsonValue, JsonView, items_view};
use serde_json::Value;

verus! {

#[verifier::external_type_specification]
#[verifier::external_body]
pub struct ExSerdeValue(Value);

/// What `serde_json_path::JsonPath::parse` reports for a text: `None` when it is a
/// JSONPath, else the text of its parse error.
pub uninterp spec fn jsonpath_parse_error(path: Seq<char>) -> Option<Seq<char>>;

/// The nodes that `serde_json_path::JsonPath::query` selects, in order, for a
/// JSONPath text that parses, in a value.
pub uninterp spec fn jsonpath_nodes(path: Seq<char>, value: JsonView) -> Seq<JsonView>;

/// A value as `serde_json` holds it; a number that is neither `u64` nor `i64` is
/// read from its decimal text. Converts only; nothing is claimed.
#[verifier::external_body]
pub(crate) fn to_serde(v: &JsonValue) -> Value {
    match v {
        JsonValue::Null => Value::Null,
        JsonValue::Bool(b) => Value::Bool(*b),
        JsonValue::Number(JsonNumber::PosInt(u)) => Value::from(*u),
        JsonValue::Number(JsonNumber::NegInt(i)) => Value::from(*i),
        JsonValue::Number(JsonNumber::Float(t)) => serde_json::from_str(t).unwrap_or(Value::Null),
        JsonValue::String(s) => Value::String(s.clone()),
        JsonValue::Array(xs) => Value::Array(xs.iter().map(to_serde).collect()),
        JsonValue::Object(ms) => Value::Object(ms.iter().map(|(k, x)| (k.clone(), to_serde(x))).collect()),
    }
}

/// The library's form of a `serde_json` value; a number that is neither `u64` nor
/// `i64` keeps its decimal text. Converts only; nothing is claimed.
#[verifier::external_body]
pub(crate) fn from_serde(v: &Value) -> JsonValue {
    match v {
        Value::Null => JsonValue::Null,
        Value::Bool(b) => JsonValue::Bool(*b),
        Value::Number(n) => JsonValue::Number(match (n.as_u64(), n.as_i64()) {
            (Some(u), _) => JsonNumber::PosInt(u),
            (_, Some(i)) => JsonNumber::NegInt(i),
            _ => JsonNumber::Float(n.to_string()),
        }),
        Value::String(s) => JsonValue::String(s.clone()),
        Value::Array(xs) => JsonValue::Array(xs.iter().map(from_serde).collect()),
        Value::Object(m) => JsonValue::Object(m.iter().map(|(k, x)| (k.clone(), from_serde(x))).collect()),
    }
}

/// Calls `serde_json_path::JsonPath::parse` on a text. Claims that its answer, a
/// parse error's text or none, is a function of the text.
#[verifier::external_body]
pub fn jsonpath_check(path: &str) -> (r: Option<String>)
    ensures
        match jsonpath_parse_error(path@) {
            Some(m) => r matches Some(e) && e@ == m,
            None => r is None,
        },
{
    serde_json_path::JsonPath::parse(path).err().map(|e| e.to_string())
}

/// Calls `serde_json_path::JsonPath::parse` on a text and, when it parses,
/// `JsonPath::query` on a value. Claims that the parse error's text, or else the
/// nodes selected, in order, are functions of the text and of the value.
#[verifier::external_body]
pub fn jsonpath_query(path: &str, value: &JsonValue) -> (r: Result<Vec<JsonValue>, String>)
    ensures
        match jsonpath_parse_error(path@) {
            Some(m) => r matches Err(e) && e@ == m,
            None => r matches Ok(v) && items_view(v@) == jsonpath_nodes(path@, value@),
        },
{
    match serde_json_path::JsonPath::parse(path) {
        Ok(p) => Ok(p.query(&to_serde(value)).all().into_iter().map(from_serde).collect()),
        Err(e) => Err(e.to_string()),
    }
}

/// The first node a JSONPath that parses selects in a value.
pub open spec fn first_node(path: Seq<char>, value: JsonView) -> Option<JsonView> {
    let ns = jsonpath_nodes(path, value);
    if ns.len() == 0 {
        None
    } else {
        Some(ns[0])
    }
}

/// The first node a JSONPath selects in a value; the parse error's text when the
/// text is not a JSONPath.
pub fn query_first(path: &str, value: &JsonValue) -> (r: Result<Option<JsonValue>, String>)
    ensures
        match jsonpath_parse_error(path@) {
            Some(m) => r matches Err(e) && e@ == m,
            None => match first_node(path@, value@) {
                Some(n) => r matches Ok(Some(v)) && v@ == n,
                None => r == Ok::<Option<JsonValue>, String>(None),
            },
        },
{
    match jsonpath_query(path, value) {
        Err(e) => Err(e),
        Ok(nodes) => {
            if nodes.len() == 0 {
                Ok(None)
            } else {
                Ok(Some(nodes[0].duplicate()))
            }
        },
    }
}

} // verus!
