//! What a backend's answer to a tool call gives: the value a composition works on,
//! and the answer rewritten by a virtual tool's output transform.
use vstd::prelude::*;
use crate::json::{JsonValue, JsonView, group_json_view};
use crate::jsonpath::{from_serde, to_serde};
use crate::text::concat_str;
use crate::transform::{FieldSource, apply_output_transform, mappings_error, spec_transform};

verus! {

broadcast use group_json_view;

/// What `serde_json::from_str` reads from a text: `None` when it is not JSON.
pub uninterp spec fn parsed_json(text: Seq<char>) -> Option<JsonView>;

/// What `serde_json::to_string_pretty` writes for a value.
pub uninterp spec fn pretty_json(value: JsonView) -> Seq<char>;

/// Calls `serde_json::from_str` for a `serde_json::Value`. Claims that the value
/// read, or the failure, is a function of the text.
#[verifier::external_body]
pub(crate) fn json_from_text(text: &str) -> (r: Option<JsonValue>)
    ensures
        match parsed_json(text@) {
            Some(v) => r matches Some(x) && x@ == v,
            None => r is None,
        },
{
    serde_json::from_str::<serde_json::Value>(text).ok().map(|v| from_serde(&v))
}

/// Calls `serde_json::to_string_pretty` (empty on its error, which a value cannot
/// give). Claims that the text is a function of the value.
#[verifier::external_body]
fn json_pretty(value: &JsonValue) -> (r: String)
    ensures
        r@ == pretty_json(value@),
{
    serde_json::to_string_pretty(&to_serde(value)).unwrap_or_default()
}

/// A content item of a tool call's result: text, or another kind (image, audio,
/// resource).
#[derive(Debug)]
pub enum ContentItem {
    Text(String),
    Other,
}

/// The result of a tool call.
#[derive(Debug)]
pub struct CallToolResult {
    pub content: Vec<ContentItem>,
    pub structured_content: Option<JsonValue>,
    pub is_error: Option<bool>,
}

/// What came back from a backend for a tool call.
#[derive(Debug)]
pub enum ToolCallReply {
    /// The stream ended without a message
    NoResponse,
    /// The stream failed
    StreamError(String),
    /// A response holding a tool call's result
    CallResult(CallToolResult),
    /// A response holding another kind of result, serialized, or the serializer's error
    OtherResult(Result<JsonValue, String>),
    /// An error response, with its message
    Error(String),
    /// Any other message
    Unexpected,
}

/// The text of the first text item.
pub open spec fn first_text(content: Seq<ContentItem>) -> Option<Seq<char>>
    decreases content.len(),
{
    if content.len() == 0 {
        None
    } else {
        match first_text(content.drop_last()) {
            Some(t) => Some(t),
            None => match content.last() {
                ContentItem::Text(t) => Some(t@),
                ContentItem::Other => None,
            },
        }
    }
}

/// The value a composition gets from a backend's answer: the first text of a
/// call's result read as JSON, or as a string when it is not JSON, or null when
/// there is no text; another result as serialized; an error message otherwise.
pub open spec fn spec_tool_call_answer(reply: ToolCallReply) -> Result<JsonView, Seq<char>> {
    match reply {
        ToolCallReply::NoResponse => Err("No response from tool call"@),
        ToolCallReply::StreamError(e) => Err("Tool call error: "@ + e@),
        ToolCallReply::CallResult(r) => match first_text(r.content@) {
            Some(t) => match parsed_json(t) {
                Some(v) => Ok(v),
                None => Ok(JsonView::String(t)),
            },
            None => Ok(JsonView::Null),
        },
        ToolCallReply::OtherResult(Ok(v)) => Ok(v@),
        ToolCallReply::OtherResult(Err(e)) => Err("Failed to serialize result: "@ + e@),
        ToolCallReply::Error(m) => Err("Tool call failed: "@ + m@),
        ToolCallReply::Unexpected => Err("Unexpected response type from tool call"@),
    }
}

/// The first text item of a result.
pub fn find_text(content: &Vec<ContentItem>) -> (r: Option<&String>)
    ensures
        match first_text(content@) {
            Some(t) => r matches Some(s) && s@ == t,
            None => r is None,
        },
{
    let mut i: usize = 0;
    assert(content@.take(0) =~= Seq::<ContentItem>::empty());
    while i < content.len()
        invariant
            i <= content@.len(),
            first_text(content@.take(i as int)) is None,
        decreases content@.len() - i,
    {
        assert(content@.take(i + 1).drop_last() =~= content@.take(i as int));
        match &content[i] {
            ContentItem::Text(t) => {
                proof {
                    lemma_first_text_stays(content@, i as int + 1);
                }
                return Some(t);
            },
            ContentItem::Other => {},
        }
        i = i + 1;
    }
    assert(content@.take(content@.len() as int) =~= content@);
    None
}

proof fn lemma_first_text_stays(content: Seq<ContentItem>, k: int)
    requires
        0 < k <= content.len(),
        first_text(content.take(k)) is Some,
    ensures
        first_text(content) == first_text(content.take(k)),
    decreases content.len() - k,
{
    if k < content.len() {
        assert(content.take(k + 1).drop_last() =~= content.take(k));
        lemma_first_text_stays(content, k + 1);
    } else {
        assert(content.take(k) =~= content);
    }
}

/// The value a composition gets from a backend's answer (see
/// `spec_tool_call_answer`).
pub fn tool_call_answer(reply: &ToolCallReply) -> (r: Result<JsonValue, String>)
    ensures
        match spec_tool_call_answer(*reply) {
            Ok(v) => r matches Ok(x) && x@ == v,
            Err(m) => r matches Err(e) && e@ == m,
        },
{
    match reply {
        ToolCallReply::NoResponse => Err("No response from tool call".to_owned()),
        ToolCallReply::StreamError(e) => Err(concat_str("Tool call error: ", e.as_str())),
        ToolCallReply::CallResult(r) => match find_text(&r.content) {
            Some(t) => match json_from_text(t.as_str()) {
                Some(v) => Ok(v),
                None => Ok(JsonValue::String(t.clone())),
            },
            None => Ok(JsonValue::Null),
        },
        ToolCallReply::OtherResult(Ok(v)) => Ok(v.duplicate()),
        ToolCallReply::OtherResult(Err(e)) => Err(concat_str("Failed to serialize result: ", e.as_str())),
        ToolCallReply::Error(m) => Err(concat_str("Tool call failed: ", m.as_str())),
        ToolCallReply::Unexpected => Err("Unexpected response type from tool call".to_owned()),
    }
}

/// What transforming a tool call's result gives: when its first text is JSON and
/// the transform applies to it, a result whose only content is the transformed
/// value as pretty text, with the value as structured content and the error flag
/// kept; `None` otherwise.
pub open spec fn spec_transformed(
    r: CallToolResult,
    mappings: Seq<(String, FieldSource)>,
) -> Option<(Seq<char>, JsonView, Option<bool>)> {
    match first_text(r.content@) {
        None => None,
        Some(t) => match parsed_json(t) {
            None => None,
            Some(v) => if mappings_error(mappings) is Some {
                None
            } else {
                let out = JsonView::Object(spec_transform(mappings, v));
                Some((pretty_json(out), out, r.is_error))
            },
        },
    }
}

/// Whether a result is the transformed one described by `spec_transformed`.
pub open spec fn is_transformed(r: CallToolResult, t: (Seq<char>, JsonView, Option<bool>)) -> bool {
    &&& r.content@.len() == 1
    &&& r.content@[0] matches ContentItem::Text(s) && s@ == t.0
    &&& r.structured_content matches Some(v) && v@ == t.1
    &&& r.is_error == t.2
}

/// Rewrites a tool call's result with a virtual tool's output transform (see
/// `spec_transformed`).
pub fn transform_call_tool_result(result: &CallToolResult, mappings: &Vec<(String, FieldSource)>) -> (r: Option<
    CallToolResult,
>)
    ensures
        match spec_transformed(*result, mappings@) {
            Some(t) => r matches Some(x) && is_transformed(x, t),
            None => r is None,
        },
{
    let text = match find_text(&result.content) {
        Some(t) => t,
        None => return None,
    };
    let value = match json_from_text(text.as_str()) {
        Some(v) => v,
        None => return None,
    };
    let transformed = match apply_output_transform(mappings, &value) {
        Ok(t) => t,
        Err(_) => return None,
    };
    let pretty = json_pretty(&transformed);
    Some(CallToolResult {
        content: vec![ContentItem::Text(pretty)],
        structured_content: Some(transformed),
        is_error: result.is_error,
    })
}

/// The result sent back for a virtual tool's call: rewritten by its output
/// transform when it has one and the transform applies, else as it came.
/// `transform` is the tool's output transform (`None` when the registry has no
/// such tool or the tool has none).
pub fn transform_server_message(result: CallToolResult, transform: Option<&Vec<(String, FieldSource)>>) -> (r:
    CallToolResult)
    ensures
        match transform {
            Some(ms) => match spec_transformed(result, ms@) {
                Some(t) => is_transformed(r, t),
                None => r == result,
            },
            None => r == result,
        },
{
    match transform {
        None => result,
        Some(ms) => match transform_call_tool_result(&result, ms) {
            Some(t) => t,
            None => result,
        },
    }
}

} // verus!
