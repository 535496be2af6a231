use agentgateway::claimcheck::{
    apply_transform, merge_json, ClaimAction, ClaimCheckInner, ClaimCheckRun, ClaimCheckSpec, ExecutionError,
};
use agentgateway::json::JsonValue;

fn s(x: &str) -> JsonValue {
    JsonValue::String(x.to_string())
}

fn obj(members: Vec<(&str, JsonValue)>) -> JsonValue {
    JsonValue::Object(members.into_iter().map(|(k, v)| (k.to_string(), v)).collect())
}

/// A blob store and a few tools with fixed answers.
struct MockTools {
    store: Vec<(String, JsonValue)>,
    results: Vec<(String, JsonValue)>,
}

impl MockTools {
    fn new(results: Vec<(&str, JsonValue)>) -> Self {
        MockTools { store: Vec::new(), results: results.into_iter().map(|(k, v)| (k.to_string(), v)).collect() }
    }

    fn call(&mut self, tool: &str, input: JsonValue) -> Result<JsonValue, String> {
        match tool {
            "blob_store" => {
                let id = format!("ref-{}", self.store.len() + 1);
                self.store.push((id.clone(), input));
                Ok(obj(vec![("reference", s(&id))]))
            },
            "blob_retrieve" => {
                let id = match input.get("reference") {
                    Some(JsonValue::String(id)) => id.clone(),
                    _ => return Err("missing reference".to_string()),
                };
                self.store
                    .iter()
                    .find(|(k, _)| *k == id)
                    .map(|(_, v)| v.duplicate())
                    .ok_or_else(|| "reference not found".to_string())
            },
            name => self
                .results
                .iter()
                .find(|(k, _)| k == name)
                .map(|(_, v)| v.duplicate())
                .ok_or_else(|| format!("tool not found: {}", name)),
        }
    }
}

fn run(spec: &ClaimCheckSpec, input: JsonValue, tools: &mut MockTools) -> Result<JsonValue, ExecutionError> {
    let (mut run, mut action) = ClaimCheckRun::start(spec, input);
    loop {
        match action {
            ClaimAction::Finish(r) => return r,
            ClaimAction::Call { tool, input } => {
                let outcome = tools.call(&tool, input);
                let (next, next_action) = run.advance(spec, outcome);
                run = next;
                action = next_action;
            },
        }
    }
}

fn spec(inner: ClaimCheckInner, retrieve_at_end: bool, reference_transform: Option<&str>) -> ClaimCheckSpec {
    ClaimCheckSpec {
        store_tool: "blob_store".to_string(),
        retrieve_tool: "blob_retrieve".to_string(),
        inner,
        retrieve_at_end,
        reference_transform: reference_transform.map(|t| t.to_string()),
    }
}

fn tool(name: &str) -> ClaimCheckInner {
    ClaimCheckInner::Tool { name: name.to_string(), args: None }
}

#[test]
fn test_claim_check_store_and_process() {
    let mut tools = MockTools::new(vec![("process_ref", obj(vec![("processed", JsonValue::Bool(true))]))]);
    let spec = spec(tool("process_ref"), false, None);
    let value = run(&spec, obj(vec![("large_payload", s(&"data".repeat(1000)))]), &mut tools).unwrap();
    assert_eq!(value.get("processed"), Some(&JsonValue::Bool(true)));
}

#[test]
fn test_claim_check_retrieve_at_end() {
    let mut tools = MockTools::new(vec![("process_ref", obj(vec![("processed", JsonValue::Bool(true))]))]);
    let spec = spec(tool("process_ref"), true, None);
    let original_payload = obj(vec![("original", s("data")), ("important", JsonValue::Bool(true))]);
    let value = run(&spec, original_payload.duplicate(), &mut tools).unwrap();
    assert_eq!(value, original_payload);
}

#[test]
fn test_claim_check_no_retrieve() {
    let mut tools = MockTools::new(vec![("transform_ref", obj(vec![("transformed", s("result"))]))]);
    let spec = spec(tool("transform_ref"), false, None);
    let value = run(&spec, obj(vec![("data", s("test"))]), &mut tools).unwrap();
    assert_eq!(value.get("transformed"), Some(&s("result")));
}

#[test]
fn test_claim_check_with_transform() {
    let mut tools = MockTools::new(vec![("process_transformed", obj(vec![("result", s("transformed"))]))]);
    let spec = spec(tool("process_transformed"), false, Some("input.reference"));
    let result = run(&spec, obj(vec![("data", s("large_data"))]), &mut tools);
    assert!(result.is_ok(), "Expected success, got: {:?}", result);
}

#[test]
fn test_claim_check_passthrough() {
    let mut tools = MockTools::new(vec![]);
    let spec = spec(ClaimCheckInner::Passthrough, false, None);
    let value = run(&spec, obj(vec![("data", s("test"))]), &mut tools).unwrap();
    assert!(value.get("reference").is_some(), "Expected reference in result");
}

#[test]
fn claim_check_inner_default_is_passthrough() {
    assert_eq!(ClaimCheckInner::default(), ClaimCheckInner::Passthrough);
}

#[test]
fn claim_check_errors_name_the_failing_call() {
    let mut tools = MockTools::new(vec![]);
    let first = spec(tool("missing_tool"), false, None);
    assert_eq!(
        run(&first, obj(vec![]), &mut tools),
        Err(ExecutionError::InnerOperationFailed("tool not found: missing_tool".to_string()))
    );
    let spec = spec(ClaimCheckInner::Passthrough, false, Some("input.nothing"));
    let err = run(&spec, obj(vec![]), &mut tools).unwrap_err();
    assert_eq!(err, ExecutionError::TransformFailed("field 'nothing' not found".to_string()));
    assert_eq!(err.message(), "reference transform failed: field 'nothing' not found");
}

#[test]
fn claim_check_tool_args_are_merged_into_reference() {
    let stored = obj(vec![("reference", s("ref-1"))]);
    let merged = merge_json(&stored, &obj(vec![("extra", s("arg")), ("reference", s("other"))]));
    assert_eq!(merged, obj(vec![("reference", s("other")), ("extra", s("arg"))]));
    assert_eq!(merge_json(&stored, &s("x")), s("x"));
}

#[test]
fn reference_transform_paths() {
    let answer = obj(vec![("reference", obj(vec![("id", s("r1"))]))]);
    assert_eq!(apply_transform("input.reference.id", &answer), Ok(s("r1")));
    assert_eq!(apply_transform("reference.id", &answer), Ok(s("r1")));
    assert_eq!(apply_transform("input", &answer), Ok(answer.duplicate()));
}
