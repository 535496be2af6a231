use agentgateway::executors::{truncate_json_text, validate_input_schema, MapEachExecutor, TimeoutExecutor, TimeoutOutcome};
use agentgateway::json::{JsonNumber, JsonValue};
use agentgateway::pipeline::{DataBinding, PipelineExecutor};
use agentgateway::duration::Duration;
use agentgateway::scatter_gather::ExecutionError;

fn s(x: &str) -> JsonValue {
    JsonValue::String(x.to_string())
}

fn n(x: u64) -> JsonValue {
    JsonValue::Number(JsonNumber::PosInt(x))
}

#[test]
fn pipeline_steps_chain_outputs() {
    let run = PipelineExecutor::start(s("in"));
    assert_eq!(PipelineExecutor::default_input(&run), s("in"));
    let run = PipelineExecutor::complete_step(run, "a", Ok(n(1))).unwrap();
    assert_eq!(run.next, 1);
    assert_eq!(PipelineExecutor::default_input(&run), n(1));
    let run = PipelineExecutor::complete_step(run, "b", Ok(n(2))).unwrap();
    assert_eq!(PipelineExecutor::step_output(&run, "a"), Ok(&n(1)));
    assert_eq!(PipelineExecutor::step_output(&run, "b"), Ok(&n(2)));
    assert_eq!(run.input, s("in"));
    assert_eq!(PipelineExecutor::finish(run), n(2));
}

#[test]
fn pipeline_without_steps_returns_input() {
    assert_eq!(PipelineExecutor::finish(PipelineExecutor::start(n(5))), n(5));
}

#[test]
fn pipeline_step_failure_ends_run() {
    let run = PipelineExecutor::start(s("in"));
    let r = PipelineExecutor::complete_step(run, "a", Err(ExecutionError::ToolNotFound("t".to_string())));
    assert!(matches!(r, Err(ExecutionError::ToolNotFound(t)) if t == "t"));
}

#[test]
fn pipeline_unknown_step_binding() {
    let run = PipelineExecutor::start(s("in"));
    assert_eq!(
        PipelineExecutor::step_output(&run, "missing"),
        Err(ExecutionError::InvalidInput("step missing not found".to_string()))
    );
}

#[test]
fn pipeline_query_values_and_root_path() {
    assert_eq!(PipelineExecutor::query_value(vec![]), JsonValue::Null);
    assert_eq!(PipelineExecutor::query_value(vec![n(1)]), n(1));
    assert_eq!(PipelineExecutor::query_value(vec![n(1), n(2)]), JsonValue::Array(vec![n(1), n(2)]));
    assert!(PipelineExecutor::is_root_path("$"));
    assert!(!PipelineExecutor::is_root_path("$.a"));
}

#[test]
fn pipeline_construct_binding() {
    let built = PipelineExecutor::construct(vec![("a".to_string(), Ok(n(1))), ("b".to_string(), Ok(s("x")))]);
    assert_eq!(built, Ok(JsonValue::Object(vec![("a".to_string(), n(1)), ("b".to_string(), s("x"))])));
    let failed = PipelineExecutor::construct(vec![
        ("a".to_string(), Err(ExecutionError::JsonPathError("bad".to_string()))),
        ("b".to_string(), Err(ExecutionError::AllTargetsFailed)),
    ]);
    assert_eq!(failed, Err(ExecutionError::JsonPathError("bad".to_string())));
}

#[test]
fn default_binding_is_whole_input() {
    match DataBinding::default() {
        DataBinding::Input(b) => assert_eq!(b.path, "$"),
        other => panic!("unexpected {:?}", other),
    }
}

#[test]
fn map_each_items_and_gather() {
    assert_eq!(MapEachExecutor::items(JsonValue::Array(vec![n(1), n(2)])), Ok(vec![n(1), n(2)]));
    assert_eq!(
        MapEachExecutor::items(s("x")),
        Err(ExecutionError::TypeError { expected: "array".to_string(), actual: "string".to_string() })
    );
    assert_eq!(MapEachExecutor::gather(vec![Ok(n(1)), Ok(n(2))]), Ok(JsonValue::Array(vec![n(1), n(2)])));
    assert_eq!(
        MapEachExecutor::gather(vec![Ok(n(1)), Err(ExecutionError::Timeout(5)), Err(ExecutionError::AllTargetsFailed)]),
        Err(ExecutionError::Timeout(5))
    );
    assert_eq!(MapEachExecutor::gather(vec![]), Ok(JsonValue::Array(vec![])));
}

#[test]
fn timeout_outcomes() {
    assert_eq!(TimeoutExecutor::on_elapsed(250, true), TimeoutOutcome::RunFallback);
    assert_eq!(TimeoutExecutor::on_elapsed(250, false), TimeoutOutcome::Fail(ExecutionError::Timeout(250)));
    assert_eq!(TimeoutExecutor::limit(1500), Duration::from_millis(1500));
}

fn serialized(json: &str) -> String {
    let value: serde_json::Value = serde_json::from_str(json).unwrap();
    serde_json::to_string(&value).unwrap()
}

#[test]
fn test_truncate_json_small() {
    let result = truncate_json_text(&serialized(r#"{"key": "value"}"#), 100);
    assert_eq!(result, r#"{"key":"value"}"#);
}

#[test]
fn test_truncate_json_large() {
    let large_string = "x".repeat(5000);
    let mut map = serde_json::Map::new();
    map.insert("data".to_string(), serde_json::Value::String(large_string));
    let text = serde_json::to_string(&serde_json::Value::Object(map)).unwrap();
    let result = truncate_json_text(&text, 100);
    assert!(result.len() <= 100);
    assert!(result.ends_with("...[truncated]"));
}

#[test]
fn test_truncate_json_exact_boundary() {
    let text = serialized(r#"{"a": "b"}"#);
    let result = truncate_json_text(&text, text.len());
    assert_eq!(result, text);
}

#[test]
fn truncate_with_tiny_limit_keeps_only_marker() {
    assert_eq!(truncate_json_text("abcdef", 3), "...[truncated]");
}

fn schema_requiring(fields: &[&str]) -> Option<JsonValue> {
    Some(JsonValue::Object(vec![
        ("type".to_string(), s("object")),
        ("required".to_string(), JsonValue::Array(fields.iter().map(|f| s(f)).collect())),
    ]))
}

#[test]
fn input_schema_without_required_fields_accepts_anything() {
    assert_eq!(validate_input_schema(&None, &n(1), "c"), Ok(()));
    assert_eq!(validate_input_schema(&schema_requiring(&[]), &n(1), "c"), Ok(()));
    assert_eq!(validate_input_schema(&Some(s("not an object")), &n(1), "c"), Ok(()));
}

#[test]
fn input_schema_requires_object_input() {
    assert_eq!(
        validate_input_schema(&schema_requiring(&["a", "b"]), &n(1), "research"),
        Err(ExecutionError::InvalidInput(
            "Composition 'research' expects an object input with required fields: [\"a\", \"b\"]".to_string()
        ))
    );
}

#[test]
fn input_schema_reports_missing_fields() {
    let input = JsonValue::Object(vec![("a".to_string(), n(1))]);
    assert_eq!(validate_input_schema(&schema_requiring(&["a"]), &input, "c"), Ok(()));
    assert_eq!(
        validate_input_schema(&schema_requiring(&["a", "b", "c"]), &input, "research"),
        Err(ExecutionError::InvalidInput(
            "Composition 'research' is missing required input fields: [\"b\", \"c\"]. Please provide: b, c".to_string()
        ))
    );
}

#[test]
fn truncate_counts_bytes_not_characters() {
    let text = format!("\"{}\"", "é".repeat(5000));
    let result = truncate_json_text(&text, 100);
    assert!(result.len() <= 100);
    assert!(result.ends_with("...[truncated]"));
    // 85 bytes are left for the text: the quote and 42 two-byte characters.
    assert_eq!(result, format!("\"{}...[truncated]", "é".repeat(42)));
}
