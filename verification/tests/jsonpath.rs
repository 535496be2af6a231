use agentgateway::json::{JsonNumber, JsonValue};
use agentgateway::jsonpath::{jsonpath_check, jsonpath_query};
use agentgateway::pattern::{ScatterGatherSpec, ScatterTarget};
use agentgateway::pipeline::{ConstructBinding, DataBinding, InputBinding, PipelineExecutor, StepBinding};
use agentgateway::compiled::CompiledRegistry;
use agentgateway::registry::{LegacyVirtualToolDef, OutputField, OutputSchema, Registry, ToolDefinition};
use agentgateway::registry_error::RegistryError;
use agentgateway::filter::FilterExecutor;
use agentgateway::scatter_gather::{AggregationStrategy, ExecutionError, ScatterGatherExecutor, ToolRef};
use agentgateway::tool_result::{
    tool_call_answer, transform_call_tool_result, transform_server_message, CallToolResult, ContentItem, ToolCallReply,
};
use agentgateway::transform::{apply_output_transform, check_output_paths, FieldSource};

fn lib(v: &serde_json::Value) -> JsonValue {
    match v {
        serde_json::Value::Null => JsonValue::Null,
        serde_json::Value::Bool(b) => JsonValue::Bool(*b),
        serde_json::Value::Number(n) => JsonValue::Number(match (n.as_u64(), n.as_i64()) {
            (Some(u), _) => JsonNumber::PosInt(u),
            (_, Some(i)) => JsonNumber::NegInt(i),
            _ => JsonNumber::Float(n.to_string()),
        }),
        serde_json::Value::String(s) => JsonValue::String(s.clone()),
        serde_json::Value::Array(xs) => JsonValue::Array(xs.iter().map(lib).collect()),
        serde_json::Value::Object(m) => JsonValue::Object(m.iter().map(|(k, x)| (k.clone(), lib(x))).collect()),
    }
}

fn json(text: &str) -> JsonValue {
    lib(&serde_json::from_str(text).unwrap())
}

fn get<'a>(v: &'a JsonValue, key: &str) -> Option<&'a JsonValue> {
    v.get(key)
}

fn path(p: &str) -> FieldSource {
    FieldSource::Path(p.to_string())
}

fn mappings(ms: Vec<(&str, FieldSource)>) -> Vec<(String, FieldSource)> {
    ms.into_iter().map(|(k, v)| (k.to_string(), v)).collect()
}

#[test]
fn test_apply_jsonpath() {
    let value = json(r#"{"data": {"items": [1, 2, 3]}}"#);
    assert_eq!(PipelineExecutor::apply_jsonpath("$", &value).unwrap(), value);
    assert_eq!(PipelineExecutor::apply_jsonpath("$.data.items", &value).unwrap(), json("[1, 2, 3]"));
    assert_eq!(PipelineExecutor::apply_jsonpath("$.data.items[0]", &value).unwrap(), json("1"));
}

#[test]
fn jsonpath_errors_name_the_path() {
    let value = json("{}");
    match PipelineExecutor::apply_jsonpath("$[", &value) {
        Err(ExecutionError::JsonPathError(m)) => assert!(m.starts_with("$[: ")),
        other => panic!("expected a JsonPath error, got {:?}", other),
    }
    assert!(jsonpath_check("$.a").is_none());
    assert!(jsonpath_check("not a path").is_some());
    assert_eq!(jsonpath_query("$.*", &json(r#"{"a": 1}"#)).unwrap(), vec![json("1")]);
}

#[test]
fn resolve_bindings_of_a_running_pipeline() {
    let mut run = PipelineExecutor::start(json(r#"{"q": "rust", "n": 2}"#));
    run = PipelineExecutor::complete_step(run, "search", Ok(json(r#"{"hits": [1, 2]}"#))).unwrap();
    let b = DataBinding::Input(InputBinding { path: "$.q".to_string() });
    assert_eq!(PipelineExecutor::resolve_binding(&b, &run).unwrap(), json(r#""rust""#));
    let b = DataBinding::Step(StepBinding { step_id: "search".to_string(), path: "$.hits".to_string() });
    assert_eq!(PipelineExecutor::resolve_binding(&b, &run).unwrap(), json("[1, 2]"));
    let b = DataBinding::Step(StepBinding { step_id: "nope".to_string(), path: "$".to_string() });
    assert_eq!(
        PipelineExecutor::resolve_binding(&b, &run),
        Err(ExecutionError::InvalidInput("step nope not found".to_string()))
    );
    let b = DataBinding::Construct(ConstructBinding {
        fields: vec![
            ("query".to_string(), DataBinding::Input(InputBinding { path: "$.q".to_string() })),
            ("first".to_string(), DataBinding::Step(StepBinding { step_id: "search".to_string(), path: "$.hits[0]".to_string() })),
        ],
    });
    let expected = JsonValue::Object(vec![("query".to_string(), json(r#""rust""#)), ("first".to_string(), json("1"))]);
    assert_eq!(PipelineExecutor::resolve_binding(&b, &run).unwrap(), expected);
}

#[test]
fn test_dedupe() {
    let value = json(r#"[{"id": 1, "name": "a"}, {"id": 2, "name": "b"}, {"id": 1, "name": "a-dup"}]"#);
    let result = ScatterGatherExecutor::dedupe(&value, "$.id").unwrap();
    match &result {
        JsonValue::Array(items) => assert_eq!(items.len(), 2),
        _ => panic!("expected an array"),
    }
    assert_eq!(result, json(r#"[{"id": 1, "name": "a"}, {"id": 2, "name": "b"}]"#));
}

#[test]
fn dedupe_keeps_items_without_a_key() {
    let value = json(r#"[{"id": 1}, {}, {}, {"id": 1}]"#);
    assert_eq!(ScatterGatherExecutor::dedupe(&value, "$.id").unwrap(), json(r#"[{"id": 1}, {}, {}]"#));
    assert!(matches!(ScatterGatherExecutor::dedupe(&json("1"), "$.id"), Err(ExecutionError::TypeError { .. })));
}

#[test]
fn extract_replaces_each_element() {
    let value = json(r#"[{"a": {"b": 1}}, {"a": {"b": 2}}, {}]"#);
    assert_eq!(ScatterGatherExecutor::extract(&value, "$.a.b").unwrap(), json("[1, 2, null]"));
}

#[test]
fn gather_results_fail_fast_and_all_failed() {
    let results = || vec![Ok(json("1")), Err(ExecutionError::Timeout(5)), Ok(json("2"))];
    assert_eq!(ScatterGatherExecutor::gather_results(results(), true), Err(ExecutionError::Timeout(5)));
    assert_eq!(ScatterGatherExecutor::gather_results(results(), false).unwrap(), vec![json("1"), json("2")]);
    assert_eq!(
        ScatterGatherExecutor::gather_results(vec![Err(ExecutionError::Timeout(1))], false),
        Err(ExecutionError::AllTargetsFailed)
    );
}

#[test]
fn filter_fields_are_first_nodes() {
    let items = vec![json(r#"{"score": 3}"#), json("{}")];
    let fields = FilterExecutor::select_fields("$.score", &items).unwrap();
    assert_eq!(fields, vec![Some(json("3")), None]);
    assert!(matches!(FilterExecutor::select_fields("$[", &items), Err(ExecutionError::JsonPathError(_))));
}

#[test]
fn scatter_gather_test_referenced_tools() {
    let sg = ScatterGatherSpec {
        targets: vec![
            ScatterTarget::Tool(ToolRef::new("tool_a".to_string())),
            ScatterTarget::Tool(ToolRef::new("tool_b".to_string())),
        ],
        aggregation: AggregationStrategy { ops: vec![] },
        timeout_ms: None,
        fail_fast: false,
    };
    assert_eq!(sg.referenced_tools(), vec!["tool_a", "tool_b"]);
}

#[test]
fn test_output_transformation_simple() {
    let props = vec![
        ("temp".to_string(), OutputField::new("number".to_string(), "$.temperature".to_string())),
        ("city".to_string(), OutputField::new("string".to_string(), "$.location.city".to_string())),
    ];
    let output_schema = OutputSchema::new(props);
    let tool = LegacyVirtualToolDef::new("test".to_string(), "backend".to_string(), "tool".to_string())
        .with_output_schema(output_schema);
    let def = ToolDefinition::from_legacy(tool);
    let compiled = CompiledRegistry::compile(Registry::with_tool_definitions(vec![def])).unwrap();
    let response = json(r#"{"temperature": 72.5, "location": {"city": "Seattle", "state": "WA"}}"#);
    let result = compiled.transform_output("test", &response).unwrap();
    assert_eq!(get(&result, "temp"), Some(&json("72.5")));
    assert_eq!(get(&result, "city"), Some(&json(r#""Seattle""#)));
}

#[test]
fn test_output_transformation_no_schema() {
    let tool = LegacyVirtualToolDef::new("test".to_string(), "backend".to_string(), "tool".to_string());
    let def = ToolDefinition::from_legacy(tool);
    let compiled = CompiledRegistry::compile(Registry::with_tool_definitions(vec![def])).unwrap();
    let response = json(r#"{"original": "data"}"#);
    assert_eq!(compiled.transform_output("test", &response).unwrap(), response);
}

#[test]
fn legacy_passthrough_fields_read_their_own_name() {
    let props = vec![("name".to_string(), OutputField::passthrough("string".to_string()))];
    let tool = LegacyVirtualToolDef::new("t".to_string(), "b".to_string(), "x".to_string())
        .with_output_schema(OutputSchema::new(props));
    let reg = Registry::with_tools(vec![tool]);
    let compiled = CompiledRegistry::compile(reg).unwrap();
    let t = compiled.get_tool("t").unwrap();
    assert!(t.has_output_transform());
    assert_eq!(t.output_transform_fields(), Some(vec!["name".to_string()]));
    let answer = JsonValue::String(r#"result: {"name": "x", "id": 3}"#.to_string());
    assert_eq!(
        compiled.transform_output("t", &answer).unwrap(),
        JsonValue::Object(vec![("name".to_string(), JsonValue::String("x".to_string()))])
    );
    assert_eq!(
        compiled.transform_output("missing", &answer),
        Err(RegistryError::ToolNotFound { name: "missing".to_string() })
    );
}

#[test]
fn compile_rejects_bad_output_paths() {
    let mut def = ToolDefinition::source("t".to_string(), "b".to_string(), "x".to_string());
    def.output_transform = Some(vec![("f".to_string(), FieldSource::Path("$[".to_string()))]);
    match CompiledRegistry::compile(Registry::with_tool_definitions(vec![def])) {
        Err(RegistryError::InvalidJsonPath { path, .. }) => assert_eq!(path, "$["),
        other => panic!("expected InvalidJsonPath, got {:?}", other.err()),
    }
}

#[test]
fn test_output_transform_array_item_mapping() {
    let ms = mappings(vec![
        ("total", path("$.total_count")),
        ("repos", path("$.items[*]")),
        ("repos[*].name", path("$.full_name")),
        ("repos[*].stars", path("$.stargazers_count")),
        ("repos[*].url", path("$.html_url")),
    ]);
    let response = json(
        r#"{"total_count": 2, "items": [
            {"full_name": "owner1/repo1", "stargazers_count": 100, "html_url": "https://github.com/owner1/repo1", "extra_field": "ignored"},
            {"full_name": "owner2/repo2", "stargazers_count": 200, "html_url": "https://github.com/owner2/repo2", "extra_field": "also_ignored"}
        ]}"#,
    );
    let result = apply_output_transform(&ms, &response).unwrap();
    assert_eq!(get(&result, "total"), Some(&json("2")));
    let repos = match get(&result, "repos") {
        Some(JsonValue::Array(r)) => r.clone(),
        _ => panic!("repos is not an array"),
    };
    assert_eq!(repos.len(), 2);
    assert_eq!(get(&repos[0], "name"), Some(&json(r#""owner1/repo1""#)));
    assert_eq!(get(&repos[0], "stars"), Some(&json("100")));
    assert_eq!(get(&repos[0], "url"), Some(&json(r#""https://github.com/owner1/repo1""#)));
    assert!(get(&repos[0], "extra_field").is_none());
    assert!(get(&repos[0], "full_name").is_none());
    assert_eq!(get(&repos[1], "name"), Some(&json(r#""owner2/repo2""#)));
    assert_eq!(get(&repos[1], "stars"), Some(&json("200")));
}

#[test]
fn test_output_transform_coalesce() {
    let ms = mappings(vec![(
        "url",
        FieldSource::Coalesce(vec!["$.pdf_url".to_string(), "$.web_url".to_string(), "$.fallback".to_string()]),
    )]);
    let result = apply_output_transform(&ms, &json(r#"{"pdf_url": "http://pdf.example.com"}"#)).unwrap();
    assert_eq!(get(&result, "url"), Some(&json(r#""http://pdf.example.com""#)));
    let result = apply_output_transform(&ms, &json(r#"{"pdf_url": null, "web_url": "http://web.example.com"}"#)).unwrap();
    assert_eq!(get(&result, "url"), Some(&json(r#""http://web.example.com""#)));
}

#[test]
fn test_output_transform_literal() {
    let ms = mappings(vec![
        ("source", FieldSource::Literal(JsonValue::String("arxiv".to_string()))),
        ("relevance", FieldSource::Literal(JsonValue::Number(JsonNumber::Float("0.85".to_string())))),
    ]);
    let result = apply_output_transform(&ms, &json("{}")).unwrap();
    assert_eq!(get(&result, "source"), Some(&json(r#""arxiv""#)));
    assert_eq!(get(&result, "relevance"), Some(&json("0.85")));
}

#[test]
fn output_transform_template_concat_nested_and_bad_paths() {
    let ms = mappings(vec![
        (
            "greeting",
            FieldSource::Template { template: "Hi {n}".to_string(), vars: vec![("n".to_string(), "$.name".to_string())] },
        ),
        ("tags", FieldSource::Concat { paths: vec!["$.a".to_string(), "$.x".to_string(), "$.b".to_string()], separator: "-".to_string() }),
        ("inner", FieldSource::Nested(mappings(vec![("v", path("$.a"))]))),
    ]);
    let result = apply_output_transform(&ms, &json(r#"{"name": "Ada", "a": "p", "b": "q"}"#)).unwrap();
    let expected = JsonValue::Object(vec![
        ("greeting".to_string(), json(r#""Hi Ada""#)),
        ("tags".to_string(), json(r#""p-q""#)),
        ("inner".to_string(), json(r#"{"v": "p"}"#)),
    ]);
    assert_eq!(result, expected);
    let bad = mappings(vec![("ok", path("$.a")), ("bad", FieldSource::Nested(mappings(vec![("v", path("$["))])))]);
    match check_output_paths(&bad) {
        Err(RegistryError::InvalidJsonPath { path, .. }) => assert_eq!(path, "$["),
        other => panic!("expected InvalidJsonPath, got {:?}", other),
    }
    assert!(apply_output_transform(&bad, &json("{}")).is_err());
}

#[test]
fn tool_call_answers() {
    let text = |t: &str| ToolCallReply::CallResult(CallToolResult {
        content: vec![ContentItem::Other, ContentItem::Text(t.to_string())],
        structured_content: None,
        is_error: None,
    });
    assert_eq!(tool_call_answer(&text(r#"{"a": 1}"#)).unwrap(), json(r#"{"a": 1}"#));
    assert_eq!(tool_call_answer(&text("plain")).unwrap(), JsonValue::String("plain".to_string()));
    let empty = ToolCallReply::CallResult(CallToolResult { content: vec![], structured_content: None, is_error: None });
    assert_eq!(tool_call_answer(&empty).unwrap(), JsonValue::Null);
    assert_eq!(tool_call_answer(&ToolCallReply::Error("boom".to_string())), Err("Tool call failed: boom".to_string()));
    assert_eq!(tool_call_answer(&ToolCallReply::NoResponse), Err("No response from tool call".to_string()));
    assert_eq!(
        tool_call_answer(&ToolCallReply::Unexpected),
        Err("Unexpected response type from tool call".to_string())
    );
}

#[test]
fn call_results_are_transformed_when_possible() {
    let ms = mappings(vec![("city", path("$.location.city"))]);
    let result = CallToolResult {
        content: vec![ContentItem::Text(r#"{"location": {"city": "Oslo"}}"#.to_string())],
        structured_content: None,
        is_error: Some(false),
    };
    let t = transform_call_tool_result(&result, &ms).unwrap();
    assert_eq!(t.structured_content, Some(json(r#"{"city": "Oslo"}"#)));
    assert_eq!(t.is_error, Some(false));
    match &t.content[..] {
        [ContentItem::Text(s)] => assert_eq!(s, "{\n  \"city\": \"Oslo\"\n}"),
        _ => panic!("expected one text item"),
    }
    let not_json = CallToolResult { content: vec![ContentItem::Text("nope".to_string())], structured_content: None, is_error: None };
    assert!(transform_call_tool_result(&not_json, &ms).is_none());
    let kept = transform_server_message(not_json, Some(&ms));
    assert!(matches!(&kept.content[..], [ContentItem::Text(s)] if s == "nope"));
    let untouched = transform_server_message(result, None);
    assert_eq!(untouched.structured_content, None);
}
