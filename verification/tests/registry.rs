use agentgateway::json::JsonValue;
use agentgateway::registry::{CompositionSpec, Registry, SourceTool, ToolDefinition, ToolImplementation};
use agentgateway::relay::inject_defaults;

fn s(x: &str) -> JsonValue {
    JsonValue::String(x.to_string())
}

fn obj(members: Vec<(&str, JsonValue)>) -> JsonValue {
    JsonValue::Object(members.into_iter().map(|(k, v)| (k.to_string(), v)).collect())
}

fn source_of(def: &ToolDefinition) -> &SourceTool {
    def.source_tool().expect("a virtual tool")
}

fn with_default(def: ToolDefinition, key: &str, value: JsonValue) -> ToolDefinition {
    let ToolDefinition {
        name,
        description,
        implementation,
        output_transform,
        input_schema,
        output_schema,
        version,
        metadata,
        tags,
        deprecated,
        depends,
    } = def;
    let implementation = match implementation {
        ToolImplementation::Source(st) => ToolImplementation::Source(st.with_default(key.to_string(), value)),
        other => other,
    };
    ToolDefinition {
        name,
        description,
        implementation,
        output_transform,
        input_schema,
        output_schema,
        version,
        metadata,
        tags,
        deprecated,
        depends,
    }
}

fn get<'a>(v: &'a JsonValue, key: &str) -> Option<&'a JsonValue> {
    v.get(key)
}

#[test]
fn test_builder_source_tool() {
    let tool = ToolDefinition::source("my_tool".to_string(), "backend".to_string(), "original".to_string())
        .with_description("A test tool".to_string());

    assert_eq!(tool.name, "my_tool");
    assert_eq!(tool.description, Some("A test tool".to_string()));
}

#[test]
fn test_builder_composition_tool() {
    let spec = CompositionSpec { pattern_name: "pipeline".to_string(), referenced_tools: vec!["search".to_string()] };

    let tool = ToolDefinition::composition("my_composition".to_string(), spec)
        .with_description("A composition".to_string());

    assert!(tool.is_composition());
    assert_eq!(tool.referenced_tools(), vec!["search".to_string()]);
}

#[test]
fn test_registry_methods() {
    let empty = Registry::new();
    assert!(empty.is_empty());
    assert_eq!(empty.len(), 0);

    let with_tools =
        Registry::with_tool_definitions(vec![ToolDefinition::source("tool1".to_string(), "t".to_string(), "t1".to_string())]);
    assert!(!with_tools.is_empty());
    assert_eq!(with_tools.len(), 1);
}

#[test]
fn registry_defaults_to_schema_version_one() {
    assert_eq!(Registry::new().schema_version, "1.0");
}

#[test]
fn test_inject_defaults() {
    let tool = ToolDefinition::source("get_weather".to_string(), "weather".to_string(), "fetch_weather".to_string());
    let tool = with_default(tool, "units", s("metric"));
    let tool = with_default(tool, "format", s("json"));

    let args = obj(vec![("city", s("Seattle"))]);
    let result = inject_defaults(args, &source_of(&tool).defaults).unwrap();

    assert_eq!(get(&result, "city"), Some(&s("Seattle")));
    assert_eq!(get(&result, "units"), Some(&s("metric")));
    assert_eq!(get(&result, "format"), Some(&s("json")));
}

#[test]
fn test_inject_defaults_does_not_override() {
    let tool = ToolDefinition::source("get_weather".to_string(), "weather".to_string(), "fetch_weather".to_string());
    let tool = with_default(tool, "units", s("metric"));

    let args = obj(vec![("city", s("Seattle")), ("units", s("imperial"))]);
    let result = inject_defaults(args, &source_of(&tool).defaults).unwrap();

    assert_eq!(get(&result, "units"), Some(&s("imperial")));
}

#[test]
fn with_default_replaces_an_earlier_default() {
    let st = SourceTool {
        target: "t".to_string(),
        tool: "x".to_string(),
        defaults: vec![],
        hide_fields: vec![],
        server_version: None,
    };
    let st = st.with_default("k".to_string(), s("a")).with_default("k".to_string(), s("b"));
    assert_eq!(st.defaults, vec![("k".to_string(), s("b"))]);
    let st = st.with_hidden_fields(vec!["secret".to_string()]);
    assert_eq!(st.hide_fields, vec!["secret".to_string()]);
}

#[test]
fn source_tool_accessors() {
    let tool = ToolDefinition::source("a".to_string(), "b".to_string(), "c".to_string());
    assert!(tool.is_source());
    assert!(!tool.is_composition());
    assert!(tool.referenced_tools().is_empty());
    let st = source_of(&tool);
    assert_eq!(st.target, "b");
    assert_eq!(st.tool, "c");
}
