use agentgateway::compiled::{effective_schema, env_references, expand_env, json_candidates, BackendTool, CompiledRegistry, ListingOrigin};
use agentgateway::json::JsonValue;
use agentgateway::registry::{CompositionSpec, Registry, SourceTool, ToolDefinition, ToolImplementation};
use agentgateway::registry_error::RegistryError;
use agentgateway::relay::{expose_tools, offered_tools};

fn s(x: &str) -> JsonValue {
    JsonValue::String(x.to_string())
}

fn obj(members: Vec<(&str, JsonValue)>) -> JsonValue {
    JsonValue::Object(members.into_iter().map(|(k, v)| (k.to_string(), v)).collect())
}

fn members(v: JsonValue) -> Vec<(String, JsonValue)> {
    match v {
        JsonValue::Object(m) => m,
        _ => panic!("not an object"),
    }
}

fn virtual_tool(name: &str, target: &str, tool: &str) -> ToolDefinition {
    ToolDefinition::source(name.to_string(), target.to_string(), tool.to_string())
}

fn map_source(def: ToolDefinition, f: impl FnOnce(SourceTool) -> SourceTool) -> ToolDefinition {
    let mut def = def;
    def.implementation = match def.implementation {
        ToolImplementation::Source(st) => ToolImplementation::Source(f(st)),
        other => other,
    };
    def
}

fn composition(name: &str, tools: &[&str]) -> ToolDefinition {
    ToolDefinition::composition(
        name.to_string(),
        CompositionSpec {
            pattern_name: "pipeline".to_string(),
            referenced_tools: tools.iter().map(|t| t.to_string()).collect(),
        },
    )
}

fn weather_schema() -> Vec<(String, JsonValue)> {
    members(obj(vec![
        ("type", s("object")),
        (
            "properties",
            obj(vec![
                ("city", obj(vec![("type", s("string"))])),
                ("units", obj(vec![("type", s("string"))])),
                ("debug_mode", obj(vec![("type", s("boolean"))])),
            ]),
        ),
        ("required", JsonValue::Array(vec![s("city")])),
    ]))
}

fn create_source_tool(target: &str, name: &str, description: &str) -> BackendTool {
    BackendTool {
        target: target.to_string(),
        name: name.to_string(),
        description: Some(description.to_string()),
        input_schema: weather_schema(),
        output_schema: None,
    }
}

fn compile(tools: Vec<ToolDefinition>) -> CompiledRegistry {
    CompiledRegistry::compile(Registry::with_tool_definitions(tools)).unwrap()
}

#[test]
fn test_compile_empty_registry() {
    let compiled = CompiledRegistry::compile(Registry::new()).unwrap();
    assert!(compiled.is_empty());
    assert_eq!(compiled.len(), 0);
}

#[test]
fn test_compile_simple_registry() {
    let compiled = compile(vec![virtual_tool("get_weather", "weather", "fetch_weather")]);
    assert_eq!(compiled.len(), 1);
    assert!(compiled.get_tool("get_weather").is_some());
    assert!(compiled.get_tool("nonexistent").is_none());
}

#[test]
fn test_compile_mixed_registry() {
    let compiled = compile(vec![
        virtual_tool("get_weather", "weather", "fetch_weather"),
        composition("research_pipeline", &["web_search"]),
    ]);
    assert_eq!(compiled.len(), 2);
    assert!(compiled.is_source_tool("get_weather"));
    assert!(compiled.is_composition("research_pipeline"));
}

#[test]
fn test_two_pass_forward_reference() {
    let compiled = compile(vec![
        composition("pipeline", &["normalized_search"]),
        virtual_tool("normalized_search", "search", "raw_search"),
    ]);
    assert_eq!(compiled.len(), 2);
    assert!(compiled.is_composition("pipeline"));
    assert!(compiled.is_source_tool("normalized_search"));
}

#[test]
fn test_is_virtualized() {
    let compiled = compile(vec![virtual_tool("get_weather", "weather", "fetch_weather")]);
    assert!(compiled.is_virtualized("weather", "fetch_weather"));
    assert!(!compiled.is_virtualized("weather", "other_tool"));
    assert!(!compiled.is_virtualized("other_backend", "fetch_weather"));
}

#[test]
fn test_transform_tools_replaces_virtualized() {
    let tool = virtual_tool("get_weather", "weather", "fetch_weather").with_description("Get weather info".to_string());
    let compiled = compile(vec![tool]);

    let backend_tools = vec![create_source_tool("weather", "fetch_weather", "Original description")];
    let result = compiled.transform_tools(&backend_tools);

    let virtual_tools: Vec<_> = result.iter().filter(|t| t.target == "weather").collect();
    assert_eq!(virtual_tools.len(), 1);
    assert_eq!(virtual_tools[0].name, "get_weather");
    assert_eq!(virtual_tools[0].description.as_deref(), Some("Get weather info"));
    assert_eq!(virtual_tools[0].origin, ListingOrigin::Virtual { backend_index: 0 });
}

#[test]
fn test_transform_tools_passthrough_non_virtualized() {
    let compiled = compile(vec![virtual_tool("get_weather", "weather", "fetch_weather")]);
    let backend_tools = vec![
        create_source_tool("weather", "fetch_weather", "Weather"),
        create_source_tool("weather", "other_tool", "Other"),
    ];
    let result = compiled.transform_tools(&backend_tools);
    let names: Vec<_> = result.iter().map(|t| t.name.as_str()).collect();
    assert!(names.contains(&"get_weather"));
    assert!(names.contains(&"other_tool"));
    assert!(!names.contains(&"fetch_weather"));
}

#[test]
fn test_hide_fields_in_schema() {
    let tool = map_source(virtual_tool("get_weather", "weather", "fetch_weather"), |st| {
        st.with_hidden_fields(vec!["debug_mode".to_string()])
    });
    let compiled = compile(vec![tool]);
    let result = compiled.transform_tools(&vec![create_source_tool("weather", "fetch_weather", "Weather")]);
    let schema = JsonValue::Object(result.into_iter().next().unwrap().input_schema);
    let props = schema.get("properties").unwrap();
    assert!(props.get("city").is_some());
    assert!(props.get("units").is_some());
    assert!(props.get("debug_mode").is_none());
}

#[test]
fn hidden_fields_leave_required() {
    let hide = vec!["city".to_string()];
    let schema = effective_schema(&None, &weather_schema(), &hide);
    let schema = JsonValue::Object(schema);
    assert_eq!(schema.get("required"), Some(&JsonValue::Array(vec![])));
    assert!(schema.get("properties").unwrap().get("city").is_none());
}

#[test]
fn own_input_schema_overrides_source() {
    let own = Some(obj(vec![("type", s("object"))]));
    let schema = effective_schema(&own, &weather_schema(), &vec!["city".to_string()]);
    assert_eq!(schema, members(obj(vec![("type", s("object"))])));
    // A schema that is not an object does not override.
    let schema = effective_schema(&Some(s("x")), &weather_schema(), &vec![]);
    assert_eq!(schema, weather_schema());
}

#[test]
fn compositions_are_listed_last() {
    let compiled = compile(vec![composition("research", &["a"]), virtual_tool("v", "b", "t")]);
    let result = compiled.transform_tools(&vec![create_source_tool("x", "plain", "P")]);
    assert_eq!(result.len(), 2);
    assert_eq!(result[0].name, "plain");
    assert_eq!(result[0].origin, ListingOrigin::Passthrough { backend_index: 0 });
    assert_eq!(result[1].target, "_composition");
    assert_eq!(result[1].name, "research");
    assert_eq!(result[1].origin, ListingOrigin::Composition);
    assert!(result[1].input_schema.is_empty());
}

#[test]
fn test_prepare_call_args() {
    let tool = map_source(virtual_tool("get_weather", "weather", "fetch_weather"), |st| {
        st.with_default("units".to_string(), s("metric"))
    });
    let compiled = compile(vec![tool]);

    let (target, tool_name, transformed) =
        compiled.prepare_call_args("get_weather", obj(vec![("city", s("Seattle"))])).unwrap();

    assert_eq!(target, "weather");
    assert_eq!(tool_name, "fetch_weather");
    assert_eq!(transformed.get("city"), Some(&s("Seattle")));
    assert_eq!(transformed.get("units"), Some(&s("metric")));
}

#[test]
fn test_prepare_call_args_unknown_tool() {
    let compiled = CompiledRegistry::compile(Registry::new()).unwrap();
    let result = compiled.prepare_call_args("unknown", obj(vec![]));
    assert!(result.is_err());
    assert_eq!(result, Err(RegistryError::ToolNotFound { name: "unknown".to_string() }));
}

#[test]
fn test_prepare_call_args_composition_error() {
    let compiled = compile(vec![composition("pipeline", &[])]);
    let result = compiled.prepare_call_args("pipeline", obj(vec![]));
    assert!(result.is_err());
    assert_eq!(result, Err(RegistryError::CompositionRequiresExecutor("pipeline".to_string())));
}

#[test]
fn test_multiple_virtual_tools_same_source() {
    let tool1 = map_source(virtual_tool("weather_metric", "weather", "fetch_weather"), |st| {
        st.with_default("units".to_string(), s("metric"))
    });
    let tool2 = map_source(virtual_tool("weather_imperial", "weather", "fetch_weather"), |st| {
        st.with_default("units".to_string(), s("imperial"))
    });
    let compiled = compile(vec![tool1, tool2]);

    let names = compiled.get_virtual_names("weather", "fetch_weather").unwrap();
    assert_eq!(names.len(), 2);
    assert!(names.contains(&"weather_metric".to_string()));
    assert!(names.contains(&"weather_imperial".to_string()));
    assert_eq!(compiled.get_virtual_names("weather", "nothing"), None);
}

#[test]
fn test_duplicate_tool_name_error() {
    let registry = Registry::with_tool_definitions(vec![
        virtual_tool("duplicate", "a", "a"),
        virtual_tool("duplicate", "b", "b"),
    ]);
    let result = CompiledRegistry::compile(registry);
    assert!(result.is_err());
    assert!(matches!(result, Err(RegistryError::DuplicateToolName(n)) if n == "duplicate"));
}

#[test]
fn test_composition_resolved_references() {
    let compiled = compile(vec![composition("pipeline", &["tool_a", "tool_b"])]);
    let tool = compiled.get_tool("pipeline").unwrap();
    let refs = tool.referenced_tools();
    assert_eq!(refs.len(), 2);
    assert!(refs.contains(&"tool_a".to_string()));
    assert!(refs.contains(&"tool_b".to_string()));
}

#[test]
fn test_extract_json_from_text() {
    let text = r#"Here is the result: {"temperature": 72.5, "city": "Seattle"} and some more text"#;
    let candidates = json_candidates(text);
    let json: serde_json::Value = serde_json::from_str(&candidates[0]).unwrap();

    assert_eq!(json["temperature"], 72.5);
    assert_eq!(json["city"], "Seattle");
}

#[test]
fn test_extract_json_array_from_text() {
    let text = r#"Results: [1, 2, 3] done"#;
    let candidates = json_candidates(text);
    assert_eq!(candidates, vec!["[1, 2, 3]".to_string()]);
    let json: serde_json::Value = serde_json::from_str(&candidates[0]).unwrap();

    assert!(json.is_array());
    assert_eq!(json.as_array().unwrap().len(), 3);
}

#[test]
fn json_candidates_skip_brackets_in_strings() {
    assert_eq!(json_candidates(r#"x {"a": "}", "b": [1]} y"#), vec![
        r#"{"a": "}", "b": [1]}"#.to_string(),
        "[1]".to_string()
    ]);
    assert_eq!(json_candidates(r#"{"a": "\"}"}"#), vec![r#"{"a": "\"}"}"#.to_string()]);
    assert!(json_candidates("no json { here").is_empty());
}

#[test]
fn tool_names_in_registry_order() {
    let compiled = compile(vec![virtual_tool("b", "x", "y"), composition("a", &[])]);
    assert_eq!(compiled.tool_names(), vec!["b".to_string(), "a".to_string()]);
}

#[test]
fn env_references_are_found_in_order() {
    assert_eq!(env_references("${A}-${B_2}"), vec!["A".to_string(), "B_2".to_string()]);
    assert_eq!(env_references("no refs, ${} and ${unclosed"), Vec::<String>::new());
    assert_eq!(env_references("$${X}"), vec!["X".to_string()]);
    assert_eq!(env_references("${a${b}"), vec!["a${b".to_string()]);
}

#[test]
fn expand_env_replaces_references() {
    let vars = vec![("TEST_API_KEY_COMPILED".to_string(), "secret123".to_string())];
    assert_eq!(expand_env("${TEST_API_KEY_COMPILED}", &vars), "secret123");
    let vars = vec![("A".to_string(), "1".to_string()), ("B".to_string(), "2".to_string())];
    assert_eq!(expand_env("x${A}y${B}z${A}", &vars), "x1y2z1");
}

#[test]
fn env_references_resolve_from_looked_up_values() {
    let env = vec![("HOST".to_string(), Some("db".to_string())), ("UNSET".to_string(), None)];
    assert_eq!(agentgateway::compiled::resolve_env_string("http://${HOST}/x", &env).unwrap(), "http://db/x");
    assert_eq!(
        agentgateway::compiled::resolve_env_string("${UNSET}", &env),
        Err(RegistryError::EnvVarNotFound { name: "UNSET".to_string() })
    );
    assert_eq!(
        agentgateway::compiled::resolve_env_string("${MISSING}", &env),
        Err(RegistryError::EnvVarNotFound { name: "MISSING".to_string() })
    );
    let v = JsonValue::Array(vec![JsonValue::String("${HOST}".to_string()), JsonValue::Bool(true)]);
    assert_eq!(
        agentgateway::compiled::resolve_env_vars(&v, &env).unwrap(),
        JsonValue::Array(vec![JsonValue::String("db".to_string()), JsonValue::Bool(true)])
    );
}

#[test]
fn only_defaults_that_are_filled_in_are_resolved() {
    let env = vec![("TOKEN".to_string(), Some("t1".to_string()))];
    let defaults = vec![
        ("token".to_string(), JsonValue::String("${TOKEN}".to_string())),
        ("region".to_string(), JsonValue::String("${NOPE}".to_string())),
    ];
    let args = JsonValue::Object(vec![("region".to_string(), JsonValue::String("eu".to_string()))]);
    let resolved = agentgateway::relay::resolve_defaults(&args, &defaults, &env).unwrap();
    assert_eq!(resolved[0], ("token".to_string(), JsonValue::String("t1".to_string())));
    assert_eq!(resolved[1], ("region".to_string(), JsonValue::String("${NOPE}".to_string())));
    let empty = JsonValue::Object(vec![]);
    assert_eq!(
        agentgateway::relay::resolve_defaults(&empty, &defaults, &env),
        Err(RegistryError::EnvVarNotFound { name: "NOPE".to_string() })
    );
}

#[test]
fn listed_tools_are_offered_with_policy_answers_and_exposed() {
    let compiled = compile(vec![virtual_tool("get_weather", "weather", "fetch_weather")]);
    let backend_tools = vec![
        create_source_tool("weather", "fetch_weather", "Weather"),
        create_source_tool("weather", "other_tool", "Other"),
    ];
    let listings = compiled.transform_tools(&backend_tools);
    let answers: Vec<bool> = listings.iter().map(|l| l.name != "other_tool").collect();
    let offered = offered_tools(&listings, &answers);
    assert_eq!(offered.len(), listings.len());
    let shown = expose_tools(&offered, false, None, None);
    assert_eq!(shown, vec![(0, "weather_get_weather".to_string())]);
}
