use agentgateway::json::JsonValue;
use agentgateway::registry::{CompositionSpec, Registry, SourceTool, ToolDefinition, ToolImplementation};
use agentgateway::registry_error::RegistryError;
use agentgateway::relay::{
    denies_all, expose_tools, inject_defaults, merge_prompts, merge_resource_templates, merge_resources, parse_resource_name, resolve_tool_call, resource_name, ListedTool,
    ResolvedToolCall, UnknownCallerPolicy,
};

fn obj(members: Vec<(&str, JsonValue)>) -> JsonValue {
    JsonValue::Object(members.into_iter().map(|(k, v)| (k.to_string(), v)).collect())
}

fn s(x: &str) -> JsonValue {
    JsonValue::String(x.to_string())
}

#[test]
fn resource_names() {
    assert_eq!(resource_name(None, "github", "search"), "github_search");
    assert_eq!(resource_name(Some(&"github".to_string()), "github", "search"), "search");
    assert_eq!(resource_name(None, "_composition", "research"), "research");
}

#[test]
fn resource_name_round_trip() {
    let name = resource_name(None, "github", "search_code");
    assert_eq!(parse_resource_name(None, &name), Ok(("github".to_string(), "search_code".to_string())));
    assert_eq!(parse_resource_name(None, "nodelimiter"), Err("invalid resource name".to_string()));
    assert_eq!(
        parse_resource_name(Some(&"main".to_string()), "a_b"),
        Ok(("main".to_string(), "a_b".to_string()))
    );
}

#[test]
fn unknown_caller_policy() {
    assert_eq!(UnknownCallerPolicy::default(), UnknownCallerPolicy::AllowAll);
    assert!(denies_all(false, false, UnknownCallerPolicy::DenyAll));
    assert!(denies_all(true, false, UnknownCallerPolicy::DenyAll));
    assert!(!denies_all(true, true, UnknownCallerPolicy::DenyAll));
    assert!(!denies_all(false, false, UnknownCallerPolicy::AllowUnregistered));
    assert!(!denies_all(false, false, UnknownCallerPolicy::AllowAll));
}

fn listed(server: &str, name: &str, allowed: bool) -> ListedTool {
    ListedTool { server: server.to_string(), name: name.to_string(), allowed }
}

#[test]
fn exposed_tools_are_filtered_and_renamed() {
    let tools = vec![listed("gh", "search", true), listed("gh", "delete", false), listed("_composition", "research", true)];
    assert_eq!(
        expose_tools(&tools, false, None, None),
        vec![(0, "gh_search".to_string()), (2, "research".to_string())]
    );
    let deps = vec!["research".to_string()];
    assert_eq!(expose_tools(&tools, false, Some(&deps), None), vec![(2, "research".to_string())]);
    assert!(expose_tools(&tools, true, None, None).is_empty());
}

fn virtual_tool(name: &str, target: &str, tool: &str, defaults: Vec<(&str, JsonValue)>) -> ToolDefinition {
    let mut t = ToolDefinition::source(name.to_string(), target.to_string(), tool.to_string());
    if let ToolImplementation::Source(ref mut src) = t.implementation {
        src.defaults = defaults.into_iter().map(|(k, v)| (k.to_string(), v)).collect();
    }
    t
}

#[test]
fn resolve_virtual_tool_injects_defaults() {
    let reg = Registry::with_tool_definitions(vec![virtual_tool("find", "catalog", "search_products", vec![("limit", s("10")), ("q", s("x"))])]);
    let r = resolve_tool_call(Some(&reg), None, "catalog_find", obj(vec![("q", s("shoes"))]), &vec![]).unwrap();
    match r {
        ResolvedToolCall::Backend { target, tool_name, args, virtual_name } => {
            assert_eq!(target, "catalog");
            assert_eq!(tool_name, "search_products");
            assert_eq!(args, obj(vec![("q", s("shoes")), ("limit", s("10"))]));
            assert_eq!(virtual_name, Some("find".to_string()));
        },
        other => panic!("unexpected {:?}", other),
    }
}

#[test]
fn resolve_defaults_need_object_arguments() {
    let reg = Registry::with_tool_definitions(vec![virtual_tool("find", "catalog", "search", vec![("limit", s("10"))])]);
    let r = resolve_tool_call(Some(&reg), None, "find", JsonValue::Null, &vec![]);
    assert_eq!(r.unwrap_err(), "schema validation error: arguments must be an object");
    assert_eq!(
        inject_defaults(JsonValue::Null, &vec![("k".to_string(), s("v"))]),
        Err(RegistryError::SchemaValidation("arguments must be an object".to_string()))
    );
    assert_eq!(inject_defaults(JsonValue::Null, &vec![]), Ok(JsonValue::Null));
}

#[test]
fn resolve_composition_and_plain_backend_tools() {
    let comp = ToolDefinition::composition(
        "research".to_string(),
        CompositionSpec { pattern_name: "pipeline".to_string(), referenced_tools: vec![] },
    );
    let reg = Registry::with_tool_definitions(vec![comp]);
    match resolve_tool_call(Some(&reg), None, "research", obj(vec![]), &vec![]).unwrap() {
        ResolvedToolCall::Composition { name, .. } => assert_eq!(name, "research"),
        other => panic!("unexpected {:?}", other),
    }
    match resolve_tool_call(Some(&reg), None, "github_search", s("a"), &vec![]).unwrap() {
        ResolvedToolCall::Backend { target, tool_name, args, virtual_name } => {
            assert_eq!((target.as_str(), tool_name.as_str()), ("github", "search"));
            assert_eq!(args, s("a"));
            assert_eq!(virtual_name, None);
        },
        other => panic!("unexpected {:?}", other),
    }
    assert_eq!(resolve_tool_call(None, None, "nodelim", JsonValue::Null, &vec![]).unwrap_err(), "invalid resource name");
}

#[test]
fn resolve_virtual_tool_expands_environment_in_defaults() {
    let reg = Registry::with_tool_definitions(vec![virtual_tool(
        "find",
        "catalog",
        "search",
        vec![("token", s("Bearer ${API_TOKEN}")), ("q", s("${UNSET_VAR}"))],
    )]);
    let env = vec![("API_TOKEN".to_string(), Some("abc".to_string()))];
    match resolve_tool_call(Some(&reg), None, "find", obj(vec![("q", s("given"))]), &env).unwrap() {
        ResolvedToolCall::Backend { args, .. } => {
            assert_eq!(args, obj(vec![("q", s("given")), ("token", s("Bearer abc"))]));
        },
        other => panic!("unexpected {:?}", other),
    }
    let missing = vec![("API_TOKEN".to_string(), None)];
    assert_eq!(
        resolve_tool_call(Some(&reg), None, "find", obj(vec![("q", s("given"))]), &missing).unwrap_err(),
        "environment variable 'API_TOKEN' not found"
    );
    // Once `q` is not given, its default is filled in and its unset variable is reported.
    assert_eq!(
        resolve_tool_call(Some(&reg), None, "find", obj(vec![]), &env).unwrap_err(),
        "environment variable 'UNSET_VAR' not found"
    );
}

#[test]
fn prompts_and_resources_are_filtered_by_policy() {
    let items = vec![listed("gh", "greet", true), listed("gh", "secret", false), listed("docs", "intro", true)];
    assert_eq!(merge_prompts(&items, None), vec![(0, "gh_greet".to_string()), (2, "docs_intro".to_string())]);
    assert_eq!(
        merge_prompts(&items, Some(&"gh".to_string())),
        vec![(0, "greet".to_string()), (2, "intro".to_string())]
    );
    assert_eq!(merge_resources(&items), vec![0, 2]);
    assert_eq!(merge_resource_templates(&vec![listed("a", "file:///{x}", false)]), Vec::<usize>::new());
}
