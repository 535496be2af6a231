use agentgateway::registry::{Dependency, DependencyType, Registry, SourceTool, ToolDefinition, ToolImplementation};
use agentgateway::runtime_hooks::{CallerIdentity, DependencyCheckResult, RuntimeHooks};

fn tool_with_deps(name: &str, deps: Vec<(&str, DependencyType)>) -> ToolDefinition {
    ToolDefinition {
        name: name.to_string(),
        description: None,
        implementation: ToolImplementation::Source(SourceTool {
            target: "backend".to_string(),
            tool: name.to_string(),
            defaults: Vec::new(),
            hide_fields: Vec::new(),
            server_version: None,
        }),
        output_transform: None,
        input_schema: None,
        output_schema: None,
        version: Some("1.0.0".to_string()),
        metadata: Vec::new(),
        tags: Vec::new(),
        deprecated: None,
        depends: deps
            .into_iter()
            .map(|(dep_name, dep_type)| Dependency { dep_type, name: dep_name.to_string(), version: None, skill: None })
            .collect(),
    }
}

fn tool_with_versioned_dep(name: &str, dep_name: &str, version: &str) -> ToolDefinition {
    let mut tool = tool_with_deps(name, vec![]);
    tool.depends = vec![Dependency {
        dep_type: DependencyType::Tool,
        name: dep_name.to_string(),
        version: Some(version.to_string()),
        skill: None,
    }];
    tool
}

fn simple_tool(name: &str) -> ToolDefinition {
    tool_with_deps(name, vec![])
}

fn caller_with_deps(deps: &[&str]) -> CallerIdentity {
    CallerIdentity {
        agent_name: Some("test-agent".to_string()),
        agent_version: Some("1.0.0".to_string()),
        declared_deps: deps.iter().map(|s| s.to_string()).collect(),
    }
}

fn anonymous_caller() -> CallerIdentity {
    CallerIdentity::default()
}

fn registry(tools: Vec<ToolDefinition>) -> Registry {
    Registry {
        schema_version: "2.0".to_string(),
        tools,
        schemas: vec![],
        servers: vec![],
        agents: vec![],
        metadata: Vec::new(),
    }
}

#[test]
fn test_pre_call_check_missing_dependency_declaration() {
    let registry = registry(vec![
        tool_with_deps("research", vec![("search", DependencyType::Tool)]),
        simple_tool("search"),
    ]);
    let hooks = RuntimeHooks::new(&registry);
    let caller = caller_with_deps(&[]);
    let result = hooks.check_pre_call_dependencies("research", &caller);
    assert!(
        matches!(result, DependencyCheckResult::UndeclaredDependency { .. }),
        "Expected UndeclaredDependency, got {:?}",
        result
    );
}

#[test]
fn test_pre_call_check_passes_when_deps_declared() {
    let registry = registry(vec![
        tool_with_deps("research", vec![("search", DependencyType::Tool)]),
        simple_tool("search"),
    ]);
    let hooks = RuntimeHooks::new(&registry);
    let caller = caller_with_deps(&["search", "research"]);
    let result = hooks.check_pre_call_dependencies("research", &caller);
    assert_eq!(result, DependencyCheckResult::Satisfied);
}

#[test]
fn test_pre_call_check_transitive_dependencies() {
    let registry = registry(vec![
        tool_with_deps("tool_a", vec![("tool_b", DependencyType::Tool)]),
        tool_with_deps("tool_b", vec![("tool_c", DependencyType::Tool)]),
        simple_tool("tool_c"),
    ]);
    let hooks = RuntimeHooks::new(&registry);
    let caller = caller_with_deps(&["tool_a", "tool_b"]);
    let result = hooks.check_pre_call_dependencies("tool_a", &caller);
    assert!(
        matches!(&result, DependencyCheckResult::UndeclaredDependency { dependency, .. } if dependency == "tool_c"),
        "Expected UndeclaredDependency for tool_c, got {:?}",
        result
    );
}

#[test]
fn test_pre_call_check_missing_tool_in_registry() {
    let registry = registry(vec![tool_with_deps("broken", vec![("nonexistent", DependencyType::Tool)])]);
    let hooks = RuntimeHooks::new(&registry);
    let caller = caller_with_deps(&["broken", "nonexistent"]);
    let result = hooks.check_pre_call_dependencies("broken", &caller);
    assert!(
        matches!(result, DependencyCheckResult::MissingDependency { .. }),
        "Expected MissingDependency, got {:?}",
        result
    );
}

#[test]
fn test_pre_call_check_version_mismatch() {
    let mut search_tool = simple_tool("search");
    search_tool.version = Some("1.0.0".to_string());
    let registry = registry(vec![tool_with_versioned_dep("research", "search", ">=2.0.0"), search_tool]);
    let hooks = RuntimeHooks::new(&registry);
    let caller = caller_with_deps(&["research", "search"]);
    let result = hooks.check_pre_call_dependencies("research", &caller);
    assert!(
        matches!(result, DependencyCheckResult::VersionMismatch { .. }),
        "Expected VersionMismatch, got {:?}",
        result
    );
}

#[test]
fn test_pre_call_anonymous_caller_can_call_leaf_tools() {
    let registry = registry(vec![
        simple_tool("leaf_tool"),
        tool_with_deps("complex_tool", vec![("leaf_tool", DependencyType::Tool)]),
    ]);
    let hooks = RuntimeHooks::new(&registry);
    let caller = anonymous_caller();
    let result = hooks.check_pre_call_dependencies("leaf_tool", &caller);
    assert_eq!(result, DependencyCheckResult::Satisfied, "Anonymous should call leaf tools");
    let result = hooks.check_pre_call_dependencies("complex_tool", &caller);
    assert!(
        !matches!(result, DependencyCheckResult::Satisfied),
        "Anonymous should not call tools with undeclared dependencies"
    );
}

#[test]
fn test_visibility_filters_by_declared_deps() {
    let registry = registry(vec![
        simple_tool("search"),
        simple_tool("fetch"),
        simple_tool("summarize"),
        tool_with_deps("research", vec![("search", DependencyType::Tool)]),
    ]);
    let hooks = RuntimeHooks::new(&registry);
    let caller = caller_with_deps(&["search", "research"]);
    let visible = hooks.get_visible_tools(&caller);
    let visible_names: Vec<&str> = visible.iter().map(|t| t.name.as_str()).collect();
    assert!(visible_names.contains(&"search"), "Should see declared dep 'search'");
    assert!(visible_names.contains(&"research"), "Should see declared dep 'research'");
    assert!(!visible_names.contains(&"fetch"), "Should NOT see undeclared 'fetch'");
    assert!(!visible_names.contains(&"summarize"), "Should NOT see undeclared 'summarize'");
}

#[test]
fn test_visibility_anonymous_sees_all() {
    let registry = registry(vec![simple_tool("search"), simple_tool("fetch"), simple_tool("summarize")]);
    let hooks = RuntimeHooks::new(&registry);
    let caller = anonymous_caller();
    let visible = hooks.get_visible_tools(&caller);
    assert_eq!(visible.len(), 3, "Anonymous should see all tools");
}

#[test]
fn test_visibility_single_tool_check() {
    let registry = registry(vec![simple_tool("search"), simple_tool("secret_tool")]);
    let hooks = RuntimeHooks::new(&registry);
    let caller = caller_with_deps(&["search"]);
    let search_vis = hooks.is_tool_visible("search", &caller);
    let secret_vis = hooks.is_tool_visible("secret_tool", &caller);
    assert!(search_vis.visible, "Should see declared 'search'");
    assert!(!secret_vis.visible, "Should NOT see undeclared 'secret_tool'");
    assert!(secret_vis.reason.is_some(), "Should have reason for invisibility");
}

#[test]
fn test_resolve_dependency_order_simple() {
    let registry = registry(vec![
        tool_with_deps("tool_a", vec![("tool_b", DependencyType::Tool)]),
        tool_with_deps("tool_b", vec![("tool_c", DependencyType::Tool)]),
        simple_tool("tool_c"),
    ]);
    let hooks = RuntimeHooks::new(&registry);
    let order = hooks.resolve_dependency_order("tool_a").unwrap();
    let c_idx = order.iter().position(|n| n == "tool_c");
    let b_idx = order.iter().position(|n| n == "tool_b");
    let a_idx = order.iter().position(|n| n == "tool_a");
    assert!(c_idx.is_some() && b_idx.is_some() && a_idx.is_some());
    assert!(c_idx.unwrap() < b_idx.unwrap(), "C should come before B");
    assert!(b_idx.unwrap() < a_idx.unwrap(), "B should come before A");
}

#[test]
fn test_resolve_dependency_order_diamond() {
    let registry = registry(vec![
        tool_with_deps("tool_a", vec![("tool_b", DependencyType::Tool), ("tool_c", DependencyType::Tool)]),
        tool_with_deps("tool_b", vec![("tool_d", DependencyType::Tool)]),
        tool_with_deps("tool_c", vec![("tool_d", DependencyType::Tool)]),
        simple_tool("tool_d"),
    ]);
    let hooks = RuntimeHooks::new(&registry);
    let order = hooks.resolve_dependency_order("tool_a").unwrap();
    let d_idx = order.iter().position(|n| n == "tool_d").unwrap();
    let b_idx = order.iter().position(|n| n == "tool_b").unwrap();
    let c_idx = order.iter().position(|n| n == "tool_c").unwrap();
    let a_idx = order.iter().position(|n| n == "tool_a").unwrap();
    assert!(d_idx < b_idx, "D should come before B");
    assert!(d_idx < c_idx, "D should come before C");
    assert!(d_idx < a_idx, "D should come before A");
    assert!(a_idx > b_idx && a_idx > c_idx, "A should come after B and C");
}

#[test]
fn test_resolve_dependency_order_handles_cycle() {
    let registry = registry(vec![
        tool_with_deps("tool_a", vec![("tool_b", DependencyType::Tool)]),
        tool_with_deps("tool_b", vec![("tool_a", DependencyType::Tool)]),
    ]);
    let hooks = RuntimeHooks::new(&registry);
    let result = hooks.resolve_dependency_order("tool_a");
    assert!(result.is_err(), "Cycle should return error, not hang");
}

#[test]
fn test_create_context_includes_caller_info() {
    let registry = registry(vec![]);
    let hooks = RuntimeHooks::new(&registry);
    let caller = CallerIdentity {
        agent_name: Some("my-agent".to_string()),
        agent_version: Some("1.0.0".to_string()),
        declared_deps: ["search", "fetch"].iter().map(|s| s.to_string()).collect(),
    };
    let ctx = hooks.create_context(caller.clone());
    assert_eq!(ctx.caller.agent_name, Some("my-agent".to_string()));
    assert_eq!(ctx.registry_version, "2.0");
    assert!(ctx.caller.declared_deps.contains(&"search".to_string()));
}

// ---------------------------------------------------------------------------
// Exact answers
// ---------------------------------------------------------------------------

#[test]
fn unknown_tool_is_not_accessible() {
    let registry = registry(vec![simple_tool("search")]);
    let hooks = RuntimeHooks::new(&registry);
    let result = hooks.check_pre_call_dependencies("nope", &anonymous_caller());
    assert_eq!(
        result,
        DependencyCheckResult::ToolNotAccessible {
            tool: "nope".to_string(),
            reason: "tool 'nope' not found in registry".to_string()
        }
    );
}

#[test]
fn undeclared_tool_is_not_accessible() {
    let registry = registry(vec![simple_tool("search"), simple_tool("secret")]);
    let hooks = RuntimeHooks::new(&registry);
    let result = hooks.check_pre_call_dependencies("secret", &caller_with_deps(&["search"]));
    assert_eq!(
        result,
        DependencyCheckResult::ToolNotAccessible {
            tool: "secret".to_string(),
            reason: "tool 'secret' is not among the caller's declared dependencies".to_string()
        }
    );
}

#[test]
fn transitive_undeclared_names_the_depending_tool() {
    let registry = registry(vec![
        tool_with_deps("tool_a", vec![("tool_b", DependencyType::Tool)]),
        tool_with_deps("tool_b", vec![("tool_c", DependencyType::Tool)]),
        simple_tool("tool_c"),
    ]);
    let hooks = RuntimeHooks::new(&registry);
    let result = hooks.check_pre_call_dependencies("tool_a", &caller_with_deps(&["tool_a", "tool_b"]));
    assert_eq!(
        result,
        DependencyCheckResult::UndeclaredDependency {
            tool: "tool_b".to_string(),
            dependency: "tool_c".to_string(),
            dep_type: DependencyType::Tool
        }
    );
}

#[test]
fn version_mismatch_reports_required_and_available() {
    let registry = registry(vec![tool_with_versioned_dep("research", "search", ">=2.0.0"), simple_tool("search")]);
    let hooks = RuntimeHooks::new(&registry);
    let result = hooks.check_pre_call_dependencies("research", &caller_with_deps(&["research", "search"]));
    assert_eq!(
        result,
        DependencyCheckResult::VersionMismatch {
            tool: "research".to_string(),
            dependency: "search".to_string(),
            required: ">=2.0.0".to_string(),
            available: "1.0.0".to_string()
        }
    );
}

#[test]
fn dependency_order_of_a_chain_is_exact() {
    let registry = registry(vec![
        tool_with_deps("tool_a", vec![("tool_b", DependencyType::Tool)]),
        tool_with_deps("tool_b", vec![("tool_c", DependencyType::Tool)]),
        simple_tool("tool_c"),
        simple_tool("unrelated"),
    ]);
    let hooks = RuntimeHooks::new(&registry);
    assert_eq!(
        hooks.resolve_dependency_order("tool_a").unwrap(),
        vec!["tool_c".to_string(), "tool_b".to_string(), "tool_a".to_string()]
    );
}

#[test]
fn dependency_cycle_message() {
    let registry = registry(vec![
        tool_with_deps("tool_a", vec![("tool_b", DependencyType::Tool)]),
        tool_with_deps("tool_b", vec![("tool_a", DependencyType::Tool)]),
    ]);
    let hooks = RuntimeHooks::new(&registry);
    assert_eq!(
        hooks.resolve_dependency_order("tool_a"),
        Err("dependency cycle detected: tool_a -> tool_b -> tool_a".to_string())
    );
}

#[test]
fn unknown_tool_resolves_to_itself() {
    let registry = registry(vec![]);
    let hooks = RuntimeHooks::new(&registry);
    assert_eq!(hooks.resolve_dependency_order("x"), Ok(vec!["x".to_string()]));
}

#[test]
fn invisible_tool_reason_text() {
    let registry = registry(vec![simple_tool("a")]);
    let hooks = RuntimeHooks::new(&registry);
    let v = hooks.is_tool_visible("a", &caller_with_deps(&["b"]));
    assert_eq!(v.reason, Some("tool 'a' is not among the caller's declared dependencies".to_string()));
}
