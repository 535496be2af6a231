use agentgateway::json::JsonValue;
use agentgateway::registry::{
    Dependency, DependencyType, Registry, Schema, Server, SourceTool, ToolDefinition, ToolImplementation,
};
use agentgateway::validation::{validate_registry, RegistryValidator, ValidationError};

fn tool_with_deps(name: &str, deps: Vec<(&str, DependencyType)>) -> ToolDefinition {
    ToolDefinition {
        name: name.to_string(),
        description: None,
        implementation: ToolImplementation::Source(SourceTool {
            target: "backend".to_string(),
            tool: name.to_string(),
            defaults: Vec::new(),
            hide_fields: Vec::new(),
            server_version: None,
        }),
        output_transform: None,
        input_schema: None,
        output_schema: None,
        version: Some("1.0.0".to_string()),
        metadata: Vec::new(),
        tags: Vec::new(),
        deprecated: None,
        depends: deps
            .into_iter()
            .map(|(dep_name, dep_type)| Dependency { dep_type, name: dep_name.to_string(), version: None, skill: None })
            .collect(),
    }
}

fn tool_with_versioned_dep(name: &str, dep_name: &str, version: &str) -> ToolDefinition {
    let mut tool = tool_with_deps(name, vec![]);
    tool.depends = vec![Dependency {
        dep_type: DependencyType::Tool,
        name: dep_name.to_string(),
        version: Some(version.to_string()),
        skill: None,
    }];
    tool
}

fn deprecated_tool(name: &str, msg: &str) -> ToolDefinition {
    let mut tool = tool_with_deps(name, vec![]);
    tool.deprecated = Some(msg.to_string());
    tool
}

fn simple_tool(name: &str) -> ToolDefinition {
    tool_with_deps(name, vec![])
}

fn versioned_tool(name: &str, version: &str) -> ToolDefinition {
    let mut tool = simple_tool(name);
    tool.version = Some(version.to_string());
    tool
}

fn registry(tools: Vec<ToolDefinition>) -> Registry {
    Registry {
        schema_version: "2.0".to_string(),
        tools,
        schemas: vec![],
        servers: vec![],
        agents: vec![],
        metadata: Vec::new(),
    }
}

fn object(members: Vec<(&str, JsonValue)>) -> JsonValue {
    JsonValue::Object(members.into_iter().map(|(k, v)| (k.to_string(), v)).collect())
}

fn string(s: &str) -> JsonValue {
    JsonValue::String(s.to_string())
}

fn schema(name: &str, version: &str, body: JsonValue) -> Schema {
    Schema { name: name.to_string(), version: Some(version.to_string()), description: None, schema: body, metadata: Vec::new() }
}

#[test]
fn test_detect_simple_cycle() {
    let registry = registry(vec![
        tool_with_deps("tool_a", vec![("tool_b", DependencyType::Tool)]),
        tool_with_deps("tool_b", vec![("tool_a", DependencyType::Tool)]),
    ]);
    let result = RegistryValidator::new(&registry).validate_no_cycles();
    assert!(!result.is_ok(), "Expected cycle detection error, but validation passed");
    assert!(
        result.errors.iter().any(|e| matches!(e, ValidationError::DependencyCycle(_))),
        "Expected DependencyCycle error, got: {:?}",
        result.errors
    );
}

#[test]
fn test_detect_transitive_cycle() {
    let registry = registry(vec![
        tool_with_deps("tool_a", vec![("tool_b", DependencyType::Tool)]),
        tool_with_deps("tool_b", vec![("tool_c", DependencyType::Tool)]),
        tool_with_deps("tool_c", vec![("tool_a", DependencyType::Tool)]),
    ]);
    let result = RegistryValidator::new(&registry).validate_no_cycles();
    assert!(!result.is_ok(), "Expected cycle detection error for A->B->C->A");
    assert!(
        result.errors.iter().any(|e| matches!(e, ValidationError::DependencyCycle(_))),
        "Expected DependencyCycle error"
    );
}

#[test]
fn test_detect_self_reference_cycle() {
    let registry = registry(vec![tool_with_deps("tool_a", vec![("tool_a", DependencyType::Tool)])]);
    let result = RegistryValidator::new(&registry).validate_no_cycles();
    assert!(!result.is_ok(), "Expected cycle detection error for self-reference");
}

#[test]
fn test_no_cycle_valid_dag() {
    let registry = registry(vec![
        tool_with_deps("tool_a", vec![("tool_b", DependencyType::Tool), ("tool_c", DependencyType::Tool)]),
        tool_with_deps("tool_b", vec![("tool_d", DependencyType::Tool)]),
        tool_with_deps("tool_c", vec![("tool_d", DependencyType::Tool)]),
        simple_tool("tool_d"),
    ]);
    let result = RegistryValidator::new(&registry).validate_no_cycles();
    assert!(result.is_ok(), "Valid DAG should not have cycle errors");
}

#[test]
fn test_detect_missing_tool_dependency() {
    let registry = registry(vec![tool_with_deps("tool_a", vec![("tool_nonexistent", DependencyType::Tool)])]);
    let result = RegistryValidator::new(&registry).validate_dependencies_exist();
    assert!(!result.is_ok(), "Expected missing dependency error");
    assert!(
        result.errors.iter().any(|e| matches!(e,
            ValidationError::MissingDependency { tool, dependency, .. }
            if tool == "tool_a" && dependency == "tool_nonexistent"
        )),
        "Expected MissingDependency error for tool_nonexistent"
    );
}

#[test]
fn test_detect_missing_agent_dependency() {
    let registry = registry(vec![tool_with_deps("tool_a", vec![("agent_nonexistent", DependencyType::Agent)])]);
    let result = RegistryValidator::new(&registry).validate_dependencies_exist();
    assert!(!result.is_ok(), "Expected missing agent dependency error");
    assert!(
        result.errors.iter().any(|e| matches!(e,
            ValidationError::MissingDependency { dep_type, .. }
            if dep_type == "agent"
        )),
        "Expected MissingDependency error with dep_type='agent'"
    );
}

#[test]
fn test_valid_dependencies_exist() {
    let registry = registry(vec![
        tool_with_deps("tool_a", vec![("tool_b", DependencyType::Tool)]),
        simple_tool("tool_b"),
    ]);
    let result = RegistryValidator::new(&registry).validate_dependencies_exist();
    assert!(result.is_ok(), "Valid dependencies should pass");
}

#[test]
fn test_detect_missing_schema_ref() {
    let mut tool = simple_tool("tool_a");
    tool.input_schema = Some(object(vec![("$ref", string("#/schemas/NonExistent"))]));
    let registry = registry(vec![tool]);
    let result = RegistryValidator::new(&registry).validate_schema_refs();
    assert!(!result.is_ok(), "Expected missing schema reference error");
    assert!(
        result.errors.iter().any(|e| matches!(e,
            ValidationError::MissingSchemaRef { reference, .. }
            if reference == "#/schemas/NonExistent"
        )),
        "Expected MissingSchemaRef error"
    );
}

#[test]
fn test_valid_schema_ref() {
    let mut tool = simple_tool("tool_a");
    tool.input_schema = Some(object(vec![("$ref", string("#/schemas/WeatherInput"))]));
    let mut registry = registry(vec![tool]);
    registry.schemas = vec![schema("WeatherInput", "1.0.0", object(vec![("type", string("object"))]))];
    let result = RegistryValidator::new(&registry).validate_schema_refs();
    assert!(result.is_ok(), "Valid schema ref should pass");
}

#[test]
fn test_warn_on_deprecated_tool_dependency() {
    let registry = registry(vec![
        tool_with_deps("tool_a", vec![("tool_b", DependencyType::Tool)]),
        deprecated_tool("tool_b", "Use tool_c instead"),
    ]);
    let result = RegistryValidator::new(&registry).validate_deprecations();
    assert!(result.has_warnings(), "Expected deprecation warning");
    assert!(
        result.warnings.iter().any(|w| w.message.contains("deprecated")),
        "Expected warning message about deprecation"
    );
}

#[test]
fn test_warn_on_deprecated_server() {
    let mut tool = simple_tool("tool_a");
    if let ToolImplementation::Source(ref mut source) = tool.implementation {
        source.target = "legacy-server".to_string();
    }
    let mut registry = registry(vec![tool]);
    registry.servers = vec![Server {
        name: "legacy-server".to_string(),
        version: Some("0.9.0".to_string()),
        description: None,
        provides: vec![],
        deprecated: true,
        deprecation_message: Some("Migrate to new-server v2.0".to_string()),
        metadata: Vec::new(),
    }];
    let result = RegistryValidator::new(&registry).validate_deprecations();
    assert!(result.has_warnings(), "Expected deprecation warning for deprecated server");
}

#[test]
fn test_version_constraint_not_satisfied() {
    let registry = registry(vec![
        tool_with_versioned_dep("tool_a", "tool_b", ">=2.0.0"),
        versioned_tool("tool_b", "1.0.0"),
    ]);
    let result = RegistryValidator::new(&registry).validate_version_constraints();
    assert!(!result.is_ok(), "Expected version constraint error");
    assert!(
        result.errors.iter().any(|e| matches!(e, ValidationError::VersionMismatch { .. })),
        "Expected VersionMismatch error"
    );
}

#[test]
fn test_version_constraint_satisfied() {
    let registry = registry(vec![
        tool_with_versioned_dep("tool_a", "tool_b", ">=1.0.0"),
        versioned_tool("tool_b", "1.5.0"),
    ]);
    let result = RegistryValidator::new(&registry).validate_version_constraints();
    assert!(result.is_ok(), "Valid version constraint should pass");
}

#[test]
fn test_detect_duplicate_tool_names() {
    let registry = registry(vec![simple_tool("my_tool"), simple_tool("my_tool")]);
    let result = RegistryValidator::new(&registry).validate_unique_names();
    assert!(!result.is_ok(), "Expected duplicate tool name error");
    assert!(
        result.errors.iter().any(|e| matches!(e, ValidationError::DuplicateToolName(name) if name == "my_tool")),
        "Expected DuplicateToolName error"
    );
}

#[test]
fn test_detect_duplicate_schema_names() {
    let mut registry = registry(vec![]);
    registry.schemas = vec![
        schema("MySchema", "1.0.0", object(vec![])),
        schema("MySchema", "2.0.0", object(vec![])),
    ];
    let result = RegistryValidator::new(&registry).validate_unique_names();
    assert!(!result.is_ok(), "Expected duplicate schema name error");
}

#[test]
fn test_full_validation_catches_multiple_errors() {
    let registry = registry(vec![
        simple_tool("dup_tool"),
        simple_tool("dup_tool"),
        tool_with_deps("orphan", vec![("nonexistent", DependencyType::Tool)]),
        tool_with_deps("cycle_a", vec![("cycle_b", DependencyType::Tool)]),
        tool_with_deps("cycle_b", vec![("cycle_a", DependencyType::Tool)]),
    ]);
    let result = RegistryValidator::new(&registry).validate();
    assert!(!result.is_ok(), "Expected validation to catch multiple errors");
    assert!(result.errors.len() >= 3, "Expected at least 3 errors, got {}", result.errors.len());
}

#[test]
fn test_valid_registry_passes_full_validation() {
    let mut registry = registry(vec![
        simple_tool("tool_a"),
        tool_with_deps("tool_b", vec![("tool_a", DependencyType::Tool)]),
    ]);
    registry.schemas = vec![schema("Input", "1.0.0", object(vec![("type", string("object"))]))];
    registry.servers = vec![Server {
        name: "backend".to_string(),
        version: Some("1.0.0".to_string()),
        description: None,
        provides: vec![],
        deprecated: false,
        deprecation_message: None,
        metadata: Vec::new(),
    }];
    let result = validate_registry(&registry);
    assert!(result.is_ok(), "Valid registry should pass validation");
}

// ---------------------------------------------------------------------------
// Exact answers of the individual checks
// ---------------------------------------------------------------------------

#[test]
fn cycle_is_reported_along_its_path() {
    let registry = registry(vec![
        tool_with_deps("tool_a", vec![("tool_b", DependencyType::Tool)]),
        tool_with_deps("tool_b", vec![("tool_c", DependencyType::Tool)]),
        tool_with_deps("tool_c", vec![("tool_a", DependencyType::Tool)]),
    ]);
    let result = RegistryValidator::new(&registry).validate_no_cycles();
    assert_eq!(
        result.errors,
        vec![ValidationError::DependencyCycle(vec![
            "tool_a".to_string(),
            "tool_b".to_string(),
            "tool_c".to_string(),
            "tool_a".to_string()
        ])]
    );
}

#[test]
fn dependencies_on_missing_tools_are_not_followed_for_cycles() {
    let registry = registry(vec![tool_with_deps("tool_a", vec![("ghost", DependencyType::Tool)])]);
    assert!(RegistryValidator::new(&registry).validate_no_cycles().is_ok());
}

#[test]
fn duplicates_are_reported_once_per_repetition() {
    let registry = registry(vec![simple_tool("x"), simple_tool("x"), simple_tool("y"), simple_tool("x")]);
    let result = RegistryValidator::new(&registry).validate_unique_names();
    assert_eq!(
        result.errors,
        vec![ValidationError::DuplicateToolName("x".to_string()), ValidationError::DuplicateToolName("x".to_string())]
    );
}

#[test]
fn nested_schema_refs_are_checked() {
    let mut tool = simple_tool("tool_a");
    tool.output_schema = Some(object(vec![(
        "properties",
        object(vec![(
            "items",
            JsonValue::Array(vec![object(vec![("$ref", string("#/schemas/Missing"))]), string("#/schemas/Other")]),
        )]),
    )]));
    let registry = registry(vec![tool]);
    let result = RegistryValidator::new(&registry).validate_schema_refs();
    assert_eq!(
        result.errors,
        vec![ValidationError::MissingSchemaRef { tool: "tool_a".to_string(), reference: "#/schemas/Missing".to_string() }]
    );
}

#[test]
fn refs_outside_the_schemas_prefix_are_ignored() {
    let mut tool = simple_tool("tool_a");
    tool.input_schema = Some(object(vec![("$ref", string("#/definitions/Thing"))]));
    let registry = registry(vec![tool]);
    assert!(RegistryValidator::new(&registry).validate_schema_refs().is_ok());
}

#[test]
fn deprecation_warning_text() {
    let registry = registry(vec![
        tool_with_deps("tool_a", vec![("tool_b", DependencyType::Tool)]),
        deprecated_tool("tool_b", "Use tool_c instead"),
    ]);
    let result = RegistryValidator::new(&registry).validate_deprecations();
    assert_eq!(result.warnings.len(), 1);
    assert_eq!(result.warnings[0].message, "Tool 'tool_a' depends on deprecated tool 'tool_b': Use tool_c instead");
    assert_eq!(result.warnings[0].tool, Some("tool_a".to_string()));
}

#[test]
fn deprecated_server_without_message() {
    let mut registry = registry(vec![simple_tool("tool_a")]);
    registry.servers = vec![Server {
        name: "backend".to_string(),
        version: None,
        description: None,
        provides: vec![],
        deprecated: true,
        deprecation_message: None,
        metadata: Vec::new(),
    }];
    let result = RegistryValidator::new(&registry).validate_deprecations();
    assert_eq!(result.warnings.len(), 1);
    assert_eq!(result.warnings[0].message, "Tool 'tool_a' uses deprecated server 'backend': deprecated");
}

#[test]
fn version_mismatch_fields() {
    let registry = registry(vec![
        tool_with_versioned_dep("tool_a", "tool_b", ">=2.0.0"),
        versioned_tool("tool_b", "1.0.0"),
    ]);
    let result = RegistryValidator::new(&registry).validate_version_constraints();
    assert_eq!(
        result.errors,
        vec![ValidationError::VersionMismatch {
            tool: "tool_a".to_string(),
            dependency: "tool_b".to_string(),
            dep_type: "tool".to_string(),
            required: ">=2.0.0".to_string(),
            found: "1.0.0".to_string(),
        }]
    );
}

#[test]
fn parse_version_reads_three_numeric_parts() {
    assert_eq!(RegistryValidator::parse_version("1.2.3"), (1, 2, 3));
    assert_eq!(RegistryValidator::parse_version("2"), (2, 0, 0));
    assert_eq!(RegistryValidator::parse_version("1.x.5.7"), (1, 5, 7));
    assert_eq!(RegistryValidator::parse_version(""), (0, 0, 0));
    assert_eq!(RegistryValidator::parse_version("+4.5"), (4, 5, 0));
}

#[test]
fn version_constraint_operators() {
    let registry = registry(vec![]);
    let v = RegistryValidator::new(&registry);
    assert!(v.version_satisfies("1.5.0", ">=1.0.0"));
    assert!(!v.version_satisfies("0.9.9", ">=1.0.0"));
    assert!(v.version_satisfies("1.0.0", "<=1.0.0"));
    assert!(v.version_satisfies("2.0.0", ">1.9.9"));
    assert!(!v.version_satisfies("1.0.0", ">1.0.0"));
    assert!(v.version_satisfies("0.1.0", "<1.0"));
    assert!(v.version_satisfies("1.2.3", "=1.2.3"));
    assert!(v.version_satisfies("1.2.3", "1.2.3"));
    assert!(!v.version_satisfies("1.2.4", "1.2.3"));
}

#[test]
fn full_validation_orders_errors_by_check() {
    let registry = registry(vec![
        simple_tool("dup_tool"),
        simple_tool("dup_tool"),
        tool_with_deps("orphan", vec![("nonexistent", DependencyType::Tool)]),
        tool_with_deps("cycle_a", vec![("cycle_b", DependencyType::Tool)]),
        tool_with_deps("cycle_b", vec![("cycle_a", DependencyType::Tool)]),
    ]);
    let result = validate_registry(&registry);
    assert_eq!(result.errors.len(), 3);
    assert_eq!(result.errors[0], ValidationError::DuplicateToolName("dup_tool".to_string()));
    assert!(matches!(&result.errors[1], ValidationError::MissingDependency { dependency, .. } if dependency == "nonexistent"));
    assert!(matches!(&result.errors[2], ValidationError::DependencyCycle(_)));
}

#[test]
fn later_cycle_reports_reuse_the_interrupted_search_path() {
    // After the first cycle is found, the search keeps the tools it was inside
    // of on its path; a later report can then name a path that is not a cycle of
    // the dependency graph.
    let registry = registry(vec![
        tool_with_deps("a", vec![("b", DependencyType::Tool)]),
        tool_with_deps("b", vec![("a", DependencyType::Tool)]),
        tool_with_deps("c", vec![("a", DependencyType::Tool)]),
    ]);
    let result = RegistryValidator::new(&registry).validate_no_cycles();
    let names = |v: &[&str]| v.iter().map(|s| s.to_string()).collect::<Vec<String>>();
    assert_eq!(
        result.errors,
        vec![
            ValidationError::DependencyCycle(names(&["a", "b", "a"])),
            ValidationError::DependencyCycle(names(&["a", "c", "a"])),
        ]
    );
}

#[test]
fn full_validation_reports_the_cycles_of_cycle_detection() {
    let registry = registry(vec![
        tool_with_deps("a", vec![("b", DependencyType::Tool)]),
        tool_with_deps("b", vec![("a", DependencyType::Tool)]),
        tool_with_deps("c", vec![("a", DependencyType::Tool)]),
    ]);
    let v = RegistryValidator::new(&registry);
    assert_eq!(v.validate().errors, v.validate_no_cycles().errors);
}
