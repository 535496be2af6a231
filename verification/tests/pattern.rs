use agentgateway::pattern::{
    ExecutionGraph, MapEachSpec, NodeInput, NodeOperation, PatternKind, PatternSpec, PipelineSpec, PipelineStep,
    RetrySpec, SagaSpec, ScatterGatherSpec, ScatterTarget, StepOperation, TimeoutSpec,
};
use agentgateway::backoff::{BackoffStrategy, ExponentialBackoff};
use agentgateway::filter::{FieldPredicate, FilterSpec};
use agentgateway::json::{JsonNumber, JsonValue};
use agentgateway::pipeline::{DataBinding, InputBinding};
use agentgateway::schema_map::SchemaMapSpec;
use agentgateway::registry::CompositionSpec;
use agentgateway::scatter_gather::{AggregationOp, AggregationStrategy, ExecutionError, ToolRef};

fn score_filter() -> PatternSpec {
    PatternSpec::Filter(FilterSpec {
        predicate: FieldPredicate {
            field: "$.score".to_string(),
            op: "gt".to_string(),
            value: JsonValue::Number(JsonNumber::Float("0.5".to_string())),
        },
    })
}

fn retry() -> PatternSpec {
    PatternSpec::Retry(RetrySpec {
        inner: Box::new(tool("flaky_api")),
        max_attempts: 3,
        backoff: BackoffStrategy::Exponential(ExponentialBackoff {
            initial_delay_ms: 100,
            max_delay_ms: 5000,
            multiplier: JsonNumber::Float("2.0".to_string()),
        }),
        retry_if: None,
        jitter: Some(JsonNumber::Float("0.1".to_string())),
        attempt_timeout_ms: None,
    })
}

fn empty_saga() -> PatternSpec {
    PatternSpec::Saga(SagaSpec { steps: vec![], store: None, saga_id_path: None, timeout_ms: None, output: None })
}

fn tool(name: &str) -> StepOperation {
    StepOperation::Tool(name.to_string())
}

fn step(id: &str, name: &str) -> PipelineStep {
    PipelineStep { id: id.to_string(), operation: tool(name), input: None }
}

fn strs(v: &[&str]) -> Vec<String> {
    v.iter().map(|s| s.to_string()).collect()
}

#[test]
fn test_build_pipeline_graph() {
    let spec = PatternSpec::Pipeline(PipelineSpec { steps: vec![step("step1", "search"), step("step2", "summarize")] });

    let graph = ExecutionGraph::from_pattern(spec);

    assert_eq!(graph.node_count(), 3); // input, main, output
    assert_eq!(graph.entry, 0);
    assert_eq!(graph.exit, 2);

    let refs = graph.tool_references();
    assert!(refs.contains(&"search".to_string()));
    assert!(refs.contains(&"summarize".to_string()));
}

#[test]
fn test_build_scatter_gather_graph() {
    let spec = PatternSpec::ScatterGather(ScatterGatherSpec {
        targets: vec![
            ScatterTarget::Tool(ToolRef::new("tool_a".to_string())),
            ScatterTarget::Tool(ToolRef::new("tool_b".to_string())),
        ],
        aggregation: AggregationStrategy { ops: vec![AggregationOp::Flatten(true)] },
        timeout_ms: Some(5000),
        fail_fast: false,
    });

    let graph = ExecutionGraph::from_pattern(spec);

    assert_eq!(graph.node_count(), 3);

    let refs = graph.tool_references();
    assert_eq!(refs.len(), 2);
    assert!(refs.contains(&"tool_a".to_string()));
    assert!(refs.contains(&"tool_b".to_string()));
}

#[test]
fn test_build_filter_graph() {
    let spec = score_filter();

    let graph = ExecutionGraph::from_pattern(spec);

    assert_eq!(graph.node_count(), 3);
    assert!(graph.tool_references().is_empty());
    match &graph.nodes[1].operation {
        NodeOperation::Filter(f) => assert_eq!(f.predicate.field, "$.score"),
        other => panic!("unexpected {:?}", other),
    }
}

#[test]
fn test_build_map_each_graph() {
    let spec = PatternSpec::MapEach(MapEachSpec::tool("fetch".to_string()));

    let graph = ExecutionGraph::from_pattern(spec);

    assert_eq!(graph.node_count(), 3);
    let refs = graph.tool_references();
    assert_eq!(refs, vec!["fetch"]);
}

#[test]
fn test_builder_tool() {
    let map_each = MapEachSpec::tool("my_tool".to_string());
    assert!(matches!(map_each.inner, StepOperation::Tool(ref name) if name == "my_tool"));
}

#[test]
fn map_each_test_referenced_tools() {
    let map_each = MapEachSpec::tool("fetch".to_string());
    let refs = map_each.referenced_tools();
    assert_eq!(refs, vec!["fetch"]);
}

#[test]
fn pipeline_test_referenced_tools() {
    let pipeline = PipelineSpec { steps: vec![step("s1", "tool_a"), step("s2", "tool_b")] };
    let refs = pipeline.referenced_tools();
    assert_eq!(refs, vec!["tool_a", "tool_b"]);
}

#[test]
fn test_parse_throttle_pattern() {
    let spec = PatternSpec::Throttle;
    assert!(matches!(spec, PatternSpec::Throttle));
    assert_eq!(spec.pattern_name(), "throttle");
    assert!(spec.is_stateful_unimplemented());
}

#[test]
fn test_parse_router_pattern() {
    let spec = PatternSpec::Router { routes: vec![tool("pdf_processor")], otherwise: Some(Box::new(tool("default_processor"))) };
    assert!(matches!(spec, PatternSpec::Router { .. }));
    assert_eq!(spec.pattern_name(), "router");
    assert!(spec.is_stateful_unimplemented());
    assert_eq!(spec.referenced_tools(), vec!["pdf_processor", "default_processor"]);
}

#[test]
fn test_parse_enricher_pattern() {
    let spec = PatternSpec::Enricher { enrichments: vec![tool("fetch_metadata")] };
    assert!(matches!(spec, PatternSpec::Enricher { .. }));
    assert_eq!(spec.pattern_name(), "enricher");
    assert!(spec.is_stateful_unimplemented());
    assert_eq!(spec.referenced_tools(), vec!["fetch_metadata"]);
}

#[test]
fn test_parse_wiretap_pattern() {
    let spec = PatternSpec::WireTap { inner: Box::new(tool("main_process")), taps: strs(&["audit_logger"]) };
    assert!(matches!(spec, PatternSpec::WireTap { .. }));
    assert_eq!(spec.pattern_name(), "wire_tap");
    assert!(spec.is_stateful_unimplemented());
    assert_eq!(spec.referenced_tools(), vec!["main_process", "audit_logger"]);
}

#[test]
fn test_parse_recipient_list_pattern() {
    let spec = PatternSpec::RecipientList { recipients_tool: None };
    assert!(matches!(spec, PatternSpec::RecipientList { .. }));
    assert_eq!(spec.pattern_name(), "recipient_list");
    assert!(spec.is_stateful_unimplemented());
}

#[test]
fn test_parse_capability_router_pattern() {
    let spec = PatternSpec::CapabilityRouter { fallback: Some(Box::new(tool("default_tool"))) };
    assert!(matches!(spec, PatternSpec::CapabilityRouter { .. }));
    assert_eq!(spec.pattern_name(), "capability_router");
    assert!(spec.is_stateful_unimplemented());
    assert_eq!(spec.referenced_tools(), vec!["default_tool"]);
}

#[test]
fn test_parse_semantic_dedup_pattern() {
    let spec = PatternSpec::SemanticDedup { embedder: "text_embedder".to_string() };
    assert!(matches!(spec, PatternSpec::SemanticDedup { .. }));
    assert_eq!(spec.pattern_name(), "semantic_dedup");
    assert!(spec.is_stateful_unimplemented());
    assert_eq!(spec.referenced_tools(), vec!["text_embedder"]);
}

#[test]
fn test_parse_confidence_aggregator_pattern() {
    let spec = PatternSpec::ConfidenceAggregator { sources: vec![tool("expert_api"), tool("fallback_api")] };
    assert!(matches!(spec, PatternSpec::ConfidenceAggregator { .. }));
    assert_eq!(spec.pattern_name(), "confidence_aggregator");
    assert!(spec.is_stateful_unimplemented());
    assert_eq!(spec.referenced_tools(), vec!["expert_api", "fallback_api"]);
}

#[test]
fn nested_patterns_reference_their_tools_in_order() {
    let inner = PatternSpec::ScatterGather(ScatterGatherSpec {
        targets: vec![
            ScatterTarget::Tool(ToolRef::with_server("b".to_string(), "srv".to_string())),
            ScatterTarget::Pattern(Box::new(PatternSpec::MapEach(MapEachSpec::tool("c".to_string())))),
        ],
        aggregation: AggregationStrategy { ops: vec![] },
        timeout_ms: None,
        fail_fast: true,
    });
    let spec = PatternSpec::Pipeline(PipelineSpec {
        steps: vec![
            step("first", "a"),
            PipelineStep { id: "second".to_string(), operation: StepOperation::Pattern(Box::new(inner)), input: None },
            step("third", "d"),
        ],
    });
    assert_eq!(spec.referenced_tools(), strs(&["a", "b", "c", "d"]));
    let graph = ExecutionGraph::from_pattern(spec);
    assert_eq!(graph.tool_references(), strs(&["a", "b", "c", "d"]));
}

#[test]
fn stateful_patterns_reference_no_tools() {
    let map = SchemaMapSpec::empty().with_path("name".to_string(), "$.user.name".to_string());
    for spec in [retry(), empty_saga(), score_filter(), PatternSpec::SchemaMap(map)] {
        assert!(spec.referenced_tools().is_empty());
    }
    let timeout = PatternSpec::Timeout(TimeoutSpec {
        inner: Box::new(tool("slow")),
        duration_ms: 100,
        fallback: None,
        message: None,
    });
    assert!(timeout.is_stateful_unimplemented());
    assert!(timeout.referenced_tools().is_empty());
    assert!(!score_filter().is_stateful_unimplemented());
}

#[test]
fn graph_nodes_are_input_main_output() {
    let graph = ExecutionGraph::from_pattern(empty_saga());
    assert_eq!(graph.get_node(0).unwrap().id, "_input");
    assert!(matches!(graph.get_node(0).unwrap().operation, NodeOperation::Input));
    let main = graph.get_node(1).unwrap();
    assert_eq!(main.id, "_main");
    assert!(matches!(&main.operation, NodeOperation::Pattern(p) if matches!(**p, PatternSpec::Saga(_))));
    assert!(matches!(main.inputs[..], [NodeInput::Node { node_index: 0, path: None }]));
    let out = graph.get_node(2).unwrap();
    assert_eq!(out.id, "_output");
    assert!(matches!(out.inputs[..], [NodeInput::Node { node_index: 1, path: None }]));
    assert!(graph.get_node(3).is_none());
    assert!(graph.tool_references().is_empty());
}

#[test]
fn pipeline_graph_keeps_steps_and_bindings() {
    let spec = PatternSpec::Pipeline(PipelineSpec {
        steps: vec![PipelineStep {
            id: "s".to_string(),
            operation: tool("t"),
            input: Some(DataBinding::Input(InputBinding { path: "$.q".to_string() })),
        }],
    });
    let graph = ExecutionGraph::from_pattern(spec);
    match &graph.nodes[1].operation {
        NodeOperation::Pipeline { steps } => {
            assert_eq!(steps.len(), 1);
            assert_eq!(steps[0].id, "s");
            assert!(matches!(&steps[0].input, Some(DataBinding::Input(b)) if b.path == "$.q"));
        },
        _ => panic!("expected a pipeline node"),
    }
}

#[test]
fn scatter_target_accessors() {
    let t = ScatterTarget::Tool(ToolRef::with_server("x".to_string(), "s1".to_string()));
    assert_eq!(t.tool_name().map(|s| s.as_str()), Some("x"));
    assert_eq!(t.server().map(|s| s.as_str()), Some("s1"));
    let p = ScatterTarget::Pattern(Box::new(score_filter()));
    assert!(p.tool_name().is_none());
    assert!(p.server().is_none());
}

#[test]
fn executor_answers_unimplemented_patterns() {
    assert!(PatternKind::Pipeline.not_implemented_error().is_none());
    assert!(PatternKind::Timeout.not_implemented_error().is_none());
    match PatternKind::Retry.not_implemented_error() {
        Some(ExecutionError::StatefulPatternNotImplemented { pattern, details }) => {
            assert_eq!(pattern, "retry");
            assert!(details.starts_with("The retry pattern requires a state store"));
        },
        _ => panic!("expected not implemented"),
    }
    match PatternKind::ConfidenceAggregator.not_implemented_error() {
        Some(ExecutionError::StatefulPatternNotImplemented { pattern, .. }) => assert_eq!(pattern, "confidence_aggregator"),
        _ => panic!("expected not implemented"),
    }
}

#[test]
fn composition_spec_from_pattern() {
    let spec = PatternSpec::Pipeline(PipelineSpec { steps: vec![step("s1", "tool_a"), step("s2", "tool_b")] });
    let c = CompositionSpec::from_pattern(&spec);
    assert_eq!(c.pattern_name, "pipeline");
    assert_eq!(c.referenced_tools, strs(&["tool_a", "tool_b"]));
}

#[test]
fn field_predicate_builders() {
    let eq = FieldPredicate::eq("$.x".to_string(), JsonValue::Bool(true));
    assert_eq!(eq.op, "eq");
    assert_eq!(eq.value, JsonValue::Bool(true));
    let c = FieldPredicate::contains("$.t".to_string(), "ab".to_string());
    assert_eq!(c.value, JsonValue::String("ab".to_string()));
}
