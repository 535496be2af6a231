use agentgateway::json::{JsonNumber, JsonValue};
use agentgateway::scatter_gather::{AggregationOp, AggregationStep, AggregationStrategy, LimitOp, SortOp, WrapOp, ExecutionError, ScatterGatherExecutor, ToolRef};
use agentgateway::schema_map::{replace_all_exec, SchemaMapExecutor};
use agentgateway::vision::{ConfidenceStrategy, DedupKeepStrategy, RecipientListSpec, TapPoint};

fn n(x: u64) -> JsonValue {
    JsonValue::Number(JsonNumber::PosInt(x))
}

fn arr(items: Vec<JsonValue>) -> JsonValue {
    JsonValue::Array(items)
}

fn obj(members: Vec<(&str, JsonValue)>) -> JsonValue {
    JsonValue::Object(members.into_iter().map(|(k, v)| (k.to_string(), v)).collect())
}

#[test]
fn test_flatten() {
    let value = arr(vec![arr(vec![n(1), n(2)]), arr(vec![n(3), n(4)]), arr(vec![n(5)])]);
    let result = ScatterGatherExecutor::flatten(&value).unwrap();
    assert_eq!(result, arr(vec![n(1), n(2), n(3), n(4), n(5)]));
}

#[test]
fn flatten_keeps_non_arrays_and_only_one_level() {
    let value = arr(vec![n(1), arr(vec![arr(vec![n(2)])])]);
    assert_eq!(ScatterGatherExecutor::flatten(&value).unwrap(), arr(vec![n(1), arr(vec![n(2)])]));
    assert_eq!(
        ScatterGatherExecutor::flatten(&n(1)),
        Err(ExecutionError::TypeError { expected: "array".to_string(), actual: "number".to_string() })
    );
}

#[test]
fn test_limit() {
    let value = arr(vec![n(1), n(2), n(3), n(4), n(5)]);
    assert_eq!(ScatterGatherExecutor::limit(&value, 3).unwrap(), arr(vec![n(1), n(2), n(3)]));
    assert_eq!(ScatterGatherExecutor::limit(&value, 10).unwrap(), value);
}

#[test]
fn test_merge() {
    let values = vec![obj(vec![("a", n(1)), ("b", n(2))]), obj(vec![("b", n(3)), ("c", n(4))]), n(9)];
    assert_eq!(ScatterGatherExecutor::merge(&values), obj(vec![("a", n(1)), ("b", n(3)), ("c", n(4))]));
}

#[test]
fn wrap_puts_the_result_under_a_field() {
    let v = arr(vec![n(1)]);
    assert_eq!(ScatterGatherExecutor::wrap(&v, &"results".to_string()), obj(vec![("results", arr(vec![n(1)]))]));
}

#[test]
fn dedupe_by_keys_keeps_first_of_each_key() {
    let items = arr(vec![obj(vec![("id", n(1))]), obj(vec![("id", n(2))]), obj(vec![("id", n(1))]), obj(vec![])]);
    let keys = vec![Some("1".to_string()), Some("2".to_string()), Some("1".to_string()), None];
    assert_eq!(
        ScatterGatherExecutor::dedupe_by_keys(&items, &keys).unwrap(),
        arr(vec![obj(vec![("id", n(1))]), obj(vec![("id", n(2))]), obj(vec![])])
    );
}

#[test]
fn aggregation_defaults_and_tool_refs() {
    assert_eq!(AggregationStrategy::default().ops, vec![AggregationOp::Flatten(true)]);
    let t = ToolRef::with_server("search".to_string(), "web".to_string());
    assert_eq!(t.server, Some("web".to_string()));
    assert_eq!(ToolRef::new("x".to_string()).server, None);
}

#[test]
fn coalesce_concat_and_template() {
    assert_eq!(SchemaMapExecutor::coalesce(&vec![JsonValue::Null, n(2), n(3)]), n(2));
    assert_eq!(SchemaMapExecutor::coalesce(&vec![JsonValue::Null]), JsonValue::Null);
    let parts = vec![Some("a".to_string()), None, Some("b".to_string())];
    assert_eq!(SchemaMapExecutor::concat(&parts, Some(&", ".to_string())), "a, b");
    assert_eq!(SchemaMapExecutor::concat(&parts, None), "ab");
    let vars = vec![("name".to_string(), "Ada".to_string()), ("n".to_string(), "3".to_string())];
    assert_eq!(SchemaMapExecutor::template(&"Hi {name}, you have {n} {n}s".to_string(), &vars), "Hi Ada, you have 3 3s");
    assert_eq!(replace_all_exec("aaa", "aa", "b"), "ba");
}

#[test]
fn vision_defaults_and_recipients() {
    assert_eq!(DedupKeepStrategy::default(), DedupKeepStrategy::First);
    assert_eq!(ConfidenceStrategy::default(), ConfidenceStrategy::HighestWeight);
    assert_eq!(TapPoint::default(), TapPoint::After);
    let spec = RecipientListSpec {
        recipients_path: Some("$.channels".to_string()),
        recipients_tool: Some("list_channels".to_string()),
        aggregation: None,
        parallel: true,
        fail_on_error: false,
    };
    assert_eq!(spec.referenced_tools(), vec!["list_channels".to_string()]);
}

#[test]
fn aggregation_runs_until_a_sort_and_resumes_after_it() {
    let values = vec![arr(vec![n(3), n(1)]), arr(vec![n(2)])];
    let ops = vec![
        AggregationOp::Flatten(true),
        AggregationOp::Sort(SortOp { field: "$".to_string(), order: "asc".to_string() }),
        AggregationOp::Limit(LimitOp { count: 2 }),
        AggregationOp::Wrap(WrapOp { field: "items".to_string() }),
    ];
    let start = ScatterGatherExecutor::gathered(&values);
    assert_eq!(start, arr(vec![arr(vec![n(3), n(1)]), arr(vec![n(2)])]));
    match ScatterGatherExecutor::aggregate_from(&values, &ops, 0, start) {
        AggregationStep::Sort { value, at } => {
            assert_eq!(at, 1);
            assert_eq!(value, arr(vec![n(3), n(1), n(2)]));
        },
        other => panic!("unexpected {:?}", other),
    }
    match ScatterGatherExecutor::aggregate_from(&values, &ops, 2, arr(vec![n(1), n(2), n(3)])) {
        AggregationStep::Done(r) => assert_eq!(r, Ok(obj(vec![("items", arr(vec![n(1), n(2)]))]))),
        other => panic!("unexpected {:?}", other),
    }
    match ScatterGatherExecutor::aggregate_from(&values, &ops, 2, n(7)) {
        AggregationStep::Done(Err(ExecutionError::TypeError { expected, actual })) => {
            assert_eq!((expected.as_str(), actual.as_str()), ("array", "number"));
        },
        other => panic!("unexpected {:?}", other),
    }
}
