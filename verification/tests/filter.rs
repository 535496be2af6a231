use agentgateway::filter::{FieldPredicate, FilterExecutor, FilterSpec, NumericOrder};
use agentgateway::json::{JsonNumber, JsonValue};
use agentgateway::scatter_gather::ExecutionError;

fn s(x: &str) -> JsonValue {
    JsonValue::String(x.to_string())
}

fn n(x: u64) -> JsonValue {
    JsonValue::Number(JsonNumber::PosInt(x))
}

fn f(x: &str) -> JsonValue {
    JsonValue::Number(JsonNumber::Float(x.to_string()))
}

fn obj(members: Vec<(&str, JsonValue)>) -> JsonValue {
    JsonValue::Object(members.into_iter().map(|(k, v)| (k.to_string(), v)).collect())
}

fn as_f64(v: &JsonValue) -> Option<f64> {
    match v {
        JsonValue::Number(JsonNumber::PosInt(u)) => Some(*u as f64),
        JsonValue::Number(JsonNumber::NegInt(i)) => Some(*i as f64),
        JsonValue::Number(JsonNumber::Float(t)) => t.parse().ok(),
        _ => None,
    }
}

fn order(a: Option<&JsonValue>, b: &JsonValue) -> NumericOrder {
    match (a.and_then(as_f64), as_f64(b)) {
        (Some(x), Some(y)) => match x.partial_cmp(&y) {
            Some(std::cmp::Ordering::Less) => NumericOrder::Less,
            Some(std::cmp::Ordering::Equal) => NumericOrder::Equal,
            Some(std::cmp::Ordering::Greater) => NumericOrder::Greater,
            None => NumericOrder::Unordered,
        },
        _ => NumericOrder::Unordered,
    }
}

/// Filters an array by a predicate on the top-level member `field` (`$.field`).
fn filter(input: JsonValue, field: &str, op: &str, target: &JsonValue) -> Result<JsonValue, ExecutionError> {
    let spec = FilterSpec {
        predicate: FieldPredicate { field: format!("$.{}", field), op: op.to_string(), value: target.duplicate() },
    };
    let items = FilterExecutor::items(input)?;
    let fields = FilterExecutor::select_fields(&spec.predicate.field, &items)?;
    let orders: Vec<NumericOrder> = fields.iter().map(|v| order(v.as_ref(), &spec.predicate.value)).collect();
    FilterExecutor::apply(&spec, items, &fields, &orders)
}

fn names(result: &JsonValue, key: &str) -> Vec<JsonValue> {
    match result {
        JsonValue::Array(items) => items.iter().map(|i| i.get(key).unwrap().duplicate()).collect(),
        _ => panic!("not an array"),
    }
}

#[test]
fn test_filter_eq() {
    let input = JsonValue::Array(vec![
        obj(vec![("type", s("pdf")), ("name", s("doc1"))]),
        obj(vec![("type", s("html")), ("name", s("doc2"))]),
        obj(vec![("type", s("pdf")), ("name", s("doc3"))]),
    ]);
    let result = filter(input, "type", "eq", &s("pdf")).unwrap();
    assert_eq!(names(&result, "name"), vec![s("doc1"), s("doc3")]);
}

#[test]
fn test_filter_gt() {
    let input = JsonValue::Array(vec![
        obj(vec![("score", f("0.3")), ("name", s("low"))]),
        obj(vec![("score", f("0.7")), ("name", s("high"))]),
        obj(vec![("score", f("0.5")), ("name", s("exact"))]),
    ]);
    let result = filter(input, "score", "gt", &f("0.5")).unwrap();
    assert_eq!(names(&result, "name"), vec![s("high")]);
}

#[test]
fn test_filter_gte() {
    let input = JsonValue::Array(vec![
        obj(vec![("score", f("0.3")), ("name", s("low"))]),
        obj(vec![("score", f("0.7")), ("name", s("high"))]),
        obj(vec![("score", f("0.5")), ("name", s("exact"))]),
    ]);
    let result = filter(input, "score", "gte", &f("0.5")).unwrap();
    assert_eq!(names(&result, "name").len(), 2);
}

#[test]
fn test_filter_contains() {
    let input = JsonValue::Array(vec![
        obj(vec![("title", s("Introduction to AI"))]),
        obj(vec![("title", s("Machine Learning Basics"))]),
        obj(vec![("title", s("AI in Healthcare"))]),
    ]);
    let result = filter(input, "title", "contains", &s("AI")).unwrap();
    assert_eq!(names(&result, "title").len(), 2);
}

#[test]
fn test_filter_in() {
    let input = JsonValue::Array(vec![
        obj(vec![("status", s("active")), ("id", n(1))]),
        obj(vec![("status", s("closed")), ("id", n(2))]),
        obj(vec![("status", s("pending")), ("id", n(3))]),
    ]);
    let target = JsonValue::Array(vec![s("active"), s("pending")]);
    let result = filter(input, "status", "in", &target).unwrap();
    assert_eq!(names(&result, "id"), vec![n(1), n(3)]);
}

#[test]
fn test_filter_ne() {
    let input = JsonValue::Array(vec![
        obj(vec![("active", JsonValue::Bool(true)), ("id", n(1))]),
        obj(vec![("active", JsonValue::Bool(false)), ("id", n(2))]),
        obj(vec![("active", JsonValue::Bool(true)), ("id", n(3))]),
    ]);
    let result = filter(input, "active", "ne", &JsonValue::Bool(false)).unwrap();
    assert_eq!(names(&result, "id").len(), 2);
}

#[test]
fn test_filter_non_array_error() {
    let result = filter(obj(vec![("not", s("an array"))]), "x", "eq", &f("1.0"));
    assert!(result.is_err());
    assert!(matches!(result.unwrap_err(), ExecutionError::TypeError { .. }));
}

#[test]
fn predicate_errors() {
    let p = |op: &str, field: Option<&JsonValue>, target: &JsonValue| {
        FilterExecutor::evaluate_predicate(op, field, target, NumericOrder::Unordered)
    };
    let err = |m: &str| Err(ExecutionError::PredicateError(m.to_string()));
    assert_eq!(p("gt", Some(&s("x")), &n(1)), err("field is not a number"));
    assert_eq!(p("lt", Some(&n(1)), &s("x")), err("target is not a number"));
    assert_eq!(p("contains", None, &s("x")), err("field is not a string"));
    assert_eq!(p("contains", Some(&s("abc")), &n(1)), err("target is not a string"));
    assert_eq!(p("in", None, &JsonValue::Array(vec![])), err("field is null"));
    assert_eq!(p("in", Some(&n(1)), &n(1)), err("target is not an array"));
    assert_eq!(p("like", Some(&n(1)), &n(1)), err("unknown operator: like"));
}

#[test]
fn missing_field_counts_as_null() {
    assert_eq!(FilterExecutor::evaluate_predicate("eq", None, &JsonValue::Null, NumericOrder::Unordered), Ok(true));
    assert_eq!(FilterExecutor::evaluate_predicate("ne", None, &JsonValue::Null, NumericOrder::Unordered), Ok(false));
    assert_eq!(FilterExecutor::evaluate_predicate("eq", None, &n(1), NumericOrder::Unordered), Ok(false));
}

#[test]
fn numeric_operators_follow_the_order() {
    let one = n(1);
    for (op, less, equal, greater) in [
        ("gt", false, false, true),
        ("gte", false, true, true),
        ("lt", true, false, false),
        ("lte", true, true, false),
    ] {
        let p = |o| FilterExecutor::evaluate_predicate(op, Some(&one), &one, o);
        assert_eq!(p(NumericOrder::Less), Ok(less));
        assert_eq!(p(NumericOrder::Equal), Ok(equal));
        assert_eq!(p(NumericOrder::Greater), Ok(greater));
        assert_eq!(p(NumericOrder::Unordered), Ok(false));
    }
}

#[test]
fn first_failing_element_is_the_error() {
    let items = vec![n(1), n(2), n(3)];
    let answers = vec![Ok(true), Err(ExecutionError::PredicateError("a".to_string())), Ok(true)];
    assert_eq!(FilterExecutor::keep(items, answers), Err(ExecutionError::PredicateError("a".to_string())));
}

#[test]
fn contains_empty_string() {
    assert_eq!(
        FilterExecutor::evaluate_predicate("contains", Some(&s("abc")), &s(""), NumericOrder::Unordered),
        Ok(true)
    );
}
