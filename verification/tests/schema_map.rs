use agentgateway::json::{JsonNumber, JsonValue};
use agentgateway::scatter_gather::ExecutionError;
use agentgateway::schema_map::{
    CoalesceSource, ConcatSource, FieldSource, SchemaMapExecutor, SchemaMapSpec, TemplateSource,
};

fn lib(v: &serde_json::Value) -> JsonValue {
    match v {
        serde_json::Value::Null => JsonValue::Null,
        serde_json::Value::Bool(b) => JsonValue::Bool(*b),
        serde_json::Value::Number(n) => JsonValue::Number(match (n.as_u64(), n.as_i64()) {
            (Some(u), _) => JsonNumber::PosInt(u),
            (_, Some(i)) => JsonNumber::NegInt(i),
            _ => JsonNumber::Float(n.to_string()),
        }),
        serde_json::Value::String(s) => JsonValue::String(s.clone()),
        serde_json::Value::Array(xs) => JsonValue::Array(xs.iter().map(lib).collect()),
        serde_json::Value::Object(m) => JsonValue::Object(m.iter().map(|(k, x)| (k.clone(), lib(x))).collect()),
    }
}

fn json(text: &str) -> JsonValue {
    lib(&serde_json::from_str(text).unwrap())
}

fn s(x: &str) -> JsonValue {
    JsonValue::String(x.to_string())
}

fn spec(ms: Vec<(&str, FieldSource)>) -> SchemaMapSpec {
    SchemaMapSpec::new(ms.into_iter().map(|(k, v)| (k.to_string(), v)).collect())
}

fn path(p: &str) -> FieldSource {
    FieldSource::path(p.to_string())
}

fn field<'a>(v: &'a JsonValue, key: &str) -> &'a JsonValue {
    v.get(key).unwrap()
}

#[test]
fn test_schema_map_path() {
    let spec = spec(vec![("title", path("$.paper.title")), ("author", path("$.paper.author"))]);
    let input = json(r#"{"paper": {"title": "Deep Learning", "author": "John Doe"}}"#);
    let result = SchemaMapExecutor::execute(&spec, &input).unwrap();
    assert_eq!(field(&result, "title"), &s("Deep Learning"));
    assert_eq!(field(&result, "author"), &s("John Doe"));
}

#[test]
fn test_schema_map_literal() {
    let spec = spec(vec![
        ("source", FieldSource::string("arxiv".to_string())),
        ("relevance", FieldSource::Literal(JsonValue::Number(JsonNumber::Float("0.95".to_string())))),
        ("verified", FieldSource::bool(true)),
    ]);
    let result = SchemaMapExecutor::execute(&spec, &json("{}")).unwrap();
    assert_eq!(field(&result, "source"), &s("arxiv"));
    assert_eq!(field(&result, "relevance"), &JsonValue::Number(JsonNumber::Float("0.95".to_string())));
    assert_eq!(field(&result, "verified"), &JsonValue::Bool(true));
}

#[test]
fn test_schema_map_coalesce() {
    let spec = spec(vec![(
        "url",
        FieldSource::Coalesce(CoalesceSource {
            paths: vec!["$.pdf_url".to_string(), "$.web_url".to_string(), "$.fallback".to_string()],
        }),
    )]);
    let r1 = SchemaMapExecutor::execute(&spec, &json(r#"{"pdf_url": "http://pdf.example.com"}"#)).unwrap();
    assert_eq!(field(&r1, "url"), &s("http://pdf.example.com"));
    let r2 = SchemaMapExecutor::execute(&spec, &json(r#"{"pdf_url": null, "web_url": "http://web.example.com"}"#))
        .unwrap();
    assert_eq!(field(&r2, "url"), &s("http://web.example.com"));
    let r3 = SchemaMapExecutor::execute(&spec, &json("{}")).unwrap();
    assert_eq!(field(&r3, "url"), &JsonValue::Null);
}

#[test]
fn test_schema_map_template() {
    let spec = spec(vec![(
        "citation",
        FieldSource::Template(TemplateSource {
            template: "{author} ({year}). {title}".to_string(),
            vars: vec![
                ("author".to_string(), "$.author".to_string()),
                ("year".to_string(), "$.year".to_string()),
                ("title".to_string(), "$.title".to_string()),
            ],
        }),
    )]);
    let input = json(r#"{"author": "Smith", "year": 2024, "title": "A Study"}"#);
    let result = SchemaMapExecutor::execute(&spec, &input).unwrap();
    assert_eq!(field(&result, "citation"), &s("Smith (2024). A Study"));
}

#[test]
fn test_schema_map_concat() {
    let spec = spec(vec![(
        "full_name",
        FieldSource::Concat(ConcatSource {
            paths: vec!["$.first".to_string(), "$.last".to_string()],
            separator: Some(" ".to_string()),
        }),
    )]);
    let result = SchemaMapExecutor::execute(&spec, &json(r#"{"first": "John", "last": "Doe"}"#)).unwrap();
    assert_eq!(field(&result, "full_name"), &s("John Doe"));
}

#[test]
fn test_schema_map_nested() {
    let inner = spec(vec![("name", path("$.author.name")), ("affiliation", path("$.author.org"))]);
    let spec = spec(vec![("title", path("$.title")), ("author_info", FieldSource::Nested(Box::new(inner)))]);
    let input = json(r#"{"title": "Paper Title", "author": {"name": "Jane Doe", "org": "University"}}"#);
    let result = SchemaMapExecutor::execute(&spec, &input).unwrap();
    assert_eq!(field(&result, "title"), &s("Paper Title"));
    assert_eq!(field(field(&result, "author_info"), "name"), &s("Jane Doe"));
    assert_eq!(field(field(&result, "author_info"), "affiliation"), &s("University"));
}

#[test]
fn schema_map_whole_input_several_nodes_and_rendering() {
    let spec = spec(vec![
        ("all", path("$")),
        ("ids", path("$.items[*].id")),
        ("none", path("$.missing")),
        ("joined", FieldSource::Concat(ConcatSource {
            paths: vec!["$.n".to_string(), "$.missing".to_string(), "$.flag".to_string(), "$.obj".to_string()],
            separator: Some("|".to_string()),
        })),
    ]);
    let input = json(r#"{"items": [{"id": 1}, {"id": 2}], "n": 7, "flag": false, "obj": {"a": 1}}"#);
    let result = SchemaMapExecutor::execute(&spec, &input).unwrap();
    assert_eq!(field(&result, "all"), &input);
    assert_eq!(field(&result, "ids"), &json("[1, 2]"));
    assert_eq!(field(&result, "none"), &JsonValue::Null);
    assert_eq!(field(&result, "joined"), &s(r#"7|false|{"a":1}"#));
}

#[test]
fn schema_map_reports_the_first_bad_path() {
    let spec = spec(vec![("ok", path("$.a")), ("bad", path("$[")), ("worse", path("$]"))]);
    match SchemaMapExecutor::execute(&spec, &json("{}")) {
        Err(ExecutionError::JsonPathError(m)) => assert!(m.starts_with("$[: "), "{}", m),
        other => panic!("unexpected {:?}", other),
    }
}

#[test]
fn schema_map_spec_builders() {
    let m = SchemaMapSpec::empty()
        .with_path("name".to_string(), "$.a".to_string())
        .with_literal("kind".to_string(), s("user"))
        .with_path("name".to_string(), "$.b".to_string());
    let names: Vec<&str> = m.mappings.iter().map(|(k, _)| k.as_str()).collect();
    assert_eq!(names, vec!["name", "kind"]);
    assert!(matches!(&m.mappings[0].1, FieldSource::Path(p) if p == "$.b"));
    assert!(matches!(FieldSource::null(), FieldSource::Literal(JsonValue::Null)));
    assert!(matches!(FieldSource::coalesce(vec!["$.x".to_string()]), FieldSource::Coalesce(c) if c.paths.len() == 1));
}
