use agentgateway::enricher::{collect_enrichments, enrichment_answer, get_nested_value, original_body, merge_results, EnricherError, MergeStrategy, SchemaMapSpec};
use agentgateway::json::{JsonNumber, JsonValue};

fn s(x: &str) -> JsonValue {
    JsonValue::String(x.to_string())
}

fn n(x: u64) -> JsonValue {
    JsonValue::Number(JsonNumber::PosInt(x))
}

fn obj(members: Vec<(&str, JsonValue)>) -> JsonValue {
    JsonValue::Object(members.into_iter().map(|(k, v)| (k.to_string(), v)).collect())
}

fn members(members: Vec<(&str, JsonValue)>) -> Vec<(String, JsonValue)> {
    members.into_iter().map(|(k, v)| (k.to_string(), v)).collect()
}

#[test]
fn collect_keeps_answers_in_order_and_last_wins() {
    let results = vec![
        Ok(("user".to_string(), s("u1"))),
        Ok(("perm".to_string(), s("p"))),
        Ok(("user".to_string(), s("u2"))),
    ];
    assert_eq!(collect_enrichments(&results, false), Ok(members(vec![("user", s("u2")), ("perm", s("p"))])));
}

#[test]
fn collect_fails_on_first_error_unless_ignored() {
    let results = vec![
        Ok(("a".to_string(), n(1))),
        Err(EnricherError::SourceFailed("b".to_string(), "boom".to_string())),
        Err(EnricherError::Timeout),
        Ok(("c".to_string(), n(3))),
    ];
    assert_eq!(
        collect_enrichments(&results, false),
        Err(EnricherError::SourceFailed("b".to_string(), "boom".to_string()))
    );
    assert_eq!(collect_enrichments(&results, true), Ok(members(vec![("a", n(1)), ("c", n(3))])));
}

#[test]
fn spread_merges_into_object() {
    let original = obj(vec![("id", n(7)), ("user", s("old"))]);
    let merged = merge_results(&MergeStrategy::Spread, original, members(vec![("user", s("new")), ("x", n(1))]));
    assert_eq!(merged, Ok(obj(vec![("id", n(7)), ("user", s("new")), ("x", n(1))])));
}

#[test]
fn spread_wraps_non_object() {
    let merged = merge_results(&MergeStrategy::Spread, s("raw"), members(vec![("x", n(1))]));
    assert_eq!(merged, Ok(obj(vec![("_original", s("raw")), ("x", n(1))])));
}

#[test]
fn nested_merge_puts_answers_under_key() {
    let strategy = MergeStrategy::Nested { key: "enriched_data".to_string() };
    let merged = merge_results(&strategy, obj(vec![("id", n(1))]), members(vec![("a", n(2))]));
    assert_eq!(merged, Ok(obj(vec![("id", n(1)), ("enriched_data", obj(vec![("a", n(2))]))])));
    let merged = merge_results(&strategy, JsonValue::Null, members(vec![]));
    assert_eq!(merged, Ok(obj(vec![("_original", JsonValue::Null), ("enriched_data", obj(vec![]))])));
}

#[test]
fn schema_map_merge_follows_dotted_paths() {
    let strategy = MergeStrategy::SchemaMap(SchemaMapSpec {
        mappings: vec![
            ("userName".to_string(), "user.profile.name".to_string()),
            ("missing".to_string(), "user.nothing".to_string()),
            ("whole".to_string(), "perm".to_string()),
        ],
    });
    let enrichments = members(vec![("user", obj(vec![("profile", obj(vec![("name", s("Ada"))]))])), ("perm", s("rw"))]);
    let merged = merge_results(&strategy, obj(vec![("id", n(1))]), enrichments);
    assert_eq!(merged, Ok(obj(vec![("id", n(1)), ("userName", s("Ada")), ("whole", s("rw"))])));
}

#[test]
fn schema_map_merge_needs_object_body() {
    let strategy = MergeStrategy::SchemaMap(SchemaMapSpec { mappings: vec![] });
    match merge_results(&strategy, s("raw"), vec![]) {
        Err(EnricherError::MergeFailed(m)) => {
            assert_eq!(m, "SchemaMap merge requires original body to be a JSON object")
        },
        other => panic!("unexpected {:?}", other),
    }
}

#[test]
fn nested_value_lookup() {
    let enrichments = members(vec![("user", obj(vec![("name", s("Ada"))]))]);
    assert_eq!(get_nested_value(&enrichments, "user.name"), Some(&s("Ada")));
    assert_eq!(get_nested_value(&enrichments, "user"), Some(&obj(vec![("name", s("Ada"))])));
    assert_eq!(get_nested_value(&enrichments, "other.name"), None);
    assert_eq!(get_nested_value(&enrichments, "user.name.first"), None);
}

#[test]
fn error_messages() {
    assert_eq!(
        EnricherError::SourceFailed("profile".to_string(), "404".to_string()).message(),
        "enrichment source 'profile' failed: 404"
    );
    assert_eq!(EnricherError::Timeout.message(), "timeout waiting for enrichment");
    assert_eq!(EnricherError::MergeFailed("x".to_string()).message(), "merge failed: x");
    assert_eq!(EnricherError::InvalidBackend("b".to_string()).message(), "invalid backend reference: b");
    assert_eq!(EnricherError::BodyReadFailed("r".to_string()).message(), "failed to read request body: r");
    assert_eq!(EnricherError::JsonParseFailed("j".to_string()).message(), "failed to parse body as JSON: j");
}

#[test]
fn enrichment_answers_check_status_and_read_json() {
    let field = "user".to_string();
    match enrichment_answer(&field, 503, &b"{}".to_vec()) {
        Err(EnricherError::SourceFailed(f, m)) => {
            assert_eq!(f, "user");
            assert_eq!(m, "backend returned status 503 Service Unavailable");
        },
        other => panic!("unexpected {:?}", other),
    }
    assert_eq!(
        enrichment_answer(&field, 200, &br#"{"id": 7}"#.to_vec()),
        Ok(("user".to_string(), JsonValue::Object(vec![("id".to_string(), JsonValue::Number(JsonNumber::PosInt(7)))])))
    );
    assert!(matches!(enrichment_answer(&field, 200, &b"not json".to_vec()), Err(EnricherError::SourceFailed(_, _))));
    assert_eq!(original_body(&vec![]), Ok(JsonValue::Object(vec![])));
    assert!(matches!(original_body(&b"{".to_vec()), Err(EnricherError::JsonParseFailed(_))));
}
