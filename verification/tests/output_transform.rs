use agentgateway::json::{JsonNumber, JsonValue};
use agentgateway::output_transform::{assemble_output, group_mappings, item_object, split_array_item, BaseMapping};

fn s(x: &str) -> JsonValue {
    JsonValue::String(x.to_string())
}

fn n(x: u64) -> JsonValue {
    JsonValue::Number(JsonNumber::PosInt(x))
}

fn names(xs: &[&str]) -> Vec<String> {
    xs.iter().map(|x| x.to_string()).collect()
}

#[test]
fn split_item_field_names() {
    assert_eq!(split_array_item("repos[*].name"), Some(("repos".to_string(), "name".to_string())));
    assert_eq!(split_array_item("a[*].b[*].c"), Some(("a".to_string(), "b[*].c".to_string())));
    assert_eq!(split_array_item("total"), None);
    assert_eq!(split_array_item("[*]."), Some((String::new(), String::new())));
    assert_eq!(split_array_item("[*]"), None);
}

#[test]
fn group_array_item_mappings() {
    let fields = names(&["total", "repos", "repos[*].name", "repos[*].stars", "orphan[*].x", "orphan[*].y"]);
    let groups = group_mappings(&fields);
    assert_eq!(
        groups.base,
        vec![
            BaseMapping { index: 0, items: vec![] },
            BaseMapping { index: 1, items: vec![("name".to_string(), 2), ("stars".to_string(), 3)] },
        ]
    );
    assert_eq!(groups.orphans, names(&["orphan"]));
}

#[test]
fn build_transformed_answer() {
    let item = item_object(&names(&["name", "stars"]), vec![s("owner1/repo1"), n(100)]);
    assert_eq!(
        item,
        JsonValue::Object(vec![("name".to_string(), s("owner1/repo1")), ("stars".to_string(), n(100))])
    );
    let out = assemble_output(
        vec![("total".to_string(), n(2)), ("repos".to_string(), JsonValue::Array(vec![item]))],
        &names(&["orphan", "total"]),
    );
    match out {
        JsonValue::Object(ms) => {
            let keys: Vec<&str> = ms.iter().map(|(k, _)| k.as_str()).collect();
            assert_eq!(keys, vec!["total", "repos", "orphan"]);
            assert_eq!(ms[2].1, JsonValue::Null);
            assert_eq!(ms[0].1, n(2));
        },
        other => panic!("unexpected {:?}", other),
    }
}
