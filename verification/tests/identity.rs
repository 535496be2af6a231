use agentgateway::identity::{CallerIdentity, IdentitySource, AGENT_NAME_CLAIM, AGENT_VERSION_CLAIM};
use agentgateway::json::{JsonNumber, JsonValue};

fn claims(members: Vec<(&str, JsonValue)>) -> JsonValue {
    JsonValue::Object(members.into_iter().map(|(k, v)| (k.to_string(), v)).collect())
}

#[test]
fn test_identity_from_claims() {
    let claims = claims(vec![
        ("sub", JsonValue::String("user123".to_string())),
        ("agent_name", JsonValue::String("research-agent".to_string())),
        ("agent_version", JsonValue::String("2.1.0".to_string())),
    ]);
    let identity = CallerIdentity::from_claims(&claims).unwrap();
    assert_eq!(identity.name, "research-agent");
    assert_eq!(identity.version, Some("2.1.0".to_string()));
    assert_eq!(identity.source, IdentitySource::JwtClaims);
}

#[test]
fn test_identity_from_claims_missing() {
    let claims = claims(vec![("sub", JsonValue::String("user123".to_string()))]);
    assert!(CallerIdentity::from_claims(&claims).is_none());
}

#[test]
fn identity_claims_must_be_strings() {
    let c = claims(vec![
        (AGENT_NAME_CLAIM, JsonValue::String("a".to_string())),
        (AGENT_VERSION_CLAIM, JsonValue::Number(JsonNumber::PosInt(2))),
    ]);
    let id = CallerIdentity::from_claims(&c).unwrap();
    assert_eq!(id.version, None);
    let c = claims(vec![(AGENT_NAME_CLAIM, JsonValue::Bool(true))]);
    assert!(CallerIdentity::from_claims(&c).is_none());
}

#[test]
fn test_identity_from_headers() {
    let identity =
        CallerIdentity::from_header_values(Some("customer-agent".to_string()), Some("1.0.0".to_string())).unwrap();
    assert_eq!(identity.name, "customer-agent");
    assert_eq!(identity.version, Some("1.0.0".to_string()));
    assert_eq!(identity.source, IdentitySource::Headers);
}

#[test]
fn test_identity_from_headers_name_only() {
    let identity = CallerIdentity::from_header_values(Some("test-agent".to_string()), None).unwrap();
    assert_eq!(identity.name, "test-agent");
    assert_eq!(identity.version, None);
}

#[test]
fn test_identity_from_headers_missing() {
    assert!(CallerIdentity::from_header_values(None, None).is_none());
}

#[test]
fn test_identity_from_mcp_client_info() {
    let identity = CallerIdentity::from_client_info("my-agent".to_string(), "1.0.0".to_string());
    assert_eq!(identity.name, "my-agent");
    assert_eq!(identity.version, Some("1.0.0".to_string()));
    assert_eq!(identity.source, IdentitySource::McpClientInfo);
}

#[test]
fn identity_new() {
    let id = CallerIdentity::new("x".to_string(), None, IdentitySource::Headers);
    assert_eq!(id, CallerIdentity { name: "x".to_string(), version: None, source: IdentitySource::Headers });
}
