use agentgateway::client::{parse_duration, AuthConfig, RegistryClient, RegistrySource};
use agentgateway::duration::Duration;
use agentgateway::registry_error::RegistryError;

#[test]
fn test_parse_duration() {
    assert_eq!(parse_duration("5s").unwrap(), Duration::from_secs(5));
    assert_eq!(parse_duration("5m").unwrap(), Duration::from_secs(300));
    assert_eq!(parse_duration("1h").unwrap(), Duration::from_secs(3600));
    assert_eq!(parse_duration("2d").unwrap(), Duration::from_secs(172800));
    assert_eq!(parse_duration("100ms").unwrap(), Duration::from_millis(100));
    assert_eq!(parse_duration("30").unwrap(), Duration::from_secs(30));
}

#[test]
fn test_parse_duration_errors() {
    assert!(parse_duration("").is_err());
    assert!(parse_duration("abc").is_err());
    assert!(parse_duration("-5s").is_err());
}

#[test]
fn parse_duration_trims_whitespace() {
    assert_eq!(parse_duration("  7s ").unwrap(), Duration::from_secs(7));
}

#[test]
fn parse_duration_error_is_invalid_source() {
    match parse_duration("abc") {
        Err(RegistryError::InvalidSource(m)) => assert!(m.contains("abc")),
        other => panic!("unexpected {:?}", other),
    }
}

#[test]
fn parse_duration_overflow_is_an_error() {
    assert!(parse_duration("18446744073709551615d").is_err());
}

#[test]
fn test_auth_config_bearer() {
    let auth = AuthConfig::Bearer("my-token".to_string());
    assert_eq!(auth.to_header_value(), "Bearer my-token");
}

#[test]
fn test_auth_config_basic() {
    let auth = AuthConfig::Basic { username: "user".to_string(), password: "pass".to_string() };
    assert_eq!(auth.to_header_value(), "Basic dXNlcjpwYXNz");
}

#[test]
fn test_from_uri_file() {
    let client = RegistryClient::from_uri("file:///path/to/registry.json", Duration::from_secs(300), None).unwrap();

    assert!(client.is_file_source());
    assert_eq!(client.file_path(), Some(&"/path/to/registry.json".to_string()));
}

#[test]
fn test_from_uri_http() {
    let client = RegistryClient::from_uri("https://example.com/registry.json", Duration::from_secs(300), None).unwrap();

    assert!(!client.is_file_source());
    assert_eq!(client.file_path(), None);
}

#[test]
fn test_from_uri_invalid() {
    assert!(RegistryClient::from_uri("ftp://example.com/registry.json", Duration::from_secs(300), None).is_err());
}

#[test]
fn from_uri_unsupported_scheme_message() {
    match RegistryClient::from_uri("ftp://x", Duration::from_secs(1), None) {
        Err(RegistryError::InvalidSource(m)) => assert_eq!(m, "unsupported URI scheme: ftp://x"),
        other => panic!("unexpected {:?}", other),
    }
}

#[test]
fn from_uri_unparsable_http_url() {
    match RegistryClient::from_uri("http://exa mple.com/", Duration::from_secs(1), None) {
        Err(RegistryError::InvalidSource(m)) => assert!(m.starts_with("invalid URL: ")),
        other => panic!("unexpected {:?}", other),
    }
}

#[test]
fn from_uri_http_keeps_auth_and_interval() {
    let auth = Some(AuthConfig::Bearer("t".to_string()));
    let client = RegistryClient::from_uri("http://example.com/r.json", Duration::from_millis(1500), auth.clone()).unwrap();
    assert_eq!(client.refresh_interval(), Duration::from_millis(1500));
    match client.source() {
        RegistrySource::Http { url, auth: a } => {
            assert_eq!(url.host(), Some("example.com"));
            assert_eq!(a, &auth);
        },
        RegistrySource::File(_) => panic!("expected an HTTP source"),
    }
}

#[test]
fn from_uri_file_with_empty_path() {
    let client = RegistryClient::from_uri("file://", Duration::from_secs(1), None).unwrap();
    assert_eq!(client.file_path(), Some(&String::new()));
}
