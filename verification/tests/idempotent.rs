use agentgateway::idempotent::{
    join_key_parts, DirectResponse, Idempotent, IdempotencyStore, IdempotentCheckResult, OnDuplicate,
};
use agentgateway::proxy::ProxyError;

fn policy(on_duplicate: OnDuplicate, ttl_ms: u64) -> Idempotent {
    Idempotent::try_new(vec!["request.headers['x-idempotency-key']".to_string()], on_duplicate, ttl_ms)
        .unwrap()
}

#[test]
fn test_idempotent_spec_creation() {
    let idempotent = Idempotent::try_new(
        vec!["request.headers['x-idempotency-key']".to_string()],
        OnDuplicate::Cached,
        300_000,
    )
    .unwrap();
    assert_eq!(idempotent.on_duplicate, OnDuplicate::Cached);
}

#[test]
fn test_idempotent_empty_key_paths_fails() {
    assert!(Idempotent::try_new(vec![], OnDuplicate::Cached, 300_000).is_err());
}

#[test]
fn test_store_set_if_not_exists_first_request() {
    let mut store = IdempotencyStore::new();
    assert!(store.set_if_not_exists("key1", 60_000, 0));
}

#[test]
fn test_store_set_if_not_exists_duplicate() {
    let mut store = IdempotencyStore::new();
    assert!(store.set_if_not_exists("key1", 60_000, 0));
    assert!(!store.set_if_not_exists("key1", 60_000, 0));
}

#[test]
fn test_store_set_and_get_response() {
    let mut store = IdempotencyStore::new();
    store.set_if_not_exists("key1", 60_000, 0);
    store.set_response("key1", b"response data".to_vec(), 60_000, 0);

    let response = store.get("key1", 0);
    assert!(response.is_some());
    assert_eq!(response.unwrap(), b"response data".to_vec());
}

#[test]
fn test_store_get_nonexistent_key() {
    let store = IdempotencyStore::new();
    assert!(store.get("nonexistent", 0).is_none());
}

#[test]
fn test_on_duplicate_variants() {
    assert_eq!(OnDuplicate::default(), OnDuplicate::Cached);
    assert_ne!(OnDuplicate::Skip, OnDuplicate::Error);
}

#[test]
fn test_idempotent_check_result_should_proceed() {
    let result = IdempotentCheckResult::Proceed { key: "test".to_string() };
    assert!(result.should_proceed());

    let result = IdempotentCheckResult::Skip { key: "test".to_string() };
    assert!(!result.should_proceed());

    let result = IdempotentCheckResult::CachedResponse { key: "test".to_string(), response: b"cached".to_vec() };
    assert!(!result.should_proceed());
}

#[test]
fn test_idempotent_check_result_key() {
    let result = IdempotentCheckResult::Proceed { key: "my-key".to_string() };
    assert_eq!(result.key(), "my-key");
}

#[test]
fn empty_key_paths_error_message() {
    match Idempotent::try_new(vec![], OnDuplicate::Skip, 1) {
        Err(m) => assert_eq!(m, "at least one key path is required"),
        Ok(_) => panic!("expected an error"),
    }
}

#[test]
fn key_expires_after_ttl() {
    let mut store = IdempotencyStore::new();
    assert!(store.set_if_not_exists("k", 100, 1_000));
    assert!(!store.set_if_not_exists("k", 100, 1_099));
    // At the expiry time the key is no longer live.
    assert!(store.set_if_not_exists("k", 100, 1_100));
}

#[test]
fn reserved_key_has_no_response_yet() {
    let mut store = IdempotencyStore::new();
    store.set_if_not_exists("k", 100, 0);
    assert_eq!(store.get("k", 50), None);
}

#[test]
fn stored_response_expires() {
    let mut store = IdempotencyStore::new();
    store.set_response("k", vec![1, 2, 3], 10, 5);
    assert_eq!(store.get("k", 14), Some(vec![1, 2, 3]));
    assert_eq!(store.get("k", 15), None);
}

#[test]
fn cleanup_drops_expired_entries_only() {
    let mut store = IdempotencyStore::new();
    store.set_response("old", vec![1], 10, 0);
    store.set_response("new", vec![2], 100, 0);
    store.cleanup(50);
    assert_eq!(store.get("old", 0), None);
    assert_eq!(store.get("new", 0), Some(vec![2]));
}

#[test]
fn check_first_request_proceeds() {
    let mut p = policy(OnDuplicate::Cached, 1_000);
    let r = p.check("abc".to_string(), 0).unwrap();
    assert_eq!(r, IdempotentCheckResult::Proceed { key: "abc".to_string() });
}

#[test]
fn check_duplicate_cached_without_response_is_conflict() {
    let mut p = policy(OnDuplicate::Cached, 1_000);
    p.check("abc".to_string(), 0).unwrap();
    assert_eq!(p.check("abc".to_string(), 10), Err(ProxyError::DuplicateRequest));
}

#[test]
fn check_duplicate_cached_replays_stored_response() {
    let mut p = policy(OnDuplicate::Cached, 1_000);
    p.check("abc".to_string(), 0).unwrap();
    p.store_response("abc", b"{\"ok\":true}".to_vec(), 5);
    let r = p.check("abc".to_string(), 10).unwrap();
    assert_eq!(
        r,
        IdempotentCheckResult::CachedResponse { key: "abc".to_string(), response: b"{\"ok\":true}".to_vec() }
    );
}

#[test]
fn check_duplicate_skip() {
    let mut p = policy(OnDuplicate::Skip, 1_000);
    p.check("abc".to_string(), 0).unwrap();
    let r = p.check("abc".to_string(), 1).unwrap();
    assert_eq!(r, IdempotentCheckResult::Skip { key: "abc".to_string() });
    assert_eq!(r.key(), "abc");
}

#[test]
fn check_duplicate_error() {
    let mut p = policy(OnDuplicate::Error, 1_000);
    p.check("abc".to_string(), 0).unwrap();
    assert_eq!(p.check("abc".to_string(), 1), Err(ProxyError::DuplicateRequest));
}

#[test]
fn check_after_ttl_proceeds_again() {
    let mut p = policy(OnDuplicate::Error, 1_000);
    p.check("abc".to_string(), 0).unwrap();
    assert!(p.check("abc".to_string(), 1_000).unwrap().should_proceed());
}

#[test]
fn join_key_parts_uses_colons() {
    let parts = vec!["a".to_string(), "b".to_string(), "c".to_string()];
    assert_eq!(join_key_parts(&parts), "a:b:c");
    assert_eq!(join_key_parts(&vec!["only".to_string()]), "only");
    assert_eq!(join_key_parts(&vec![]), "");
}

#[test]
fn test_idempotent_check_result_to_policy_response_proceed() {
    let result = IdempotentCheckResult::Proceed { key: "test".to_string() };
    assert!(result.to_policy_response().is_none());
}

#[test]
fn test_idempotent_check_result_to_policy_response_skip() {
    let result = IdempotentCheckResult::Skip { key: "test".to_string() };
    let dr: DirectResponse = result.to_policy_response().unwrap();
    assert_eq!(dr.status, 204);
    assert!(dr.body.is_empty());
    assert_eq!(dr.headers, vec![("x-idempotent-skipped".to_string(), "true".to_string())]);
}

#[test]
fn test_idempotent_check_result_to_policy_response_cached() {
    let result = IdempotentCheckResult::CachedResponse {
        key: "test".to_string(),
        response: br#"{"result": "cached"}"#.to_vec(),
    };
    let dr = result.to_policy_response().unwrap();
    assert_eq!(dr.status, 200);
    assert_eq!(dr.body, br#"{"result": "cached"}"#.to_vec());
    assert_eq!(
        dr.headers,
        vec![
            ("content-type".to_string(), "application/json".to_string()),
            ("x-idempotent-replayed".to_string(), "true".to_string()),
        ]
    );
}
