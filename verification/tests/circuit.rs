use agentgateway::circuit::{
    CircuitBreakerError, CircuitBreakerExecutor, CircuitBreakerSpec, CircuitState, CircuitStateEnum,
    InMemoryStateStore, StateStore,
};
use agentgateway::duration::Duration;
use agentgateway::json::JsonValue;

type Executor = CircuitBreakerExecutor<InMemoryStateStore>;

fn test_spec(name: &str) -> CircuitBreakerSpec {
    CircuitBreakerSpec {
        name: name.to_string(),
        failure_threshold: 3,
        reset_timeout: Duration::from_millis(100),
        failure_window: Duration::from_secs(60),
        success_threshold: 2,
        fallback: None,
    }
}

/// One call at clock reading `now` (milliseconds): admission, then the
/// operation's outcome.
fn call(ex: &mut Executor, spec: &CircuitBreakerSpec, now: u64, fail: bool) -> Result<(), CircuitBreakerError> {
    let admission = ex.begin_at(spec, Some(now))?;
    let outcome = if fail { Err("failed".to_string()) } else { Ok(()) };
    ex.complete_at(spec, admission, outcome, Some(now))
}

fn stored(ex: &Executor, spec: &CircuitBreakerSpec) -> Option<CircuitState> {
    ex.store().load_circuit_state(&spec.name).unwrap()
}

#[test]
fn test_circuit_closed_success() {
    let mut ex = Executor::new(InMemoryStateStore::new());
    let spec = test_spec("test_closed_success");
    assert_eq!(call(&mut ex, &spec, 1000, false), Ok(()));
    if let Some(s) = stored(&ex, &spec) {
        assert_eq!(s.state, CircuitStateEnum::Closed);
    }
}

#[test]
fn test_circuit_trips_on_failures() {
    let mut ex = Executor::new(InMemoryStateStore::new());
    let spec = test_spec("test_trips_on_failures");
    for i in 0..spec.failure_threshold {
        let r = call(&mut ex, &spec, 1000 + i as u64, true);
        assert_eq!(r, Err(CircuitBreakerError::OperationFailed("failed".to_string())));
        let state = stored(&ex, &spec).unwrap();
        if i < spec.failure_threshold - 1 {
            assert_eq!(state.state, CircuitStateEnum::Closed);
            assert_eq!(state.failure_count, i + 1);
        } else {
            assert_eq!(state.state, CircuitStateEnum::Open);
            assert_eq!(state.opened_at_ms, Some(1000 + i as u64));
        }
    }
}

#[test]
fn test_circuit_open_fast_fail() {
    let mut ex = Executor::new(InMemoryStateStore::new());
    let spec = test_spec("test_open_fast_fail");
    for i in 0..spec.failure_threshold {
        let _ = call(&mut ex, &spec, 1000 + i as u64, true);
    }
    let before = stored(&ex, &spec).unwrap();
    assert_eq!(before.state, CircuitStateEnum::Open);
    // 30 ms after opening, with a 100 ms reset timeout.
    match ex.begin_at(&spec, Some(1032)) {
        Err(CircuitBreakerError::CircuitOpen { name, retry_after }) => {
            assert_eq!(name, spec.name);
            assert_eq!(retry_after, Some(Duration::from_millis(70)));
        },
        other => panic!("expected CircuitOpen error, got {:?}", other),
    }
    assert_eq!(stored(&ex, &spec), Some(before));
}

#[test]
fn test_circuit_open_with_fallback() {
    let mut ex = Executor::new(InMemoryStateStore::new());
    let mut spec = test_spec("test_open_with_fallback");
    spec.fallback = Some(JsonValue::Object(vec![("default".to_string(), JsonValue::String("value".to_string()))]));
    for i in 0..spec.failure_threshold {
        let _ = call(&mut ex, &spec, 1000 + i as u64, true);
    }
    assert!(matches!(call(&mut ex, &spec, 1010, false), Err(CircuitBreakerError::CircuitOpen { .. })));
}

#[test]
fn test_circuit_half_open_recovery() {
    let mut ex = Executor::new(InMemoryStateStore::new());
    let mut spec = test_spec("test_half_open_recovery");
    spec.success_threshold = 2;
    spec.reset_timeout = Duration::from_millis(10);
    for i in 0..spec.failure_threshold {
        let _ = call(&mut ex, &spec, 1000 + i as u64, true);
    }
    assert_eq!(stored(&ex, &spec).unwrap().state, CircuitStateEnum::Open);
    assert_eq!(call(&mut ex, &spec, 1030, false), Ok(()));
    let state = stored(&ex, &spec).unwrap();
    assert_eq!(state.state, CircuitStateEnum::HalfOpen);
    assert_eq!(state.success_count_in_half_open, 1);
    assert_eq!(call(&mut ex, &spec, 1031, false), Ok(()));
    let state = stored(&ex, &spec).unwrap();
    assert_eq!(state.state, CircuitStateEnum::Closed);
    assert_eq!(state.failure_count, 0);
    assert_eq!(state.last_failure_time_ms, None);
    assert_eq!(state.opened_at_ms, None);
}

#[test]
fn test_circuit_half_open_failure() {
    let mut ex = Executor::new(InMemoryStateStore::new());
    let mut spec = test_spec("test_half_open_failure");
    spec.reset_timeout = Duration::from_millis(10);
    for i in 0..spec.failure_threshold {
        let _ = call(&mut ex, &spec, 1000 + i as u64, true);
    }
    assert_eq!(call(&mut ex, &spec, 1030, true), Err(CircuitBreakerError::OperationFailed("failed".to_string())));
    let state = stored(&ex, &spec).unwrap();
    assert_eq!(state.state, CircuitStateEnum::Open);
    assert_eq!(state.opened_at_ms, Some(1030));
    assert_eq!(state.success_count_in_half_open, 0);
}

#[test]
fn test_circuit_failure_window() {
    let mut ex = Executor::new(InMemoryStateStore::new());
    let mut spec = test_spec("test_failure_window");
    spec.failure_threshold = 3;
    spec.failure_window = Duration::from_millis(50);
    let _ = call(&mut ex, &spec, 1000, true);
    assert_eq!(stored(&ex, &spec).unwrap().failure_count, 1);
    let _ = call(&mut ex, &spec, 1100, true);
    let state = stored(&ex, &spec).unwrap();
    assert_eq!(state.failure_count, 1);
    assert_eq!(state.last_failure_time_ms, Some(1100));
    assert_eq!(state.state, CircuitStateEnum::Closed);
    let _ = call(&mut ex, &spec, 1110, true);
    let _ = call(&mut ex, &spec, 1120, true);
    assert_eq!(stored(&ex, &spec).unwrap().state, CircuitStateEnum::Open);
}

#[test]
fn test_state_store_persistence() {
    let spec = test_spec("test_persistence");
    let mut first = Executor::new(InMemoryStateStore::new());
    assert_eq!(stored(&first, &spec), None);
    let _ = call(&mut first, &spec, 1000, true);
    let _ = call(&mut first, &spec, 1001, true);
    let store = first.into_store();
    let mut second = Executor::new(store);
    let _ = call(&mut second, &spec, 1002, true);
    assert_eq!(stored(&second, &spec).unwrap().state, CircuitStateEnum::Open);
}

#[test]
fn test_circuit_state_transitions() {
    let mut ex = Executor::new(InMemoryStateStore::new());
    let mut spec = test_spec("test_transitions");
    spec.reset_timeout = Duration::from_millis(10);
    spec.success_threshold = 1;
    assert!(stored(&ex, &spec).map_or(true, |s| s.state == CircuitStateEnum::Closed));
    for i in 0..spec.failure_threshold {
        let _ = call(&mut ex, &spec, 1000 + i as u64, true);
    }
    assert_eq!(stored(&ex, &spec).unwrap().state, CircuitStateEnum::Open);
    let _ = call(&mut ex, &spec, 1030, false);
    assert_eq!(stored(&ex, &spec).unwrap().state, CircuitStateEnum::Closed);
}

#[test]
fn test_default_spec_values() {
    let spec = CircuitBreakerSpec::default();
    assert_eq!(spec.failure_threshold, 5);
    assert_eq!(spec.reset_timeout, Duration::from_secs(30));
    assert_eq!(spec.failure_window, Duration::from_secs(60));
    assert_eq!(spec.success_threshold, 3);
    assert!(spec.fallback.is_none());
}

#[test]
fn test_circuit_breaker_error_display() {
    let err = CircuitBreakerError::CircuitOpen { name: "test".to_string(), retry_after: Some(Duration::from_secs(5)) };
    let s = err.message();
    assert!(s.contains("test"));
    assert!(s.contains("open"));
    assert_eq!(s, "circuit 'test' is open, retry after 5s");
    assert_eq!(CircuitBreakerError::StateError("x".to_string()).message(), "state error: x");
}

#[test]
fn success_in_closed_state_ends_the_run_of_failures() {
    let mut ex = Executor::new(InMemoryStateStore::new());
    let spec = test_spec("consecutive");
    let _ = call(&mut ex, &spec, 1000, true);
    let _ = call(&mut ex, &spec, 1001, false);
    let _ = call(&mut ex, &spec, 1002, true);
    let _ = call(&mut ex, &spec, 1003, true);
    let state = stored(&ex, &spec).unwrap();
    assert_eq!(state.state, CircuitStateEnum::Closed);
    assert_eq!(state.failure_count, 2);
}
