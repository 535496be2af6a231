use agentgateway::wiretap::{TapPoint, WireTap};

/// A tap target as configurations give it: a backend and a sampling rate.
#[derive(Debug, Clone, PartialEq)]
struct TapTarget {
    backend: String,
    percentage: f64,
}

fn target(backend: &str, percentage: f64) -> TapTarget {
    TapTarget { backend: backend.to_string(), percentage }
}

#[test]
fn test_wiretap_default_tap_point() {
    let tap_point = TapPoint::default();
    assert_eq!(tap_point, TapPoint::After);
}

#[test]
fn tap_points_before_and_after() {
    assert!(TapPoint::Before.taps_before() && !TapPoint::Before.taps_after());
    assert!(!TapPoint::After.taps_before() && TapPoint::After.taps_after());
    assert!(TapPoint::Both.taps_before() && TapPoint::Both.taps_after());
}

#[test]
fn test_wiretap_after() {
    let wiretap = WireTap::after(vec![target("audit-service", 1.0)]);
    assert_eq!(wiretap.tap_point, TapPoint::After);
    assert!(!wiretap.should_tap_before());
    assert!(wiretap.should_tap_after());
}

#[test]
fn test_wiretap_before() {
    let wiretap = WireTap::before(vec![target("pre-processor", 1.0)]);
    assert_eq!(wiretap.tap_point, TapPoint::Before);
    assert!(wiretap.should_tap_before());
    assert!(!wiretap.should_tap_after());
}

#[test]
fn test_wiretap_both() {
    let wiretap = WireTap::both(vec![target("full-audit", 1.0)]);
    assert_eq!(wiretap.tap_point, TapPoint::Both);
    assert!(wiretap.should_tap_before());
    assert!(wiretap.should_tap_after());
}

#[test]
fn test_wiretap_multiple_targets() {
    let targets = vec![target("audit-service", 1.0), target("metrics-service", 0.5), target("debug-service", 0.1)];
    let wiretap = WireTap::new(targets);
    assert_eq!(wiretap.targets.len(), 3);
    assert_eq!(wiretap.targets[0].percentage, 1.0);
    assert_eq!(wiretap.targets[1].percentage, 0.5);
    assert_eq!(wiretap.targets[2].percentage, 0.1);
    assert_eq!(wiretap.targets[1].backend, "metrics-service");
    assert_eq!(wiretap.tap_point, TapPoint::After);
}
