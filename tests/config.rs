use flvpipe::offset::{resolve_offset, CommitStrategy, ConfigError, ConsumerState, OffsetSpec};
use flvpipe::sink::{
    bind_values, delivery_result, destination, metrics_envelope, Destination, Event, OtelMetrics, SinkError,
    DEFAULT_METRICS_ENDPOINT,
};

#[test]
fn both_offsets_conflict() {
    assert_eq!(resolve_offset(Some(5), Some(3)), Err(ConfigError::ConflictingOffsetSpec));
    assert_eq!(resolve_offset(Some(-5), Some(0)), Err(ConfigError::ConflictingOffsetSpec));
}

#[test]
fn single_offsets_resolve() {
    assert_eq!(resolve_offset(None, None), Ok(OffsetSpec::Beginning));
    assert_eq!(resolve_offset(Some(0), None), Ok(OffsetSpec::Absolute(0)));
    assert_eq!(resolve_offset(Some(42), None), Ok(OffsetSpec::Absolute(42)));
    assert_eq!(resolve_offset(None, Some(7)), Ok(OffsetSpec::FromEnd(7)));
    assert_eq!(resolve_offset(Some(-1), None), Err(ConfigError::InvalidOffset));
}

#[test]
fn auto_commit_follows_processing() {
    let mut auto = ConsumerState::new(OffsetSpec::Beginning, CommitStrategy::Auto, "g".to_string());
    auto.record_done();
    auto.record_done();
    assert_eq!((auto.processed, auto.committed), (2, 2));
    let mut manual = ConsumerState::new(OffsetSpec::FromEnd(1), CommitStrategy::Manual, "g".to_string());
    manual.record_done();
    assert_eq!((manual.processed, manual.committed), (1, 0));
}

#[test]
fn metrics_endpoint_defaults_when_empty() {
    assert_eq!(OtelMetrics::new(String::new()).endpoint(), DEFAULT_METRICS_ENDPOINT);
    assert_eq!(OtelMetrics::new("http://h:1/v1/metrics".to_string()).endpoint(), "http://h:1/v1/metrics");
}

#[test]
fn delivery_status_decides() {
    assert_eq!(delivery_result(200, String::new()), Ok(()));
    assert_eq!(delivery_result(299, "x".to_string()), Ok(()));
    assert_eq!(
        delivery_result(404, "no such path".to_string()),
        Err(SinkError::Delivery { status: 404, body: "no such path".to_string() })
    );
    assert!(delivery_result(300, String::new()).is_err());
}

#[test]
fn insert_values_are_bound_in_order() {
    let e = Event { id: "1'; DROP".to_string(), timestamp: "t".to_string(), payload: "p".to_string() };
    assert_eq!(bind_values(&e), vec!["1'; DROP".to_string(), "t".to_string(), "p".to_string()]);
}

#[test]
fn metrics_record_is_rewrapped_alone() {
    assert_eq!(metrics_envelope(&vec![]), Ok(vec![0x0a, 0x00]));
    let rm = vec![0x1a, 0x01, 0x78];
    let mut expected = vec![0x0a, rm.len() as u8];
    expected.extend(rm.iter());
    assert_eq!(metrics_envelope(&rm), Ok(expected));
    assert_eq!(metrics_envelope(&vec![0xff]), Err(SinkError::Serialization));
}

#[test]
fn destinations_are_chosen_by_prefix() {
    match destination("otelm:") {
        Destination::Metrics(m) => assert_eq!(m.endpoint(), DEFAULT_METRICS_ENDPOINT),
        Destination::Topic(_) => panic!("expected metrics"),
    }
    match destination("otelm:otelm:http://h:4318/v1/metrics") {
        Destination::Metrics(m) => assert_eq!(m.endpoint(), "http://h:4318/v1/metrics"),
        Destination::Topic(_) => panic!("expected metrics"),
    }
    match destination("cat-facts") {
        Destination::Topic(t) => assert_eq!(t, "cat-facts"),
        Destination::Metrics(_) => panic!("expected a topic"),
    }
    match destination("otel") {
        Destination::Topic(t) => assert_eq!(t, "otel"),
        Destination::Metrics(_) => panic!("expected a topic"),
    }
}
