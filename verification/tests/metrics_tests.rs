use greeter::grpc::metrics::{
    grpc_method_from_path, status_code_from, BodyEvent, GrpcMetricsRecorder,
    GrpcRequestMetricsMiddleware, MiddlewareAction, ServiceOutcome, StatusLabel,
};
use greeter::grpc::GrpcCode;

#[test]
fn header_values_zero_to_sixteen_name_their_codes() {
    for n in 0..=16i32 {
        let text = n.to_string();
        assert_eq!(status_code_from(Some(text.as_bytes())), Some(GrpcCode::from_i32(n)));
    }
    assert_eq!(status_code_from(Some(b"0")).unwrap().name(), "OK");
    assert_eq!(status_code_from(Some(b"14")).unwrap().name(), "UNAVAILABLE");
}

#[test]
fn other_header_values_are_unknown() {
    for value in [&b"17"[..], b"00", b"01", b"", b"-1", b"1a", b"OK", b" 0", b"100"] {
        assert_eq!(status_code_from(Some(value)), Some(GrpcCode::Unknown), "value {value:?}");
    }
}

#[test]
fn missing_header_gives_no_status() {
    assert_eq!(status_code_from(None), None);
}

#[test]
fn labels_read_as_metrics_expect() {
    assert_eq!(StatusLabel::Code(GrpcCode::Success).as_str(), "OK");
    assert_eq!(StatusLabel::Code(GrpcCode::DeadlineExceeded).as_str(), "DEADLINE_EXCEEDED");
    assert_eq!(StatusLabel::TransportError.as_str(), "TRANSPORT_ERROR");
    assert_eq!(StatusLabel::Incomplete.as_str(), "INCOMPLETE");
}

#[test]
fn recorder_records_only_the_first_status() {
    let mut recorder = GrpcMetricsRecorder::new();
    assert!(!recorder.is_recorded());
    assert_eq!(recorder.record(StatusLabel::Code(GrpcCode::Internal)), Some(StatusLabel::Code(GrpcCode::Internal)));
    assert!(recorder.is_recorded());
    assert_eq!(recorder.record(StatusLabel::Code(GrpcCode::Success)), None);
    assert_eq!(recorder.finish(), None);
}

#[test]
fn body_events_settle_their_statuses() {
    let cases = [
        (BodyEvent::Trailers(Some(GrpcCode::NotFound)), Some(StatusLabel::Code(GrpcCode::NotFound))),
        (BodyEvent::Trailers(None), Some(StatusLabel::Code(GrpcCode::Unknown))),
        (BodyEvent::Error(GrpcCode::Cancelled), Some(StatusLabel::Code(GrpcCode::Cancelled))),
        (BodyEvent::End, Some(StatusLabel::Code(GrpcCode::Success))),
        (BodyEvent::Data, None),
        (BodyEvent::Pending, None),
    ];
    for (event, expected) in cases {
        let mut recorder = GrpcMetricsRecorder::new();
        assert_eq!(recorder.observe(event), expected, "event {event:?}");
    }
}

#[test]
fn a_streamed_request_is_counted_exactly_once() {
    let events = [
        BodyEvent::Pending,
        BodyEvent::Data,
        BodyEvent::Trailers(Some(GrpcCode::Success)),
        BodyEvent::Error(GrpcCode::Internal),
        BodyEvent::End,
    ];
    let mut recorder = GrpcMetricsRecorder::new();
    let mut counted = Vec::new();
    for event in events {
        counted.extend(recorder.observe(event));
    }
    counted.extend(recorder.finish());
    assert_eq!(counted, vec![StatusLabel::Code(GrpcCode::Success)]);
}

#[test]
fn a_dropped_body_is_counted_as_incomplete() {
    let mut recorder = GrpcMetricsRecorder::new();
    assert_eq!(recorder.observe(BodyEvent::Data), None);
    assert_eq!(recorder.finish(), Some(StatusLabel::Incomplete));
    assert_eq!(recorder.finish(), None);
}

#[test]
fn middleware_counts_header_status_at_once() {
    let middleware = GrpcRequestMetricsMiddleware;
    match middleware.on_service_result(ServiceOutcome::Response(Some(GrpcCode::PermissionDenied))) {
        MiddlewareAction::Record(label) => assert_eq!(label, StatusLabel::Code(GrpcCode::PermissionDenied)),
        MiddlewareAction::ObserveBody(_) => panic!("expected an immediate record"),
    }
}

#[test]
fn middleware_counts_service_failure_as_transport_error() {
    let middleware = GrpcRequestMetricsMiddleware;
    assert!(matches!(
        middleware.on_service_result(ServiceOutcome::TransportError),
        MiddlewareAction::Record(StatusLabel::TransportError)
    ));
}

#[test]
fn middleware_observes_body_without_header_status() {
    let middleware = GrpcRequestMetricsMiddleware;
    match middleware.on_service_result(ServiceOutcome::Response(None)) {
        MiddlewareAction::ObserveBody(recorder) => assert!(!recorder.is_recorded()),
        MiddlewareAction::Record(_) => panic!("expected the body to be observed"),
    }
}

#[test]
fn method_is_the_path_without_leading_slashes() {
    assert_eq!(grpc_method_from_path("/helloworld.GreeterService/EchoHello"), "helloworld.GreeterService/EchoHello");
    assert_eq!(grpc_method_from_path("///a/b/"), "a/b/");
    assert_eq!(grpc_method_from_path("a/b"), "a/b");
    assert_eq!(grpc_method_from_path("//"), "");
    assert_eq!(grpc_method_from_path(""), "");
    for path in ["/ü/x", "/x/ü", "no/slash/first"] {
        assert_eq!(grpc_method_from_path(path), path.trim_start_matches('/'));
    }
}
