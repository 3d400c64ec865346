use borink_object_storage_proto::{Failure, FailureClass, GetHeadOutcome, ServiceErrorKind};

#[test]
fn describes_a_service_failure_with_its_status_and_request_id() {
    let failure = GetHeadOutcome::ServiceFailure(Failure {
        status: 429,
        class: FailureClass::Throttled,
        kind: None,
        request_id: Some(b"request-123"),
    });
    assert_eq!(
        failure.message(),
        "the service throttled the request (HTTP 429, request request-123)"
    );
}

#[test]
fn prefers_the_named_error_over_the_category() {
    let failure = GetHeadOutcome::ServiceFailure(Failure {
        status: 409,
        class: FailureClass::Other,
        kind: Some(ServiceErrorKind::AlreadyExists),
        request_id: None,
    });
    assert_eq!(failure.message(), "the object or the container already exists (HTTP 409)");
}

#[test]
fn omits_a_request_id_that_is_not_printable() {
    let failure = GetHeadOutcome::ServiceFailure(Failure {
        status: 500,
        class: FailureClass::Server,
        kind: None,
        request_id: Some(b"\xff"),
    });
    assert_eq!(failure.message(), "the service failed, or it was unavailable (HTTP 500)");
}

#[test]
fn separates_a_missing_object_from_a_missing_container() {
    assert_eq!(GetHeadOutcome::NotFound { kind: None }.message(), "the object does not exist");
    assert_eq!(
        GetHeadOutcome::NotFound { kind: Some(ServiceErrorKind::NoSuchContainer) }.message(),
        "the container does not exist"
    );
}

#[test]
fn describes_an_unsatisfiable_range_with_the_object_size() {
    assert_eq!(
        GetHeadOutcome::RangeNotSatisfiable { object_size: Some(10) }.message(),
        "the service cannot serve the requested range; the object is 10 bytes"
    );
}
