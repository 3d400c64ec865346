use borink_object_storage_proto::{
    Blobs, ConditionKind, Container, Error, Failure, FailureClass, GetHeadOutcome, GetShape,
    RequestedRange, ResponseFault, ResponseHead, ServiceErrorKind,
};

fn blobs() -> Blobs<'static> {
    Blobs::new(
        Container::new("https://account", "container").unwrap(),
        "token",
    )
    .unwrap()
}

fn accept<'h>(shape: GetShape, head: ResponseHead<'h>) -> Result<GetHeadOutcome<'h>, Error> {
    blobs().accept_get_head(shape, head)
}

fn ranged(range: RequestedRange) -> GetShape {
    GetShape {
        range,
        ..GetShape::default()
    }
}

#[test]
fn rejects_content_ranges_that_are_not_arithmetically_sound() {
    let bounded = ranged(RequestedRange::Bounded { start: 2, end: 6 });
    for value in [
        b"bytes 5-2/10".as_slice(),
        b"bytes 2-10/10",
        b"bytes 2-5",
        b"bytes 2-x/10",
        b"bytes */10",
    ] {
        assert_eq!(
            accept(
                bounded,
                ResponseHead::from_headers(206, &[("Content-Range", value)])
            ),
            Err(Error::Response(ResponseFault::Head)),
            "{value:?}"
        );
    }
    assert_eq!(
        accept(
            bounded,
            ResponseHead::from_headers(
                206,
                &[
                    ("Content-Range", b"bytes 2-5/10".as_slice()),
                    ("Content-Length", b"9"),
                ],
            ),
        ),
        Err(Error::Response(ResponseFault::Head))
    );
}

#[test]
fn a_head_without_a_code_asks_for_the_error_body() {
    let blobs = blobs();
    for status in [404u16, 403, 500] {
        let head =
            ResponseHead::from_headers(status, &[("x-ms-request-id", b"request-123".as_slice())]);
        let expected = match status {
            404 => FailureClass::Other,
            403 => FailureClass::Auth,
            _ => FailureClass::Server,
        };
        assert!(
            matches!(
                blobs.accept_get_head(GetShape::default(), head),
                Ok(GetHeadOutcome::NeedErrorBody(Failure {
                    status: got_status,
                    class,
                    kind: None,
                    request_id: Some(b"request-123"),
                })) if got_status == status && class == expected
            ),
            "{status}"
        );
    }
}

fn need_error_body<'h>(blobs: &Blobs<'_>, status: u16) -> Failure<'h> {
    match blobs.accept_get_head(GetShape::default(), ResponseHead::new(status)) {
        Ok(GetHeadOutcome::NeedErrorBody(failure)) => failure,
        other => panic!("unexpected outcome: {other:?}"),
    }
}

#[test]
fn the_error_body_names_an_error_the_head_left_out() {
    let blobs = blobs();
    let missing = need_error_body(&blobs, 404);
    assert_eq!(
        blobs.accept_error_body(
            missing.status,
            missing.request_id,
            b"<Error><Code>ContainerNotFound</Code></Error>"
        ),
        GetHeadOutcome::NotFound {
            kind: Some(ServiceErrorKind::NoSuchContainer)
        }
    );

    let refused = need_error_body(&blobs, 400);
    assert!(matches!(
        blobs.accept_error_body(
            refused.status,
            refused.request_id,
            b"<Error><Code>ServerBusy</Code></Error>"
        ),
        GetHeadOutcome::ServiceFailure(Failure {
            class: FailureClass::Throttled,
            kind: Some(ServiceErrorKind::Throttled),
            ..
        })
    ));

    assert_eq!(
        blobs.accept_error_body(missing.status, missing.request_id, b""),
        GetHeadOutcome::NotFound { kind: None }
    );

    assert_eq!(
        blobs.accept_get_head(
            GetShape::default(),
            ResponseHead::from_headers(404, &[("x-ms-error-code", b"BlobNotFound".as_slice())]),
        ),
        Ok(GetHeadOutcome::NotFound {
            kind: Some(ServiceErrorKind::NotFound)
        })
    );
}

#[test]
fn a_conditional_read_that_held_sends_no_body() {
    let shape = GetShape {
        condition: ConditionKind::IfNoneMatch,
        ..GetShape::default()
    };
    assert_eq!(
        accept(
            shape,
            ResponseHead::from_headers(304, &[("ETag", b"\"etag\"".as_slice())])
        ),
        Ok(GetHeadOutcome::NotModified {
            e_tag: Some(b"\"etag\"")
        })
    );
}
