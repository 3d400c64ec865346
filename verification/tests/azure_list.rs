use borink_object_storage_proto::layered;
use borink_object_storage_proto::{
    AzureNamespace, Blobs, Container, Error, Failure, FailureClass, HeaderSpan, InvalidPlan,
    ListHeadOutcome, ListShape, Method, PhysicalList, ResponseFault, ResponseHead,
    ServiceErrorKind, Timestamps,
};

fn blobs() -> Blobs<'static> {
    Blobs::new(
        Container::new("https://account.blob.core.windows.net", "container").unwrap(),
        "token",
    )
    .unwrap()
}

fn now() -> Timestamps {
    Timestamps::from_unix(1_787_400_000)
}

fn url(list: &PhysicalList<'_>) -> String {
    let blobs = blobs();
    let size = layered::list_requirements(&blobs, list, &now()).unwrap();
    let mut buf = vec![0; size.bytes];
    let mut headers = vec![HeaderSpan::default(); size.headers];
    blobs
        .encode_list(&mut buf, &mut headers, list, &now())
        .unwrap()
        .url()
        .to_owned()
}

#[test]
fn a_listing_addresses_the_container_and_carries_no_content() {
    let blobs = blobs();
    let list = PhysicalList::new("");
    let size = layered::list_requirements(&blobs, &list, &now()).unwrap();
    let mut buf = vec![0; size.bytes];
    let mut headers = vec![HeaderSpan::default(); size.headers];
    let request = blobs.encode_list(&mut buf, &mut headers, &list, &now()).unwrap();

    assert_eq!(request.method(), Method::Get);
    assert_eq!(
        request.url(),
        "https://account.blob.core.windows.net/container?restype=container&comp=list"
    );
    assert!(request.payload().is_empty());

    assert_eq!(
        request.headers(),
        [
            ("authorization", "Bearer token"),
            ("x-ms-date", "Sat, 22 Aug 2026 12:00:00 GMT"),
            ("x-ms-version", "2026-04-06"),
        ]
    );
}

#[test]
fn every_query_parameter_is_written_in_one_order() {
    let base = "https://account.blob.core.windows.net/container?restype=container&comp=list";

    assert_eq!(
        url(&PhysicalList::new("directory/")),
        format!("{base}&prefix=directory%2F")
    );
    assert_eq!(
        url(&PhysicalList {
            delimited: true,
            ..PhysicalList::new("")
        }),
        format!("{base}&delimiter=%2F")
    );
    assert_eq!(
        url(&PhysicalList {
            max_results: Some(1000),
            ..PhysicalList::new("")
        }),
        format!("{base}&maxresults=1000")
    );
    assert_eq!(
        url(&PhysicalList {
            marker: Some("2!72!MDAwMDI4!a+b%c"),
            ..PhysicalList::new("")
        }),
        format!("{base}&marker=2%2172%21MDAwMDI4%21a%2Bb%25c")
    );
    assert_eq!(
        url(&PhysicalList::from_shape(
            ListShape {
                delimited: true,
                max_results: Some(2),
            },
            "directory/",
            Some("next"),
        )),
        format!("{base}&prefix=directory%2F&delimiter=%2F&marker=next&maxresults=2")
    );
}

#[test]
fn a_shape_and_the_borrowed_bytes_rebuild_the_plan() {
    let list = PhysicalList {
        marker: Some("next"),
        delimited: true,
        max_results: Some(2),
        ..PhysicalList::new("directory/")
    };
    assert_eq!(
        PhysicalList::from_shape(list.shape(), list.prefix, list.marker),
        list
    );
}

#[test]
fn a_listing_plan_is_validated_before_any_byte_is_written() {
    let blobs = blobs().with_namespace(AzureNamespace::Flat);
    let long = "k".repeat(1025);
    for (list, expected) in [
        (PhysicalList::new(long.as_str()), InvalidPlan::Prefix),
        (
            PhysicalList {
                marker: Some(""),
                ..PhysicalList::new("")
            },
            InvalidPlan::Marker,
        ),
        (
            PhysicalList {
                max_results: Some(0),
                ..PhysicalList::new("")
            },
            InvalidPlan::MaxResults,
        ),
    ] {
        assert_eq!(
            blobs
                .encode_list(&mut [0; 512], &mut [HeaderSpan::default(); 8], &list, &now())
                .map(drop),
            Err(Error::InvalidPlan(expected))
        );
        assert_eq!(
            blobs.encode_list(&mut [], &mut [], &list, &now()).map(drop),
            Err(Error::InvalidPlan(expected))
        );
    }

    let longest = "k".repeat(1024);
    assert!(
        layered::list_requirements(&blobs, &PhysicalList::new(longest.as_str()), &now()).is_ok()
    );
    assert!(layered::list_requirements(&blobs, &PhysicalList::new(""), &now()).is_ok());
}

#[test]
fn an_undersized_buffer_states_the_exact_requirement() {
    let blobs = blobs();
    let list = PhysicalList::new("directory/");
    let required = layered::list_requirements(&blobs, &list, &now()).unwrap();
    let mut headers = vec![HeaderSpan::default(); required.headers];

    let error = blobs
        .encode_list(&mut vec![0; required.bytes - 1], &mut headers, &list, &now())
        .unwrap_err();
    assert_eq!(error.capacity().unwrap().required, required.bytes);
    assert!(
        blobs
            .encode_list(&mut vec![0; required.bytes], &mut headers, &list, &now())
            .is_ok()
    );
}

#[test]
fn a_list_head_sizes_the_page_and_refuses_what_a_listing_never_answers() {
    let blobs = blobs();
    assert_eq!(
        blobs.accept_list_head(ResponseHead::from_headers(
            200,
            &[("Content-Length", b"512".as_slice())]
        )),
        Ok(ListHeadOutcome::Page {
            expected_len: Some(512)
        })
    );
    assert_eq!(
        blobs.accept_list_head(ResponseHead::new(200)),
        Ok(ListHeadOutcome::Page { expected_len: None })
    );
    assert_eq!(
        blobs.accept_list_head(ResponseHead::from_headers(
            404,
            &[("x-ms-error-code", b"ContainerNotFound".as_slice())]
        )),
        Ok(ListHeadOutcome::NotFound {
            kind: Some(ServiceErrorKind::NoSuchContainer)
        })
    );
    assert_eq!(
        blobs.accept_list_head(ResponseHead::new(206)),
        Err(Error::Response(ResponseFault::Status))
    );
    assert_eq!(
        blobs.accept_list_head(ResponseHead::from_headers(
            200,
            &[("Content-Length", b"not a number".as_slice())]
        )),
        Err(Error::Response(ResponseFault::Head))
    );
}

#[test]
fn a_failure_without_a_code_header_is_finished_by_the_body() {
    let blobs = blobs();
    let head = ResponseHead::from_headers(404, &[("x-ms-request-id", b"request-1".as_slice())]);

    let ListHeadOutcome::NeedErrorBody(failure) = blobs.accept_list_head(head).unwrap() else {
        panic!("a 404 with no code header needs the body");
    };
    assert_eq!(failure.kind, None);
    assert_eq!(
        blobs.accept_list_error_body(
            failure.status,
            failure.request_id,
            b"<Error><Code>ContainerNotFound</Code></Error>",
        ),
        ListHeadOutcome::NotFound {
            kind: Some(ServiceErrorKind::NoSuchContainer)
        }
    );

    assert_eq!(
        blobs.accept_list_error_body(503, None, b""),
        ListHeadOutcome::ServiceFailure(Failure {
            status: 503,
            class: FailureClass::Server,
            kind: None,
            request_id: None,
        })
    );
}
