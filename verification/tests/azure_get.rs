use borink_object_storage_proto::{
    AzureNamespace, Blobs, BodyWindow, ConditionKind, Container, Error, GetHeadOutcome, GetKind, HeaderSpan,
    InvalidPlan, Method, ObjectMeta, PhysicalGet, RequestedRange, ResponseHead, Timestamps,
    VERSION, layered,
};

fn blobs() -> Blobs<'static> {
    Blobs::new(
        Container::new("https://account.blob.core.windows.net", "objects").unwrap(),
        "access-token",
    )
    .unwrap()
}

fn now() -> Timestamps {
    Timestamps::from_unix(1_787_400_000)
}

#[test]
fn encodes_a_bearer_get_in_caller_memory() {
    let blobs = blobs();
    let mut buf = [0; 256];
    let mut headers = [HeaderSpan::default(); 8];
    let request = blobs
        .encode_get(&mut buf, &mut headers, &PhysicalGet::new("directory/a key+é"), &now())
        .unwrap();

    assert_eq!(request.method(), Method::Get);
    assert_eq!(
        request.url(),
        "https://account.blob.core.windows.net/objects/directory/a%20key%2B%C3%A9"
    );
    assert_eq!(
        request.headers(),
        [
            ("authorization", "Bearer access-token"),
            ("x-ms-date", "Sat, 22 Aug 2026 12:00:00 GMT"),
            ("x-ms-version", VERSION),
        ]
    );
}

#[test]
fn the_head_borrows_nothing_the_caller_passed_in() {
    let blobs = blobs();
    let mut buf = [0; 256];
    let mut headers = [HeaderSpan::default(); 8];
    let request = blobs
        .encode_get(
            &mut buf,
            &mut headers,
            &PhysicalGet {
                key: &String::from("object"),
                condition: ConditionKind::IfMatch,
                condition_value: Some(String::from("\"etag\"").as_bytes()),
                ..PhysicalGet::new("")
            },
            &Timestamps::from_unix(1_787_400_000),
        )
        .unwrap();

    assert!(
        request
            .headers()
            .into_iter()
            .any(|header| header == ("x-ms-date", "Sat, 22 Aug 2026 12:00:00 GMT"))
    );
    assert!(
        request
            .headers()
            .into_iter()
            .any(|header| header == ("if-match", "\"etag\""))
    );
}

#[test]
fn reports_the_exact_required_capacity() {
    let blobs = blobs();
    let get = PhysicalGet::new("object");
    let mut headers = [HeaderSpan::default(); 8];
    let error = blobs.encode_get(&mut [], &mut headers, &get, &now()).unwrap_err();
    let Error::Capacity(capacity) = error else {
        panic!("unexpected error: {error:?}");
    };
    assert_eq!(capacity.available, 0);
    assert_eq!(
        layered::get_requirements(&blobs, &get, &now()).map(|size| size.bytes),
        Ok(capacity.required)
    );

    let mut short = vec![0; capacity.required - 1];
    assert_eq!(
        blobs
            .encode_get(&mut short, &mut headers, &get, &now())
            .unwrap_err()
            .capacity()
            .map(|capacity| capacity.required),
        Some(capacity.required)
    );

    let mut exact = vec![0; capacity.required];
    blobs.encode_get(&mut exact, &mut headers, &get, &now()).unwrap();
}

#[test]
fn encodes_ranges_conditions_and_metadata_plans() {
    let blobs = blobs();
    let mut buf = [0; 256];
    let mut headers = [HeaderSpan::default(); 8];
    let get = PhysicalGet {
        key: "object",
        kind: GetKind::Bytes,
        range: RequestedRange::Bounded { start: 2, end: 6 },
        condition: ConditionKind::IfNoneMatch,
        condition_value: Some(b"\"etag\""),
    };
    let request = blobs.encode_get(&mut buf, &mut headers, &get, &now()).unwrap();
    assert_eq!(request.method(), Method::Get);
    assert!(
        request
            .headers()
            .into_iter()
            .any(|header| header == ("range", "bytes=2-5"))
    );
    assert!(
        request
            .headers()
            .into_iter()
            .any(|header| header == ("if-none-match", "\"etag\""))
    );

    let metadata = blobs
        .encode_get(
            &mut buf,
            &mut headers,
            &PhysicalGet {
                kind: GetKind::Metadata,
                ..PhysicalGet::new("object")
            },
            &now(),
        )
        .unwrap();
    assert_eq!(metadata.method(), Method::Head);

    let head = ResponseHead::from_headers(
        206,
        &[
            ("Content-Range", b"bytes 2-5/10".as_slice()),
            ("ETag", b"\"etag\""),
            ("x-ms-version-id", b"version-1"),
        ],
    );
    let Ok(GetHeadOutcome::Body { meta, body, .. }) = blobs.accept_get_head(get.shape(), head)
    else {
        panic!("a ranged read returns a body");
    };
    assert_eq!(
        meta,
        ObjectMeta {
            size: Some(10),
            e_tag: Some(b"\"etag\""),
            version: Some(b"version-1"),
            ..ObjectMeta::default()
        }
    );
    assert_eq!(
        body,
        BodyWindow {
            object_offset: 2,
            expected_len: Some(4),
            object_size: Some(10),
        }
    );
}

#[test]
fn rejects_values_that_could_change_the_http_request() {
    assert!(matches!(
        Container::new("file://account", "objects"),
        Err(Error::InvalidEndpoint)
    ));
    assert!(matches!(
        Container::new("https://account/path", "objects"),
        Err(Error::InvalidEndpoint)
    ));
    assert!(matches!(
        Container::new("https://tést.example", "objects"),
        Err(Error::InvalidEndpoint)
    ));
    assert!(matches!(
        Container::new("https://account", "object?restype=container"),
        Err(Error::InvalidContainer)
    ));
    let container = Container::new("https://account", "objects").unwrap();
    assert!(matches!(
        Blobs::new(container, "token\r\nheader"),
        Err(Error::InvalidToken)
    ));
}

#[test]
fn refuses_invalid_plans_before_writing_anything() {
    let condition = |condition, condition_value| PhysicalGet {
        condition,
        condition_value,
        ..PhysicalGet::new("object")
    };
    let ranged = |range| PhysicalGet {
        range,
        ..PhysicalGet::new("object")
    };
    let cases = [
        (PhysicalGet::new(""), InvalidPlan::Key),
        (
            ranged(RequestedRange::Bounded { start: 6, end: 2 }),
            InvalidPlan::Range,
        ),
        (
            ranged(RequestedRange::Suffix(4)),
            InvalidPlan::UnsupportedRange,
        ),
        (
            PhysicalGet {
                kind: GetKind::Metadata,
                range: RequestedRange::Offset(2),
                ..PhysicalGet::new("object")
            },
            InvalidPlan::RangedMetadata,
        ),
        (
            condition(ConditionKind::IfMatch, None),
            InvalidPlan::Condition,
        ),
        (
            condition(ConditionKind::Unconditional, Some(b"\"etag\"")),
            InvalidPlan::Condition,
        ),
        (
            condition(ConditionKind::IfMatch, Some(b"etag\r\nheader")),
            InvalidPlan::Condition,
        ),
    ];

    let blobs = blobs();
    let mut buf = [0; 256];
    let mut headers = [HeaderSpan::default(); 8];
    for (get, expected) in cases {
        assert_eq!(
            blobs.encode_get(&mut buf, &mut headers, &get, &now()).err(),
            Some(Error::InvalidPlan(expected)),
            "{get:?}"
        );
        assert_eq!(
            layered::get_requirements(&blobs, &get, &now()),
            Err(Error::InvalidPlan(expected))
        );
    }
}

#[test]
fn a_key_that_would_not_survive_the_journey_is_refused() {
    let flat = blobs().with_namespace(AzureNamespace::Flat);
    let refused = |key: &str| {
        layered::get_requirements(&flat, &PhysicalGet::new(key), &now()).map(drop)
    };

    assert!(refused(&"a".repeat(1024)).is_ok());
    assert!(refused(&"é".repeat(1024)).is_ok());
    assert!(refused(&"🦀".repeat(512)).is_ok());
    for over in ["a".repeat(1025), "é".repeat(1025), "🦀".repeat(513)] {
        assert_eq!(
            refused(&over),
            Err(Error::InvalidPlan(InvalidPlan::Key)),
            "{} UTF-16 code units",
            over.encode_utf16().count()
        );
    }

    for key in ["dot.", "a/dot.", "dotseg./x", "a./b", "..", ".", "a/../"] {
        assert_eq!(
            refused(key),
            Err(Error::InvalidPlan(InvalidPlan::Key)),
            "{key:?}"
        );
    }

    for key in ["a\u{1}b", "a\tb", "a\nb", "a\rb", "\u{1f}", "a\u{7f}b"] {
        assert_eq!(
            refused(key),
            Err(Error::InvalidPlan(InvalidPlan::Key)),
            "{key:?}"
        );
    }
    for key in ["café", "🦀", "\u{85}", "\u{a0}"] {
        assert!(refused(key).is_ok(), "{key:?}");
    }

    for key in ["a/../b", "a/./b", "../b", "./b", "a/.."] {
        assert_eq!(
            refused(key),
            Err(Error::InvalidPlan(InvalidPlan::Key)),
            "{key:?}"
        );
    }

    assert!(refused(&vec!["s"; 255].join("/")).is_ok());
    assert_eq!(
        refused(&vec!["s"; 256].join("/")),
        Err(Error::InvalidPlan(InvalidPlan::Key))
    );

    for key in [
        "a.b",
        "..a",
        "a..b",
        "a/b",
        "a//b",
        "trailing/",
        "/leading",
        "..leading",
        "a.b/c",
    ] {
        assert!(refused(key).is_ok(), "{key:?}");
    }
}

#[test]
fn a_refused_key_leaves_both_buffers_as_they_were() {
    let flat = blobs().with_namespace(AzureNamespace::Flat);
    for key in ["", "dot.", "a\tb"] {
        let mut buf = [7u8; 64];
        let mut spans = [HeaderSpan::default(); 4];
        assert_eq!(
            flat.encode_get(&mut buf, &mut spans, &PhysicalGet::new(key), &now()).err(),
            Some(Error::InvalidPlan(InvalidPlan::Key))
        );
        assert_eq!(buf, [7u8; 64]);
        assert_eq!(spans, [HeaderSpan::default(); 4]);
    }
}

#[test]
fn the_spans_of_a_request_name_its_parts_in_the_callers_buffer() {
    let mut buf = [0u8; 256];
    let mut spans = [HeaderSpan::default(); 8];
    let (url, headers, url_span, header_spans) = {
        let request = blobs()
            .encode_get(&mut buf, &mut spans, &PhysicalGet::new("a/b"), &now())
            .unwrap();
        let headers: Vec<(String, String)> = request
            .headers()
            .into_iter()
            .map(|(name, value)| (name.to_string(), value.to_string()))
            .collect();
        (request.url().to_string(), headers, request.url_span(), request.header_spans())
    };
    let text = |span: borink_object_storage_proto::Span| {
        std::str::from_utf8(&buf[span.start..span.start + span.len]).unwrap().to_string()
    };
    assert_eq!(text(url_span), url);
    assert_eq!(header_spans.len(), headers.len());
    for ((name, value), (name_span, value_span)) in headers.iter().zip(header_spans.iter()) {
        assert_eq!(&text(*name_span), name);
        assert_eq!(&text(*value_span), value);
    }
}
