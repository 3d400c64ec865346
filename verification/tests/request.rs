use borink_object_storage_proto::request::{HeadWriter, U64Decimal, Writer};
use borink_object_storage_proto::{HeaderSpan, Method, Payload};

#[test]
fn header_capacity_is_independent_of_byte_capacity() {
    for (byte_capacity, header_capacity) in [(0, 1), (9, 0), (9, 1)] {
        let mut bytes = [0; 9];
        let mut headers = [HeaderSpan::default(); 1];
        let mut writer = HeadWriter::new(&mut bytes[..byte_capacity], &mut headers[..header_capacity]);
        writer.header("name", b"value");
        let capacity = writer.capacity(byte_capacity);
        assert_eq!(capacity.required, 9);
        assert_eq!(capacity.required_headers, 1);
        assert_eq!(capacity.available, byte_capacity);
        assert_eq!(capacity.available_headers, header_capacity);
        assert_eq!(
            writer.finish(Method::Get, Payload::Slice(b"")).is_some(),
            byte_capacity == 9 && header_capacity == 1
        );
    }
}

#[test]
fn an_exactly_sized_writer_returns_the_written_bytes() {
    let mut bytes = [0; 5];
    let mut writer = Writer::new(&mut bytes);
    writer.push(b"one");
    writer.push("\u{e9}".as_bytes());

    assert_eq!(writer.position(), 5);
    assert_eq!(writer.finish().unwrap(), "one\u{e9}".as_bytes());
}

#[test]
fn an_undersized_writer_still_reports_the_exact_requirement() {
    let mut bytes = [0; 3];
    let mut writer = Writer::new(&mut bytes);
    writer.push(b"four");
    writer.push(b" more");

    assert_eq!(writer.position(), 9);
    assert!(writer.finish().is_none());
}

#[test]
fn an_empty_writer_reports_the_whole_requirement() {
    let mut writer = Writer::new(&mut []);
    writer.push(b"measured");

    assert_eq!(writer.position(), 8);
    assert!(writer.finish().is_none());
}

#[test]
fn an_unrepresentable_requirement_saturates_without_wrapping() {
    let mut writer = Writer::counted(&mut [], usize::MAX - 1);
    writer.push(b"over");
    assert_eq!(writer.position(), usize::MAX);
    assert!(writer.finish().is_none());

    let mut head = HeadWriter::counted(&mut [], &mut [] as &mut [HeaderSpan], usize::MAX);
    head.header("name", b"value");
    assert_eq!(head.capacity(0).required_headers, usize::MAX);
    assert!(head.finish(Method::Get, Payload::Slice(b"")).is_none());
}

#[test]
fn formats_the_full_u64_range() {
    assert_eq!(U64Decimal::new(0).as_bytes(), b"0");
    assert_eq!(U64Decimal::new(u64::MAX).as_bytes(), b"18446744073709551615");
}

#[test]
fn a_written_head_names_its_parts_by_range() {
    let mut bytes = [0; 32];
    let mut headers = [HeaderSpan::default(); 2];
    let mut writer = HeadWriter::new(&mut bytes, &mut headers);
    writer.push(b"https://a/b");
    writer.header("x", b"1");
    writer.header_str("yy", "22");
    let request = writer.finish(Method::Put, Payload::Streamed { len: 3 }).unwrap();
    assert_eq!(request.url(), "https://a/b");
    assert_eq!(request.headers(), vec![("x", "1"), ("yy", "22")]);
    assert_eq!(request.method().as_str(), "PUT");
    assert_eq!(request.payload(), Payload::Streamed { len: 3 });
    assert_eq!(request.url_span().start, 0);
    assert_eq!(request.url_span().len, 11);
    assert_eq!(request.header_spans().len(), 2);
}
