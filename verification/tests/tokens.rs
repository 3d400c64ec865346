use borink_object_storage_proto::xml::tokens::{decode_text, error_code};

fn decoded(text: &str, percent: bool) -> String {
    let mut bytes = Vec::from(text.as_bytes());
    let len = decode_text(&mut bytes, percent);
    String::from_utf8(Vec::from(&bytes[..len])).unwrap()
}

#[test]
fn xml_undoes_the_five_references_that_xml_defines() {
    assert_eq!(decoded("a&amp;b", false), "a&b");
    assert_eq!(decoded("&lt;tag&gt;", false), "<tag>");
    assert_eq!(decoded("&quot;q&apos;", false), "\"q'");
    assert_eq!(decoded("nothing to undo", false), "nothing to undo");
}

#[test]
fn xml_undoes_a_reference_written_as_a_number() {
    assert_eq!(decoded("caf&#233;", false), "caf\u{e9}");
    assert_eq!(decoded("caf&#xe9;", false), "caf\u{e9}");
    // Four bytes out of nine is still shorter, which is what lets every
    // reference be undone where it stands.
    assert_eq!(decoded("&#x1F600;", false), "\u{1f600}");
}

#[test]
fn leaves_alone_what_it_does_not_recognize() {
    // Not one of the five, no number, or no code point: the bytes are the
    // caller's, and rewriting them would lose what the service sent.
    assert_eq!(decoded("a&nbsp;b", false), "a&nbsp;b");
    assert_eq!(decoded("a&#;b", false), "a&#;b");
    assert_eq!(decoded("a&#xD800;b", false), "a&#xD800;b");
    assert_eq!(decoded("100% &", false), "100% &");
}

#[test]
fn xml_undoes_percent_encoding_only_when_asked() {
    assert_eq!(decoded("a%20b%2Fc", true), "a b/c");
    assert_eq!(decoded("a%20b%2Fc", false), "a%20b%2Fc");
    // The references are undone first, so a name may carry both.
    assert_eq!(decoded("a&amp;b%20c", true), "a&b c");
    assert_eq!(decoded("100%25 %zz %", true), "100% %zz %");
}

#[test]
fn xml_reads_the_code_from_an_azure_error_body() {
    assert_eq!(
        error_code(b"<?xml version=\"1.0\"?><Error><Code>BlobNotFound</Code><Message>The specified blob does not exist.</Message></Error>"),
        Some("BlobNotFound")
    );
}

#[test]
fn xml_trims_surrounding_whitespace() {
    assert_eq!(error_code(b"<Error>\n  <Code>\n    ServerBusy\n  </Code>\n</Error>"), Some("ServerBusy"));
}

#[test]
fn xml_finds_the_code_at_any_depth() {
    assert_eq!(error_code(b"<Error><Detail><Code>InternalError</Code></Detail></Error>"), Some("InternalError"));
}

#[test]
fn xml_returns_nothing_without_a_code_element() {
    assert_eq!(error_code(b"<Error><Message>no code here</Message></Error>"), None);
    assert_eq!(error_code(b""), None);
}

#[test]
fn xml_returns_nothing_for_a_code_element_with_no_text() {
    assert_eq!(error_code(b"<Error><Code /></Error>"), None);
    assert_eq!(error_code(b"<Error><Code></Code><Code>Late</Code></Error>"), Some("Late"));
}

#[test]
fn xml_ignores_text_outside_the_code_element() {
    assert_eq!(
        error_code(b"<Error><Message>BlobNotFound</Message><Code>ServerBusy</Code></Error>"),
        Some("ServerBusy")
    );
}

#[test]
fn xml_returns_nothing_for_a_body_that_is_not_utf_8() {
    assert_eq!(error_code(b"<Error><Code>\xff</Code></Error>"), None);
}

#[test]
fn xml_a_body_cut_short_yields_at_most_a_partial_code() {
    assert_eq!(error_code(b"<Error><Code>BlobNot"), Some("BlobNot"));
    assert_eq!(error_code(b"<Error><Cod"), None);
}

#[test]
fn a_code_is_trimmed_of_every_kind_of_white_space() {
    assert_eq!(error_code("<Error><Code>\u{a0}ServerBusy\u{3000}</Code></Error>".as_bytes()), Some("ServerBusy"));
}
