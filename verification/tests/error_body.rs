use borink_object_storage_proto::xml::error_code;

#[test]
fn mod_reads_the_code_from_an_azure_error_body() {
    assert_eq!(
        error_code(b"<?xml version=\"1.0\"?><Error><Code>BlobNotFound</Code><Message>The specified blob does not exist.</Message></Error>"),
        Some("BlobNotFound")
    );
}

#[test]
fn mod_trims_surrounding_whitespace() {
    assert_eq!(error_code(b"<Error>\n  <Code>\n    ServerBusy\n  </Code>\n</Error>"), Some("ServerBusy"));
}

#[test]
fn mod_finds_the_code_at_any_depth() {
    assert_eq!(error_code(b"<Error><Detail><Code>InternalError</Code></Detail></Error>"), Some("InternalError"));
}

#[test]
fn mod_returns_nothing_without_a_code_element() {
    assert_eq!(error_code(b"<Error><Message>no code here</Message></Error>"), None);
    assert_eq!(error_code(b""), None);
}

#[test]
fn mod_returns_nothing_for_a_code_element_with_no_text() {
    assert_eq!(error_code(b"<Error><Code /></Error>"), None);
    assert_eq!(error_code(b"<Error><Code></Code><Code>Late</Code></Error>"), Some("Late"));
}

#[test]
fn mod_ignores_text_outside_the_code_element() {
    assert_eq!(
        error_code(b"<Error><Message>BlobNotFound</Message><Code>ServerBusy</Code></Error>"),
        Some("ServerBusy")
    );
}

#[test]
fn mod_returns_nothing_for_a_body_that_is_not_utf_8() {
    assert_eq!(error_code(b"<Error><Code>\xff</Code></Error>"), None);
}

#[test]
fn mod_a_body_cut_short_yields_at_most_a_partial_code() {
    assert_eq!(error_code(b"<Error><Code>BlobNot"), Some("BlobNot"));
    assert_eq!(error_code(b"<Error><Cod"), None);
}
