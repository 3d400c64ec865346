use borink_object_storage_proto::xml::decode::decode_text;

fn decoded(text: &str, percent: bool) -> String {
    let mut bytes = Vec::from(text.as_bytes());
    let len = decode_text(&mut bytes, percent).expect(text);
    String::from_utf8(Vec::from(&bytes[..len])).unwrap()
}

fn refused(text: &str, percent: bool) -> bool {
    let mut bytes = Vec::from(text.as_bytes());
    decode_text(&mut bytes, percent).is_err()
}

#[test]
fn decode_undoes_the_five_references_that_xml_defines() {
    assert_eq!(decoded("a&amp;b", false), "a&b");
    assert_eq!(decoded("&lt;tag&gt;", false), "<tag>");
    assert_eq!(decoded("&quot;q&apos;", false), "\"q'");
    assert_eq!(decoded("nothing to undo", false), "nothing to undo");
}

#[test]
fn decode_undoes_a_reference_written_as_a_number() {
    assert_eq!(decoded("caf&#233;", false), "caf\u{e9}");
    assert_eq!(decoded("caf&#xe9;", false), "caf\u{e9}");
    // Four bytes out of nine is still shorter, which is what lets every
    // reference be undone where it stands.
    assert_eq!(decoded("&#x1F600;", false), "\u{1f600}");
}

#[test]
fn refuses_what_is_not_a_reference() {
    for text in ["a&nbsp;b", "a&#;b", "100% &", "a&b", "a&amp"] {
        assert!(refused(text, false), "{text}");
    }
}

#[test]
fn refuses_a_number_that_names_no_character_of_a_document() {
    for text in [
        "a&#xD800;b",
        "a&#0;b",
        "a&#x8;b",
        "a&#xB;b",
        "a&#x1F;b",
        "a&#xFFFE;b",
        "a&#xFFFF;b",
        "a&#x110000;b",
    ] {
        assert!(refused(text, false), "{text}");
    }
    // The three that XML does allow below a space.
    assert_eq!(decoded("a&#x9;&#xA;&#xD;b", false), "a\t\n\rb");
}

#[test]
fn decode_undoes_percent_encoding_only_when_asked() {
    assert_eq!(decoded("a%20b%2Fc", true), "a b/c");
    assert_eq!(decoded("a%20b%2Fc", false), "a%20b%2Fc");
    // The references are undone first, so a name may carry both.
    assert_eq!(decoded("a&amp;b%20c", true), "a&b c");
    assert_eq!(decoded("100%25", true), "100%");
    for text in ["100%25 %zz", "a%", "a%2", "a%2Gb"] {
        assert!(refused(text, true), "{text}");
    }
}
