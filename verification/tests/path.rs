use borink_object_storage_proto::path::{encode_object_key, encode_query_value};

fn key(value: &str) -> String {
    String::from_utf8(encode_object_key(value)).unwrap()
}

fn query(value: &[u8]) -> String {
    String::from_utf8(encode_query_value(value)).unwrap()
}

#[test]
fn preserves_path_segments_and_encodes_structure() {
    assert_eq!(
        key("directory/a key+é%?x"),
        "directory/a%20key%2B%C3%A9%25%3Fx"
    );
}

#[test]
fn a_query_value_keeps_only_unreserved_bytes() {
    assert_eq!(query(b"AAAAAAE+/="), "AAAAAAE%2B%2F%3D");
    assert_eq!(query(b"/"), "%2F");
    assert_eq!(query(b"letters-._~0123"), "letters-._~0123");
    assert_eq!(query(b"a b&c=d"), "a%20b%26c%3Dd");
    assert_eq!(query(b"\xff"), "%FF");
    assert_eq!(query(b""), "");
}

#[test]
fn preserves_unreserved_bytes() {
    assert_eq!(key("letters-._~0123/path"), "letters-._~0123/path");
}

#[test]
fn a_control_character_is_never_written_as_itself() {
    assert_eq!(key("a\u{1}\u{7f}b"), "a%01%7Fb");
}
