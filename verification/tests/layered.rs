use borink_object_storage_proto::layered::{block_id, decode_into, http_date_ms, max_blocks_in, quoted_etag};
use borink_object_storage_proto::Timestamps;

#[test]
fn writes_the_base64_of_chosen_bytes() {
    let mut into = [0; 12];
    assert_eq!(block_id(&[0, 0, 0, 0], &mut into), Some("AAAAAA=="));
    assert_eq!(block_id(&[0, 0, 0, 1], &mut into), Some("AAAAAQ=="));
    assert_eq!(block_id(b"ab", &mut into), Some("YWI="));
    assert_eq!(block_id(b"abc", &mut into), Some("YWJj"));
    assert_eq!(block_id(&[0xfb, 0xff], &mut into), Some("+/8="));
    assert_eq!(block_id(b"", &mut into), None);
    assert_eq!(block_id(&[0; 65], &mut [0; 88]), None);
    assert_eq!(block_id(b"abc", &mut [0; 3]), None);
}

#[test]
fn reads_an_azure_last_modified_header() {
    assert_eq!(http_date_ms(b"Fri, 24 May 2013 00:00:00 GMT"), Some(1_369_353_600_000));
    assert_eq!(http_date_ms(b"not an HTTP date"), None);
    assert_eq!(http_date_ms(b"Fri, 24 Xxx 2013 00:00:00 GMT"), None);
}

#[test]
fn quotes_a_listed_etag_once() {
    let mut into = [0; 32];
    assert_eq!(quoted_etag(b"0x8DF0046E8E555AF", &mut into), Some(b"\"0x8DF0046E8E555AF\"".as_slice()));
    assert_eq!(quoted_etag(b"\"already\"", &mut into), Some(b"\"already\"".as_slice()));
    assert_eq!(quoted_etag(b"W/\"weak\"", &mut into), Some(b"W/\"weak\"".as_slice()));
    assert_eq!(quoted_etag(b"0x8DF", &mut [0; 6]), None);
}

#[test]
fn reads_a_date_before_march_and_a_leap_day() {
    assert_eq!(http_date_ms(b"Thu, 01 Jan 1970 00:00:00 GMT"), Some(0));
    assert_eq!(http_date_ms(b"Thu, 29 Feb 2024 12:30:15 GMT"), Some(1_709_209_815_000));
    // Before the epoch there is no millisecond count to give.
    assert_eq!(http_date_ms(b"Wed, 31 Dec 1969 23:59:59 GMT"), None);
    assert_eq!(http_date_ms(b"Fri, 32 May 2013 00:00:00 GMT"), None);
}

#[test]
fn a_block_list_body_bounds_its_blocks() {
    assert_eq!(max_blocks_in(42), 0);
    assert_eq!(max_blocks_in(43), 1);
    assert_eq!(max_blocks_in(430), 10);
}

#[test]
fn a_listed_value_is_decoded_into_a_buffer_of_the_caller() {
    let mut into = [0; 16];
    assert_eq!(decode_into(b"a&amp;b", &mut into), Some(b"a&b".as_slice()));
    assert_eq!(decode_into(b"caf&#233;", &mut into), Some("caf\u{e9}".as_bytes()));
    assert_eq!(decode_into(b"already%80escaped", &mut [0; 32]), Some(b"already%80escaped".as_slice()));
    assert_eq!(decode_into(b"a&nbsp;b", &mut into), None);
    assert_eq!(decode_into(b"toolong", &mut [0; 3]), None);
}

#[test]
fn a_written_date_reads_back_as_its_time() {
    for seconds in [0u64, 59, 86_399, 951_782_400, 1_787_400_000, 253_402_300_799] {
        let date = Timestamps::from_unix(seconds).rfc1123();
        assert_eq!(
            http_date_ms(date.as_bytes()),
            Some(seconds * 1000),
            "{seconds}"
        );
    }
    let date = Timestamps::from_unix(951_782_400).rfc1123();
    assert_eq!(date.as_bytes(), b"Tue, 29 Feb 2000 00:00:00 GMT");
    // A later time is written as the last second a four-digit year holds.
    let date = Timestamps::from_unix(u64::MAX).rfc1123();
    assert_eq!(date.as_bytes(), b"Fri, 31 Dec 9999 23:59:59 GMT");
}
