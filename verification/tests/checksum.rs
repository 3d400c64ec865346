use borink_object_storage_proto::checksum::{ChecksumKind, Digest, BASE64_LEN};
use borink_object_storage_proto::{Error, InvalidPlan};

// The MD5 of no bytes.
const EMPTY_MD5: [u8; 16] = [
    212, 29, 140, 217, 143, 0, 178, 4, 233, 128, 9, 152, 236, 248, 66, 126,
];

#[test]
fn an_md5_is_written_as_the_base64_of_its_sixteen_bytes() {
    let digest = Digest::md5(EMPTY_MD5);
    assert_eq!(digest.kind(), ChecksumKind::Md5);
    assert_eq!(digest.as_bytes(), EMPTY_MD5.as_slice());
    let mut text = [0u8; BASE64_LEN];
    let written = digest.base64(&mut text);
    assert_eq!(written, "1B2M2Y8AsgTpgAmY7PhCfg==");
    assert_eq!(ChecksumKind::Md5.check_base64(written), Ok(()));
}

#[test]
fn a_crc64_holds_its_value_in_little_endian_order() {
    let digest = Digest::crc64(0x0102_0304_0506_0708);
    assert_eq!(digest.kind(), ChecksumKind::Crc64);
    assert_eq!(digest.as_bytes(), [8, 7, 6, 5, 4, 3, 2, 1].as_slice());
    let mut text = [0u8; BASE64_LEN];
    assert_eq!(digest.base64(&mut text), "CAcGBQQDAgE=");

    let mut text = [0u8; BASE64_LEN];
    let written = Digest::crc64(0xad6b_2b5a_d5d6_b6c5).base64(&mut text);
    assert_eq!(written, "xbbW1Vora60=");
    assert_eq!(ChecksumKind::Crc64.check_base64(written), Ok(()));
}

#[test]
fn each_kind_names_its_header_its_length_and_its_number() {
    assert_eq!(ChecksumKind::Md5.digest_len(), 16);
    assert_eq!(ChecksumKind::Crc64.digest_len(), 8);
    assert_eq!(ChecksumKind::Md5.header(), "content-md5");
    assert_eq!(ChecksumKind::Crc64.header(), "x-ms-content-crc64");
    assert_eq!(ChecksumKind::Md5.base64_shape(), (22, 2));
    assert_eq!(ChecksumKind::Crc64.base64_shape(), (11, 1));
    for kind in [ChecksumKind::Md5, ChecksumKind::Crc64] {
        assert_eq!(ChecksumKind::from_discriminant(kind.discriminant()), Some(kind));
    }
    assert_eq!(ChecksumKind::from_discriminant(0), None);
    assert_eq!(ChecksumKind::from_discriminant(3), None);
}

#[test]
fn a_checksum_that_is_not_the_base64_of_a_digest_is_refused() {
    let refused = Err(Error::InvalidPlan(InvalidPlan::Checksum));
    // One character short, one too many, and the padding of the other kind.
    assert_eq!(ChecksumKind::Md5.check_base64("1B2M2Y8AsgTpgAmY7PhCf=="), refused);
    assert_eq!(ChecksumKind::Md5.check_base64(&"1B2M2Y8AsgTpgAmY7PhCfg=="[..23]), refused);
    assert_eq!(ChecksumKind::Crc64.check_base64("1B2M2Y8AsgTpgAmY7PhCfg=="), refused);
    // A character outside the alphabet, and padding where a character
    // belongs.
    assert_eq!(ChecksumKind::Crc64.check_base64("CAcGBQQD-gE="), refused);
    assert_eq!(ChecksumKind::Crc64.check_base64("CAcGBQQDAg=="), refused);
    assert_eq!(ChecksumKind::Crc64.check_base64(""), refused);
    assert_eq!(ChecksumKind::Crc64.check_base64("CAcGBQQDAgE="), Ok(()));
}
