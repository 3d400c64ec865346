use borink_object_storage_proto::block_options::{timeout, validate, BlockOption, BlockOptionKind};
use borink_object_storage_proto::{Error, InvalidPlan};

const STAGE: u8 = 1;
const COMMIT: u8 = 2;
const LIST: u8 = 4;

fn refused() -> Result<(), Error> {
    Err(Error::InvalidPlan(InvalidPlan::Option))
}

#[test]
fn every_kind_crosses_by_its_number() {
    for value in 1..=27u16 {
        let kind = BlockOptionKind::from_discriminant(value).unwrap();
        assert_eq!(kind.discriminant(), value);
    }
    assert_eq!(BlockOptionKind::from_discriminant(0), None);
    assert_eq!(BlockOptionKind::from_discriminant(28), None);
    assert_eq!(BlockOptionKind::LeaseId.header(), "x-ms-lease-id");
    assert_eq!(BlockOptionKind::ContentMd5.header(), "Content-MD5");
    assert_eq!(BlockOptionKind::Metadata.header(), "x-ms-meta-");
    assert_eq!(BlockOptionKind::IfModifiedSince.header(), "If-Modified-Since");
}

#[test]
fn an_option_is_refused_by_an_operation_that_does_not_take_it() {
    let tier = [BlockOption::new(BlockOptionKind::AccessTier, "Cool")];
    assert_eq!(validate(&tier, COMMIT), Ok(()));
    assert_eq!(validate(&tier, STAGE), refused());
    assert_eq!(validate(&tier, LIST), refused());

    let lease = [BlockOption::new(BlockOptionKind::LeaseId, "lease")];
    for operation in [STAGE, COMMIT, LIST] {
        assert_eq!(validate(&lease, operation), Ok(()));
    }
    let tags = [BlockOption::new(BlockOptionKind::IfTags, "a = 'b'")];
    assert_eq!(validate(&tags, STAGE), refused());
    assert_eq!(validate(&tags, LIST), Ok(()));
}

#[test]
fn a_value_must_be_printable_ascii_and_an_option_is_given_once() {
    assert_eq!(
        validate(&[BlockOption::new(BlockOptionKind::ClientRequestId, "id\n")], STAGE),
        refused()
    );
    assert_eq!(
        validate(&[BlockOption::new(BlockOptionKind::ClientRequestId, "é")], STAGE),
        refused()
    );
    assert_eq!(
        validate(&[BlockOption::new(BlockOptionKind::ClientRequestId, "")], STAGE),
        Ok(())
    );
    let twice = [
        BlockOption::new(BlockOptionKind::ClientRequestId, "a"),
        BlockOption::new(BlockOptionKind::ClientRequestId, "b"),
    ];
    assert_eq!(validate(&twice, STAGE), refused());
    // Only metadata carries a name.
    let named = [BlockOption {
        kind: BlockOptionKind::ClientRequestId,
        name: "x",
        value: "a",
    }];
    assert_eq!(validate(&named, STAGE), refused());
}

#[test]
fn a_metadata_key_is_an_identifier_and_is_given_once_in_any_case() {
    let ok = [
        BlockOption::metadata("_key1", "a"),
        BlockOption::metadata("Other", "b"),
    ];
    assert_eq!(validate(&ok, COMMIT), Ok(()));
    for name in ["", "1key", "a-b", "a b"] {
        assert_eq!(validate(&[BlockOption::metadata(name, "a")], COMMIT), refused(), "{name}");
    }
    let twice = [
        BlockOption::metadata("Key", "a"),
        BlockOption::metadata("kEY", "b"),
    ];
    assert_eq!(validate(&twice, COMMIT), refused());
}

#[test]
fn checksums_and_encryption_come_in_the_combinations_azure_takes() {
    let both = [
        BlockOption::new(BlockOptionKind::ContentMd5, "1B2M2Y8AsgTpgAmY7PhCfg=="),
        BlockOption::new(BlockOptionKind::ContentCrc64, "CAcGBQQDAgE="),
    ];
    assert_eq!(validate(&both, STAGE), refused());

    let key = BlockOption::new(BlockOptionKind::EncryptionKey, "a2V5");
    let hash = BlockOption::new(BlockOptionKind::EncryptionKeySha256, "aGFzaA==");
    let algorithm = BlockOption::new(BlockOptionKind::EncryptionAlgorithm, "AES256");
    let scope = BlockOption::new(BlockOptionKind::EncryptionScope, "scope");
    assert_eq!(validate(&[key, hash, algorithm], STAGE), Ok(()));
    assert_eq!(validate(&[key, hash], STAGE), refused());
    assert_eq!(validate(&[key, hash, algorithm, scope], STAGE), refused());
    assert_eq!(validate(&[scope], STAGE), Ok(()));
}

#[test]
fn a_timeout_is_a_positive_number_of_seconds_that_fits_a_u32() {
    for value in ["30", "4294967295"] {
        let options = [BlockOption::new(BlockOptionKind::Timeout, value)];
        assert_eq!(validate(&options, LIST), Ok(()), "{value}");
    }
    for value in ["0", "4294967296", "", "1s", "-1"] {
        let options = [BlockOption::new(BlockOptionKind::Timeout, value)];
        assert_eq!(validate(&options, LIST), refused(), "{value}");
    }
    let options = [
        BlockOption::new(BlockOptionKind::LeaseId, "lease"),
        BlockOption::new(BlockOptionKind::Timeout, "30"),
    ];
    assert_eq!(timeout(&options), Some(30));
    assert_eq!(timeout(&options[..1]), None);
}

#[test]
fn an_encryption_context_holds_at_most_a_kilobyte() {
    let long = "a".repeat(1024);
    let options = [BlockOption::new(BlockOptionKind::EncryptionContext, &long)];
    assert_eq!(validate(&options, COMMIT), Ok(()));
    let longer = "a".repeat(1025);
    let options = [BlockOption::new(BlockOptionKind::EncryptionContext, &longer)];
    assert_eq!(validate(&options, COMMIT), refused());
}
