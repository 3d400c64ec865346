//! Azure block options, validated before any request storage is written.

use vstd::prelude::*;
use vstd::string::*;

use crate::error::{Error, InvalidPlan};
use crate::request::{HeadPart, HeadWriter};
use crate::text::{ascii_eq_ignore_case, decimal, decimal_value, eq_ignore_ascii_case, is_u64_decimal};
use crate::path::{appended, lemma_appended_twice};

verus! {

broadcast use vstd::string::group_string_axioms;

/// A supported Azure block-operation option.
#[derive(Debug, Clone, Copy, PartialEq, Eq, Structural)]
pub enum BlockOptionKind {
    /// The `x-ms-lease-id` header.
    LeaseId,
    /// The `Content-MD5` header.
    ContentMd5,
    /// The `x-ms-content-crc64` header.
    ContentCrc64,
    /// The `x-ms-encryption-key` header.
    EncryptionKey,
    /// The `x-ms-encryption-key-sha256` header.
    EncryptionKeySha256,
    /// The `x-ms-encryption-algorithm` header.
    EncryptionAlgorithm,
    /// The `x-ms-encryption-scope` header.
    EncryptionScope,
    /// The `x-ms-client-request-id` header.
    ClientRequestId,
    /// The `x-ms-blob-content-type` header.
    ContentType,
    /// The `x-ms-blob-content-encoding` header.
    ContentEncoding,
    /// The `x-ms-blob-content-language` header.
    ContentLanguage,
    /// The `x-ms-blob-cache-control` header.
    CacheControl,
    /// The `x-ms-blob-content-md5` header.
    BlobContentMd5,
    /// The `x-ms-blob-content-disposition` header.
    ContentDisposition,
    /// The `x-ms-tags` header.
    Tags,
    /// The `x-ms-access-tier` header.
    AccessTier,
    /// The `If-Modified-Since` header.
    IfModifiedSince,
    /// The `If-Unmodified-Since` header.
    IfUnmodifiedSince,
    /// The `x-ms-if-tags` header.
    IfTags,
    /// The `x-ms-immutability-policy-until-date` header.
    ImmutabilityUntil,
    /// The `x-ms-immutability-policy-mode` header.
    ImmutabilityMode,
    /// The `x-ms-legal-hold` header.
    LegalHold,
    /// The `x-ms-expiry-option` header.
    ExpiryOption,
    /// The `x-ms-expiry-time` header.
    ExpiryTime,
    /// The `x-ms-meta-` header prefix.
    Metadata,
    /// HNS encryption context.
    EncryptionContext,
    /// Server-side timeout in seconds, encoded in the query.
    Timeout,
}

impl BlockOptionKind {
    pub open spec fn spec_discriminant(self) -> u16 {
        match self {
            BlockOptionKind::LeaseId => 1,
            BlockOptionKind::ContentMd5 => 2,
            BlockOptionKind::ContentCrc64 => 3,
            BlockOptionKind::EncryptionKey => 4,
            BlockOptionKind::EncryptionKeySha256 => 5,
            BlockOptionKind::EncryptionAlgorithm => 6,
            BlockOptionKind::EncryptionScope => 7,
            BlockOptionKind::ClientRequestId => 8,
            BlockOptionKind::ContentType => 9,
            BlockOptionKind::ContentEncoding => 10,
            BlockOptionKind::ContentLanguage => 11,
            BlockOptionKind::CacheControl => 12,
            BlockOptionKind::BlobContentMd5 => 13,
            BlockOptionKind::ContentDisposition => 14,
            BlockOptionKind::Tags => 15,
            BlockOptionKind::AccessTier => 16,
            BlockOptionKind::IfModifiedSince => 17,
            BlockOptionKind::IfUnmodifiedSince => 18,
            BlockOptionKind::IfTags => 19,
            BlockOptionKind::ImmutabilityUntil => 20,
            BlockOptionKind::ImmutabilityMode => 21,
            BlockOptionKind::LegalHold => 22,
            BlockOptionKind::ExpiryOption => 23,
            BlockOptionKind::ExpiryTime => 24,
            BlockOptionKind::Metadata => 25,
            BlockOptionKind::EncryptionContext => 26,
            BlockOptionKind::Timeout => 27,
        }
    }

    /// Returns the number that stands for this kind.
    pub fn discriminant(self) -> (r: u16)
        ensures
            r == self.spec_discriminant(),
            1 <= r <= 27,
    {
        match self {
            BlockOptionKind::LeaseId => 1,
            BlockOptionKind::ContentMd5 => 2,
            BlockOptionKind::ContentCrc64 => 3,
            BlockOptionKind::EncryptionKey => 4,
            BlockOptionKind::EncryptionKeySha256 => 5,
            BlockOptionKind::EncryptionAlgorithm => 6,
            BlockOptionKind::EncryptionScope => 7,
            BlockOptionKind::ClientRequestId => 8,
            BlockOptionKind::ContentType => 9,
            BlockOptionKind::ContentEncoding => 10,
            BlockOptionKind::ContentLanguage => 11,
            BlockOptionKind::CacheControl => 12,
            BlockOptionKind::BlobContentMd5 => 13,
            BlockOptionKind::ContentDisposition => 14,
            BlockOptionKind::Tags => 15,
            BlockOptionKind::AccessTier => 16,
            BlockOptionKind::IfModifiedSince => 17,
            BlockOptionKind::IfUnmodifiedSince => 18,
            BlockOptionKind::IfTags => 19,
            BlockOptionKind::ImmutabilityUntil => 20,
            BlockOptionKind::ImmutabilityMode => 21,
            BlockOptionKind::LegalHold => 22,
            BlockOptionKind::ExpiryOption => 23,
            BlockOptionKind::ExpiryTime => 24,
            BlockOptionKind::Metadata => 25,
            BlockOptionKind::EncryptionContext => 26,
            BlockOptionKind::Timeout => 27,
        }
    }

    /// Decodes a checked binding discriminant.
    pub fn from_discriminant(value: u16) -> (r: Option<Self>)
        ensures
            r matches Some(k) ==> k.spec_discriminant() == value,
            r is None ==> forall|k: Self| k.spec_discriminant() != value,
    {
        match value {
            1 => Some(BlockOptionKind::LeaseId),
            2 => Some(BlockOptionKind::ContentMd5),
            3 => Some(BlockOptionKind::ContentCrc64),
            4 => Some(BlockOptionKind::EncryptionKey),
            5 => Some(BlockOptionKind::EncryptionKeySha256),
            6 => Some(BlockOptionKind::EncryptionAlgorithm),
            7 => Some(BlockOptionKind::EncryptionScope),
            8 => Some(BlockOptionKind::ClientRequestId),
            9 => Some(BlockOptionKind::ContentType),
            10 => Some(BlockOptionKind::ContentEncoding),
            11 => Some(BlockOptionKind::ContentLanguage),
            12 => Some(BlockOptionKind::CacheControl),
            13 => Some(BlockOptionKind::BlobContentMd5),
            14 => Some(BlockOptionKind::ContentDisposition),
            15 => Some(BlockOptionKind::Tags),
            16 => Some(BlockOptionKind::AccessTier),
            17 => Some(BlockOptionKind::IfModifiedSince),
            18 => Some(BlockOptionKind::IfUnmodifiedSince),
            19 => Some(BlockOptionKind::IfTags),
            20 => Some(BlockOptionKind::ImmutabilityUntil),
            21 => Some(BlockOptionKind::ImmutabilityMode),
            22 => Some(BlockOptionKind::LegalHold),
            23 => Some(BlockOptionKind::ExpiryOption),
            24 => Some(BlockOptionKind::ExpiryTime),
            25 => Some(BlockOptionKind::Metadata),
            26 => Some(BlockOptionKind::EncryptionContext),
            27 => Some(BlockOptionKind::Timeout),
            _ => None,
        }
    }

    pub open spec fn spec_header(self) -> &'static str {
        match self {
            BlockOptionKind::LeaseId => "x-ms-lease-id",
            BlockOptionKind::ContentMd5 => "Content-MD5",
            BlockOptionKind::ContentCrc64 => "x-ms-content-crc64",
            BlockOptionKind::EncryptionKey => "x-ms-encryption-key",
            BlockOptionKind::EncryptionKeySha256 => "x-ms-encryption-key-sha256",
            BlockOptionKind::EncryptionAlgorithm => "x-ms-encryption-algorithm",
            BlockOptionKind::EncryptionScope => "x-ms-encryption-scope",
            BlockOptionKind::ClientRequestId => "x-ms-client-request-id",
            BlockOptionKind::ContentType => "x-ms-blob-content-type",
            BlockOptionKind::ContentEncoding => "x-ms-blob-content-encoding",
            BlockOptionKind::ContentLanguage => "x-ms-blob-content-language",
            BlockOptionKind::CacheControl => "x-ms-blob-cache-control",
            BlockOptionKind::BlobContentMd5 => "x-ms-blob-content-md5",
            BlockOptionKind::ContentDisposition => "x-ms-blob-content-disposition",
            BlockOptionKind::Tags => "x-ms-tags",
            BlockOptionKind::AccessTier => "x-ms-access-tier",
            BlockOptionKind::IfModifiedSince => "If-Modified-Since",
            BlockOptionKind::IfUnmodifiedSince => "If-Unmodified-Since",
            BlockOptionKind::IfTags => "x-ms-if-tags",
            BlockOptionKind::ImmutabilityUntil => "x-ms-immutability-policy-until-date",
            BlockOptionKind::ImmutabilityMode => "x-ms-immutability-policy-mode",
            BlockOptionKind::LegalHold => "x-ms-legal-hold",
            BlockOptionKind::ExpiryOption => "x-ms-expiry-option",
            BlockOptionKind::ExpiryTime => "x-ms-expiry-time",
            BlockOptionKind::Metadata => "x-ms-meta-",
            BlockOptionKind::EncryptionContext => "x-ms-encryption-context",
            BlockOptionKind::Timeout => "timeout",
        }
    }

    /// The header that carries an option of this kind; for metadata, the
    /// prefix before the key.
    pub fn header(self) -> (r: &'static str)
        ensures
            r == self.spec_header(),
    {
        match self {
            BlockOptionKind::LeaseId => "x-ms-lease-id",
            BlockOptionKind::ContentMd5 => "Content-MD5",
            BlockOptionKind::ContentCrc64 => "x-ms-content-crc64",
            BlockOptionKind::EncryptionKey => "x-ms-encryption-key",
            BlockOptionKind::EncryptionKeySha256 => "x-ms-encryption-key-sha256",
            BlockOptionKind::EncryptionAlgorithm => "x-ms-encryption-algorithm",
            BlockOptionKind::EncryptionScope => "x-ms-encryption-scope",
            BlockOptionKind::ClientRequestId => "x-ms-client-request-id",
            BlockOptionKind::ContentType => "x-ms-blob-content-type",
            BlockOptionKind::ContentEncoding => "x-ms-blob-content-encoding",
            BlockOptionKind::ContentLanguage => "x-ms-blob-content-language",
            BlockOptionKind::CacheControl => "x-ms-blob-cache-control",
            BlockOptionKind::BlobContentMd5 => "x-ms-blob-content-md5",
            BlockOptionKind::ContentDisposition => "x-ms-blob-content-disposition",
            BlockOptionKind::Tags => "x-ms-tags",
            BlockOptionKind::AccessTier => "x-ms-access-tier",
            BlockOptionKind::IfModifiedSince => "If-Modified-Since",
            BlockOptionKind::IfUnmodifiedSince => "If-Unmodified-Since",
            BlockOptionKind::IfTags => "x-ms-if-tags",
            BlockOptionKind::ImmutabilityUntil => "x-ms-immutability-policy-until-date",
            BlockOptionKind::ImmutabilityMode => "x-ms-immutability-policy-mode",
            BlockOptionKind::LegalHold => "x-ms-legal-hold",
            BlockOptionKind::ExpiryOption => "x-ms-expiry-option",
            BlockOptionKind::ExpiryTime => "x-ms-expiry-time",
            BlockOptionKind::Metadata => "x-ms-meta-",
            BlockOptionKind::EncryptionContext => "x-ms-encryption-context",
            BlockOptionKind::Timeout => "timeout",
        }
    }

    /// The operations that an option of this kind applies to, as bits:
    /// 1 for a stage, 2 for a commit, 4 for a block listing.
    pub open spec fn spec_operations(self) -> u8 {
        match self {
            BlockOptionKind::LeaseId => 7,
            BlockOptionKind::ContentMd5 => 3,
            BlockOptionKind::ContentCrc64 => 3,
            BlockOptionKind::EncryptionKey => 3,
            BlockOptionKind::EncryptionKeySha256 => 3,
            BlockOptionKind::EncryptionAlgorithm => 3,
            BlockOptionKind::EncryptionScope => 3,
            BlockOptionKind::ClientRequestId => 7,
            BlockOptionKind::IfTags => 6,
            BlockOptionKind::Timeout => 7,
            _ => 2,
        }
    }

    /// Returns the operations that an option of this kind applies to.
    pub fn operations(self) -> (r: u8)
        ensures
            r == self.spec_operations(),
    {
        match self {
            BlockOptionKind::LeaseId => 7,
            BlockOptionKind::ContentMd5 => 3,
            BlockOptionKind::ContentCrc64 => 3,
            BlockOptionKind::EncryptionKey => 3,
            BlockOptionKind::EncryptionKeySha256 => 3,
            BlockOptionKind::EncryptionAlgorithm => 3,
            BlockOptionKind::EncryptionScope => 3,
            BlockOptionKind::ClientRequestId => 7,
            BlockOptionKind::IfTags => 6,
            BlockOptionKind::Timeout => 7,
            _ => 2,
        }
    }
}

/// One borrowed native option. Values use the provider's wire representation.
#[derive(Debug, Clone, Copy)]
pub struct BlockOption<'a> {
    /// Supported option, not an arbitrary HTTP header.
    pub kind: BlockOptionKind,
    /// Metadata key, empty for every other kind.
    pub name: &'a str,
    /// Header value; tags are URL-encoded and hashes are base64.
    pub value: &'a str,
}

impl<'a> BlockOption<'a> {
    /// A non-metadata option.
    pub fn new(kind: BlockOptionKind, value: &'a str) -> (r: Self)
        ensures
            r.kind == kind,
            r.name@ == Seq::<char>::empty(),
            r.value == value,
    {
        proof { reveal_strlit(""); }
        BlockOption { kind, name: "", value }
    }

    /// One metadata key/value pair.
    pub fn metadata(name: &'a str, value: &'a str) -> (r: Self)
        ensures
            r.kind == BlockOptionKind::Metadata,
            r.name == name,
            r.value == value,
    {
        BlockOption { kind: BlockOptionKind::Metadata, name, value }
    }
}

/// Whether a value is printable ASCII; it may be empty.
pub open spec fn printable(value: Seq<u8>) -> bool {
    forall|i: int| 0 <= i < value.len() ==> 0x20 <= #[trigger] value[i] <= 0x7e
}

/// Whether a byte is an ASCII letter, digit or `_`.
pub open spec fn word_byte(b: u8) -> bool {
    (0x30 <= b <= 0x39) || (0x41 <= b <= 0x5a) || (0x61 <= b <= 0x7a) || b == 0x5f
}

/// Whether a metadata key is an identifier: a letter or `_`, then letters,
/// digits and `_`.
pub open spec fn metadata_key(name: Seq<u8>) -> bool {
    &&& name.len() > 0
    &&& !(0x30 <= name[0] <= 0x39)
    &&& forall|i: int| 0 <= i < name.len() ==> word_byte(#[trigger] name[i])
}

/// Whether the option at `i` breaks a rule that concerns it alone, or
/// repeats one before it: it does not apply to the operation, its value is
/// not printable ASCII, an encryption context is longer than 1,024 bytes, a
/// timeout is not a number of seconds from 1 to `u32::MAX`, a metadata key
/// is not an identifier or repeats an earlier one in any case, or another
/// option carries a name or repeats its kind.
pub open spec fn option_refused(options: Seq<BlockOption>, i: int, operation: u8) -> bool {
    let option = options[i];
    ||| option.kind.spec_operations() & operation == 0
    ||| !printable(option.value.spec_bytes())
    ||| (option.kind == BlockOptionKind::EncryptionContext && option.value.spec_bytes().len() > 1024)
    ||| (option.kind == BlockOptionKind::Timeout && !(is_u64_decimal(option.value.spec_bytes())
        && 1 <= decimal_value(option.value.spec_bytes()) <= u32::MAX))
    ||| (option.kind == BlockOptionKind::Metadata && (!metadata_key(option.name.spec_bytes())
        || exists|j: int| 0 <= j < i && options[j].kind == BlockOptionKind::Metadata
            && #[trigger] ascii_eq_ignore_case(options[j].name.spec_bytes(), option.name.spec_bytes())))
    ||| (option.kind != BlockOptionKind::Metadata && (option.name.spec_bytes().len() > 0
        || exists|j: int| 0 <= j < i && #[trigger] options[j].kind == option.kind))
}

/// Whether some option is of this kind.
pub open spec fn has_kind(options: Seq<BlockOption>, kind: BlockOptionKind) -> bool {
    exists|j: int| 0 <= j < options.len() && #[trigger] options[j].kind == kind
}

/// Whether the options are refused: one of them breaks a rule, a checksum is
/// given both ways, or the encryption key comes without its hash and its
/// algorithm, or beside an encryption scope.
pub open spec fn options_refused(options: Seq<BlockOption>, operation: u8) -> bool {
    let keys = (if has_kind(options, BlockOptionKind::EncryptionKey) { 1int } else { 0 })
        + (if has_kind(options, BlockOptionKind::EncryptionKeySha256) { 1int } else { 0 })
        + (if has_kind(options, BlockOptionKind::EncryptionAlgorithm) { 1int } else { 0 });
    ||| exists|i: int| 0 <= i < options.len() && #[trigger] option_refused(options, i, operation)
    ||| (has_kind(options, BlockOptionKind::ContentMd5) && has_kind(options, BlockOptionKind::ContentCrc64))
    ||| (keys != 0 && keys != 3)
    ||| (keys != 0 && has_kind(options, BlockOptionKind::EncryptionScope))
}

fn printable_value(value: &[u8]) -> (r: bool)
    ensures
        r == printable(value@),
{
    let mut i: usize = 0;
    while i < value.len()
        invariant
            i <= value@.len(),
            forall|j: int| 0 <= j < i ==> 0x20 <= #[trigger] value@[j] <= 0x7e,
        decreases value@.len() - i,
    {
        if value[i] < 0x20 || value[i] > 0x7e {
            return false;
        }
        i = i + 1;
    }
    true
}

fn valid_metadata_key(name: &[u8]) -> (r: bool)
    ensures
        r == metadata_key(name@),
{
    if name.len() == 0 || (0x30 <= name[0] && name[0] <= 0x39) {
        return false;
    }
    let mut i: usize = 0;
    while i < name.len()
        invariant
            i <= name@.len(),
            forall|j: int| 0 <= j < i ==> word_byte(#[trigger] name@[j]),
        decreases name@.len() - i,
    {
        let b = name[i];
        if !((0x30 <= b && b <= 0x39) || (0x41 <= b && b <= 0x5a) || (0x61 <= b && b <= 0x7a) || b == 0x5f) {
            assert(!word_byte(name@[i as int]));
            return false;
        }
        i = i + 1;
    }
    true
}

// Whether an option before `i` repeats the metadata key of the option at `i`.
fn repeats_key(options: &[BlockOption], i: usize) -> (r: bool)
    requires
        i < options@.len(),
    ensures
        r == exists|j: int| 0 <= j < i && options@[j].kind == BlockOptionKind::Metadata
            && #[trigger] ascii_eq_ignore_case(options@[j].name.spec_bytes(), options@[i as int].name.spec_bytes()),
{
    let name = options[i].name.as_bytes();
    let mut j: usize = 0;
    while j < i
        invariant
            i < options@.len(),
            j <= i,
            name@ == options@[i as int].name.spec_bytes(),
            forall|k: int| 0 <= k < j ==> !(options@[k].kind == BlockOptionKind::Metadata
                && #[trigger] ascii_eq_ignore_case(options@[k].name.spec_bytes(), options@[i as int].name.spec_bytes())),
        decreases i - j,
    {
        if options[j].kind == BlockOptionKind::Metadata && eq_ignore_ascii_case(options[j].name.as_bytes(), name) {
            return true;
        }
        j = j + 1;
    }
    false
}

// Whether an option before `i` has the kind of the option at `i`.
fn repeats_kind(options: &[BlockOption], i: usize) -> (r: bool)
    requires
        i < options@.len(),
    ensures
        r == exists|j: int| 0 <= j < i && #[trigger] options@[j].kind == options@[i as int].kind,
{
    let kind = options[i].kind;
    let mut j: usize = 0;
    while j < i
        invariant
            i < options@.len(),
            j <= i,
            kind == options@[i as int].kind,
            forall|k: int| 0 <= k < j ==> #[trigger] options@[k].kind != kind,
        decreases i - j,
    {
        if options[j].kind == kind {
            return true;
        }
        j = j + 1;
    }
    false
}

fn refused_at(options: &[BlockOption], i: usize, operation: u8) -> (r: bool)
    requires
        i < options@.len(),
    ensures
        r == option_refused(options@, i as int, operation),
{
    let option = options[i];
    let value = option.value.as_bytes();
    if option.kind.operations() & operation == 0 || !printable_value(value) {
        return true;
    }
    if option.kind == BlockOptionKind::EncryptionContext && value.len() > 1024 {
        return true;
    }
    if option.kind == BlockOptionKind::Timeout {
        let seconds_ok = match decimal(value) {
            Some(seconds) => 1 <= seconds && seconds <= 0xffff_ffff,
            None => false,
        };
        if !seconds_ok {
            return true;
        }
    }
    if option.kind == BlockOptionKind::Metadata {
        !valid_metadata_key(option.name.as_bytes()) || repeats_key(options, i)
    } else {
        option.name.as_bytes().len() > 0 || repeats_kind(options, i)
    }
}

fn has(options: &[BlockOption], kind: BlockOptionKind) -> (r: bool)
    ensures
        r == has_kind(options@, kind),
{
    let mut j: usize = 0;
    while j < options.len()
        invariant
            j <= options@.len(),
            forall|k: int| 0 <= k < j ==> #[trigger] options@[k].kind != kind,
        decreases options@.len() - j,
    {
        if options[j].kind == kind {
            return true;
        }
        j = j + 1;
    }
    false
}

/// Checks the options of one operation: `operation` is 1 for a stage, 2 for
/// a commit and 4 for a block listing.
///
/// # Errors
///
/// Returns [`InvalidPlan::Option`] if the options are refused.
pub fn validate(options: &[BlockOption], operation: u8) -> (r: Result<(), Error>)
    ensures
        r is Err <==> options_refused(options@, operation),
        r matches Err(e) ==> e == Error::InvalidPlan(InvalidPlan::Option),
{
    let mut i: usize = 0;
    while i < options.len()
        invariant
            i <= options@.len(),
            forall|j: int| 0 <= j < i ==> !#[trigger] option_refused(options@, j, operation),
        decreases options@.len() - i,
    {
        if refused_at(options, i, operation) {
            return Err(Error::InvalidPlan(InvalidPlan::Option));
        }
        i = i + 1;
    }
    if has(options, BlockOptionKind::ContentMd5) && has(options, BlockOptionKind::ContentCrc64) {
        return Err(Error::InvalidPlan(InvalidPlan::Option));
    }
    let keys: u8 = (if has(options, BlockOptionKind::EncryptionKey) { 1 } else { 0 })
        + (if has(options, BlockOptionKind::EncryptionKeySha256) { 1 } else { 0 })
        + (if has(options, BlockOptionKind::EncryptionAlgorithm) { 1 } else { 0 });
    if (keys != 0 && keys != 3) || (keys != 0 && has(options, BlockOptionKind::EncryptionScope)) {
        return Err(Error::InvalidPlan(InvalidPlan::Option));
    }
    Ok(())
}

/// The headers that the options are written as, in order: every option but
/// a timeout, its header name (and the key, for metadata) with its value.
pub open spec fn option_headers(options: Seq<BlockOption>) -> Seq<(Seq<u8>, Seq<u8>)>
    decreases options.len(),
{
    if options.len() == 0 {
        Seq::empty()
    } else {
        let last = options.last();
        option_headers(options.drop_last()) + if last.kind == BlockOptionKind::Timeout {
            Seq::empty()
        } else {
            seq![(last.kind.spec_header().spec_bytes() + last.name.spec_bytes(), last.value.spec_bytes())]
        }
    }
}

/// Writes every option but a timeout as a header.
pub fn write(head: &mut HeadWriter, options: &[BlockOption])
    requires
        old(head).wf(),
    ensures
        final(head).wf(),
        final(head).url_bytes() == old(head).url_bytes(),
        final(head).header_bytes() == old(head).header_bytes() + option_headers(options@),
        final(head).byte_capacity() == old(head).byte_capacity(),
        final(head).header_capacity() == old(head).header_capacity(),
        final(head).current() == HeadPart::Url ==> old(head).current() == HeadPart::Url,
        final(final(head).out.bytes)@ == final(old(head).out.bytes)@,
{
    let ghost start = head.header_bytes();
    let mut i: usize = 0;
    proof {
        assert(options@.subrange(0, 0) =~= Seq::<BlockOption>::empty());
        assert(start + Seq::<(Seq<u8>, Seq<u8>)>::empty() =~= start);
    }
    while i < options.len()
        invariant
            final(head.out.bytes)@ == final(old(head).out.bytes)@,
            i <= options@.len(),
            head.wf(),
            head.url_bytes() == old(head).url_bytes(),
            head.header_bytes() == start + option_headers(options@.subrange(0, i as int)),
            head.byte_capacity() == old(head).byte_capacity(),
            head.header_capacity() == old(head).header_capacity(),
            start == old(head).header_bytes(),
            head.current() == HeadPart::Url ==> old(head).current() == HeadPart::Url,
        decreases options@.len() - i,
    {
        let option = options[i];
        let ghost h0 = head.header_bytes();
        proof {
            let next = options@.subrange(0, i + 1);
            assert(next.drop_last() =~= options@.subrange(0, i as int));
            assert(next.last() == option);
        }
        if option.kind != BlockOptionKind::Timeout {
            head.header_name();
            let ghost n0 = *head;
            head.push_str(option.kind.header());
            let ghost n1 = *head;
            head.push_str(option.name);
            proof {
                n0.lemma_open_header();
                lemma_appended_twice(n0, n1, *head, option.kind.spec_header().spec_bytes(), option.name.spec_bytes());
            }
            head.header_value();
            head.push_str(option.value);
            proof {
                let e = Seq::<u8>::empty();
                let name = option.kind.spec_header().spec_bytes() + option.name.spec_bytes();
                let h = h0.push((e, e));
                assert(h.update(h.len() - 1, (h.last().0 + name, h.last().1)) =~= h0.push((name, e)));
                assert(e + option.value.spec_bytes() =~= option.value.spec_bytes());
                assert(head.header_bytes() =~= h0.push((name, option.value.spec_bytes())));
                assert(head.header_bytes() =~= start + option_headers(options@.subrange(0, i + 1)));
            }
        } else {
            proof {
                assert(h0 + Seq::<(Seq<u8>, Seq<u8>)>::empty() =~= h0);
                assert(head.header_bytes() =~= start + option_headers(options@.subrange(0, i + 1)));
            }
        }
        i = i + 1;
    }
    proof {
        assert(options@.subrange(0, options@.len() as int) =~= options@);
    }
}

/// The server-side timeout that the options carry: the seconds of the first
/// timeout option, if it is a number that fits a `u64`.
pub open spec fn spec_timeout(options: Seq<BlockOption>) -> Option<u32> {
    if exists|i: int| 0 <= i < options.len() && #[trigger] options[i].kind == BlockOptionKind::Timeout {
        let i = choose|i: int| 0 <= i < options.len() && #[trigger] options[i].kind == BlockOptionKind::Timeout
            && forall|j: int| 0 <= j < i ==> options[j].kind != BlockOptionKind::Timeout;
        let value = options[i].value.spec_bytes();
        if is_u64_decimal(value) { Some(decimal_value(value) as u32) } else { None }
    } else {
        None
    }
}

/// Returns the seconds of the first timeout option, truncated to `u32`.
pub fn timeout(options: &[BlockOption]) -> (r: Option<u32>)
    ensures
        r == spec_timeout(options@),
{
    let mut i: usize = 0;
    while i < options.len()
        invariant
            i <= options@.len(),
            forall|j: int| 0 <= j < i ==> #[trigger] options@[j].kind != BlockOptionKind::Timeout,
        decreases options@.len() - i,
    {
        if options[i].kind == BlockOptionKind::Timeout {
            proof {
                let first = choose|k: int| 0 <= k < options@.len() && #[trigger] options@[k].kind == BlockOptionKind::Timeout
                    && forall|j: int| 0 <= j < k ==> options@[j].kind != BlockOptionKind::Timeout;
                assert(0 <= i < options@.len() && options@[i as int].kind == BlockOptionKind::Timeout
                    && forall|j: int| 0 <= j < i ==> options@[j].kind != BlockOptionKind::Timeout);
                assert(first == i as int) by {
                    if first < i {
                        assert(options@[first].kind != BlockOptionKind::Timeout);
                    } else if first > i {
                        assert(options@[i as int].kind != BlockOptionKind::Timeout);
                    }
                }
            }
            return match decimal(options[i].value.as_bytes()) {
                Some(seconds) => Some(seconds as u32),
                None => None,
            };
        }
        i = i + 1;
    }
    None
}

} // verus!
