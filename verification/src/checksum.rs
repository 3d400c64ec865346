//! Checksums of the content of a write.
//!
//! Azure compares a checksum in the request head against the bytes it
//! receives, and refuses the write if the two differ. To send one, compute
//! the MD5 or the CRC-64/NVME of the content and write its base64, which
//! [`Digest::base64`] does for a [`Digest`]. This crate computes no checksum.

use vstd::prelude::*;
use vstd::string::*;

use crate::error::{Error, InvalidPlan};
use crate::azure::base64_byte;
use crate::layered::{base64, base64_into, base64_padding, lemma_base64_shape};

verus! {

broadcast use vstd::string::group_string_axioms;

/// The checksums that a write can send.
///
/// The kind decides the request header that carries the checksum.
#[derive(Debug, Clone, Copy, PartialEq, Eq, Structural)]
#[non_exhaustive]
pub enum ChecksumKind {
    /// MD5, sixteen bytes, sent as `Content-MD5`.
    Md5,
    /// CRC-64/NVME, eight bytes, sent as `x-ms-content-crc64`.
    Crc64,
}

impl ChecksumKind {
    pub open spec fn spec_discriminant(self) -> u16 {
        match self {
            ChecksumKind::Md5 => 1,
            ChecksumKind::Crc64 => 2,
        }
    }

    /// Returns the number that stands for this kind.
    pub fn discriminant(self) -> (r: u16)
        ensures
            r == self.spec_discriminant(),
    {
        match self {
            ChecksumKind::Md5 => 1,
            ChecksumKind::Crc64 => 2,
        }
    }

    /// Returns the kind with this discriminant.
    ///
    /// Returns [`None`] for a discriminant that this version does not define.
    pub fn from_discriminant(value: u16) -> (r: Option<Self>)
        ensures
            r matches Some(k) ==> k.spec_discriminant() == value,
            r is None ==> forall|k: Self| k.spec_discriminant() != value,
    {
        match value {
            1 => Some(ChecksumKind::Md5),
            2 => Some(ChecksumKind::Crc64),
            _ => None,
        }
    }

    pub open spec fn spec_digest_len(self) -> usize {
        match self {
            ChecksumKind::Md5 => 16,
            ChecksumKind::Crc64 => 8,
        }
    }

    /// Returns the number of bytes in a digest of this kind.
    pub fn digest_len(self) -> (r: usize)
        ensures
            r == self.spec_digest_len(),
    {
        match self {
            ChecksumKind::Md5 => 16,
            ChecksumKind::Crc64 => 8,
        }
    }

    pub open spec fn spec_header(self) -> &'static str {
        match self {
            ChecksumKind::Md5 => "content-md5",
            ChecksumKind::Crc64 => "x-ms-content-crc64",
        }
    }

    /// The request header that carries a checksum of this kind.
    pub fn header(self) -> (r: &'static str)
        ensures
            r == self.spec_header(),
    {
        match self {
            ChecksumKind::Md5 => "content-md5",
            ChecksumKind::Crc64 => "x-ms-content-crc64",
        }
    }

    /// Where a provider of this kind sits in a client's table.
    pub fn slot(self) -> (r: usize)
        ensures
            r == (match self {
                ChecksumKind::Md5 => 0usize,
                ChecksumKind::Crc64 => 1usize,
            }),
    {
        match self {
            ChecksumKind::Md5 => 0,
            ChecksumKind::Crc64 => 1,
        }
    }

    /// The length of the base64 of a digest of this kind, as the characters
    /// from the alphabet and the `=` padding after them.
    pub open spec fn spec_base64_shape(self) -> (usize, usize) {
        let len = self.spec_digest_len();
        if len % 3 == 0 {
            ((len / 3 * 4) as usize, 0usize)
        } else {
            ((len / 3 * 4 + len % 3 + 1) as usize, (3 - len % 3) as usize)
        }
    }

    /// Returns the characters and the padding of the base64 of a digest of
    /// this kind: 22 and 2 for an MD5, 11 and 1 for a CRC64.
    pub fn base64_shape(self) -> (r: (usize, usize))
        ensures
            r == self.spec_base64_shape(),
    {
        let len = self.digest_len();
        let (groups, rest) = (len / 3, len % 3);
        if rest == 0 {
            (groups * 4, 0)
        } else {
            (groups * 4 + rest + 1, 3 - rest)
        }
    }

    /// Whether `text` is the base64 of a digest of this kind: the right
    /// number of characters from the alphabet, then the right number of `=`.
    pub open spec fn spec_base64_ok(self, text: Seq<u8>) -> bool {
        let (chars, padding) = self.spec_base64_shape();
        &&& text.len() == chars + padding
        &&& forall|i: int| 0 <= i < chars ==> base64_byte(#[trigger] text[i])
        &&& forall|i: int| chars <= i < text.len() ==> #[trigger] text[i] == 0x3d
    }

    /// Checks that `text` is the base64 of a digest of this kind.
    ///
    /// # Errors
    ///
    /// Returns [`InvalidPlan::Checksum`] for any other text, which Azure
    /// refuses with 400 `InvalidHeaderValue`.
    pub fn check_base64(self, text: &str) -> (r: Result<(), Error>)
        ensures
            r is Ok <==> self.spec_base64_ok(text.spec_bytes()),
            r matches Err(e) ==> e == Error::InvalidPlan(InvalidPlan::Checksum),
    {
        let (chars, padding) = self.base64_shape();
        let bytes = text.as_bytes();
        if bytes.len() != chars + padding {
            return Err(Error::InvalidPlan(InvalidPlan::Checksum));
        }
        let mut i: usize = 0;
        while i < bytes.len()
            invariant
                bytes@.len() == chars + padding,
                (chars, padding) == self.spec_base64_shape(),
                bytes@ == text.spec_bytes(),
                i <= bytes@.len(),
                forall|j: int| 0 <= j < i && j < chars ==> base64_byte(#[trigger] bytes@[j]),
                forall|j: int| chars <= j < i ==> #[trigger] bytes@[j] == 0x3d,
            decreases bytes@.len() - i,
        {
            let b = bytes[i];
            let ok = if i < chars {
                (0x30 <= b && b <= 0x39) || (0x41 <= b && b <= 0x5a) || (0x61 <= b && b <= 0x7a) || b == 0x2b || b == 0x2f
            } else {
                b == 0x3d
            };
            if !ok {
                return Err(Error::InvalidPlan(InvalidPlan::Checksum));
            }
            i = i + 1;
        }
        Ok(())
    }
}

/// The length of the longest text that [`Digest::base64`] writes, which is
/// the 24 characters of an MD5.
pub const BASE64_LEN: usize = 24;

/// The byte of a `u64` at place `i` of its little-endian bytes.
pub open spec fn le_byte(value: u64, i: nat) -> u8 {
    ((value as nat / vstd::arithmetic::power::pow(256, i) as nat) % 256) as u8
}

/// The bytes of a finished checksum.
#[derive(Debug, Clone, Copy, PartialEq, Eq)]
pub struct Digest {
    bytes: [u8; 16],
    kind: ChecksumKind,
}

impl Digest {
    /// Which checksum this is.
    pub closed spec fn spec_kind(&self) -> ChecksumKind {
        self.kind
    }

    /// The bytes of the digest.
    pub closed spec fn spec_bytes(&self) -> Seq<u8> {
        self.bytes@.subrange(0, self.kind.spec_digest_len() as int)
    }

    /// Creates the digest of an MD5 from its sixteen bytes.
    pub fn md5(bytes: [u8; 16]) -> (r: Self)
        ensures
            r.spec_kind() == ChecksumKind::Md5,
            r.spec_bytes() == bytes@,
    {
        let r = Digest { bytes, kind: ChecksumKind::Md5 };
        assert(r.spec_bytes() =~= bytes@);
        r
    }

    /// Creates the digest of a CRC64 from its value.
    ///
    /// The digest holds the eight little-endian bytes of `value`, which is
    /// the order that Azure reads.
    pub fn crc64(value: u64) -> (r: Self)
        ensures
            r.spec_kind() == ChecksumKind::Crc64,
            r.spec_bytes().len() == 8,
            forall|i: int| 0 <= i < 8 ==> #[trigger] r.spec_bytes()[i] == le_byte(value, i as nat),
    {
        let mut bytes = [0u8; 16];
        let mut rest = value;
        let mut i: usize = 0;
        proof {
            vstd::arithmetic::power::lemma_pow0(256);
        }
        while i < 8
            invariant
                i <= 8,
                rest as nat == value as nat / vstd::arithmetic::power::pow(256, i as nat) as nat,
                forall|j: int| 0 <= j < i ==> #[trigger] bytes@[j] == le_byte(value, j as nat),
            decreases 8 - i,
        {
            proof {
                vstd::arithmetic::power::lemma_pow_positive(256, i as nat);
                vstd::arithmetic::power::lemma_pow_adds(256, i as nat, 1);
                vstd::arithmetic::power::lemma_pow1(256);
                vstd::arithmetic::div_mod::lemma_div_denominator(value as int, vstd::arithmetic::power::pow(256, i as nat), 256);
            }
            bytes[i] = (rest % 256) as u8;
            rest = rest / 256;
            i = i + 1;
        }
        let r = Digest { bytes, kind: ChecksumKind::Crc64 };
        r
    }

    /// Returns which checksum this is.
    pub fn kind(&self) -> (r: ChecksumKind)
        ensures
            r == self.spec_kind(),
    {
        self.kind
    }

    /// Returns the bytes of the digest: sixteen for an MD5, eight for a CRC64.
    pub fn as_bytes(&self) -> (r: &[u8])
        ensures
            r@ == self.spec_bytes(),
    {
        let len = self.kind.digest_len();
        vstd::slice::slice_subrange(self.bytes.as_slice(), 0, len)
    }

    /// Writes the base64 of the digest into `into` and returns it as text:
    /// 24 characters for an MD5 and 12 for a CRC64.
    pub fn base64<'a>(&self, into: &'a mut [u8; 24]) -> (r: &'a str)
        ensures
            r.spec_bytes() == base64(self.spec_bytes()),
    {
        let bytes = self.as_bytes();
        base64_into(bytes, into)
    }
}


/// The text that [`Digest::base64`] writes is text that
/// [`ChecksumKind::check_base64`] accepts for the digest's kind.
pub proof fn law_a_written_checksum_is_accepted(d: Digest)
    ensures
        d.spec_kind().spec_base64_ok(base64(d.spec_bytes())),
{
    lemma_base64_shape(d.spec_bytes());
    assert(d.spec_bytes().len() == d.spec_kind().spec_digest_len());
}

} // verus!
