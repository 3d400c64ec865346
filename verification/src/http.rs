//! The parts of HTTP that a request head must get right.

use vstd::prelude::*;
use vstd::string::*;

use crate::xml::decode::{starts_with, starts_with_bytes};

verus! {

/// Whether a byte is an ASCII control character.
pub open spec fn ascii_control(b: u8) -> bool {
    b < 0x20 || b == 0x7f
}

/// Whether bytes can be one HTTP header value as written here: not empty,
/// ASCII, and without control characters.
pub open spec fn header_value_ok(value: Seq<u8>) -> bool {
    &&& value.len() > 0
    &&& forall|i: int| 0 <= i < value.len() ==> 0x20 <= #[trigger] value[i] <= 0x7e
}

/// Returns whether `value` can be one HTTP header value.
pub fn valid_header(value: &[u8]) -> (r: bool)
    ensures
        r == header_value_ok(value@),
{
    if value.len() == 0 {
        return false;
    }
    let mut i: usize = 0;
    while i < value.len()
        invariant
            i <= value@.len(),
            forall|j: int| 0 <= j < i ==> 0x20 <= #[trigger] value@[j] <= 0x7e,
        decreases value@.len() - i,
    {
        if value[i] < 0x20 || value[i] > 0x7e {
            return false;
        }
        i = i + 1;
    }
    true
}

/// Whether a byte may stand in the authority of an origin: visible ASCII
/// other than `/`, `?` and `#`, which would begin a path, a query or a
/// fragment.
pub open spec fn authority_byte(b: u8) -> bool {
    0x21 <= b <= 0x7e && b != 0x2f && b != 0x3f && b != 0x23
}

/// Whether the bytes after the scheme are an authority that is not empty.
pub open spec fn authority_ok(s: Seq<u8>) -> bool {
    s.len() > 0 && forall|i: int| 0 <= i < s.len() ==> authority_byte(#[trigger] s[i])
}

/// Whether a text is an ASCII HTTP or HTTPS origin: the scheme, `://` and an
/// authority, with no path, query or fragment.
pub open spec fn http_origin(s: Seq<u8>) -> bool {
    ||| (starts_with(s, "http://".spec_bytes())
        && authority_ok(s.subrange("http://".spec_bytes().len() as int, s.len() as int)))
    ||| (starts_with(s, "https://".spec_bytes())
        && authority_ok(s.subrange("https://".spec_bytes().len() as int, s.len() as int)))
}

fn authority(s: &[u8]) -> (r: bool)
    ensures
        r == authority_ok(s@),
{
    if s.len() == 0 {
        return false;
    }
    let mut i: usize = 0;
    while i < s.len()
        invariant
            i <= s@.len(),
            forall|j: int| 0 <= j < i ==> authority_byte(#[trigger] s@[j]),
        decreases s@.len() - i,
    {
        let b = s[i];
        if !(0x21 <= b && b <= 0x7e && b != 0x2f && b != 0x3f && b != 0x23) {
            assert(!authority_byte(s@[i as int]));
            return false;
        }
        i = i + 1;
    }
    true
}

/// Returns whether `endpoint` is an ASCII HTTP or HTTPS origin.
pub fn valid_http_origin(endpoint: &str) -> (r: bool)
    ensures
        r == http_origin(endpoint.spec_bytes()),
{
    let bytes = endpoint.as_bytes();
    let http = "http://".as_bytes();
    let https = "https://".as_bytes();
    let plain = starts_with_bytes(bytes, http)
        && authority(vstd::slice::slice_subrange(bytes, http.len(), bytes.len()));
    if plain {
        return true;
    }
    starts_with_bytes(bytes, https)
        && authority(vstd::slice::slice_subrange(bytes, https.len(), bytes.len()))
}

} // verus!
