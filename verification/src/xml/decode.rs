//! Undoing the escaping that XML applies to text, and the percent-encoding
//! that the service applies to a name that XML cannot carry.
//!
//! Both only ever shorten the text, so both run left to right within the
//! span, and the bytes that they free at the end keep whatever they held.

use vstd::prelude::*;
use vstd::string::*;

use crate::error::{Error, ResponseFault};
use crate::text::bytes_equal;
use crate::xml::{find_byte_from, lemma_find_byte_from, find_byte};

verus! {

/// Whether `s` begins with `p`.
pub open spec fn starts_with(s: Seq<u8>, p: Seq<u8>) -> bool {
    p.len() <= s.len() && s.subrange(0, p.len() as int) == p
}

/// Returns whether `s` begins with `p`.
pub fn starts_with_bytes(s: &[u8], p: &[u8]) -> (r: bool)
    ensures
        r == starts_with(s@, p@),
{
    if p.len() > s.len() {
        return false;
    }
    bytes_equal(vstd::slice::slice_subrange(s, 0, p.len()), p)
}

/// The value of an ASCII digit in base 10 or 16; letters count in either
/// case.
pub open spec fn digit_value(b: u8, radix: u32) -> Option<u32> {
    if 0x30 <= b <= 0x39 && (b - 0x30) < radix {
        Some((b - 0x30) as u32)
    } else if 0x61 <= b <= 0x7a && (b - 0x61 + 10) < radix {
        Some((b - 0x61 + 10) as u32)
    } else if 0x41 <= b <= 0x5a && (b - 0x41 + 10) < radix {
        Some((b - 0x41 + 10) as u32)
    } else {
        None
    }
}

/// Whether every byte is a digit of `radix`.
pub open spec fn radix_digits(s: Seq<u8>, radix: u32) -> bool {
    forall|i: int| 0 <= i < s.len() ==> #[trigger] digit_value(s[i], radix) is Some
}

/// The number that digits of `radix` name, most significant first.
pub open spec fn radix_value(s: Seq<u8>, radix: u32) -> nat
    decreases s.len(),
{
    if s.len() == 0 {
        0
    } else {
        radix_value(s.drop_last(), radix) * (radix as nat) + (digit_value(s.last(), radix)->0 as nat)
    }
}

/// The number that digits of `radix` name, if there is at least one digit,
/// nothing else, and the number fits a `u32`.
pub open spec fn radix_number(s: Seq<u8>, radix: u32) -> Option<u32> {
    if s.len() > 0 && radix_digits(s, radix) && radix_value(s, radix) <= u32::MAX {
        Some(radix_value(s, radix) as u32)
    } else {
        None
    }
}

proof fn lemma_radix_value_grows(s: Seq<u8>, radix: u32, n: int)
    requires
        0 <= n <= s.len(),
        radix >= 1,
        radix_digits(s, radix),
    ensures
        radix_value(s.subrange(0, n), radix) <= radix_value(s, radix),
    decreases s.len() - n,
{
    if n < s.len() {
        let t = s.subrange(0, n + 1);
        assert(t.drop_last() =~= s.subrange(0, n));
        lemma_radix_value_grows(s, radix, n + 1);
        let v = radix_value(s.subrange(0, n), radix);
        assert(v <= v * radix) by (nonlinear_arith)
            requires radix >= 1;
    } else {
        assert(s.subrange(0, n) =~= s);
    }
}

/// Returns the value of one digit of `radix`.
pub fn digit(b: u8, radix: u32) -> (r: Option<u32>)
    ensures
        r == digit_value(b, radix),
{
    if 0x30 <= b && b <= 0x39 && ((b - 0x30) as u32) < radix {
        Some((b - 0x30) as u32)
    } else if 0x61 <= b && b <= 0x7a && ((b - 0x61 + 10) as u32) < radix {
        Some((b - 0x61 + 10) as u32)
    } else if 0x41 <= b && b <= 0x5a && ((b - 0x41 + 10) as u32) < radix {
        Some((b - 0x41 + 10) as u32)
    } else {
        None
    }
}

/// Reads digits of `radix` as a `u32`.
pub fn read_number(s: &[u8], radix: u32) -> (r: Option<u32>)
    requires
        radix >= 1,
    ensures
        r == radix_number(s@, radix),
{
    if s.len() == 0 {
        return None;
    }
    let mut value: u32 = 0;
    let mut i: usize = 0;
    while i < s.len()
        invariant
            radix >= 1,
            i <= s@.len(),
            radix_digits(s@.subrange(0, i as int), radix),
            value == radix_value(s@.subrange(0, i as int), radix),
        decreases s@.len() - i,
    {
        let prefix = Ghost(s@.subrange(0, i as int + 1));
        proof {
            assert(prefix@.drop_last() =~= s@.subrange(0, i as int));
            assert(prefix@.last() == s@[i as int]);
        }
        let d = match digit(s[i], radix) {
            Some(d) => d,
            None => {
                proof {
                    assert(!radix_digits(s@, radix)) by {
                        assert(digit_value(s@[i as int], radix) is None);
                    }
                }
                return None;
            },
        };
        proof {
            assert(radix_digits(prefix@, radix)) by {
                assert forall|j: int| 0 <= j < prefix@.len() implies #[trigger] digit_value(prefix@[j], radix) is Some by {
                    if j < i {
                        assert(prefix@[j] == s@.subrange(0, i as int)[j]);
                    }
                }
            }
        }
        let next = match value.checked_mul(radix) {
            Some(m) => m.checked_add(d),
            None => None,
        };
        match next {
            Some(n) => {
                value = n;
            },
            None => {
                proof {
                    if radix_digits(s@, radix) {
                        lemma_radix_value_grows(s@, radix, i + 1);
                    }
                }
                return None;
            },
        }
        i = i + 1;
    }
    proof {
        assert(s@.subrange(0, s@.len() as int) =~= s@);
    }
    Some(value)
}

/// Whether XML 1.0 lets a document hold the character with this number.
pub open spec fn xml_char(code: u32) -> bool {
    ||| code == 0x9
    ||| code == 0xa
    ||| code == 0xd
    ||| 0x20 <= code <= 0xd7ff
    ||| 0xe000 <= code <= 0xfffd
    ||| 0x10000 <= code <= 0x10ffff
}

/// Whether a number names a Unicode scalar value.
pub open spec fn scalar(code: u32) -> bool {
    code <= 0xd7ff || (0xe000 <= code <= 0x10ffff)
}

/// The UTF-8 encoding of the character with this number.
#[verifier::opaque]
pub open spec fn utf8_of(code: u32) -> Seq<u8> {
    if code < 0x80 {
        seq![code as u8]
    } else if code < 0x800 {
        seq![(0xc0 + code / 64) as u8, (0x80 + code % 64) as u8]
    } else if code < 0x10000 {
        seq![(0xe0 + code / 4096) as u8, (0x80 + (code / 64) % 64) as u8, (0x80 + code % 64) as u8]
    } else {
        seq![
            (0xf0 + code / 262144) as u8,
            (0x80 + (code / 4096) % 64) as u8,
            (0x80 + (code / 64) % 64) as u8,
            (0x80 + code % 64) as u8,
        ]
    }
}

/// Writes the UTF-8 encoding of a character at `at`, and returns its length.
pub fn write_utf8(b: &mut [u8], at: usize, code: u32) -> (n: usize)
    requires
        code <= 0x10ffff,
        at + utf8_of(code).len() <= old(b)@.len(),
    ensures
        n == utf8_of(code).len(),
        final(b)@.len() == old(b)@.len(),
        final(b)@.subrange(at as int, at + n) == utf8_of(code),
        forall|i: int| 0 <= i < final(b)@.len() && !(at <= i < at + n) ==> final(b)@[i] == old(b)@[i],
{
    reveal(utf8_of);
    if code < 0x80 {
        b[at] = code as u8;
        proof { assert(final(b)@.subrange(at as int, at + 1) =~= utf8_of(code)); }
        1
    } else if code < 0x800 {
        b[at] = (0xc0 + code / 64) as u8;
        b[at + 1] = (0x80 + code % 64) as u8;
        proof { assert(b@.subrange(at as int, at + 2) =~= utf8_of(code)); }
        2
    } else if code < 0x10000 {
        b[at] = (0xe0 + code / 4096) as u8;
        b[at + 1] = (0x80 + (code / 64) % 64) as u8;
        b[at + 2] = (0x80 + code % 64) as u8;
        proof { assert(b@.subrange(at as int, at + 3) =~= utf8_of(code)); }
        3
    } else {
        b[at] = (0xf0 + code / 262144) as u8;
        b[at + 1] = (0x80 + (code / 4096) % 64) as u8;
        b[at + 2] = (0x80 + (code / 64) % 64) as u8;
        b[at + 3] = (0x80 + code % 64) as u8;
        proof { assert(b@.subrange(at as int, at + 4) =~= utf8_of(code)); }
        4
    }
}

/// The character that the reference at the start of `s` names, and the
/// number of bytes that the reference spans; `s` starts with `&`.
///
/// A reference is one of the five that XML defines, or a number, decimal
/// or hexadecimal after `#x`, closed by a `;` within the ten bytes after the
/// `&`, that names a character a document may hold.
#[verifier::opaque]
pub open spec fn reference_at(s: Seq<u8>) -> Option<(u32, int)> {
    let rest = s.subrange(1, s.len() as int);
    if starts_with(rest, "quot;".spec_bytes()) {
        Some((0x22u32, ("quot;".spec_bytes().len() + 1) as int))
    } else if starts_with(rest, "amp;".spec_bytes()) {
        Some((0x26u32, ("amp;".spec_bytes().len() + 1) as int))
    } else if starts_with(rest, "lt;".spec_bytes()) {
        Some((0x3cu32, ("lt;".spec_bytes().len() + 1) as int))
    } else if starts_with(rest, "gt;".spec_bytes()) {
        Some((0x3eu32, ("gt;".spec_bytes().len() + 1) as int))
    } else if starts_with(rest, "apos;".spec_bytes()) {
        Some((0x27u32, ("apos;".spec_bytes().len() + 1) as int))
    } else {
        let semi = find_byte_from(rest, 0, 0x3b);
        if semi >= rest.len() || semi >= 10 {
            None
        } else {
            let name = rest.subrange(0, semi);
            let number = if name.len() >= 3 && name[0] == 0x23 && name[1] == 0x78 {
                radix_number(name.subrange(2, name.len() as int), 16)
            } else if name.len() >= 2 && name[0] == 0x23 {
                radix_number(name.subrange(1, name.len() as int), 10)
            } else {
                None
            };
            match number {
                Some(code) => if xml_char(code) { Some((code, semi + 2)) } else { None },
                None => None,
            }
        }
    }
}

/// `prefix` before the text, if there is text.
pub open spec fn prepend(prefix: Seq<u8>, rest: Option<Seq<u8>>) -> Option<Seq<u8>> {
    match rest {
        Some(t) => Some(prefix + t),
        None => None,
    }
}

/// The text with every reference undone, or `None` if an `&` begins no
/// reference.
pub open spec fn unescaped(s: Seq<u8>) -> Option<Seq<u8>>
    decreases s.len(),
{
    if s.len() == 0 {
        Some(Seq::empty())
    } else if s[0] != 0x26 {
        prepend(seq![s[0]], unescaped(s.subrange(1, s.len() as int)))
    } else {
        match reference_at(s) {
            Some((code, n)) => if 1 <= n <= s.len() {
                prepend(utf8_of(code), unescaped(s.subrange(n, s.len() as int)))
            } else {
                None
            },
            None => None,
        }
    }
}

/// The value of an ASCII hexadecimal digit.
pub open spec fn hex_value(b: u8) -> Option<u32> {
    digit_value(b, 16)
}

/// The text with every percent escape undone, or `None` if a `%` is not
/// followed by two hexadecimal digits.
pub open spec fn unpercented(s: Seq<u8>) -> Option<Seq<u8>>
    decreases s.len(),
{
    if s.len() == 0 {
        Some(Seq::empty())
    } else if s[0] != 0x25 {
        prepend(seq![s[0]], unpercented(s.subrange(1, s.len() as int)))
    } else if s.len() >= 3 && hex_value(s[1]) is Some && hex_value(s[2]) is Some {
        prepend(
            seq![(hex_value(s[1])->0 * 16 + hex_value(s[2])->0) as u8],
            unpercented(s.subrange(3, s.len() as int)),
        )
    } else {
        None
    }
}

/// The text that decoding yields: the references undone, and then the
/// percent escapes if `percent` is set.
pub open spec fn decoded_text(s: Seq<u8>, percent: bool) -> Option<Seq<u8>> {
    match unescaped(s) {
        Some(t) => if percent { unpercented(t) } else { Some(t) },
        None => None,
    }
}

proof fn lemma_prepend_piece(done: Seq<u8>, piece: Seq<u8>, rest: Option<Seq<u8>>)
    ensures
        prepend(done, prepend(piece, rest)) == prepend(done + piece, rest),
{
    match rest {
        Some(t) => {
            assert(done + (piece + t) =~= done + piece + t);
        },
        None => {},
    }
}

// Reads the reference at `r`, where `b` holds an `&`.
fn reference(b: &[u8], r: usize) -> (out: Option<(u32, usize)>)
    requires
        r < b@.len(),
        b@[r as int] == 0x26,
    ensures
        out matches Some((code, n)) ==> reference_at(b@.subrange(r as int, b@.len() as int)) == Some((code, n as int))
            && code <= 0x10ffff && utf8_of(code).len() <= n && 1 <= n,
        out is None ==> reference_at(b@.subrange(r as int, b@.len() as int)) is None,
{
    reveal(reference_at);
    reveal(utf8_of);
    let s = Ghost(b@.subrange(r as int, b@.len() as int));
    let blen = b.len();
    let rest = vstd::slice::slice_subrange(b, r + 1, blen);
    proof { assert(rest@ =~= s@.subrange(1, s@.len() as int)); }
    let quot = "quot;".as_bytes();
    let amp = "amp;".as_bytes();
    let lt = "lt;".as_bytes();
    let gt = "gt;".as_bytes();
    let apos = "apos;".as_bytes();
    if starts_with_bytes(rest, quot) {
        return Some((0x22, quot.len() + 1));
    }
    if starts_with_bytes(rest, amp) {
        return Some((0x26, amp.len() + 1));
    }
    if starts_with_bytes(rest, lt) {
        return Some((0x3c, lt.len() + 1));
    }
    if starts_with_bytes(rest, gt) {
        return Some((0x3e, gt.len() + 1));
    }
    if starts_with_bytes(rest, apos) {
        return Some((0x27, apos.len() + 1));
    }
    let semi = find_byte(rest, 0, 0x3b);
    if semi >= rest.len() || semi >= 10 {
        return None;
    }
    let name = vstd::slice::slice_subrange(rest, 0, semi);
    let number = if name.len() >= 3 && name[0] == 0x23 && name[1] == 0x78 {
        let digits = vstd::slice::slice_subrange(name, 2, name.len());
        read_number(digits, 16)
    } else if name.len() >= 2 && name[0] == 0x23 {
        let digits = vstd::slice::slice_subrange(name, 1, name.len());
        read_number(digits, 10)
    } else {
        None
    };
    match number {
        Some(code) => {
            if code == 0x9 || code == 0xa || code == 0xd || (0x20 <= code && code <= 0xd7ff)
                || (0xe000 <= code && code <= 0xfffd) || (0x10000 <= code && code <= 0x10ffff) {
                Some((code, semi + 2))
            } else {
                None
            }
        },
        None => None,
    }
}

/// Undoes every reference in place, and returns the length of the text that
/// is left.
pub fn decode_references(b: &mut [u8]) -> (r: Result<usize, Error>)
    ensures
        final(b)@.len() == old(b)@.len(),
        r is Ok <==> unescaped(old(b)@) is Some,
        r matches Ok(n) ==> n <= old(b)@.len() && Some(final(b)@.subrange(0, n as int)) == unescaped(old(b)@),
        r matches Err(e) ==> e == Error::Response(ResponseFault::Body),
{
    let ghost given = b@;
    let len = b.len();
    let mut r: usize = 0;
    let mut w: usize = 0;
    proof {
        assert(given.subrange(0, len as int) =~= given);
        assert(b@.subrange(0, 0) + given =~= given);
    }
    while r < len
        invariant
            len == given.len(),
            given == old(b)@,
            b@.len() == len,
            w <= r <= len,
            b@.subrange(r as int, len as int) == given.subrange(r as int, len as int),
            unescaped(given) == prepend(b@.subrange(0, w as int), unescaped(given.subrange(r as int, len as int))),
        decreases len - r,
    {
        let ghost before = b@;
        let ghost s = given.subrange(r as int, len as int);
        proof {
            assert(s[0] == b@[r as int]) by {
                assert(b@.subrange(r as int, len as int)[0] == b@[r as int]);
            }
        }
        if b[r] != 0x26 {
            let byte = b[r];
            b[w] = byte;
            proof {
                assert(s.subrange(1, s.len() as int) =~= given.subrange(r + 1, len as int));
                assert(b@.subrange(r + 1, len as int) =~= before.subrange(r + 1, len as int));
                assert(b@.subrange(0, w + 1) =~= before.subrange(0, w as int) + seq![byte]);
                lemma_prepend_piece(before.subrange(0, w as int), seq![byte], unescaped(given.subrange(r + 1, len as int)));
            }
            w = w + 1;
            r = r + 1;
        } else {
            proof {
                assert(before.subrange(r as int, len as int) =~= s);
            }
            let found = reference(b, r);
            match found {
                None => {
                    return Err(Error::Response(ResponseFault::Body));
                },
                Some((code, n)) => {
                    if n > len - r {
                        return Err(Error::Response(ResponseFault::Body));
                    }
                    let written = write_utf8(b, w, code);
                    proof {
                        assert(b@.subrange(r + n, len as int) =~= before.subrange(r + n, len as int));
                        assert(s.subrange(n as int, s.len() as int) =~= given.subrange(r + n, len as int));
                        assert(b@.subrange(0, w + written) =~= before.subrange(0, w as int) + utf8_of(code));
                        lemma_prepend_piece(before.subrange(0, w as int), utf8_of(code), unescaped(given.subrange(r + n, len as int)));
                    }
                    w = w + written;
                    r = r + n;
                },
            }
        }
    }
    proof {
        assert(given.subrange(len as int, len as int) =~= Seq::<u8>::empty());
        assert(b@.subrange(0, w as int) + Seq::<u8>::empty() =~= b@.subrange(0, w as int));
    }
    Ok(w)
}

/// Undoes every percent escape in place, and returns the length of the text
/// that is left.
pub fn decode_percent(b: &mut [u8], len: usize) -> (r: Result<usize, Error>)
    requires
        len <= old(b)@.len(),
    ensures
        final(b)@.len() == old(b)@.len(),
        r is Ok <==> unpercented(old(b)@.subrange(0, len as int)) is Some,
        r matches Ok(n) ==> n <= len && Some(final(b)@.subrange(0, n as int)) == unpercented(old(b)@.subrange(0, len as int)),
        r matches Err(e) ==> e == Error::Response(ResponseFault::Body),
{
    let ghost given = b@.subrange(0, len as int);
    let mut r: usize = 0;
    let mut w: usize = 0;
    proof {
        assert(given.subrange(0, len as int) =~= given);
        assert(b@.subrange(0, 0) + given =~= given);
    }
    while r < len
        invariant
            len == given.len(),
            given == old(b)@.subrange(0, len as int),
            b@.len() == old(b)@.len(),
            len <= b@.len(),
            w <= r <= len,
            b@.subrange(r as int, len as int) == given.subrange(r as int, len as int),
            unpercented(given) == prepend(b@.subrange(0, w as int), unpercented(given.subrange(r as int, len as int))),
        decreases len - r,
    {
        let ghost before = b@;
        let ghost s = given.subrange(r as int, len as int);
        proof {
            assert(s[0] == b@[r as int]) by {
                assert(b@.subrange(r as int, len as int)[0] == b@[r as int]);
            }
        }
        if b[r] != 0x25 {
            let byte = b[r];
            b[w] = byte;
            proof {
                assert(s.subrange(1, s.len() as int) =~= given.subrange(r + 1, len as int));
                assert(b@.subrange(r + 1, len as int) =~= before.subrange(r + 1, len as int));
                assert(b@.subrange(0, w + 1) =~= before.subrange(0, w as int) + seq![byte]);
                lemma_prepend_piece(before.subrange(0, w as int), seq![byte], unpercented(given.subrange(r + 1, len as int)));
            }
            w = w + 1;
            r = r + 1;
        } else {
            if len - r < 3 {
                return Err(Error::Response(ResponseFault::Body));
            }
            proof {
                assert(s[1] == b@[r + 1]) by { assert(b@.subrange(r as int, len as int)[1] == b@[r + 1]); }
                assert(s[2] == b@[r + 2]) by { assert(b@.subrange(r as int, len as int)[2] == b@[r + 2]); }
            }
            let high = digit(b[r + 1], 16);
            let low = digit(b[r + 2], 16);
            match (high, low) {
                (Some(h), Some(l)) => {
                    let byte = (h * 16 + l) as u8;
                    b[w] = byte;
                    proof {
                        assert(s.subrange(3, s.len() as int) =~= given.subrange(r + 3, len as int));
                        assert(b@.subrange(r + 3, len as int) =~= before.subrange(r + 3, len as int));
                        assert(b@.subrange(0, w + 1) =~= before.subrange(0, w as int) + seq![byte]);
                        lemma_prepend_piece(before.subrange(0, w as int), seq![byte], unpercented(given.subrange(r + 3, len as int)));
                    }
                    w = w + 1;
                    r = r + 3;
                },
                _ => {
                    return Err(Error::Response(ResponseFault::Body));
                },
            }
        }
    }
    proof {
        assert(given.subrange(len as int, len as int) =~= Seq::<u8>::empty());
        assert(b@.subrange(0, w as int) + Seq::<u8>::empty() =~= b@.subrange(0, w as int));
    }
    Ok(w)
}

/// Undoes the references, and then the percent escapes if `percent` is set,
/// in place; returns the length of the text that is left.
///
/// # Errors
///
/// Returns [`ResponseFault::Body`] if an `&` begins no reference that a
/// document may spell, or, with `percent`, if a `%` is not followed by two
/// hexadecimal digits.
pub fn decode_text(bytes: &mut [u8], percent: bool) -> (r: Result<usize, Error>)
    ensures
        final(bytes)@.len() == old(bytes)@.len(),
        r is Ok <==> decoded_text(old(bytes)@, percent) is Some,
        r matches Ok(n) ==> n <= old(bytes)@.len() && Some(final(bytes)@.subrange(0, n as int)) == decoded_text(old(bytes)@, percent),
        r matches Err(e) ==> e == Error::Response(ResponseFault::Body),
{
    let len = decode_references(bytes)?;
    if percent {
        decode_percent(bytes, len)
    } else {
        Ok(len)
    }
}

} // verus!
