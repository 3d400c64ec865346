//! Bytes as text: UTF-8 checks and decimal numbers.

use vstd::prelude::*;
use vstd::utf8::*;
use vstd::string::*;
use vstd::string::StringExecFns;

verus! {

broadcast use vstd::string::group_string_axioms;

/// Whether every byte is ASCII.
pub open spec fn all_ascii(bytes: Seq<u8>) -> bool {
    forall|i: int| 0 <= i < bytes.len() ==> #[trigger] bytes[i] < 0x80
}

/// A sequence of ASCII bytes is valid UTF-8.
pub proof fn lemma_ascii_is_utf8(bytes: Seq<u8>)
    requires
        all_ascii(bytes),
    ensures
        valid_utf8(bytes),
{
    assert(bytes.subrange(0, 0) =~= Seq::<u8>::empty());
    assert(valid_utf8(Seq::<u8>::empty())) by {
        reveal_with_fuel(valid_utf8, 1);
    }
    assert forall|i: int| 0 <= 0 <= i < bytes.len() <= bytes.len() implies #[trigger] is_leading_byte_width_1(bytes[i]) by {
        assert(bytes[i] < 0x80);
    }
    partial_valid_utf8_extend_ascii_block(bytes, 0, bytes.len() as int);
    assert(bytes.subrange(0, bytes.len() as int) =~= bytes);
}

/// Reads `bytes` as UTF-8 text.
///
/// Calls `core::str::from_utf8`, which returns the text exactly when the
/// bytes are valid UTF-8, and then the text holds those same bytes.
#[verifier::external_body]
pub(crate) fn utf8_text(bytes: &[u8]) -> (r: Option<&str>)
    ensures
        r is Some <==> valid_utf8(bytes@),
        r matches Some(s) ==> s.spec_bytes() == bytes@,
{
    core::str::from_utf8(bytes).ok()
}

/// The decimal digits of `value`, most significant first, without leading
/// zeros; zero is the single digit `0`.
pub open spec fn decimal_digits(value: nat) -> Seq<u8>
    decreases value,
{
    if value < 10 {
        seq![(value + 0x30) as u8]
    } else {
        decimal_digits(value / 10).push((value % 10 + 0x30) as u8)
    }
}

pub proof fn lemma_decimal_digits_ascii(value: nat)
    ensures
        all_ascii(decimal_digits(value)),
        decimal_digits(value).len() >= 1,
        forall|i: int| 0 <= i < decimal_digits(value).len() ==> 0x30 <= #[trigger] decimal_digits(value)[i] <= 0x39,
    decreases value,
{
    if value >= 10 {
        lemma_decimal_digits_ascii(value / 10);
    }
}

/// The decimal digits of `value`, as text.
pub fn decimal_text(value: u64) -> (r: String)
    ensures
        r@ == decode_utf8(decimal_digits(value as nat)),
{
    let digits = crate::request::U64Decimal::new(value);
    let bytes = digits.as_bytes();
    proof {
        lemma_decimal_digits_ascii(value as nat);
        lemma_ascii_is_utf8(bytes@);
    }
    match utf8_text(bytes) {
        Some(text) => {
            proof { encode_utf8_decode_utf8(text@); }
            String::from_str(text)
        },
        None => String::new(),
    }
}


/// The byte with an ASCII capital letter turned into its small letter.
pub open spec fn ascii_lower(b: u8) -> u8 {
    if 0x41 <= b <= 0x5a { (b + 0x20) as u8 } else { b }
}

/// Whether two byte strings are equal when ASCII letters are compared
/// without regard to case.
pub open spec fn ascii_eq_ignore_case(a: Seq<u8>, b: Seq<u8>) -> bool {
    &&& a.len() == b.len()
    &&& forall|i: int| 0 <= i < a.len() ==> #[trigger] ascii_lower(a[i]) == ascii_lower(b[i])
}

/// Compares two byte strings, ASCII letters without regard to case.
pub fn eq_ignore_ascii_case(a: &[u8], b: &[u8]) -> (r: bool)
    ensures
        r == ascii_eq_ignore_case(a@, b@),
{
    if a.len() != b.len() {
        return false;
    }
    let mut i: usize = 0;
    while i < a.len()
        invariant
            a@.len() == b@.len(),
            i <= a@.len(),
            forall|j: int| 0 <= j < i ==> #[trigger] ascii_lower(a@[j]) == ascii_lower(b@[j]),
        decreases a@.len() - i,
    {
        let x = a[i];
        let y = b[i];
        let lx: u8 = if 0x41 <= x && x <= 0x5a { x + 0x20 } else { x };
        let ly: u8 = if 0x41 <= y && y <= 0x5a { y + 0x20 } else { y };
        if lx != ly {
            assert(ascii_lower(a@[i as int]) != ascii_lower(b@[i as int]));
            return false;
        }
        i = i + 1;
    }
    true
}

/// Compares two byte strings.
pub fn bytes_equal(a: &[u8], b: &[u8]) -> (r: bool)
    ensures
        r == (a@ == b@),
{
    if a.len() != b.len() {
        return false;
    }
    let mut i: usize = 0;
    while i < a.len()
        invariant
            a@.len() == b@.len(),
            i <= a@.len(),
            forall|j: int| 0 <= j < i ==> a@[j] == b@[j],
        decreases a@.len() - i,
    {
        if a[i] != b[i] {
            return false;
        }
        i = i + 1;
    }
    assert(a@ =~= b@);
    true
}

/// Whether a byte is ASCII white space: space, tab, line feed, form feed or
/// carriage return.
pub open spec fn ascii_space(b: u8) -> bool {
    b == 0x20 || b == 0x09 || b == 0x0a || b == 0x0c || b == 0x0d
}

/// The bytes without the ASCII white space that leads them.
pub open spec fn trim_start(s: Seq<u8>) -> Seq<u8>
    decreases s.len(),
{
    if s.len() > 0 && ascii_space(s[0]) {
        trim_start(s.subrange(1, s.len() as int))
    } else {
        s
    }
}

/// The bytes without the ASCII white space that ends them.
pub open spec fn trim_end(s: Seq<u8>) -> Seq<u8>
    decreases s.len(),
{
    if s.len() > 0 && ascii_space(s[s.len() - 1]) {
        trim_end(s.subrange(0, s.len() - 1))
    } else {
        s
    }
}

/// The bytes without ASCII white space at either end.
pub open spec fn trim_ascii(s: Seq<u8>) -> Seq<u8> {
    trim_end(trim_start(s))
}

/// Returns `value` without ASCII white space at either end.
pub fn trim(value: &[u8]) -> (r: &[u8])
    ensures
        r@ == trim_ascii(value@),
{
    let len = value.len();
    let mut start: usize = 0;
    assert(value@.subrange(0, len as int) =~= value@);
    while start < len && ascii_space_byte(value[start])
        invariant
            len == value@.len(),
            start <= len,
            trim_start(value@) == trim_start(value@.subrange(start as int, len as int)),
        decreases len - start,
    {
        proof {
            let s = value@.subrange(start as int, len as int);
            assert(s.subrange(1, s.len() as int) =~= value@.subrange(start + 1, len as int));
        }
        start = start + 1;
    }
    let mut end: usize = len;
    proof {
        let s = value@.subrange(start as int, len as int);
        if start < len {
            assert(!ascii_space(s[0]));
        }
        assert(trim_start(value@) == s);
    }
    while end > start && ascii_space_byte(value[end - 1])
        invariant
            len == value@.len(),
            start <= end <= len,
            trim_ascii(value@) == trim_end(value@.subrange(start as int, end as int)),
        decreases end,
    {
        proof {
            let s = value@.subrange(start as int, end as int);
            assert(s.subrange(0, s.len() - 1) =~= value@.subrange(start as int, end - 1));
        }
        end = end - 1;
    }
    vstd::slice::slice_subrange(value, start, end)
}

/// Whether a byte is ASCII white space.
pub fn ascii_space_byte(b: u8) -> (r: bool)
    ensures
        r == ascii_space(b),
{
    b == 0x20 || b == 0x09 || b == 0x0a || b == 0x0c || b == 0x0d
}

/// Whether every byte is an ASCII digit.
pub open spec fn all_digits(s: Seq<u8>) -> bool {
    forall|i: int| 0 <= i < s.len() ==> 0x30 <= #[trigger] s[i] <= 0x39
}

/// The number that decimal digits name, most significant first.
pub open spec fn decimal_value(s: Seq<u8>) -> nat
    decreases s.len(),
{
    if s.len() == 0 {
        0
    } else {
        decimal_value(s.drop_last()) * 10 + (s.last() - 0x30) as nat
    }
}

/// Whether `s` is the decimal text of a `u64`: at least one digit, nothing
/// else, and a value that fits.
pub open spec fn is_u64_decimal(s: Seq<u8>) -> bool {
    s.len() > 0 && all_digits(s) && decimal_value(s) <= u64::MAX
}

/// A longer run of digits names a number at least as large.
pub proof fn lemma_decimal_value_grows(s: Seq<u8>, n: int)
    requires
        0 <= n <= s.len(),
        all_digits(s),
    ensures
        decimal_value(s.subrange(0, n)) <= decimal_value(s),
    decreases s.len() - n,
{
    if n < s.len() {
        let t = s.subrange(0, n + 1);
        assert(t.drop_last() =~= s.subrange(0, n));
        assert(t.subrange(0, n) =~= s.subrange(0, n));
        lemma_decimal_value_grows(s, n + 1);
        assert(0x30 <= t.last() <= 0x39) by { assert(t.last() == s[n]); }
    } else {
        assert(s.subrange(0, n) =~= s);
    }
}

/// Reads decimal digits as a `u64`.
///
/// Returns `None` for no digits, for a byte that is not a digit, and for a
/// number that does not fit.
pub fn decimal(bytes: &[u8]) -> (r: Option<u64>)
    ensures
        r is Some <==> is_u64_decimal(bytes@),
        r matches Some(v) ==> v == decimal_value(bytes@),
{
    if bytes.len() == 0 {
        return None;
    }
    let mut value: u64 = 0;
    let mut i: usize = 0;
    while i < bytes.len()
        invariant
            i <= bytes@.len(),
            all_digits(bytes@.subrange(0, i as int)),
            value == decimal_value(bytes@.subrange(0, i as int)),
        decreases bytes@.len() - i,
    {
        let byte = bytes[i];
        let prefix = Ghost(bytes@.subrange(0, i as int + 1));
        proof {
            assert(prefix@.drop_last() =~= bytes@.subrange(0, i as int));
        }
        if byte < 0x30 || byte > 0x39 {
            proof {
                assert(!all_digits(bytes@)) by {
                    assert(bytes@[i as int] == byte);
                }
            }
            return None;
        }
        let digit = (byte - 0x30) as u64;
        if value > (u64::MAX - digit) / 10 {
            proof {
                assert(all_digits(prefix@)) by {
                    assert forall|j: int| 0 <= j < prefix@.len() implies 0x30 <= #[trigger] prefix@[j] <= 0x39 by {
                        if j < i { assert(prefix@[j] == bytes@.subrange(0, i as int)[j]); }
                    }
                }
                assert(value * 10 + digit > u64::MAX) by (nonlinear_arith)
                    requires value > (u64::MAX - digit) / 10, digit <= 9;
                if all_digits(bytes@) {
                    lemma_decimal_value_grows(bytes@, i + 1);
                }
            }
            return None;
        }
        proof {
            assert(value * 10 + digit <= u64::MAX) by (nonlinear_arith)
                requires value <= (u64::MAX - digit) / 10, digit <= 9;
            assert(all_digits(prefix@)) by {
                assert forall|j: int| 0 <= j < prefix@.len() implies 0x30 <= #[trigger] prefix@[j] <= 0x39 by {
                    if j < i { assert(prefix@[j] == bytes@.subrange(0, i as int)[j]); }
                }
            }
        }
        value = value * 10 + digit;
        i = i + 1;
    }
    proof {
        assert(bytes@.subrange(0, bytes@.len() as int) =~= bytes@);
    }
    Some(value)
}

} // verus!
