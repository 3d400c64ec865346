//! Writing the caller's bytes into a URL.
//!
//! Two sets of bytes to escape, one encoder. Each byte of a set is written as
//! `%` and two upper-case hexadecimal digits, and every other byte as itself,
//! so a key or a marker is written into the request buffer without a copy of
//! it being made first.

use vstd::prelude::*;
use vstd::string::*;
use vstd::utf8::*;

use crate::request::{HeadPart, HeadWriter};
use crate::text::{all_ascii, lemma_ascii_is_utf8};

verus! {

/// Whether a byte of an object key is escaped in a URL path: the bytes that
/// are structural or ambiguous there, `%` itself, the control characters and
/// every byte outside ASCII. `/` stands for itself.
pub open spec fn key_escaped(b: u8) -> bool {
    ||| b < 0x20
    ||| b >= 0x7f
    ||| b == 0x20 || b == 0x21 || b == 0x22 || b == 0x23 || b == 0x24 || b == 0x25 || b == 0x26
    ||| b == 0x27 || b == 0x28 || b == 0x29 || b == 0x2a || b == 0x2b || b == 0x2c
    ||| b == 0x3a || b == 0x3b || b == 0x3c || b == 0x3d || b == 0x3e || b == 0x3f || b == 0x40
    ||| b == 0x5b || b == 0x5c || b == 0x5d || b == 0x5e || b == 0x60
    ||| b == 0x7b || b == 0x7c || b == 0x7d
}

/// Whether a byte is one that RFC 3986 calls unreserved: a letter, a digit,
/// `-`, `.`, `_` or `~`.
pub open spec fn unreserved(b: u8) -> bool {
    ||| 0x30 <= b <= 0x39
    ||| 0x41 <= b <= 0x5a
    ||| 0x61 <= b <= 0x7a
    ||| b == 0x2d || b == 0x2e || b == 0x5f || b == 0x7e
}

/// Whether a byte is escaped: in a query value every byte but the unreserved
/// ones, and in a key the bytes of [`key_escaped`].
pub open spec fn escaped(b: u8, query: bool) -> bool {
    if query { !unreserved(b) } else { key_escaped(b) }
}

/// The upper-case hexadecimal digit of a number below sixteen.
pub open spec fn hex_upper(n: int) -> u8 {
    if n < 10 { (0x30 + n) as u8 } else { (0x41 + n - 10) as u8 }
}

/// A byte written as an escape: `%` and its two hexadecimal digits.
pub open spec fn escape_of(b: u8) -> Seq<u8> {
    seq![0x25u8, hex_upper((b / 16) as int), hex_upper((b % 16) as int)]
}

/// The bytes as a URL carries them.
pub open spec fn percent_encoded(s: Seq<u8>, query: bool) -> Seq<u8>
    decreases s.len(),
{
    if s.len() == 0 {
        Seq::empty()
    } else {
        percent_encoded(s.drop_last(), query) + if escaped(s.last(), query) {
            escape_of(s.last())
        } else {
            seq![s.last()]
        }
    }
}

/// Whether `new` is `old` with `x` appended to the part being written.
pub open spec fn appended<'a>(old: HeadWriter<'a>, new: HeadWriter<'a>, x: Seq<u8>) -> bool {
    &&& new.wf()
    &&& new.current() == old.current()
    &&& new.byte_capacity() == old.byte_capacity()
    &&& new.header_capacity() == old.header_capacity()
    &&& old.current() == HeadPart::Url ==> new.url_bytes() == old.url_bytes() + x
        && new.header_bytes() == old.header_bytes()
    &&& old.current() == HeadPart::Name ==> new.url_bytes() == old.url_bytes()
        && new.header_bytes() == old.header_bytes().update(
            old.header_bytes().len() - 1,
            (old.header_bytes().last().0 + x, old.header_bytes().last().1))
    &&& old.current() == HeadPart::Value ==> new.url_bytes() == old.url_bytes()
        && new.header_bytes() == old.header_bytes().update(
            old.header_bytes().len() - 1,
            (old.header_bytes().last().0, old.header_bytes().last().1 + x))
}

/// Appending two pieces in turn appends them together.
pub proof fn lemma_appended_twice<'a>(a: HeadWriter<'a>, b: HeadWriter<'a>, c: HeadWriter<'a>, x: Seq<u8>, y: Seq<u8>)
    requires
        a.wf(),
        a.current() != HeadPart::Closed,
        appended(a, b, x),
        appended(b, c, y),
    ensures
        appended(a, c, x + y),
{
    a.lemma_open_header();
    if a.current() == HeadPart::Url {
        assert(a.url_bytes() + x + y =~= a.url_bytes() + (x + y));
    } else if a.current() == HeadPart::Name {
        let h = a.header_bytes();
        assert(b.header_bytes().len() == h.len());
        assert(h.last().0 + x + y =~= h.last().0 + (x + y));
        assert(b.header_bytes().update(h.len() - 1, (b.header_bytes().last().0 + y, b.header_bytes().last().1))
            =~= h.update(h.len() - 1, (h.last().0 + (x + y), h.last().1)));
    } else {
        let h = a.header_bytes();
        assert(b.header_bytes().len() == h.len());
        assert(h.last().1 + x + y =~= h.last().1 + (x + y));
        assert(b.header_bytes().update(h.len() - 1, (b.header_bytes().last().0, b.header_bytes().last().1 + y))
            =~= h.update(h.len() - 1, (h.last().0, h.last().1 + (x + y))));
    }
}

/// Appending nothing leaves the writer as it was.
pub proof fn lemma_appended_nothing<'a>(a: HeadWriter<'a>)
    requires
        a.wf(),
        a.current() != HeadPart::Closed,
    ensures
        appended(a, a, Seq::empty()),
{
    a.lemma_open_header();
    assert(a.url_bytes() + Seq::<u8>::empty() =~= a.url_bytes());
    if a.current() != HeadPart::Url {
        let h = a.header_bytes();
        assert(h.last().0 + Seq::<u8>::empty() =~= h.last().0);
        assert(h.last().1 + Seq::<u8>::empty() =~= h.last().1);
        assert(h.update(h.len() - 1, (h.last().0 + Seq::<u8>::empty(), h.last().1)) =~= h);
        assert(h.update(h.len() - 1, (h.last().0, h.last().1 + Seq::<u8>::empty())) =~= h);
    }
}

proof fn lemma_encoded_run(s: Seq<u8>, i: int, j: int, query: bool)
    requires
        0 <= i <= j <= s.len(),
        forall|k: int| i <= k < j ==> !escaped(#[trigger] s[k], query),
    ensures
        percent_encoded(s.subrange(0, j), query) == percent_encoded(s.subrange(0, i), query) + s.subrange(i, j),
    decreases j - i,
{
    if i < j {
        lemma_encoded_run(s, i, j - 1, query);
        let t = s.subrange(0, j);
        assert(t.drop_last() =~= s.subrange(0, j - 1));
        assert(t.last() == s[j - 1]);
        assert(s.subrange(i, j - 1) + seq![s[j - 1]] =~= s.subrange(i, j));
        assert(percent_encoded(s.subrange(0, i), query) + s.subrange(i, j - 1) + seq![s[j - 1]]
            =~= percent_encoded(s.subrange(0, i), query) + s.subrange(i, j));
    } else {
        assert(s.subrange(i, j) =~= Seq::<u8>::empty());
        assert(percent_encoded(s.subrange(0, i), query) + Seq::<u8>::empty() =~= percent_encoded(s.subrange(0, i), query));
    }
}

/// Whether a byte may stand for itself in an escaped URL path: a letter, a
/// digit, `-`, `.`, `_`, `~`, or the `/` between segments.
pub open spec fn path_literal(b: u8) -> bool {
    ||| 0x30 <= b <= 0x39
    ||| 0x41 <= b <= 0x5a
    ||| 0x61 <= b <= 0x7a
    ||| b == 0x2d || b == 0x2e || b == 0x2f || b == 0x5f || b == 0x7e
}

/// Escaping runs byte by byte: the escape of two texts one after the other
/// is the escape of the first followed by that of the second.
pub proof fn law_escaping_runs_byte_by_byte(s: Seq<u8>, t: Seq<u8>, query: bool)
    ensures
        percent_encoded(s + t, query) == percent_encoded(s, query) + percent_encoded(t, query),
    decreases t.len(),
{
    if t.len() == 0 {
        assert(s + t =~= s);
        assert(percent_encoded(s, query) + percent_encoded(t, query) =~= percent_encoded(s, query));
    } else {
        law_escaping_runs_byte_by_byte(s, t.drop_last(), query);
        assert((s + t).drop_last() =~= s + t.drop_last());
        assert((s + t).last() == t.last());
        let piece = if escaped(t.last(), query) { escape_of(t.last()) } else { seq![t.last()] };
        assert(percent_encoded(s, query) + percent_encoded(t.drop_last(), query) + piece
            =~= percent_encoded(s, query) + (percent_encoded(t.drop_last(), query) + piece));
    }
}

/// An object key in a URL path holds no byte that a URL gives a meaning to,
/// nor any control or non-ASCII byte: every byte of its escape is `%` or a
/// byte that stands for itself in a path, so the key can neither end the
/// path at a `?` or a `#` nor be read as anything but its own segments.
pub proof fn law_an_escaped_key_holds_no_delimiter(s: Seq<u8>)
    ensures
        forall|i: int| 0 <= i < percent_encoded(s, false).len() ==> {
            let c = #[trigger] percent_encoded(s, false)[i];
            c == 0x25 || path_literal(c)
        },
    decreases s.len(),
{
    if s.len() > 0 {
        law_an_escaped_key_holds_no_delimiter(s.drop_last());
        let b = s.last();
        let prev = percent_encoded(s.drop_last(), false);
        let piece = if escaped(b, false) { escape_of(b) } else { seq![b] };
        assert(percent_encoded(s, false) == prev + piece);
        assert forall|i: int| 0 <= i < percent_encoded(s, false).len() implies {
            let c = #[trigger] percent_encoded(s, false)[i];
            c == 0x25 || path_literal(c)
        } by {
            if i >= prev.len() {
                assert(percent_encoded(s, false)[i] == piece[i - prev.len()]);
            } else {
                assert(percent_encoded(s, false)[i] == prev[i]);
            }
        }
    }
}

/// Each byte that does not stand for itself in a path, `%` among them, is
/// written as `%` and the two upper-case hexadecimal digits of its value,
/// and each byte that does is written as itself.
pub proof fn law_a_key_byte_is_itself_or_its_escape(b: u8)
    ensures
        path_literal(b) ==> percent_encoded(seq![b], false) == seq![b],
        !path_literal(b) ==> percent_encoded(seq![b], false) == seq![
            0x25u8,
            (if b / 16 < 10 { 0x30 + b / 16 } else { 0x37 + b / 16 }) as u8,
            (if b % 16 < 10 { 0x30 + b % 16 } else { 0x37 + b % 16 }) as u8,
        ],
{
    let s = seq![b];
    assert(s.drop_last() =~= Seq::<u8>::empty());
    assert(percent_encoded(s.drop_last(), false) == Seq::<u8>::empty());
    assert(s.last() == b);
    assert(path_literal(b) <==> !escaped(b, false));
    if escaped(b, false) {
        assert(percent_encoded(s, false) == Seq::<u8>::empty() + escape_of(b));
        assert(Seq::<u8>::empty() + escape_of(b) =~= escape_of(b));
    } else {
        assert(percent_encoded(s, false) == Seq::<u8>::empty() + seq![b]);
        assert(Seq::<u8>::empty() + seq![b] =~= seq![b]);
    }
}

fn hex_digit(n: u8) -> (r: u8)
    requires
        n < 16,
    ensures
        r == hex_upper(n as int),
        r < 0x80,
{
    if n < 10 { 0x30 + n } else { 0x41 + n - 10 }
}

fn is_escaped(b: u8, query: bool) -> (r: bool)
    ensures
        r == escaped(b, query),
{
    if query {
        !((0x30 <= b && b <= 0x39) || (0x41 <= b && b <= 0x5a) || (0x61 <= b && b <= 0x7a)
            || b == 0x2d || b == 0x2e || b == 0x5f || b == 0x7e)
    } else {
        b < 0x20 || b >= 0x7f
            || b == 0x20 || b == 0x21 || b == 0x22 || b == 0x23 || b == 0x24 || b == 0x25 || b == 0x26
            || b == 0x27 || b == 0x28 || b == 0x29 || b == 0x2a || b == 0x2b || b == 0x2c
            || b == 0x3a || b == 0x3b || b == 0x3c || b == 0x3d || b == 0x3e || b == 0x3f || b == 0x40
            || b == 0x5b || b == 0x5c || b == 0x5d || b == 0x5e || b == 0x60
            || b == 0x7b || b == 0x7c || b == 0x7d
    }
}

/// Writes `value`, escaped for a query value if `query` is set and for a
/// path otherwise, into the part that `head` is writing.
pub fn push_encoded(head: &mut HeadWriter, value: &[u8], query: bool)
    requires
        old(head).wf(),
        old(head).current() != HeadPart::Closed,
    ensures
        appended(*old(head), *final(head), percent_encoded(value@, query)),
        final(final(head).out.bytes)@ == final(old(head).out.bytes)@,
{
    let ghost start = *head;
    let len = value.len();
    let mut i: usize = 0;
    proof {
        lemma_appended_nothing(start);
        assert(value@.subrange(0, 0) =~= Seq::<u8>::empty());
    }
    while i < len
        invariant
            final(head.out.bytes)@ == final(old(head).out.bytes)@,
            len == value@.len(),
            i <= len,
            start.wf(),
            start.current() != HeadPart::Closed,
            appended(start, *head, percent_encoded(value@.subrange(0, i as int), query)),
        decreases len - i,
    {
        let ghost before = *head;
        let b = value[i];
        if is_escaped(b, query) {
            let escape: [u8; 3] = [0x25, hex_digit(b / 16), hex_digit(b % 16)];
            proof {
                assert(escape@ =~= escape_of(b));
                assert(all_ascii(escape@));
                lemma_ascii_is_utf8(escape@);
            }
            head.push(escape.as_slice());
            proof {
                let t = value@.subrange(0, i + 1);
                assert(t.drop_last() =~= value@.subrange(0, i as int));
                assert(t.last() == b);
                lemma_appended_twice(start, before, *head, percent_encoded(value@.subrange(0, i as int), query), escape_of(b));
            }
            i = i + 1;
        } else {
            let mut j: usize = i + 1;
            while j < len && !is_escaped(value[j], query)
                invariant
                    len == value@.len(),
                    i < j <= len,
                    forall|k: int| i <= k < j ==> !escaped(#[trigger] value@[k], query),
                decreases len - j,
            {
                j = j + 1;
            }
            let run = vstd::slice::slice_subrange(value, i, j);
            proof {
                assert forall|k: int| 0 <= k < run@.len() implies #[trigger] run@[k] < 0x80 by {
                    assert(run@[k] == value@[i + k]);
                    assert(!escaped(value@[i + k], query));
                }
                lemma_ascii_is_utf8(run@);
            }
            head.push(run);
            proof {
                lemma_encoded_run(value@, i as int, j as int, query);
                lemma_appended_twice(start, before, *head, percent_encoded(value@.subrange(0, i as int), query), run@);
            }
            i = j;
        }
    }
    proof {
        assert(value@.subrange(0, len as int) =~= value@);
    }
}


/// Returns `value` as a URL path carries it: every byte that is structural
/// or ambiguous inside a path, `%` among them, and every control or
/// non-ASCII byte as an escape. `/` stands as itself, because a path uses it
/// between directory segments.
pub fn encode_object_key(value: &str) -> (r: Vec<u8>)
    ensures
        r@ == percent_encoded(value.spec_bytes(), false),
{
    encode(value.as_bytes(), false)
}

/// Returns `value` as a query value carries it: every byte but the letters,
/// the digits, `-`, `.`, `_` and `~` as an escape.
pub fn encode_query_value(value: &[u8]) -> (r: Vec<u8>)
    ensures
        r@ == percent_encoded(value@, true),
{
    encode(value, true)
}

fn encode(value: &[u8], query: bool) -> (r: Vec<u8>)
    ensures
        r@ == percent_encoded(value@, query),
{
    let mut out: Vec<u8> = Vec::new();
    let mut i: usize = 0;
    proof {
        assert(value@.subrange(0, 0) =~= Seq::<u8>::empty());
    }
    while i < value.len()
        invariant
            i <= value@.len(),
            out@ == percent_encoded(value@.subrange(0, i as int), query),
        decreases value@.len() - i,
    {
        let b = value[i];
        let ghost before = out@;
        if is_escaped(b, query) {
            out.push(0x25);
            out.push(hex_digit(b / 16));
            out.push(hex_digit(b % 16));
        } else {
            out.push(b);
        }
        proof {
            let next = value@.subrange(0, i + 1);
            assert(next.drop_last() =~= value@.subrange(0, i as int));
            assert(next.last() == b);
            if escaped(b, query) {
                assert(out@ =~= before + escape_of(b));
            } else {
                assert(out@ =~= before + seq![b]);
            }
        }
        i = i + 1;
    }
    proof {
        assert(value@.subrange(0, value@.len() as int) =~= value@);
    }
    out
}

} // verus!
