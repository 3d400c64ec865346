//! The error document, and the escaping of text, as read through the XML
//! tokenizer of the `xmlparser` crate.
//!
//! The tokenizer turns a document into tokens; this module reads the error
//! code out of them, and undoes the escaping of a value leniently: a
//! reference or an escape that it does not recognize is left as it stands.

use vstd::prelude::*;
use vstd::string::*;
use vstd::utf8::*;

use crate::text::utf8_text;
use crate::xml::decode::{digit, prepend, radix_number, read_number, scalar, starts_with, starts_with_bytes, utf8_of, write_utf8, hex_value};
use crate::xml::{find_byte, find_byte_from, lemma_find_byte_from};

verus! {

broadcast use vstd::string::group_string_axioms;

/// One token of a document, as the error code reader needs it. Spans are
/// byte offsets into the document.
#[derive(Debug, Clone, Copy, PartialEq, Eq)]
pub enum Token {
    /// The start of an element, with the span of its local name.
    Start { name: (usize, usize) },
    /// Text between tags, with its span.
    Text { text: (usize, usize) },
    /// The `>` that ends a start tag.
    Open,
    /// A close tag, with the span of the local name it closes.
    Close { name: (usize, usize) },
    /// The `/>` of an empty element.
    Empty,
    /// Any other token: a declaration, a comment, a processing
    /// instruction, character data, an attribute or a document type.
    Other,
}

/// The tokens that the `xmlparser` tokenizer reads from a document, and
/// whether it stopped on an error.
pub uninterp spec fn xml_tokens(text: Seq<char>) -> (Seq<Token>, bool);

/// Runs the tokenizer of the `xmlparser` crate over `text`.
///
/// Calls `xmlparser::Tokenizer::from` and collects its tokens up to the first
/// error, converted one for one, with whether an error ended them. Nothing
/// is claimed of the tokens beyond that they are what the tokenizer returns
/// for this text.
#[verifier::external_body]
fn tokenize(text: &str) -> (r: (Vec<Token>, bool))
    ensures
        (r.0@, r.1) == xml_tokens(text@),
{
    let mut tokens = Vec::new();
    for token in xmlparser::Tokenizer::from(text) {
        let Ok(token) = token else { return (tokens, true) };
        tokens.push(match token {
            xmlparser::Token::ElementStart { local, .. } => Token::Start { name: (local.start(), local.end()) },
            xmlparser::Token::Text { text } => Token::Text { text: (text.start(), text.end()) },
            xmlparser::Token::ElementEnd { end: xmlparser::ElementEnd::Close(_, local), .. } => Token::Close { name: (local.start(), local.end()) },
            xmlparser::Token::ElementEnd { end: xmlparser::ElementEnd::Open, .. } => Token::Open,
            xmlparser::Token::ElementEnd { .. } => Token::Empty,
            _ => Token::Other,
        });
    }
    (tokens, false)
}

/// The bytes of a span, or `None` if the span does not lie in `s`.
pub open spec fn span_bytes(s: Seq<u8>, span: (usize, usize)) -> Option<Seq<u8>> {
    if span.0 <= span.1 && span.1 <= s.len() {
        Some(s.subrange(span.0 as int, span.1 as int))
    } else {
        None
    }
}

/// The length of the UTF-8 encoding of a white space character that `s`
/// starts with, or 0: a white space character is one that has the Unicode
/// White_Space property.
pub open spec fn space_prefix_len(s: Seq<u8>) -> int {
    if s.len() >= 1 && ((0x09 <= s[0] <= 0x0d) || s[0] == 0x20) {
        1
    } else if s.len() >= 2 && s[0] == 0xc2 && (s[1] == 0x85 || s[1] == 0xa0) {
        2
    } else if s.len() >= 3 && (
        (s[0] == 0xe1 && s[1] == 0x9a && s[2] == 0x80)
        || (s[0] == 0xe2 && s[1] == 0x80 && ((0x80 <= s[2] <= 0x8a) || s[2] == 0xa8 || s[2] == 0xa9 || s[2] == 0xaf))
        || (s[0] == 0xe2 && s[1] == 0x81 && s[2] == 0x9f)
        || (s[0] == 0xe3 && s[1] == 0x80 && s[2] == 0x80)) {
        3
    } else {
        0
    }
}

/// The same for a white space character that `s` ends with.
pub open spec fn space_suffix_len(s: Seq<u8>) -> int {
    let n = s.len() as int;
    if n >= 1 && ((0x09 <= s[n - 1] <= 0x0d) || s[n - 1] == 0x20) {
        1
    } else if n >= 2 && s[n - 2] == 0xc2 && (s[n - 1] == 0x85 || s[n - 1] == 0xa0) {
        2
    } else if n >= 3 && space_prefix_len(s.subrange(n - 3, n)) == 3 {
        3
    } else {
        0
    }
}

/// The text without the white space characters that lead it.
pub open spec fn trim_start_spaces(s: Seq<u8>) -> Seq<u8>
    decreases s.len(),
{
    let n = space_prefix_len(s);
    if 0 < n <= s.len() {
        trim_start_spaces(s.subrange(n, s.len() as int))
    } else {
        s
    }
}

/// The text without the white space characters that end it.
pub open spec fn trim_end_spaces(s: Seq<u8>) -> Seq<u8>
    decreases s.len(),
{
    let n = space_suffix_len(s);
    if 0 < n <= s.len() {
        trim_end_spaces(s.subrange(0, s.len() - n))
    } else {
        s
    }
}

/// The text without white space characters at either end.
pub open spec fn trim_spaces(s: Seq<u8>) -> Seq<u8> {
    trim_end_spaces(trim_start_spaces(s))
}

fn space_prefix(s: &[u8], from: usize, to: usize) -> (r: usize)
    requires
        from <= to <= s@.len(),
    ensures
        r == space_prefix_len(s@.subrange(from as int, to as int)),
{
    let n = to - from;
    let ghost t = s@.subrange(from as int, to as int);
    if n >= 1 {
        assert(t[0] == s@[from as int]);
    }
    if n >= 2 {
        assert(t[1] == s@[from + 1]);
    }
    if n >= 3 {
        assert(t[2] == s@[from + 2]);
    }
    if n >= 1 && ((0x09 <= s[from] && s[from] <= 0x0d) || s[from] == 0x20) {
        1
    } else if n >= 2 && s[from] == 0xc2 && (s[from + 1] == 0x85 || s[from + 1] == 0xa0) {
        2
    } else if n >= 3 && (
        (s[from] == 0xe1 && s[from + 1] == 0x9a && s[from + 2] == 0x80)
        || (s[from] == 0xe2 && s[from + 1] == 0x80 && ((0x80 <= s[from + 2] && s[from + 2] <= 0x8a)
            || s[from + 2] == 0xa8 || s[from + 2] == 0xa9 || s[from + 2] == 0xaf))
        || (s[from] == 0xe2 && s[from + 1] == 0x81 && s[from + 2] == 0x9f)
        || (s[from] == 0xe3 && s[from + 1] == 0x80 && s[from + 2] == 0x80)) {
        3
    } else {
        0
    }
}

fn space_suffix(s: &[u8], from: usize, to: usize) -> (r: usize)
    requires
        from <= to <= s@.len(),
    ensures
        r == space_suffix_len(s@.subrange(from as int, to as int)),
{
    let n = to - from;
    let ghost t = s@.subrange(from as int, to as int);
    if n >= 1 {
        assert(t[n - 1] == s@[to - 1]);
    }
    if n >= 2 {
        assert(t[n - 2] == s@[to - 2]);
    }
    if n >= 1 && ((0x09 <= s[to - 1] && s[to - 1] <= 0x0d) || s[to - 1] == 0x20) {
        return 1;
    }
    if n >= 2 && s[to - 2] == 0xc2 && (s[to - 1] == 0x85 || s[to - 1] == 0xa0) {
        return 2;
    }
    if n >= 3 {
        proof {
            assert(t.subrange(n - 3, n as int) =~= s@.subrange(to - 3, to as int));
        }
        if space_prefix(s, to - 3, to) == 3 {
            return 3;
        }
    }
    0
}

/// Returns `s` without white space characters at either end.
pub fn trim_text(s: &[u8]) -> (r: &[u8])
    ensures
        r@ == trim_spaces(s@),
{
    let len = s.len();
    let mut start: usize = 0;
    proof { assert(s@.subrange(0, len as int) =~= s@); }
    loop
        invariant
            len == s@.len(),
            start <= len,
            trim_start_spaces(s@) == trim_start_spaces(s@.subrange(start as int, len as int)),
        ensures
            len == s@.len(),
            start <= len,
            trim_start_spaces(s@) == s@.subrange(start as int, len as int),
        decreases len - start,
    {
        let n = space_prefix(s, start, len);
        if n == 0 {
            break;
        }
        proof {
            let t = s@.subrange(start as int, len as int);
            assert(t.subrange(n as int, t.len() as int) =~= s@.subrange(start + n, len as int));
        }
        start = start + n;
    }
    let mut end: usize = len;
    loop
        invariant
            len == s@.len(),
            start <= end <= len,
            trim_spaces(s@) == trim_end_spaces(s@.subrange(start as int, end as int)),
        ensures
            start <= end <= len,
            trim_spaces(s@) == s@.subrange(start as int, end as int),
        decreases end,
    {
        let n = space_suffix(s, start, end);
        if n == 0 {
            break;
        }
        proof {
            let t = s@.subrange(start as int, end as int);
            assert(t.subrange(0, t.len() - n) =~= s@.subrange(start as int, end - n));
        }
        end = end - n;
    }
    vstd::slice::slice_subrange(s, start, end)
}

/// The text of the first `<Code>` element that a walk over the tokens meets
/// with text directly inside it, trimmed of white space; or `None` if the
/// walk ends, or a close tag has nothing left to close, before one.
pub open spec fn code_walk(body: Seq<u8>, tokens: Seq<Token>, i: int, depth: int, code_depth: Option<int>) -> Option<Seq<u8>>
    decreases tokens.len() - i,
{
    if i < 0 || i >= tokens.len() {
        None
    } else {
        match tokens[i] {
            Token::Start { name } => {
                let inner = depth + 1;
                let code = if span_bytes(body, name) == Some("Code".spec_bytes()) { Some(inner) } else { code_depth };
                code_walk(body, tokens, i + 1, inner, code)
            },
            Token::Text { text } => if code_depth == Some(depth) {
                match span_bytes(body, text) {
                    Some(t) => Some(trim_spaces(t)),
                    None => None,
                }
            } else {
                code_walk(body, tokens, i + 1, depth, code_depth)
            },
            Token::Close { .. } | Token::Empty => {
                let code = if code_depth == Some(depth) { None } else { code_depth };
                if depth == 0 { None } else { code_walk(body, tokens, i + 1, depth - 1, code) }
            },
            _ => code_walk(body, tokens, i + 1, depth, code_depth),
        }
    }
}

fn span_of<'a>(body: &'a [u8], span: (usize, usize)) -> (r: Option<&'a [u8]>)
    ensures
        r is Some <==> span_bytes(body@, span) is Some,
        r matches Some(t) ==> span_bytes(body@, span) == Some(t@),
{
    if span.0 <= span.1 && span.1 <= body.len() {
        Some(vstd::slice::slice_subrange(body, span.0, span.1))
    } else {
        None
    }
}

/// Reads the error code out of the tokens of `body`: the text of the first
/// `<Code>` element, trimmed of white space, if that text is UTF-8.
pub fn code_in_tokens<'a>(body: &'a [u8], tokens: &[Token]) -> (r: Option<&'a str>)
    ensures
        r is Some <==> (code_walk(body@, tokens@, 0, 0, None) matches Some(code) && valid_utf8(code)),
        r matches Some(code) ==> code_walk(body@, tokens@, 0, 0, None) == Some(code.spec_bytes()),
{
    let mut depth: usize = 0;
    let mut code_depth: Option<usize> = None;
    let mut i: usize = 0;
    while i < tokens.len()
        invariant
            i <= tokens@.len(),
            depth <= i,
            code_walk(body@, tokens@, 0, 0, None) == code_walk(body@, tokens@, i as int, depth as int,
                match code_depth { Some(d) => Some(d as int), None => None }),
        decreases tokens@.len() - i,
    {
        match tokens[i] {
            Token::Start { name } => {
                depth = depth + 1;
                let is_code = match span_of(body, name) {
                    Some(n) => crate::text::bytes_equal(n, "Code".as_bytes()),
                    None => false,
                };
                if is_code {
                    code_depth = Some(depth);
                }
            },
            Token::Text { text } => {
                let inside = match code_depth {
                    Some(d) => d == depth,
                    None => false,
                };
                if inside {
                    return match span_of(body, text) {
                        Some(t) => utf8_text(trim_text(t)),
                        None => None,
                    };
                }
            },
            Token::Close { .. } | Token::Empty => {
                let closes_code = match code_depth {
                    Some(d) => d == depth,
                    None => false,
                };
                if closes_code {
                    code_depth = None;
                }
                if depth == 0 {
                    return None;
                }
                depth = depth - 1;
            },
            _ => {},
        }
        i = i + 1;
    }
    None
}

/// The error code that a failed response body names, as read through the
/// tokenizer: none for a body that is not UTF-8.
pub open spec fn spec_tokens_error_code(body: Seq<u8>) -> Option<Seq<u8>> {
    if valid_utf8(body) {
        code_walk(body, xml_tokens(decode_utf8(body)).0, 0, 0, None)
    } else {
        None
    }
}

/// Returns the error code that a service wrote into a response body.
///
/// This is the text of the first `<Code>` element, at any depth, as the
/// tokenizer reads the body. A body that was cut short yields whatever part
/// of the code was written before the cut.
pub fn error_code(body: &[u8]) -> (r: Option<&str>)
    ensures
        r is Some <==> (spec_tokens_error_code(body@) matches Some(code) && valid_utf8(code)),
        r matches Some(code) ==> spec_tokens_error_code(body@) == Some(code.spec_bytes()),
{
    let text = match utf8_text(body) {
        Some(text) => text,
        None => return None,
    };
    proof {
        encode_utf8_decode_utf8(text@);
    }
    let (tokens, _) = tokenize(text);
    code_in_tokens(body, tokens.as_slice())
}

/// The character and the length of a reference at the start of `s`, which
/// starts with `&`: one of the five that XML defines, or `&#` and a number,
/// decimal or hexadecimal after `x`, closed by `;`, that names a Unicode
/// scalar value.
pub open spec fn lenient_reference(s: Seq<u8>) -> Option<(u32, int)> {
    let rest = s.subrange(1, s.len() as int);
    if starts_with(rest, "amp;".spec_bytes()) {
        Some((0x26u32, ("amp;".spec_bytes().len() + 1) as int))
    } else if starts_with(rest, "lt;".spec_bytes()) {
        Some((0x3cu32, ("lt;".spec_bytes().len() + 1) as int))
    } else if starts_with(rest, "gt;".spec_bytes()) {
        Some((0x3eu32, ("gt;".spec_bytes().len() + 1) as int))
    } else if starts_with(rest, "quot;".spec_bytes()) {
        Some((0x22u32, ("quot;".spec_bytes().len() + 1) as int))
    } else if starts_with(rest, "apos;".spec_bytes()) {
        Some((0x27u32, ("apos;".spec_bytes().len() + 1) as int))
    } else if s.len() >= 2 && s[1] == 0x23 {
        let hex = s.len() >= 3 && s[2] == 0x78;
        let from: int = if hex { 3 } else { 2 };
        let digits = s.subrange(from, s.len() as int);
        let end = find_byte_from(digits, 0, 0x3b);
        if end >= digits.len() || end == 0 {
            None
        } else {
            match radix_number(digits.subrange(0, end), if hex { 16u32 } else { 10u32 }) {
                Some(code) => if scalar(code) { Some((code, from + end + 1)) } else { None },
                None => None,
            }
        }
    } else {
        None
    }
}

/// The text with every recognized reference undone; anything else stands.
pub open spec fn lenient_unescaped(s: Seq<u8>) -> Seq<u8>
    decreases s.len(),
{
    if s.len() == 0 {
        Seq::empty()
    } else {
        let found = if s[0] == 0x26 { lenient_reference(s) } else { None };
        match found {
            Some((code, n)) => if 1 <= n <= s.len() {
                utf8_of(code) + lenient_unescaped(s.subrange(n, s.len() as int))
            } else {
                seq![s[0]] + lenient_unescaped(s.subrange(1, s.len() as int))
            },
            None => seq![s[0]] + lenient_unescaped(s.subrange(1, s.len() as int)),
        }
    }
}

/// The text with every `%` that two hexadecimal digits follow undone;
/// anything else stands.
pub open spec fn lenient_unpercented(s: Seq<u8>) -> Seq<u8>
    decreases s.len(),
{
    if s.len() == 0 {
        Seq::empty()
    } else if s[0] == 0x25 && s.len() >= 3 && hex_value(s[1]) is Some && hex_value(s[2]) is Some {
        seq![(hex_value(s[1])->0 * 16 + hex_value(s[2])->0) as u8] + lenient_unpercented(s.subrange(3, s.len() as int))
    } else {
        seq![s[0]] + lenient_unpercented(s.subrange(1, s.len() as int))
    }
}

// Reads the reference at `r`, where `b` holds an `&`.
fn reference(b: &[u8], r: usize) -> (out: Option<(u32, usize)>)
    requires
        r < b@.len(),
        b@[r as int] == 0x26,
    ensures
        out matches Some((code, n)) ==> lenient_reference(b@.subrange(r as int, b@.len() as int)) == Some((code, n as int))
            && code <= 0x10ffff && utf8_of(code).len() <= n && 1 <= n,
        out is None ==> lenient_reference(b@.subrange(r as int, b@.len() as int)) is None,
{
    reveal(utf8_of);
    let blen = b.len();
    let s = vstd::slice::slice_subrange(b, r, blen);
    let rest = vstd::slice::slice_subrange(b, r + 1, blen);
    proof { assert(rest@ =~= s@.subrange(1, s@.len() as int)); }
    let amp = "amp;".as_bytes();
    let lt = "lt;".as_bytes();
    let gt = "gt;".as_bytes();
    let quot = "quot;".as_bytes();
    let apos = "apos;".as_bytes();
    if starts_with_bytes(rest, amp) {
        return Some((0x26, amp.len() + 1));
    }
    if starts_with_bytes(rest, lt) {
        return Some((0x3c, lt.len() + 1));
    }
    if starts_with_bytes(rest, gt) {
        return Some((0x3e, gt.len() + 1));
    }
    if starts_with_bytes(rest, quot) {
        return Some((0x22, quot.len() + 1));
    }
    if starts_with_bytes(rest, apos) {
        return Some((0x27, apos.len() + 1));
    }
    if s.len() < 2 || s[1] != 0x23 {
        return None;
    }
    let hex = s.len() >= 3 && s[2] == 0x78;
    let from: usize = if hex { 3 } else { 2 };
    let digits = vstd::slice::slice_subrange(s, from, s.len());
    let end = find_byte(digits, 0, 0x3b);
    if end >= digits.len() || end == 0 {
        return None;
    }
    let number = read_number(vstd::slice::slice_subrange(digits, 0, end), if hex { 16 } else { 10 });
    match number {
        Some(code) => {
            if code <= 0xd7ff || (0xe000 <= code && code <= 0x10ffff) {
                Some((code, from + end + 1))
            } else {
                None
            }
        },
        None => None,
    }
}

proof fn lemma_join(done: Seq<u8>, piece: Seq<u8>, rest: Seq<u8>)
    ensures
        done + (piece + rest) == done + piece + rest,
{
    assert(done + (piece + rest) =~= done + piece + rest);
}

/// Undoes every reference that it recognizes in place, and returns the
/// length of the text that is left.
pub fn decode_references(b: &mut [u8]) -> (r: usize)
    ensures
        final(b)@.len() == old(b)@.len(),
        r <= old(b)@.len(),
        final(b)@.subrange(0, r as int) == lenient_unescaped(old(b)@),
{
    let ghost given = b@;
    let len = b.len();
    let mut r: usize = 0;
    let mut w: usize = 0;
    proof {
        assert(given.subrange(0, len as int) =~= given);
        assert(b@.subrange(0, 0) + given =~= given);
    }
    while r < len
        invariant
            len == given.len(),
            given == old(b)@,
            b@.len() == len,
            w <= r <= len,
            b@.subrange(r as int, len as int) == given.subrange(r as int, len as int),
            lenient_unescaped(given) == b@.subrange(0, w as int) + lenient_unescaped(given.subrange(r as int, len as int)),
        decreases len - r,
    {
        let ghost before = b@;
        let ghost s = given.subrange(r as int, len as int);
        proof {
            assert(s[0] == b@[r as int]) by { assert(b@.subrange(r as int, len as int)[0] == b@[r as int]); }
            assert(before.subrange(r as int, len as int) =~= s);
        }
        let found = if b[r] == 0x26 { reference(b, r) } else { None };
        match found {
            Some((code, n)) => {
                if n <= len - r {
                    let written = write_utf8(b, w, code);
                    proof {
                        assert(b@.subrange(r + n, len as int) =~= before.subrange(r + n, len as int));
                        assert(s.subrange(n as int, s.len() as int) =~= given.subrange(r + n, len as int));
                        assert(b@.subrange(0, w + written) =~= before.subrange(0, w as int) + utf8_of(code));
                        lemma_join(before.subrange(0, w as int), utf8_of(code), lenient_unescaped(given.subrange(r + n, len as int)));
                    }
                    w = w + written;
                    r = r + n;
                    continue;
                }
            },
            None => {},
        }
        let byte = b[r];
        b[w] = byte;
        proof {
            assert(s.subrange(1, s.len() as int) =~= given.subrange(r + 1, len as int));
            assert(b@.subrange(r + 1, len as int) =~= before.subrange(r + 1, len as int));
            assert(b@.subrange(0, w + 1) =~= before.subrange(0, w as int) + seq![byte]);
            lemma_join(before.subrange(0, w as int), seq![byte], lenient_unescaped(given.subrange(r + 1, len as int)));
        }
        w = w + 1;
        r = r + 1;
    }
    proof {
        assert(given.subrange(len as int, len as int) =~= Seq::<u8>::empty());
        assert(b@.subrange(0, w as int) + Seq::<u8>::empty() =~= b@.subrange(0, w as int));
    }
    w
}

/// Undoes every percent escape in the first `len` bytes in place, and
/// returns the length of the text that is left.
pub fn decode_percent(b: &mut [u8], len: usize) -> (r: usize)
    requires
        len <= old(b)@.len(),
    ensures
        final(b)@.len() == old(b)@.len(),
        r <= len,
        final(b)@.subrange(0, r as int) == lenient_unpercented(old(b)@.subrange(0, len as int)),
{
    let ghost given = b@.subrange(0, len as int);
    let mut r: usize = 0;
    let mut w: usize = 0;
    proof {
        assert(given.subrange(0, len as int) =~= given);
        assert(b@.subrange(0, 0) + given =~= given);
    }
    while r < len
        invariant
            len == given.len(),
            given == old(b)@.subrange(0, len as int),
            b@.len() == old(b)@.len(),
            len <= b@.len(),
            w <= r <= len,
            b@.subrange(r as int, len as int) == given.subrange(r as int, len as int),
            lenient_unpercented(given) == b@.subrange(0, w as int) + lenient_unpercented(given.subrange(r as int, len as int)),
        decreases len - r,
    {
        let ghost before = b@;
        let ghost s = given.subrange(r as int, len as int);
        proof {
            assert(s[0] == b@[r as int]) by { assert(b@.subrange(r as int, len as int)[0] == b@[r as int]); }
        }
        if b[r] == 0x25 && len - r >= 3 {
            proof {
                assert(s[1] == b@[r + 1]) by { assert(b@.subrange(r as int, len as int)[1] == b@[r + 1]); }
                assert(s[2] == b@[r + 2]) by { assert(b@.subrange(r as int, len as int)[2] == b@[r + 2]); }
            }
            match (digit(b[r + 1], 16), digit(b[r + 2], 16)) {
                (Some(h), Some(l)) => {
                    let byte = (h * 16 + l) as u8;
                    b[w] = byte;
                    proof {
                        assert(s.subrange(3, s.len() as int) =~= given.subrange(r + 3, len as int));
                        assert(b@.subrange(r + 3, len as int) =~= before.subrange(r + 3, len as int));
                        assert(b@.subrange(0, w + 1) =~= before.subrange(0, w as int) + seq![byte]);
                        lemma_join(before.subrange(0, w as int), seq![byte], lenient_unpercented(given.subrange(r + 3, len as int)));
                    }
                    w = w + 1;
                    r = r + 3;
                    continue;
                },
                _ => {},
            }
        }
        let byte = b[r];
        b[w] = byte;
        proof {
            assert(s.subrange(1, s.len() as int) =~= given.subrange(r + 1, len as int));
            assert(b@.subrange(r + 1, len as int) =~= before.subrange(r + 1, len as int));
            assert(b@.subrange(0, w + 1) =~= before.subrange(0, w as int) + seq![byte]);
            lemma_join(before.subrange(0, w as int), seq![byte], lenient_unpercented(given.subrange(r + 1, len as int)));
        }
        w = w + 1;
        r = r + 1;
    }
    proof {
        assert(given.subrange(len as int, len as int) =~= Seq::<u8>::empty());
        assert(b@.subrange(0, w as int) + Seq::<u8>::empty() =~= b@.subrange(0, w as int));
    }
    w
}

/// The text that decoding yields: the references undone, and then the
/// percent escapes if `percent` is set.
pub open spec fn lenient_decoded(s: Seq<u8>, percent: bool) -> Seq<u8> {
    if percent {
        lenient_unpercented(lenient_unescaped(s))
    } else {
        lenient_unescaped(s)
    }
}

/// Undoes the escaping that XML applies to text, and the percent-encoding
/// that the service applies to a name that XML cannot carry, in place;
/// anything that it does not recognize stands. Returns the length of the
/// text that is left.
pub fn decode_text(bytes: &mut [u8], percent: bool) -> (r: usize)
    ensures
        final(bytes)@.len() == old(bytes)@.len(),
        r <= old(bytes)@.len(),
        final(bytes)@.subrange(0, r as int) == lenient_decoded(old(bytes)@, percent),
{
    let len = decode_references(bytes);
    if percent {
        decode_percent(bytes, len)
    } else {
        len
    }
}

} // verus!
