//! Reads the XML that the blob service sends back: the error document that
//! names the error code in a failed response's body, and the escaping of the
//! text of a listing.

pub mod blocks;
pub mod decode;
pub mod listing;
pub mod scan;
pub mod tokens;

use vstd::prelude::*;
use vstd::string::*;
use vstd::utf8::*;

use crate::text::{bytes_equal, trim, trim_ascii, ascii_space, utf8_text};

verus! {

/// The first offset at or after `from` where `s` holds `b`, or the length of
/// `s` if there is none.
pub open spec fn find_byte_from(s: Seq<u8>, from: int, b: u8) -> int
    decreases s.len() - from,
{
    if from < 0 || from >= s.len() {
        s.len() as int
    } else if s[from] == b {
        from
    } else {
        find_byte_from(s, from + 1, b)
    }
}

pub proof fn lemma_find_byte_from(s: Seq<u8>, from: int, b: u8)
    requires
        0 <= from <= s.len(),
    ensures
        from <= find_byte_from(s, from, b) <= s.len(),
        find_byte_from(s, from, b) < s.len() ==> s[find_byte_from(s, from, b)] == b,
        forall|i: int| from <= i < find_byte_from(s, from, b) ==> s[i] != b,
    decreases s.len() - from,
{
    if from < s.len() && s[from] != b {
        lemma_find_byte_from(s, from + 1, b);
    }
}

/// Returns the offset of the first `needle` at or after `from`, or the
/// length of `bytes` if there is none.
pub fn find_byte(bytes: &[u8], from: usize, needle: u8) -> (r: usize)
    requires
        from <= bytes@.len(),
    ensures
        r == find_byte_from(bytes@, from as int, needle),
        from <= r <= bytes@.len(),
{
    proof { lemma_find_byte_from(bytes@, from as int, needle); }
    let mut at = from;
    while at < bytes.len()
        invariant
            from <= at <= bytes@.len(),
            find_byte_from(bytes@, from as int, needle) == find_byte_from(bytes@, at as int, needle),
        decreases bytes@.len() - at,
    {
        if bytes[at] == needle {
            return at;
        }
        at = at + 1;
    }
    at
}

/// Where the name of a tag ends: at the first white space or `/`, or at the
/// end of the tag.
pub open spec fn name_end_from(tag: Seq<u8>, from: int) -> int
    decreases tag.len() - from,
{
    if from < 0 || from >= tag.len() {
        tag.len() as int
    } else if ascii_space(tag[from]) || tag[from] == 0x2f {
        from
    } else {
        name_end_from(tag, from + 1)
    }
}

pub proof fn lemma_name_end_from(tag: Seq<u8>, from: int)
    requires
        0 <= from <= tag.len(),
    ensures
        from <= name_end_from(tag, from) <= tag.len(),
    decreases tag.len() - from,
{
    if from < tag.len() && !(ascii_space(tag[from]) || tag[from] == 0x2f) {
        lemma_name_end_from(tag, from + 1);
    }
}

/// The name of a tag: its bytes after the `<` up to the first white space or
/// `/`.
pub open spec fn tag_name(tag: Seq<u8>) -> Seq<u8> {
    tag.subrange(0, name_end_from(tag, 0))
}

/// The text of the first `<Code>` element at or after offset `at` whose text
/// is not empty once trimmed of ASCII white space.
///
/// A tag runs from a `<` to the next `>`; a tag that the body ends inside of
/// ends the search. An element's text runs from its tag to the next `<`, or to
/// the end of a body that was cut short. An empty element, `<Code/>`, holds
/// no text.
pub open spec fn code_text_from(body: Seq<u8>, at: int) -> Option<Seq<u8>>
    decreases body.len() - at,
{
    if at < 0 || at >= body.len() {
        None
    } else {
        let open = find_byte_from(body, at, 0x3c);
        let close = find_byte_from(body, open, 0x3e);
        if close >= body.len() || close < at {
            None
        } else {
            let tag = body.subrange(open + 1, close);
            let text = trim_ascii(body.subrange(close + 1, find_byte_from(body, close + 1, 0x3c)));
            if tag_name(tag) == "Code".spec_bytes() && !(tag.len() > 0 && tag.last() == 0x2f) && text.len() > 0 {
                Some(text)
            } else {
                code_text_from(body, close + 1)
            }
        }
    }
}

/// The error code that a service wrote into a response body: the text of the
/// first non-empty `<Code>` element at any depth, trimmed of ASCII white
/// space. A body that is not UTF-8 names no code.
pub open spec fn spec_error_code(body: Seq<u8>) -> Option<Seq<u8>> {
    if valid_utf8(body) {
        code_text_from(body, 0)
    } else {
        None
    }
}

/// Returns the error code that a service wrote into a response body.
///
/// This is the text of the first non-empty `<Code>` element, at any depth. A
/// body that was cut short yields whatever part of the code was written before
/// the cut.
pub fn error_code(body: &[u8]) -> (r: Option<&str>)
    ensures
        r is Some <==> (spec_error_code(body@) matches Some(code) && valid_utf8(code)),
        r matches Some(code) ==> spec_error_code(body@) == Some(code.spec_bytes()),
{
    if utf8_text(body).is_none() {
        return None;
    }
    let mut at: usize = 0;
    while at < body.len()
        invariant
            at <= body@.len(),
            valid_utf8(body@),
            code_text_from(body@, 0) == code_text_from(body@, at as int),
        decreases body@.len() - at,
    {
        let open = find_byte(body, at, 0x3c);
        let close = find_byte(body, open, 0x3e);
        if close == body.len() {
            return None;
        }
        proof {
            lemma_find_byte_from(body@, at as int, 0x3c);
            lemma_find_byte_from(body@, open as int, 0x3e);
        }
        let tag = vstd::slice::slice_subrange(body, open + 1, close);
        let name_end = name_end(tag);
        let name = vstd::slice::slice_subrange(tag, 0, name_end);
        let end = find_byte(body, close + 1, 0x3c);
        let text = trim(vstd::slice::slice_subrange(body, close + 1, end));
        let empty_element = tag.len() > 0 && tag[tag.len() - 1] == 0x2f;
        if bytes_equal(name, "Code".as_bytes()) && !empty_element && text.len() > 0 {
            return utf8_text(text);
        }
        at = close + 1;
    }
    None
}

/// Returns where the name of a tag ends.
pub fn name_end(tag: &[u8]) -> (r: usize)
    ensures
        r == name_end_from(tag@, 0),
        r <= tag@.len(),
{
    proof { lemma_name_end_from(tag@, 0); }
    let mut i: usize = 0;
    while i < tag.len()
        invariant
            i <= tag@.len(),
            name_end_from(tag@, 0) == name_end_from(tag@, i as int),
        decreases tag@.len() - i,
    {
        let byte = tag[i];
        if byte == 0x20 || byte == 0x09 || byte == 0x0a || byte == 0x0c || byte == 0x0d || byte == 0x2f {
            return i;
        }
        i = i + 1;
    }
    i
}

} // verus!
