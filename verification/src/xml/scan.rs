//! The scanner that the page readers walk a document with.
//!
//! It makes one pass over the bytes and builds no tree. At every `<` the next
//! byte says what follows: `/` is a close tag, `!` is a comment or something
//! this scanner refuses, `?` is a processing instruction, and anything else is
//! an element. It refuses CDATA sections, document type declarations and
//! namespace prefixes: the service writes none of them.
//!
//! Each reader here takes the bytes and an offset, and returns where what it
//! read ends, or `None` for a document it cannot read. Each has a spec
//! function of the same shape that says what it returns. Offsets count from
//! the start of the bytes, and a byte past the end reads as 0: a document may
//! not hold a zero byte, so 0 stands for the end.

use vstd::prelude::*;

use crate::text::bytes_equal;
use crate::xml::decode::{starts_with, starts_with_bytes};
use crate::xml::{find_byte, find_byte_from, lemma_find_byte_from};

verus! {

/// A range of the bytes, as offsets.
pub type Span = (usize, usize);

/// The byte at `i`, or 0 past the end.
pub open spec fn byte_at(b: Seq<u8>, i: int) -> u8 {
    if 0 <= i < b.len() {
        b[i]
    } else {
        0
    }
}

/// The white space of XML.
pub open spec fn xml_space(c: u8) -> bool {
    c == 0x20 || c == 0x09 || c == 0x0a || c == 0x0d
}

/// A byte that a name may hold. Any byte of a multi-byte character counts as
/// one; the delimiters this scanner acts on are all ASCII.
pub open spec fn name_byte(c: u8) -> bool {
    (0x30 <= c <= 0x39) || (0x41 <= c <= 0x5a) || (0x61 <= c <= 0x7a) || c == 0x2d || c == 0x5f
        || c == 0x2e || c >= 0x80
}

/// Where the white space that begins at `i` ends.
pub open spec fn space_end(b: Seq<u8>, i: int) -> int
    decreases b.len() - i,
{
    if 0 <= i < b.len() && xml_space(b[i]) {
        space_end(b, i + 1)
    } else {
        i
    }
}

/// Where the run of name bytes that begins at `i` ends.
pub open spec fn name_run_end(b: Seq<u8>, i: int) -> int
    decreases b.len() - i,
{
    if 0 <= i < b.len() && name_byte(b[i]) {
        name_run_end(b, i + 1)
    } else {
        i
    }
}

pub proof fn lemma_space_end(b: Seq<u8>, i: int)
    requires
        0 <= i,
    ensures
        i <= space_end(b, i),
        i <= b.len() ==> space_end(b, i) <= b.len(),
        !xml_space(byte_at(b, space_end(b, i))),
        forall|k: int| i <= k < space_end(b, i) ==> xml_space(#[trigger] b[k]),
    decreases b.len() - i,
{
    if 0 <= i < b.len() && xml_space(b[i]) {
        lemma_space_end(b, i + 1);
    }
}

pub proof fn lemma_name_run_end(b: Seq<u8>, i: int)
    requires
        0 <= i,
    ensures
        i <= name_run_end(b, i),
        i <= b.len() ==> name_run_end(b, i) <= b.len(),
        !name_byte(byte_at(b, name_run_end(b, i))) || name_run_end(b, i) >= b.len(),
    decreases b.len() - i,
{
    if 0 <= i < b.len() && name_byte(b[i]) {
        lemma_name_run_end(b, i + 1);
    }
}

/// Returns the byte at `i`, or 0 past the end.
pub fn at(b: &[u8], i: usize) -> (r: u8)
    ensures
        r == byte_at(b@, i as int),
{
    if i < b.len() {
        b[i]
    } else {
        0
    }
}

fn is_space(c: u8) -> (r: bool)
    ensures
        r == xml_space(c),
{
    c == 0x20 || c == 0x09 || c == 0x0a || c == 0x0d
}

fn is_name(c: u8) -> (r: bool)
    ensures
        r == name_byte(c),
{
    (0x30 <= c && c <= 0x39) || (0x41 <= c && c <= 0x5a) || (0x61 <= c && c <= 0x7a) || c == 0x2d
        || c == 0x5f || c == 0x2e || c >= 0x80
}

/// Returns where the white space at `from` ends.
pub fn skip_space(b: &[u8], from: usize) -> (r: usize)
    requires
        b@.len() <= isize::MAX,
        from <= b@.len(),
    ensures
        r == space_end(b@, from as int),
        from <= r <= b@.len(),
{
    proof { lemma_space_end(b@, from as int); }
    let mut i = from;
    while i < b.len() && is_space(b[i])
        invariant
            from <= i <= b@.len(),
            space_end(b@, from as int) == space_end(b@, i as int),
        decreases b@.len() - i,
    {
        i = i + 1;
    }
    i
}

fn name_run(b: &[u8], from: usize) -> (r: usize)
    requires
        b@.len() <= isize::MAX,
        from <= b@.len(),
    ensures
        r == name_run_end(b@, from as int),
        from <= r <= b@.len(),
{
    proof { lemma_name_run_end(b@, from as int); }
    let mut i = from;
    while i < b.len() && is_name(b[i])
        invariant
            from <= i <= b@.len(),
            name_run_end(b@, from as int) == name_run_end(b@, i as int),
        decreases b@.len() - i,
    {
        i = i + 1;
    }
    i
}

/// The name that begins at `from`: a run of at least one name byte, not
/// followed by the `:` of a namespace prefix.
pub open spec fn name_at(b: Seq<u8>, from: int) -> Option<Span> {
    let end = name_run_end(b, from);
    if end == from || byte_at(b, end) == 0x3a {
        None
    } else {
        Some((from as usize, end as usize))
    }
}

/// Reads the name that begins at `from`.
pub fn name(b: &[u8], from: usize) -> (r: Option<Span>)
    requires
        b@.len() <= isize::MAX,
        from <= b@.len(),
    ensures
        r == name_at(b@, from as int),
        r matches Some(s) ==> from == s.0 < s.1 <= b@.len(),
{
    let end = name_run(b, from);
    if end == from || at(b, end) == 0x3a {
        None
    } else {
        Some((from, end))
    }
}

/// Where a quoted value that began before `i` ends: the offset of the quote
/// `q` that closes it. A `<` or the end of the bytes before it is a fault.
pub open spec fn quote_end(b: Seq<u8>, i: int, q: u8) -> Option<int>
    decreases b.len() - i,
{
    if i < 0 || i >= b.len() {
        None
    } else if b[i] == q {
        Some(i)
    } else if b[i] == 0 || b[i] == 0x3c {
        None
    } else {
        quote_end(b, i + 1, q)
    }
}

pub proof fn lemma_quote_end(b: Seq<u8>, i: int, q: u8)
    ensures
        quote_end(b, i, q) matches Some(e) ==> i <= e < b.len(),
    decreases b.len() - i,
{
    if 0 <= i < b.len() && b[i] != q && b[i] != 0 && b[i] != 0x3c {
        lemma_quote_end(b, i + 1, q);
    }
}

/// The quoted string that begins at `from`, as the span between its quotes.
pub open spec fn quoted_at(b: Seq<u8>, from: int) -> Option<Span> {
    let q = byte_at(b, from);
    if q != 0x22 && q != 0x27 {
        None
    } else {
        match quote_end(b, from + 1, q) {
            Some(e) => Some(((from + 1) as usize, e as usize)),
            None => None,
        }
    }
}

fn quoted(b: &[u8], from: usize) -> (r: Option<Span>)
    requires
        b@.len() <= isize::MAX,
        from <= b@.len(),
    ensures
        r == quoted_at(b@, from as int),
        r matches Some(s) ==> from < s.0 <= s.1 < b@.len(),
{
    let q = at(b, from);
    if q != 0x22 && q != 0x27 {
        return None;
    }
    proof { lemma_quote_end(b@, from + 1, q); }
    let mut i = from + 1;
    while i < b.len()
        invariant
            from < i,
            i <= b@.len(),
            b@.len() <= isize::MAX,
            q == byte_at(b@, from as int),
            q == 0x22 || q == 0x27,
            quote_end(b@, from + 1, q) == quote_end(b@, i as int, q),
        decreases b@.len() - i,
    {
        let c = b[i];
        assert(c == b@[i as int]);
        if c == q {
            assert(quote_end(b@, i as int, q) == Some(i as int));
            return Some((from + 1, i));
        }
        if c == 0 || c == 0x3c {
            return None;
        }
        i = i + 1;
    }
    None
}

/// The attribute that begins at `from`: a name, `=` and a quoted value, with
/// white space allowed around the `=`. Gives the two spans and the offset
/// after the closing quote.
pub open spec fn attribute_at(b: Seq<u8>, from: int) -> Option<(Span, Span, int)> {
    match name_at(b, from) {
        None => None,
        Some(n) => {
            let o = space_end(b, n.1 as int);
            if byte_at(b, o) != 0x3d {
                None
            } else {
                match quoted_at(b, space_end(b, o + 1)) {
                    Some(v) => Some((n, v, v.1 + 1)),
                    None => None,
                }
            }
        },
    }
}

pub proof fn lemma_attribute_at(b: Seq<u8>, from: int)
    requires
        b.len() <= isize::MAX,
        0 <= from <= b.len(),
    ensures
        attribute_at(b, from) matches Some((n, v, after)) ==> {
            &&& n.0 == from < n.1 <= v.0 <= v.1 < b.len()
            &&& after == v.1 + 1
        },
{
    if let Some(n) = name_at(b, from) {
        lemma_name_run_end(b, from);
        let o = space_end(b, n.1 as int);
        lemma_space_end(b, n.1 as int);
        if byte_at(b, o) == 0x3d {
            lemma_space_end(b, o + 1);
            let q = space_end(b, o + 1);
            lemma_quote_end(b, q + 1, byte_at(b, q));
        }
    }
}

/// Reads the attribute that begins at `from`.
pub fn attribute(b: &[u8], from: usize) -> (r: Option<(Span, Span, usize)>)
    requires
        b@.len() <= isize::MAX,
        from <= b@.len(),
    ensures
        r matches Some((n, v, after)) ==> attribute_at(b@, from as int) == Some((n, v, after as int)),
        r is None ==> attribute_at(b@, from as int) is None,
        r matches Some((n, v, after)) ==> from == n.0 < n.1 <= v.0 <= v.1 < b@.len() && after == v.1 + 1,
{
    proof { lemma_attribute_at(b@, from as int); }
    let n = match name(b, from) {
        Some(n) => n,
        None => return None,
    };
    let o = skip_space(b, n.1);
    if at(b, o) != 0x3d {
        return None;
    }
    let q = skip_space(b, o + 1);
    match quoted(b, q) {
        Some(v) => Some((n, v, v.1 + 1)),
        None => None,
    }
}

/// What follows the name of a start tag that begins at or after `i`: the
/// attributes up to the `>` or the `/>` that ends it. Gives where the
/// attributes end, whether the element is empty, and the offset after the
/// tag.
pub open spec fn tag_rest(b: Seq<u8>, i: int) -> Option<(int, bool, int)>
    decreases b.len() - i,
{
    if i < 0 || i > b.len() {
        None
    } else {
        let j = space_end(b, i);
        if byte_at(b, j) == 0x3e {
            Some((j, false, j + 1))
        } else if byte_at(b, j) == 0x2f {
            if byte_at(b, j + 1) == 0x3e {
                Some((j, true, j + 2))
            } else {
                None
            }
        } else {
            match attribute_at(b, j) {
                Some((_, _, after)) => if i < after <= b.len() {
                    tag_rest(b, after)
                } else {
                    None
                },
                None => None,
            }
        }
    }
}

pub proof fn lemma_tag_rest(b: Seq<u8>, i: int)
    requires
        b.len() <= isize::MAX,
        0 <= i <= b.len(),
    ensures
        tag_rest(b, i) matches Some((a, empty, after)) ==> {
            &&& i <= a < b.len()
            &&& after == if empty { a + 2 } else { a + 1 }
            &&& after <= b.len()
        },
    decreases b.len() - i,
{
    lemma_space_end(b, i);
    let j = space_end(b, i);
    if byte_at(b, j) != 0x3e && byte_at(b, j) != 0x2f {
        lemma_attribute_at(b, j);
        if let Some((_, _, after)) = attribute_at(b, j) {
            lemma_tag_rest(b, after);
        }
    }
}

/// A start tag: the span of its name, the span of its attributes, and
/// whether it closes itself.
#[derive(Clone, Copy, PartialEq, Eq, Debug)]
pub struct Tag {
    pub name: Span,
    pub attributes: Span,
    pub empty: bool,
}

/// The start tag whose `<` stands at `i`, and the offset after its `>`.
pub open spec fn open_at(b: Seq<u8>, i: int) -> Option<(Tag, int)> {
    match name_at(b, i + 1) {
        None => None,
        Some(n) => match tag_rest(b, n.1 as int) {
            None => None,
            Some((a, empty, after)) => Some(
                (Tag { name: n, attributes: (n.1, a as usize), empty }, after),
            ),
        },
    }
}

pub proof fn lemma_open_at(b: Seq<u8>, i: int)
    requires
        b.len() <= isize::MAX,
        0 <= i < b.len(),
    ensures
        open_at(b, i) matches Some((t, after)) ==> {
            &&& i + 1 == t.name.0 < t.name.1 == t.attributes.0 <= t.attributes.1 < b.len()
            &&& i < after <= b.len()
            &&& t.attributes.1 < after
        },
{
    lemma_name_run_end(b, i + 1);
    if let Some(n) = name_at(b, i + 1) {
        lemma_tag_rest(b, n.1 as int);
    }
}

/// Reads the start tag whose `<` stands at `from`.
pub fn open(b: &[u8], from: usize) -> (r: Option<(Tag, usize)>)
    requires
        b@.len() <= isize::MAX,
        from < b@.len(),
    ensures
        r matches Some((t, after)) ==> open_at(b@, from as int) == Some((t, after as int)),
        r is None ==> open_at(b@, from as int) is None,
        r matches Some((t, after)) ==> {
            &&& from + 1 == t.name.0 < t.name.1 == t.attributes.0 <= t.attributes.1 < b@.len()
            &&& from < after <= b@.len()
            &&& t.attributes.1 < after
        },
{
    proof { lemma_open_at(b@, from as int); }
    let n = match name(b, from + 1) {
        Some(n) => n,
        None => return None,
    };
    let mut i = n.1;
    proof { lemma_tag_rest(b@, i as int); }
    loop
        invariant
            n.1 <= i <= b@.len(),
            b@.len() <= isize::MAX,
            from < b@.len(),
            n.0 == from + 1 < n.1,
            name_at(b@, from + 1) == Some(n),
            tag_rest(b@, n.1 as int) == tag_rest(b@, i as int),
        decreases b@.len() - i,
    {
        let j = skip_space(b, i);
        let c = at(b, j);
        if c == 0x3e {
            return Some((Tag { name: n, attributes: (n.1, j), empty: false }, j + 1));
        }
        if c == 0x2f {
            if at(b, j + 1) == 0x3e {
                return Some((Tag { name: n, attributes: (n.1, j), empty: true }, j + 2));
            }
            return None;
        }
        match attribute(b, j) {
            Some((_, _, after)) => {
                i = after;
            },
            None => {
                return None;
            },
        }
    }
}

/// The close tag whose `<` stands at `from`, if it names `name`, and the
/// offset after its `>`. The tag the service writes, `</name>`, is matched
/// whole; any other spelling is read as a name and white space.
pub open spec fn close_at(b: Seq<u8>, from: int, name: Seq<u8>) -> Option<int> {
    let start = from + 2;
    let end = start + name.len();
    if b.len() > end && b.subrange(start, end) == name && b[end] == 0x3e {
        Some(end + 1)
    } else {
        match name_at(b, from + 2) {
            None => None,
            Some(f) => if b.subrange(f.0 as int, f.1 as int) != name {
                None
            } else {
                let e = space_end(b, f.1 as int);
                if byte_at(b, e) != 0x3e {
                    None
                } else {
                    Some(e + 1)
                }
            },
        }
    }
}

pub proof fn lemma_close_at(b: Seq<u8>, from: int, name: Seq<u8>)
    requires
        0 <= from,
        b.len() <= isize::MAX,
    ensures
        close_at(b, from, name) matches Some(e) ==> from + 2 < e <= b.len(),
{
    if from + 2 <= b.len() {
        lemma_name_run_end(b, from + 2);
        if let Some(f) = name_at(b, from + 2) {
            lemma_space_end(b, f.1 as int);
        }
    }
}

/// Reads the close tag whose `<` stands at `from` and checks that it names
/// `name`. Returns the offset after its `>`.
pub fn close(b: &[u8], from: usize, name: &[u8]) -> (r: Option<usize>)
    requires
        b@.len() <= isize::MAX,
        from < b@.len(),
    ensures
        r matches Some(e) ==> close_at(b@, from as int, name@) == Some(e as int),
        r is None ==> close_at(b@, from as int, name@) is None,
        r matches Some(e) ==> from + 2 < e <= b@.len(),
{
    proof { lemma_close_at(b@, from as int, name@); }
    let start = from + 2;
    if start <= b.len() && name.len() < b.len() - start {
        let end = start + name.len();
        if bytes_equal(vstd::slice::slice_subrange(b, start, end), name) && b[end] == 0x3e {
            return Some(end + 1);
        }
    }
    if start > b.len() {
        proof { lemma_name_run_end(b@, start as int); }
        return None;
    }
    let found = match self::name(b, start) {
        Some(f) => f,
        None => return None,
    };
    if !bytes_equal(vstd::slice::slice_subrange(b, found.0, found.1), name) {
        return None;
    }
    let e = skip_space(b, found.1);
    if at(b, e) != 0x3e {
        return None;
    }
    Some(e + 1)
}

/// Where a comment whose text begins at `i` ends: after the `-->` that
/// closes it. A `--` that does not close it, and the end of the bytes, are
/// faults.
pub open spec fn comment_end(b: Seq<u8>, i: int) -> Option<int>
    decreases b.len() - i,
{
    if i < 0 || i >= b.len() || b[i] == 0 {
        None
    } else if b[i] == 0x2d && byte_at(b, i + 1) == 0x2d {
        if byte_at(b, i + 2) == 0x3e {
            Some(i + 3)
        } else {
            None
        }
    } else {
        comment_end(b, i + 1)
    }
}

/// Where a processing instruction whose text begins at `i` ends: after the
/// `?>` that closes it.
pub open spec fn pi_end(b: Seq<u8>, i: int) -> Option<int>
    decreases b.len() - i,
{
    if i < 0 || i >= b.len() || b[i] == 0 {
        None
    } else if b[i] == 0x3f && byte_at(b, i + 1) == 0x3e {
        Some(i + 2)
    } else {
        pi_end(b, i + 1)
    }
}

pub proof fn lemma_comment_end(b: Seq<u8>, i: int)
    ensures
        comment_end(b, i) matches Some(e) ==> i + 3 <= e <= b.len(),
        pi_end(b, i) matches Some(e) ==> i + 2 <= e <= b.len(),
    decreases b.len() - i,
{
    if 0 <= i < b.len() {
        lemma_comment_end(b, i + 1);
    }
}

/// What stands at a `<` where an element may stand.
#[derive(Clone, Copy, PartialEq, Eq, Debug)]
pub enum Misc {
    /// An element: nothing was read.
    Element,
    /// A comment or a processing instruction, read through its end.
    Skipped(usize),
}

/// What stands at the `<` at `i`: a comment or a processing instruction,
/// which is skipped, or an element, which is left alone. A CDATA section and
/// a markup declaration are faults.
pub open spec fn misc_at(b: Seq<u8>, i: int) -> Option<Misc> {
    if byte_at(b, i + 1) == 0x21 {
        if byte_at(b, i + 2) == 0x2d && byte_at(b, i + 3) == 0x2d {
            match comment_end(b, i + 4) {
                Some(e) => Some(Misc::Skipped(e as usize)),
                None => None,
            }
        } else {
            None
        }
    } else if byte_at(b, i + 1) == 0x3f {
        match pi_end(b, i + 2) {
            Some(e) => Some(Misc::Skipped(e as usize)),
            None => None,
        }
    } else {
        Some(Misc::Element)
    }
}

pub proof fn lemma_misc_at(b: Seq<u8>, i: int)
    requires
        0 <= i,
        b.len() <= isize::MAX,
    ensures
        misc_at(b, i) matches Some(Misc::Skipped(e)) ==> i < e <= b.len(),
{
    lemma_comment_end(b, i + 4);
    lemma_comment_end(b, i + 2);
}

/// Reads what stands at the `<` at `from` where an element may stand.
pub fn skip_misc(b: &[u8], from: usize) -> (r: Option<Misc>)
    requires
        b@.len() <= isize::MAX,
        from <= b@.len(),
    ensures
        r == misc_at(b@, from as int),
        r matches Some(Misc::Skipped(e)) ==> from < e <= b@.len(),
{
    proof {
        lemma_misc_at(b@, from as int);
        lemma_comment_end(b@, from + 4);
        lemma_comment_end(b@, from + 2);
    }
    if at(b, from + 1) == 0x21 {
        if at(b, from + 2) == 0x2d && at(b, from + 3) == 0x2d {
            let mut i = from + 4;
            while i < b.len()
                invariant
                    from + 4 <= i,
                    b@.len() <= isize::MAX,
                    byte_at(b@, from + 1) == 0x21,
                    byte_at(b@, from + 2) == 0x2d,
                    byte_at(b@, from + 3) == 0x2d,
                    comment_end(b@, from + 4) == comment_end(b@, i as int),
                decreases b@.len() - i,
            {
                let c = b[i];
                if c == 0 {
                    return None;
                }
                if c == 0x2d && at(b, i + 1) == 0x2d {
                    if at(b, i + 2) == 0x3e {
                        return Some(Misc::Skipped(i + 3));
                    }
                    return None;
                }
                i = i + 1;
            }
            return None;
        }
        return None;
    }
    if at(b, from + 1) == 0x3f {
        let mut i = from + 2;
        while i < b.len()
            invariant
                from + 2 <= i,
                b@.len() <= isize::MAX,
                byte_at(b@, from + 1) == 0x3f,
                pi_end(b@, from + 2) == pi_end(b@, i as int),
            decreases b@.len() - i,
        {
            let c = b[i];
            if c == 0 {
                return None;
            }
            if c == 0x3f && at(b, i + 1) == 0x3e {
                return Some(Misc::Skipped(i + 2));
            }
            i = i + 1;
        }
        return None;
    }
    Some(Misc::Element)
}

/// The next child of an element that holds elements, read from `i`: its
/// start tag, or the close tag of `parent`. White space, comments and
/// processing instructions before it are skipped.
#[derive(Clone, Copy, PartialEq, Eq, Debug)]
pub enum Child {
    /// A child's start tag, and the offset after it.
    Open(Tag, usize),
    /// The parent's close tag, and the offset after it.
    Close(usize),
}

pub open spec fn child_at(b: Seq<u8>, i: int, parent: Seq<u8>) -> Option<Child>
    decreases b.len() - i,
{
    if i < 0 || i > b.len() {
        None
    } else {
        let j = space_end(b, i);
        if byte_at(b, j) != 0x3c {
            None
        } else if byte_at(b, j + 1) == 0x2f {
            match close_at(b, j, parent) {
                Some(e) => Some(Child::Close(e as usize)),
                None => None,
            }
        } else {
            match misc_at(b, j) {
                None => None,
                Some(Misc::Skipped(e)) => if i < e <= b.len() {
                    child_at(b, e as int, parent)
                } else {
                    None
                },
                Some(Misc::Element) => match open_at(b, j) {
                    Some((t, e)) => Some(Child::Open(t, e as usize)),
                    None => None,
                },
            }
        }
    }
}

/// Where what `child_at` read ends.
pub open spec fn child_end(c: Child) -> usize {
    match c {
        Child::Open(_, e) => e,
        Child::Close(e) => e,
    }
}

/// Reads the next child of an element named `parent` from `from`.
pub fn child(b: &[u8], from: usize, parent: &[u8]) -> (r: Option<Child>)
    requires
        b@.len() <= isize::MAX,
        from <= b@.len(),
    ensures
        r == child_at(b@, from as int, parent@),
        r matches Some(c) ==> from < child_end(c) <= b@.len(),
        r matches Some(Child::Open(t, e)) ==> t.name.0 < t.name.1 <= t.attributes.0 <= t.attributes.1 < e,
{
    let mut i = from;
    loop
        invariant
            from <= i <= b@.len(),
            b@.len() <= isize::MAX,
            child_at(b@, from as int, parent@) == child_at(b@, i as int, parent@),
        decreases b@.len() - i,
    {
        let j = skip_space(b, i);
        proof { lemma_space_end(b@, i as int); }
        if at(b, j) != 0x3c {
            return None;
        }
        if at(b, j + 1) == 0x2f {
            return match close(b, j, parent) {
                Some(e) => Some(Child::Close(e)),
                None => None,
            };
        }
        match skip_misc(b, j) {
            None => {
                return None;
            },
            Some(Misc::Skipped(e)) => {
                i = e;
            },
            Some(Misc::Element) => {
                return match open(b, j) {
                    Some((t, e)) => Some(Child::Open(t, e)),
                    None => None,
                };
            },
        }
    }
}

/// The text of a value element whose start tag ends at `i`, and the offset
/// after its close tag. The text runs to the next `<`, which must begin the
/// close tag of `name`: anything else there splits the value in two.
pub open spec fn value_at(b: Seq<u8>, i: int, name: Seq<u8>) -> Option<(Span, int)> {
    let end = find_byte_from(b, i, 0x3c);
    if end >= b.len() || byte_at(b, end + 1) != 0x2f {
        None
    } else {
        match close_at(b, end, name) {
            Some(a) => Some(((i as usize, end as usize), a)),
            None => None,
        }
    }
}

/// The value of the element of `tag`, whose start tag ends at `i`. An empty
/// element has the empty value, and nothing is read.
pub open spec fn tag_value(b: Seq<u8>, i: int, tag: Tag) -> Option<(Span, int)> {
    if tag.empty {
        Some(((i as usize, i as usize), i))
    } else {
        value_at(b, i, b.subrange(tag.name.0 as int, tag.name.1 as int))
    }
}

/// Reads the text of a value element named `name` from `from`, and its
/// close tag.
pub fn value_of(b: &[u8], from: usize, name: &[u8]) -> (r: Option<(Span, usize)>)
    requires
        b@.len() <= isize::MAX,
        from <= b@.len(),
    ensures
        r matches Some((s, e)) ==> value_at(b@, from as int, name@) == Some((s, e as int)),
        r is None ==> value_at(b@, from as int, name@) is None,
        r matches Some((s, e)) ==> from == s.0 <= s.1 < e <= b@.len(),
{
    let end = find_byte(b, from, 0x3c);
    proof { lemma_find_byte_from(b@, from as int, 0x3c); }
    if end >= b.len() || at(b, end + 1) != 0x2f {
        return None;
    }
    match close(b, end, name) {
        Some(a) => Some(((from, end), a)),
        None => None,
    }
}

/// Reads the value of the element of `tag`, whose start tag ends at `from`.
pub fn value(b: &[u8], from: usize, tag: Tag) -> (r: Option<(Span, usize)>)
    requires
        b@.len() <= isize::MAX,
        from <= b@.len(),
        tag.name.0 <= tag.name.1 <= b@.len(),
    ensures
        r matches Some((s, e)) ==> tag_value(b@, from as int, tag) == Some((s, e as int)),
        r is None ==> tag_value(b@, from as int, tag) is None,
        r matches Some((s, e)) ==> from == s.0 <= s.1 <= e <= b@.len(),
{
    if tag.empty {
        return Some(((from, from), from));
    }
    let name = vstd::slice::slice_subrange(b, tag.name.0, tag.name.1);
    value_of(b, from, name)
}

/// Whether the bytes at `i` are exactly `l`.
pub open spec fn lit_at(b: Seq<u8>, i: int, l: Seq<u8>) -> bool {
    starts_with(b.subrange(i, b.len() as int), l)
}

/// Returns whether the bytes at `from` are exactly `l`.
pub fn lit(b: &[u8], from: usize, l: &[u8]) -> (r: bool)
    requires
        from <= b@.len(),
    ensures
        r == lit_at(b@, from as int, l@),
        r ==> from + l@.len() <= b@.len(),
{
    starts_with_bytes(vstd::slice::slice_subrange(b, from, b.len()), l)
}

/// The most elements open at once that a skip follows. A listing nests the
/// root, the entries, one entry and its properties, so an element inside a
/// property is already deeper than a listing goes.
pub const MAX_DEPTH: usize = 16;

/// Where the skip of an element ends, read from `i` with the names of the
/// open elements on `stack`, innermost last: after the close tag of the
/// first of them. The tags in between must nest.
pub open spec fn skip_from(b: Seq<u8>, i: int, stack: Seq<Span>) -> Option<int>
    decreases b.len() - i,
{
    if i < 0 || i > b.len() || stack.len() == 0 {
        None
    } else {
        let t = find_byte_from(b, i, 0x3c);
        if t >= b.len() {
            None
        } else if byte_at(b, t + 1) == 0x2f {
            let top = stack.last();
            match close_at(b, t, b.subrange(top.0 as int, top.1 as int)) {
                None => None,
                Some(e) => if stack.len() == 1 {
                    Some(e)
                } else if i < e <= b.len() {
                    skip_from(b, e, stack.drop_last())
                } else {
                    None
                },
            }
        } else if byte_at(b, t + 1) == 0x21 || byte_at(b, t + 1) == 0x3f {
            match misc_at(b, t) {
                Some(Misc::Skipped(e)) => if i < e <= b.len() {
                    skip_from(b, e as int, stack)
                } else {
                    None
                },
                _ => None,
            }
        } else {
            match open_at(b, t) {
                None => None,
                Some((c, e)) => if !(i < e <= b.len()) {
                    None
                } else if !c.empty {
                    if stack.len() == MAX_DEPTH {
                        None
                    } else {
                        skip_from(b, e, stack.push(c.name))
                    }
                } else {
                    skip_from(b, e, stack)
                },
            }
        }
    }
}

/// Where the skip of the element of `tag`, whose start tag ends at `i`,
/// ends. An empty element ends where its tag does.
pub open spec fn skip_at(b: Seq<u8>, i: int, tag: Tag) -> Option<int> {
    if tag.empty {
        Some(i)
    } else {
        skip_from(b, i, seq![tag.name])
    }
}

/// Skips the element of `tag`, whose start tag ends at `from`: reads through
/// its close tag, and checks that the tags in between nest.
pub fn skip(b: &[u8], from: usize, tag: Tag) -> (r: Option<usize>)
    requires
        b@.len() <= isize::MAX,
        from <= b@.len(),
        tag.name.0 <= tag.name.1 <= b@.len(),
    ensures
        r matches Some(e) ==> skip_at(b@, from as int, tag) == Some(e as int),
        r is None ==> skip_at(b@, from as int, tag) is None,
        r matches Some(e) ==> from <= e <= b@.len(),
{
    if tag.empty {
        return Some(from);
    }
    let mut names = [(0usize, 0usize); 16];
    names[0] = tag.name;
    let mut depth: usize = 1;
    let mut i = from;
    proof {
        assert(names@.subrange(0, 1) =~= seq![tag.name]);
    }
    loop
        invariant
            from <= i <= b@.len(),
            b@.len() <= isize::MAX,
            1 <= depth <= MAX_DEPTH,
            names@.len() == MAX_DEPTH,
            forall|k: int| 0 <= k < depth ==> #[trigger] names@[k].0 <= names@[k].1 <= b@.len(),
            skip_at(b@, from as int, tag) == skip_from(b@, i as int, names@.subrange(0, depth as int)),
            !tag.empty,
        decreases b@.len() - i,
    {
        let ghost stack = names@.subrange(0, depth as int);
        let t = find_byte(b, i, 0x3c);
        proof { lemma_find_byte_from(b@, i as int, 0x3c); }
        if t >= b.len() {
            return None;
        }
        if at(b, t + 1) == 0x2f {
            let top = names[depth - 1];
            assert(stack.last() == top);
            let name = vstd::slice::slice_subrange(b, top.0, top.1);
            match close(b, t, name) {
                None => {
                    return None;
                },
                Some(e) => {
                    if depth == 1 {
                        return Some(e);
                    }
                    depth = depth - 1;
                    i = e;
                    proof {
                        assert(names@.subrange(0, depth as int) =~= stack.drop_last());
                    }
                },
            }
        } else if at(b, t + 1) == 0x21 || at(b, t + 1) == 0x3f {
            match skip_misc(b, t) {
                Some(Misc::Skipped(e)) => {
                    i = e;
                },
                _ => {
                    return None;
                },
            }
        } else {
            match open(b, t) {
                None => {
                    return None;
                },
                Some((c, e)) => {
                    if !c.empty {
                        if depth == MAX_DEPTH {
                            return None;
                        }
                        names[depth] = c.name;
                        depth = depth + 1;
                        proof {
                            assert(names@.subrange(0, depth as int) =~= stack.push(c.name));
                        }
                    }
                    i = e;
                },
            }
        }
    }
}

} // verus!
