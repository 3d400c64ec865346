//! Reads the block list that a Get Block List request answers with.
//!
//! The read is the one the listing page gets: one pass of the scanner that
//! keeps the name and the size of each block as spans, then the names are
//! decoded in place and the blocks are handed out as borrows of the body.

use vstd::prelude::*;
use vstd::string::*;
use vstd::utf8::*;

use crate::azure::{Block, BlockState};
use crate::error::{CapacityError, Error, ResponseFault};
use crate::outcome::Listing;
use crate::text::{bytes_equal, decimal, decimal_value, is_u64_decimal, trim, trim_ascii, utf8_text};
use crate::xml::decode::decoded_text;
use crate::xml::listing::{
    apart, body_fault, body_ok, check_body, decode_at, lemma_span_kept, lemma_trim,
    lemma_trimmed_same, open_root, root_open, same_outside, span_text, trim_range, trim_span,
};
use crate::xml::scan::{
    at, byte_at, child, child_at, close_at, lemma_close_at, lemma_misc_at, lemma_name_run_end,
    lemma_open_at, lemma_space_end, misc_at, name_at, skip_misc, skip_space, space_end, tag_value,
    value, value_at, Child, Misc, Span, Tag,
};
use crate::xml::{find_byte_from, lemma_find_byte_from};

verus! {

broadcast use vstd::string::group_string_axioms;

/// One block of a list, as spans of the body.
#[derive(Clone, Copy, PartialEq, Eq, Debug)]
pub struct BlockFields {
    /// The block's identifier.
    pub id: Span,
    /// Its size.
    pub size: Span,
    /// The list that held it.
    pub state: BlockState,
}

/// Whether a tag carries no attribute: its attribute span is white space.
pub open spec fn bare(b: Seq<u8>, t: Tag) -> bool {
    trim_ascii(span_text(b, t.attributes)).len() == 0
}

fn is_bare(b: &[u8], t: Tag) -> (r: bool)
    requires
        t.attributes.0 <= t.attributes.1 <= b@.len(),
    ensures
        r == bare(b@, t),
{
    trim(vstd::slice::slice_subrange(b, t.attributes.0, t.attributes.1)).len() == 0
}

/// Reads the children of a `<Block>`, whose start tag ends at `i`, through
/// its close tag: a `<Name>` and a `<Size>`, each once and nothing else.
pub open spec fn block_from(b: Seq<u8>, i: int, id: Option<Span>, size: Option<Span>) -> Option<(Span, Span, int)>
    decreases b.len() - i,
{
    if i < 0 || i > b.len() {
        None
    } else {
        match child_at(b, i, "Block".spec_bytes()) {
            None => None,
            Some(Child::Close(e)) => match (id, size) {
                (Some(x), Some(y)) => Some((x, y, e as int)),
                _ => None,
            },
            Some(Child::Open(t, e)) => if !bare(b, t) {
                None
            } else if span_text(b, t.name) == "Name".spec_bytes() && id is None {
                match tag_value(b, e as int, t) {
                    None => None,
                    Some((v, x)) => if i < x <= b.len() {
                        block_from(b, x, Some(v), size)
                    } else {
                        None
                    },
                }
            } else if span_text(b, t.name) == "Size".spec_bytes() && size is None {
                match tag_value(b, e as int, t) {
                    None => None,
                    Some((v, x)) => if i < x <= b.len() {
                        block_from(b, x, id, Some(v))
                    } else {
                        None
                    },
                }
            } else {
                None
            },
        }
    }
}

/// Whether the spans of a block lie within `lo..hi` and do not overlap.
pub open spec fn block_in(f: BlockFields, lo: int, hi: int) -> bool {
    &&& lo <= f.id.0 <= f.id.1 <= hi
    &&& lo <= f.size.0 <= f.size.1 <= hi
    &&& apart(Some(f.id), Some(f.size))
}

/// Whether no span of `f` overlaps a span of `g`.
pub open spec fn blocks_apart(f: BlockFields, g: BlockFields) -> bool {
    &&& apart(Some(f.id), Some(g.id))
    &&& apart(Some(f.id), Some(g.size))
    &&& apart(Some(f.size), Some(g.id))
    &&& apart(Some(f.size), Some(g.size))
}

/// Whether the spans of the blocks lie within `lo..hi` and no two of them
/// overlap.
pub open spec fn blocks_ok(v: Seq<BlockFields>, lo: int, hi: int) -> bool {
    &&& forall|k: int| 0 <= k < v.len() ==> block_in(#[trigger] v[k], lo, hi)
    &&& forall|k1: int, k2: int| 0 <= k1 < k2 < v.len() ==> blocks_apart(#[trigger] v[k1], #[trigger] v[k2])
}

proof fn lemma_blocks_widen(v: Seq<BlockFields>, lo: int, hi: int, lo2: int, hi2: int)
    requires
        blocks_ok(v, lo, hi),
        lo2 <= lo,
        hi <= hi2,
    ensures
        blocks_ok(v, lo2, hi2),
{
    assert forall|k: int| 0 <= k < v.len() implies block_in(#[trigger] v[k], lo2, hi2) by {}
}

proof fn lemma_blocks_push(v: Seq<BlockFields>, g: BlockFields, lo: int, mid: int, mid2: int, hi: int)
    requires
        blocks_ok(v, lo, mid),
        mid <= mid2 <= hi,
        lo <= mid2,
        block_in(g, mid2, hi),
    ensures
        blocks_ok(v.push(g), lo, hi),
{
    let w = v.push(g);
    assert forall|k: int| 0 <= k < w.len() implies block_in(#[trigger] w[k], lo, hi) by {
        if k < v.len() {
            assert(w[k] == v[k]);
        }
    }
    assert forall|k1: int, k2: int| 0 <= k1 < k2 < w.len() implies blocks_apart(#[trigger] w[k1], #[trigger] w[k2]) by {
        assert(w[k1] == v[k1]);
        if k2 < v.len() {
            assert(w[k2] == v[k2]);
        } else {
            assert(block_in(v[k1], lo, mid));
        }
    }
}

/// Reads the children of a `<Block>`, whose start tag ends at `from`.
fn read_block(b: &[u8], from: usize) -> (r: Option<(Span, Span, usize)>)
    requires
        b@.len() <= isize::MAX,
        from <= b@.len(),
    ensures
        r matches Some((x, y, e)) ==> block_from(b@, from as int, None, None) == Some((x, y, e as int)),
        r is None ==> block_from(b@, from as int, None, None) is None,
        r matches Some((x, y, e)) ==> from < e <= b@.len() && block_in(
            BlockFields { id: x, size: y, state: BlockState::Staged },
            from as int,
            e as int,
        ),
{
    let mut i = from;
    let mut id: Option<Span> = None;
    let mut size: Option<Span> = None;
    loop
        invariant
            from <= i <= b@.len(),
            b@.len() <= isize::MAX,
            block_from(b@, from as int, None, None) == block_from(b@, i as int, id, size),
            id matches Some(s) ==> from <= s.0 <= s.1 <= i,
            size matches Some(s) ==> from <= s.0 <= s.1 <= i,
            apart(id, size),
        decreases b@.len() - i,
    {
        match child(b, i, "Block".as_bytes()) {
            None => {
                return None;
            },
            Some(Child::Close(e)) => {
                return match (id, size) {
                    (Some(x), Some(y)) => Some((x, y, e)),
                    _ => None,
                };
            },
            Some(Child::Open(t, e)) => {
                if !is_bare(b, t) {
                    return None;
                }
                let nm = vstd::slice::slice_subrange(b, t.name.0, t.name.1);
                if bytes_equal(nm, "Name".as_bytes()) && id.is_none() {
                    match value(b, e, t) {
                        None => {
                            return None;
                        },
                        Some((v, x)) => {
                            id = Some(v);
                            i = x;
                        },
                    }
                } else if bytes_equal(nm, "Size".as_bytes()) && size.is_none() {
                    match value(b, e, t) {
                        None => {
                            return None;
                        },
                        Some((v, x)) => {
                            size = Some(v);
                            i = x;
                        },
                    }
                } else {
                    return None;
                }
            },
        }
    }
}

/// Reads the blocks of a section named `name`, whose start tag ends at
/// `i`, through its close tag; `acc` holds the blocks read so far.
pub open spec fn section_from(
    b: Seq<u8>,
    i: int,
    name: Seq<u8>,
    state: BlockState,
    acc: Seq<BlockFields>,
) -> Option<(Seq<BlockFields>, int)>
    decreases b.len() - i,
{
    if i < 0 || i > b.len() {
        None
    } else {
        match child_at(b, i, name) {
            None => None,
            Some(Child::Close(e)) => Some((acc, e as int)),
            Some(Child::Open(t, e)) => if span_text(b, t.name) != "Block".spec_bytes() || t.empty
                || !bare(b, t) {
                None
            } else {
                match block_from(b, e as int, None, None) {
                    None => None,
                    Some((id, size, x)) => if i < x <= b.len() {
                        section_from(b, x, name, state, acc.push(BlockFields { id, size, state }))
                    } else {
                        None
                    },
                }
            },
        }
    }
}

fn read_section(
    b: &[u8],
    from: usize,
    name: &[u8],
    state: BlockState,
    start: Vec<BlockFields>,
) -> (r: Option<(Vec<BlockFields>, usize)>)
    requires
        b@.len() <= isize::MAX,
        from <= b@.len(),
        blocks_ok(start@, 0, from as int),
    ensures
        r matches Some((v, e)) ==> section_from(b@, from as int, name@, state, start@) == Some((v@, e as int)),
        r is None ==> section_from(b@, from as int, name@, state, start@) is None,
        r matches Some((v, e)) ==> from < e <= b@.len() && blocks_ok(v@, 0, e as int),
{
    let mut acc = start;
    let mut i = from;
    loop
        invariant
            from <= i <= b@.len(),
            b@.len() <= isize::MAX,
            section_from(b@, from as int, name@, state, start@) == section_from(b@, i as int, name@, state, acc@),
            blocks_ok(acc@, 0, i as int),
        decreases b@.len() - i,
    {
        match child(b, i, name) {
            None => {
                return None;
            },
            Some(Child::Close(e)) => {
                proof { lemma_blocks_widen(acc@, 0, i as int, 0, e as int); }
                return Some((acc, e));
            },
            Some(Child::Open(t, e)) => {
                let nm = vstd::slice::slice_subrange(b, t.name.0, t.name.1);
                if !bytes_equal(nm, "Block".as_bytes()) || t.empty || !is_bare(b, t) {
                    return None;
                }
                match read_block(b, e) {
                    None => {
                        return None;
                    },
                    Some((id, size, x)) => {
                        let f = BlockFields { id, size, state };
                        proof { lemma_blocks_push(acc@, f, 0, i as int, e as int, x as int); }
                        acc.push(f);
                        i = x;
                    },
                }
            },
        }
    }
}

/// Reads the sections of a `<BlockList>`, whose start tag ends at `i`,
/// through its close tag. Each section may be written once.
pub open spec fn sections_from(
    b: Seq<u8>,
    i: int,
    seen_committed: bool,
    seen_staged: bool,
    acc: Seq<BlockFields>,
) -> Option<(Seq<BlockFields>, int)>
    decreases b.len() - i,
{
    if i < 0 || i > b.len() {
        None
    } else {
        match child_at(b, i, "BlockList".spec_bytes()) {
            None => None,
            Some(Child::Close(e)) => Some((acc, e as int)),
            Some(Child::Open(t, e)) => {
                let nm = span_text(b, t.name);
                let committed = nm == "CommittedBlocks".spec_bytes();
                if !committed && nm != "UncommittedBlocks".spec_bytes() {
                    None
                } else if (committed && seen_committed) || (!committed && seen_staged) || !bare(b, t) {
                    None
                } else {
                    let state = if committed { BlockState::Committed } else { BlockState::Staged };
                    let read = if t.empty {
                        Some((acc, e as int))
                    } else {
                        section_from(b, e as int, nm, state, acc)
                    };
                    match read {
                        None => None,
                        Some((acc2, x)) => if i < x <= b.len() {
                            sections_from(
                                b,
                                x,
                                seen_committed || committed,
                                seen_staged || !committed,
                                acc2,
                            )
                        } else {
                            None
                        },
                    }
                }
            },
        }
    }
}

/// Whether nothing but white space, comments and processing instructions
/// follows `i`.
pub open spec fn trailer_ok(b: Seq<u8>, i: int) -> bool
    decreases b.len() - i,
{
    if i < 0 || i > b.len() {
        false
    } else {
        let j = space_end(b, i);
        if byte_at(b, j) == 0 {
            true
        } else if byte_at(b, j) != 0x3c {
            false
        } else {
            match misc_at(b, j) {
                Some(Misc::Skipped(e)) => if i < e <= b.len() {
                    trailer_ok(b, e as int)
                } else {
                    false
                },
                _ => false,
            }
        }
    }
}

/// What a block list holds: the spans of its blocks, in the order the
/// service wrote them. `None` is a body that is not a block list.
pub open spec fn blocks_of(b: Seq<u8>) -> Option<Seq<BlockFields>> {
    if !body_ok(b) {
        None
    } else {
        match root_open(b, "BlockList".spec_bytes()) {
            None => None,
            Some((t, i)) => if !bare(b, t) {
                None
            } else {
                let read = if t.empty {
                    Some((Seq::<BlockFields>::empty(), i))
                } else {
                    sections_from(b, i, false, false, seq![])
                };
                match read {
                    None => None,
                    Some((v, x)) => if trailer_ok(b, x) {
                        Some(v)
                    } else {
                        None
                    },
                }
            },
        }
    }
}

fn read_sections(b: &[u8], from: usize) -> (r: Option<(Vec<BlockFields>, usize)>)
    requires
        b@.len() <= isize::MAX,
        from <= b@.len(),
    ensures
        r matches Some((v, e)) ==> sections_from(b@, from as int, false, false, seq![]) == Some((v@, e as int)),
        r is None ==> sections_from(b@, from as int, false, false, seq![]) is None,
        r matches Some((v, e)) ==> from < e <= b@.len() && blocks_ok(v@, 0, e as int),
{
    let mut acc: Vec<BlockFields> = Vec::new();
    let mut i = from;
    let mut seen_committed = false;
    let mut seen_staged = false;
    loop
        invariant
            from <= i <= b@.len(),
            b@.len() <= isize::MAX,
            sections_from(b@, from as int, false, false, seq![]) == sections_from(
                b@,
                i as int,
                seen_committed,
                seen_staged,
                acc@,
            ),
            blocks_ok(acc@, 0, i as int),
        decreases b@.len() - i,
    {
        match child(b, i, "BlockList".as_bytes()) {
            None => {
                return None;
            },
            Some(Child::Close(e)) => {
                proof { lemma_blocks_widen(acc@, 0, i as int, 0, e as int); }
                return Some((acc, e));
            },
            Some(Child::Open(t, e)) => {
                let nm = vstd::slice::slice_subrange(b, t.name.0, t.name.1);
                let committed = bytes_equal(nm, "CommittedBlocks".as_bytes());
                if !committed && !bytes_equal(nm, "UncommittedBlocks".as_bytes()) {
                    return None;
                }
                if (committed && seen_committed) || (!committed && seen_staged) || !is_bare(b, t) {
                    return None;
                }
                let state = if committed { BlockState::Committed } else { BlockState::Staged };
                if t.empty {
                    proof { lemma_blocks_widen(acc@, 0, i as int, 0, e as int); }
                    i = e;
                } else {
                    proof { lemma_blocks_widen(acc@, 0, i as int, 0, e as int); }
                    match read_section(b, e, nm, state, acc) {
                        None => {
                            return None;
                        },
                        Some((v, x)) => {
                            acc = v;
                            i = x;
                        },
                    }
                }
                seen_committed = seen_committed || committed;
                seen_staged = seen_staged || !committed;
            },
        }
    }
}

fn check_trailer(b: &[u8], from: usize) -> (r: bool)
    requires
        b@.len() <= isize::MAX,
        from <= b@.len(),
    ensures
        r == trailer_ok(b@, from as int),
{
    let mut i = from;
    loop
        invariant
            from <= i <= b@.len(),
            b@.len() <= isize::MAX,
            trailer_ok(b@, from as int) == trailer_ok(b@, i as int),
        decreases b@.len() - i,
    {
        let j = skip_space(b, i);
        let c = at(b, j);
        if c == 0 {
            return true;
        }
        if c != 0x3c {
            return false;
        }
        match skip_misc(b, j) {
            Some(Misc::Skipped(e)) => {
                i = e;
            },
            _ => {
                return false;
            },
        }
    }
}

/// Reads a block list: the spans of its blocks, as [`blocks_of`] says.
pub fn read_block_list(b: &[u8]) -> (r: Option<Vec<BlockFields>>)
    requires
        b@.len() <= isize::MAX,
    ensures
        r matches Some(v) ==> blocks_of(b@) == Some(v@) && blocks_ok(v@, 0, b@.len() as int),
        r is None ==> blocks_of(b@) is None,
{
    if !check_body(b) {
        return None;
    }
    let (t, start) = match open_root(b, "BlockList".as_bytes()) {
        None => return None,
        Some(x) => x,
    };
    if !is_bare(b, t) {
        return None;
    }
    let (v, x) = if t.empty {
        let v: Vec<BlockFields> = Vec::new();
        (v, start)
    } else {
        match read_sections(b, start) {
            None => return None,
            Some(r) => r,
        }
    };
    if !check_trailer(b, x) {
        return None;
    }
    proof { lemma_blocks_widen(v@, 0, x as int, 0, b@.len() as int); }
    Some(v)
}

/// One block once its name is decoded.
pub struct BlockText {
    /// The decoded identifier.
    pub id: Seq<u8>,
    /// The size.
    pub size: u64,
    /// The list that held it.
    pub state: BlockState,
}

/// What a block holds once its name is decoded, or `None` if it cannot be
/// read: a size that is not a decimal `u64`, or a name that does not
/// decode, decodes to nothing, or is not UTF-8.
pub open spec fn block_text(b: Seq<u8>, f: BlockFields) -> Option<BlockText> {
    let st = span_text(b, trim_span(b, f.size));
    if !is_u64_decimal(st) {
        None
    } else {
        match decoded_text(span_text(b, f.id), false) {
            None => None,
            Some(id) => if id.len() == 0 || !valid_utf8(id) {
                None
            } else {
                Some(BlockText { id, size: decimal_value(st) as u64, state: f.state })
            },
        }
    }
}

/// What reading a block list into an array of `room` blocks gives: the
/// blocks, or the error. Every block is decoded; a list with more blocks
/// than that is refused with the number it holds.
pub open spec fn blocks_result(b: Seq<u8>, room: int) -> Result<Seq<BlockText>, Error> {
    match blocks_of(b) {
        None => Err(body_fault()),
        Some(fs) => if exists|k: int| 0 <= k < fs.len() && #[trigger] block_text(b, fs[k]) is None {
            Err(body_fault())
        } else if fs.len() > room {
            Err(
                Error::Capacity(
                    CapacityError {
                        required: fs.len() as usize,
                        available: room as usize,
                        required_headers: 0,
                        available_headers: 0,
                    },
                ),
            )
        } else {
            Ok(Seq::new(fs.len(), |k: int| block_text(b, fs[k])->0))
        },
    }
}

/// Whether a listed block holds the text `t`.
pub open spec fn block_is(e: Block, t: BlockText) -> bool {
    &&& e.id.spec_bytes() == t.id
    &&& e.size == t.size
    &&& e.state == t.state
}


/// A block once its name is decoded in place: where the name now stands.
#[derive(Clone, Copy)]
pub struct BuiltBlock {
    pub id: Span,
    pub size: u64,
    pub state: BlockState,
}

/// Whether `x` holds the text `t` of the block `f` in `b`, its name inside
/// the span it was read from.
pub open spec fn built_block_is(b: Seq<u8>, x: BuiltBlock, t: BlockText, f: BlockFields) -> bool {
    &&& x.size == t.size
    &&& x.state == t.state
    &&& f.id.0 <= x.id.0 <= x.id.1 <= f.id.1 <= b.len()
    &&& span_text(b, x.id) == t.id
}

/// Decodes the name of one block in place and reads its size.
fn decode_block(b: &mut [u8], f: BlockFields) -> (r: Result<BuiltBlock, Error>)
    requires
        old(b)@.len() <= isize::MAX,
        block_in(f, 0, old(b)@.len() as int),
    ensures
        r is Ok <==> block_text(old(b)@, f) is Some,
        r matches Err(e) ==> e == body_fault(),
        r matches Ok(x) ==> built_block_is(final(b)@, x, block_text(old(b)@, f)->0, f),
        same_outside(old(b)@, final(b)@, f.id),
{
    let t = trim_range(b, f.size);
    let size = match decimal(vstd::slice::slice_subrange(b, t.0, t.1)) {
        Some(v) => v,
        None => {
            return Err(Error::Response(ResponseFault::Body));
        },
    };
    let len = match decode_at(b, f.id.0, f.id.1, false) {
        Ok(n) => n,
        Err(e) => {
            return Err(e);
        },
    };
    if len == 0 {
        return Err(Error::Response(ResponseFault::Body));
    }
    if utf8_text(vstd::slice::slice_subrange(b, f.id.0, f.id.0 + len)).is_none() {
        return Err(Error::Response(ResponseFault::Body));
    }
    Ok(BuiltBlock { id: (f.id.0, f.id.0 + len), size, state: f.state })
}

/// Whether the first `k` blocks were decoded into ranges of `b` that hold
/// their text.
#[verifier::opaque]
pub open spec fn blocks_built(orig: Seq<u8>, b: Seq<u8>, fs: Seq<BlockFields>, built: Seq<BuiltBlock>, k: int) -> bool {
    &&& built.len() == k
    &&& forall|j: int|
        0 <= j < k ==> #[trigger] block_text(orig, fs[j]) is Some && built_block_is(
            b,
            built[j],
            block_text(orig, fs[j])->0,
            fs[j],
        )
}

/// Whether the blocks from `k` on still hold the bytes of `orig`.
#[verifier::opaque]
pub open spec fn blocks_rest(orig: Seq<u8>, b: Seq<u8>, fs: Seq<BlockFields>, k: int) -> bool {
    forall|j: int|
        k <= j < fs.len() ==> span_text(b, #[trigger] fs[j].id) == span_text(orig, fs[j].id)
            && span_text(b, fs[j].size) == span_text(orig, fs[j].size)
}

proof fn lemma_block_step(
    orig: Seq<u8>,
    before: Seq<u8>,
    after: Seq<u8>,
    fs: Seq<BlockFields>,
    built: Seq<BuiltBlock>,
    x: BuiltBlock,
    k: int,
)
    requires
        0 <= k < fs.len(),
        before.len() == orig.len(),
        blocks_ok(fs, 0, orig.len() as int),
        blocks_built(orig, before, fs, built, k),
        blocks_rest(orig, before, fs, k),
        same_outside(before, after, fs[k].id),
        block_text(orig, fs[k]) is Some,
        built_block_is(after, x, block_text(orig, fs[k])->0, fs[k]),
    ensures
        blocks_built(orig, after, fs, built.push(x), k + 1),
        blocks_rest(orig, after, fs, k + 1),
{
    reveal(blocks_built);
    reveal(blocks_rest);
    let f = fs[k];
    assert forall|j: int| k + 1 <= j < fs.len() implies span_text(after, #[trigger] fs[j].id) == span_text(orig, fs[j].id)
        && span_text(after, fs[j].size) == span_text(orig, fs[j].size) by {
        assert(blocks_apart(f, fs[j]));
        assert(block_in(fs[j], 0, orig.len() as int));
        lemma_span_kept(before, after, f.id, fs[j].id);
        lemma_span_kept(before, after, f.id, fs[j].size);
    }
    let nb = built.push(x);
    assert forall|j: int| 0 <= j < k + 1 implies #[trigger] block_text(orig, fs[j]) is Some && built_block_is(
        after,
        nb[j],
        block_text(orig, fs[j])->0,
        fs[j],
    ) by {
        if j < k {
            assert(nb[j] == built[j]);
            assert(blocks_apart(fs[j], f));
            lemma_span_kept(before, after, f.id, built[j].id);
        } else {
            assert(nb[j] == x);
        }
    }
}

/// Decodes the names of all the blocks in place, in order.
fn decode_blocks(body: &mut [u8], fs: &Vec<BlockFields>) -> (r: Result<Vec<BuiltBlock>, Error>)
    requires
        old(body)@.len() <= isize::MAX,
        blocks_ok(fs@, 0, old(body)@.len() as int),
    ensures
        final(body)@.len() == old(body)@.len(),
        r matches Err(e) ==> e == body_fault() && exists|k: int| 0 <= k < fs@.len() && #[trigger] block_text(old(body)@, fs@[k]) is None,
        r matches Ok(built) ==> blocks_built(old(body)@, final(body)@, fs@, built@, fs@.len() as int),
{
    let ghost orig = body@;
    let mut built: Vec<BuiltBlock> = Vec::new();
    let mut k: usize = 0;
    let mut failed = false;
    let ghost mut bad: int = 0;
    proof {
        reveal(blocks_built);
        reveal(blocks_rest);
    }
    while k < fs.len()
        invariant_except_break
            blocks_built(orig, body@, fs@, built@, k as int),
            blocks_rest(orig, body@, fs@, k as int),
            !failed,
        invariant
            k <= fs@.len(),
            body@.len() == orig.len(),
            orig.len() <= isize::MAX,
            blocks_ok(fs@, 0, orig.len() as int),
        ensures
            failed ==> 0 <= bad < fs@.len() && block_text(orig, fs@[bad]) is None,
            !failed ==> blocks_built(orig, body@, fs@, built@, fs@.len() as int),
        decreases fs@.len() - k,
    {
        let f = fs[k];
        let ghost before = body@;
        proof {
            reveal(blocks_rest);
            assert(block_in(f, 0, orig.len() as int));
            assert(span_text(before, f.size) == span_text(orig, f.size));
            assert(span_text(before, f.id) == span_text(orig, f.id));
            lemma_trimmed_same(orig, before, f.size);
            assert(block_text(before, f) == block_text(orig, f));
        }
        match decode_block(body, f) {
            Ok(x) => {
                proof {
                    lemma_block_step(orig, before, body@, fs@, built@, x, k as int);
                }
                built.push(x);
                k = k + 1;
            },
            Err(_) => {
                proof {
                    bad = k as int;
                }
                failed = true;
                break;
            },
        }
    }
    if failed {
        return Err(Error::Response(ResponseFault::Body));
    }
    Ok(built)
}

/// Writes the first `n` blocks, whose names stand in `frozen` where `built`
/// says, into `into`.
fn write_blocks<'b>(
    frozen: &'b [u8],
    built: &Vec<BuiltBlock>,
    into: &mut [Block<'b>],
    n: usize,
    Ghost(orig): Ghost<Seq<u8>>,
    Ghost(fs): Ghost<Seq<BlockFields>>,
)
    requires
        n <= old(into)@.len(),
        n <= fs.len(),
        blocks_built(orig, frozen@, fs, built@, fs.len() as int),
    ensures
        final(into)@.len() == old(into)@.len(),
        forall|j: int| 0 <= j < n ==> block_is(#[trigger] final(into)@[j], block_text(orig, fs[j])->0),
        forall|j: int| n <= j < old(into)@.len() ==> #[trigger] final(into)@[j] == old(into)@[j],
{
    proof { reveal(blocks_built); }
    let ghost into0 = into@;
    let mut k: usize = 0;
    while k < n
        invariant
            k <= n <= into@.len(),
            n <= fs.len(),
            into@.len() == into0.len(),
            built@.len() == fs.len(),
            forall|j: int| 0 <= j < fs.len() ==> #[trigger] block_text(orig, fs[j]) is Some && built_block_is(
                frozen@,
                built@[j],
                block_text(orig, fs[j])->0,
                fs[j],
            ),
            forall|j: int| 0 <= j < k ==> block_is(#[trigger] into@[j], block_text(orig, fs[j])->0),
            forall|j: int| k <= j < into@.len() ==> #[trigger] into@[j] == into0[j],
        decreases n - k,
    {
        let x = built[k];
        assert(block_text(orig, fs[k as int]) is Some);
        let id = match utf8_text(vstd::slice::slice_subrange(frozen, x.id.0, x.id.1)) {
            Some(s) => s,
            None => {
                assert(false);
                ""
            },
        };
        into[k] = Block { id, size: x.size, state: x.state };
        k = k + 1;
    }
}

/// Reads a Get Block List body into `into`.
///
/// Both sections are read in the order the service wrote them. The names
/// are decoded in place, so the blocks borrow `body`, and the body cannot
/// be read again.
pub fn fill_blocks<'b>(body: &'b mut [u8], into: &mut [Block<'b>]) -> (r: Result<Listing<'b>, Error>)
    requires
        old(body)@.len() <= isize::MAX,
    ensures
        final(into)@.len() == old(into)@.len(),
        r matches Err(e) ==> blocks_result(old(body)@, old(into)@.len() as int) == Err::<Seq<BlockText>, Error>(e),
        r matches Ok(l) ==> (blocks_result(old(body)@, old(into)@.len() as int) matches Ok(ts) && {
            &&& l.filled == ts.len()
            &&& l.next_marker is None
            &&& forall|k: int| 0 <= k < ts.len() ==> block_is(#[trigger] final(into)@[k], ts[k])
            &&& forall|k: int| ts.len() <= k < final(into)@.len() ==> #[trigger] final(into)@[k] == old(into)@[k]
        }),
{
    let ghost orig = body@;
    let fs = match read_block_list(body) {
        None => {
            return Err(Error::Response(ResponseFault::Body));
        },
        Some(v) => v,
    };
    let built = match decode_blocks(body, &fs) {
        Ok(b) => b,
        Err(e) => {
            return Err(e);
        },
    };
    let room = into.len();
    let n = if fs.len() < room { fs.len() } else { room };
    let frozen: &'b [u8] = body;
    write_blocks(frozen, &built, into, n, Ghost(orig), Ghost(fs@));
    proof { reveal(blocks_built); }
    if fs.len() > room {
        return Err(
            Error::Capacity(
                CapacityError { required: fs.len(), available: room, required_headers: 0, available_headers: 0 },
            ),
        );
    }
    Ok(Listing { filled: fs.len(), next_marker: None })
}


/// Reading a block list into a larger array reads the same blocks.
pub proof fn law_a_larger_array_reads_the_same_blocks(b: Seq<u8>, room: int, more: int)
    requires
        0 <= room <= more,
        blocks_result(b, room) is Ok,
    ensures
        blocks_result(b, more) == blocks_result(b, room),
{
}

/// Whether the spans of a block run forward and lie within `b`.
spec fn spans_forward(b: Seq<u8>, f: BlockFields) -> bool {
    &&& f.id.0 <= f.id.1 <= b.len()
    &&& f.size.0 <= f.size.1 <= b.len()
}

/// Whether neither the name nor the size of a block is empty.
spec fn spans_filled(f: BlockFields) -> bool {
    f.id.0 < f.id.1 && f.size.0 < f.size.1
}

/// The bytes a value element takes at least when its value is `v`: a tag of
/// four letters and its close tag around a value that is not empty.
spec fn value_weight(v: Span) -> int {
    if v.0 < v.1 {
        14
    } else {
        0
    }
}

/// The lengths of the tag names of a block list.
proof fn lemma_tag_name_lengths()
    ensures
        "Block".spec_bytes().len() == 5,
        "Name".spec_bytes().len() == 4,
        "Size".spec_bytes().len() == 4,
{
    reveal_strlit("Block");
    reveal_strlit("Name");
    reveal_strlit("Size");
    assert(is_ascii("Block"));
    assert(is_ascii("Name"));
    assert(is_ascii("Size"));
}

/// A close tag of `name` is at least `</`, the name and `>`.
proof fn lemma_close_len(b: Seq<u8>, from: int, name: Seq<u8>)
    requires
        0 <= from,
        b.len() <= isize::MAX,
    ensures
        close_at(b, from, name) matches Some(e) ==> from + 3 + name.len() <= e <= b.len(),
{
    lemma_close_at(b, from, name);
    let start = from + 2;
    let end = start + name.len();
    if !(b.len() > end && b.subrange(start, end) == name && b[end] == 0x3e) {
        lemma_name_run_end(b, from + 2);
        if let Some(f) = name_at(b, from + 2) {
            lemma_space_end(b, f.1 as int);
        }
    }
}

/// What `child_at` reads stands after `i`: a start tag after its `<`, or
/// the close tag of `parent`.
proof fn lemma_child_len(b: Seq<u8>, i: int, parent: Seq<u8>)
    requires
        b.len() <= isize::MAX,
    ensures
        child_at(b, i, parent) matches Some(Child::Open(t, e)) ==> {
            &&& i + 1 <= t.name.0 < t.name.1 == t.attributes.0 <= t.attributes.1 < e <= b.len()
        },
        child_at(b, i, parent) matches Some(Child::Close(e)) ==> i + 3 + parent.len() <= e <= b.len(),
    decreases b.len() - i,
{
    if 0 <= i <= b.len() {
        lemma_space_end(b, i);
        let j = space_end(b, i);
        if byte_at(b, j) == 0x3c {
            if byte_at(b, j + 1) == 0x2f {
                lemma_close_len(b, j, parent);
            } else {
                lemma_misc_at(b, j);
                match misc_at(b, j) {
                    Some(Misc::Skipped(e)) => {
                        if i < e <= b.len() {
                            lemma_child_len(b, e as int, parent);
                        }
                    },
                    _ => {
                        lemma_open_at(b, j);
                    },
                }
            }
        }
    }
}

/// The value of an element starts where its start tag ends, and a value
/// that is not empty is followed by the close tag.
proof fn lemma_value_len(b: Seq<u8>, i: int, t: Tag)
    requires
        b.len() <= isize::MAX,
        0 <= i <= b.len(),
        t.name.0 <= t.name.1 <= b.len(),
    ensures
        tag_value(b, i, t) matches Some((v, x)) ==> {
            &&& v.0 == i <= v.1 <= x <= b.len()
            &&& v.0 < v.1 ==> v.1 + 3 + (t.name.1 - t.name.0) <= x
        },
{
    if !t.empty {
        lemma_find_byte_from(b, i, 0x3c);
        let name = b.subrange(t.name.0 as int, t.name.1 as int);
        lemma_close_len(b, find_byte_from(b, i, 0x3c), name);
    }
}

/// The children of a `<Block>` and its close tag take at least the bytes of
/// `</Block>`, and fourteen more for each name or size read here that is
/// not empty.
proof fn lemma_block_len(b: Seq<u8>, i: int, id: Option<Span>, size: Option<Span>)
    requires
        b.len() <= isize::MAX,
    ensures
        block_from(b, i, id, size) matches Some((x, y, e)) ==> {
            &&& 0 <= i < e <= b.len()
            &&& id matches Some(s) ==> x == s
            &&& size matches Some(s) ==> y == s
            &&& id is None ==> x.0 <= x.1 <= b.len()
            &&& size is None ==> y.0 <= y.1 <= b.len()
            &&& e - i >= 8 + (if id is None { value_weight(x) } else { 0 }) + (if size is None {
                value_weight(y)
            } else {
                0
            })
        },
    decreases b.len() - i,
{
    lemma_tag_name_lengths();
    if 0 <= i <= b.len() {
        lemma_child_len(b, i, "Block".spec_bytes());
        match child_at(b, i, "Block".spec_bytes()) {
            Some(Child::Open(t, e)) => {
                if bare(b, t) && tag_value(b, e as int, t) is Some {
                    lemma_value_len(b, e as int, t);
                    let (v, x) = tag_value(b, e as int, t)->0;
                    if i < x <= b.len() {
                        if span_text(b, t.name) == "Name".spec_bytes() && id is None {
                            lemma_block_len(b, x, Some(v), size);
                        } else if span_text(b, t.name) == "Size".spec_bytes() && size is None {
                            lemma_block_len(b, x, id, Some(v));
                        }
                    }
                }
            },
            _ => {},
        }
    }
}

/// The blocks a section adds to `acc` follow it, run forward, and each
/// one whose name and size are not empty takes at least 43 bytes.
proof fn lemma_section_len(b: Seq<u8>, i: int, name: Seq<u8>, state: BlockState, acc: Seq<BlockFields>)
    requires
        b.len() <= isize::MAX,
    ensures
        section_from(b, i, name, state, acc) matches Some((v, e)) ==> {
            &&& 0 <= i < e <= b.len()
            &&& acc.len() <= v.len()
            &&& forall|k: int| 0 <= k < acc.len() ==> #[trigger] v[k] == acc[k]
            &&& forall|k: int| acc.len() <= k < v.len() ==> spans_forward(b, #[trigger] v[k])
            &&& (forall|k: int| acc.len() <= k < v.len() ==> spans_filled(#[trigger] v[k])) ==> 43 * (
            v.len() - acc.len()) <= e - i
        },
    decreases b.len() - i,
{
    lemma_tag_name_lengths();
    if 0 <= i <= b.len() {
        lemma_child_len(b, i, name);
        match child_at(b, i, name) {
            Some(Child::Open(t, e)) => {
                lemma_block_len(b, e as int, None, None);
                if let Some((id, size, x)) = block_from(b, e as int, None, None) {
                    if i < x <= b.len() {
                        let f = BlockFields { id, size, state };
                        let acc2 = acc.push(f);
                        lemma_section_len(b, x, name, state, acc2);
                        if let Some((v, e2)) = section_from(b, x, name, state, acc2) {
                            if span_text(b, t.name) == "Block".spec_bytes() && !t.empty && bare(b, t) {
                                assert(v[acc.len() as int] == acc2[acc.len() as int]);
                                assert forall|k: int| 0 <= k < acc.len() implies #[trigger] v[k] == acc[k] by {
                                    assert(v[k] == acc2[k]);
                                }
                                if forall|k: int| acc.len() <= k < v.len() ==> spans_filled(#[trigger] v[k]) {
                                    assert(spans_filled(v[acc.len() as int]));
                                }
                            }
                        }
                    }
                }
            },
            _ => {},
        }
    }
}

/// The blocks the sections of a list add to `acc` follow them, run
/// forward, and each one whose name and size are not empty takes at least
/// 43 bytes.
proof fn lemma_sections_len(b: Seq<u8>, i: int, seen_committed: bool, seen_staged: bool, acc: Seq<BlockFields>)
    requires
        b.len() <= isize::MAX,
    ensures
        sections_from(b, i, seen_committed, seen_staged, acc) matches Some((v, e)) ==> {
            &&& 0 <= i < e <= b.len()
            &&& acc.len() <= v.len()
            &&& forall|k: int| 0 <= k < acc.len() ==> #[trigger] v[k] == acc[k]
            &&& forall|k: int| acc.len() <= k < v.len() ==> spans_forward(b, #[trigger] v[k])
            &&& (forall|k: int| acc.len() <= k < v.len() ==> spans_filled(#[trigger] v[k])) ==> 43 * (
            v.len() - acc.len()) <= e - i
        },
    decreases b.len() - i,
{
    if 0 <= i <= b.len() {
        lemma_child_len(b, i, "BlockList".spec_bytes());
        match child_at(b, i, "BlockList".spec_bytes()) {
            Some(Child::Open(t, e)) => {
                let nm = span_text(b, t.name);
                let committed = nm == "CommittedBlocks".spec_bytes();
                let state = if committed { BlockState::Committed } else { BlockState::Staged };
                let read = if t.empty {
                    Some((acc, e as int))
                } else {
                    section_from(b, e as int, nm, state, acc)
                };
                if !t.empty {
                    lemma_section_len(b, e as int, nm, state, acc);
                }
                if let Some((acc2, x)) = read {
                    if i < x <= b.len() {
                        let sc = seen_committed || committed;
                        let ss = seen_staged || !committed;
                        lemma_sections_len(b, x, sc, ss, acc2);
                        if let Some((v, e2)) = sections_from(b, x, sc, ss, acc2) {
                            assert forall|k: int| 0 <= k < acc.len() implies #[trigger] v[k] == acc[k] by {
                                assert(v[k] == acc2[k]);
                            }
                            assert forall|k: int| acc.len() <= k < v.len() implies spans_forward(b, #[trigger] v[k]) by {
                                if k < acc2.len() {
                                    assert(v[k] == acc2[k]);
                                }
                            }
                            if forall|k: int| acc.len() <= k < v.len() ==> spans_filled(#[trigger] v[k]) {
                                assert forall|k: int| acc.len() <= k < acc2.len() implies spans_filled(#[trigger] acc2[k]) by {
                                    assert(v[k] == acc2[k]);
                                }
                            }
                        }
                    }
                }
            },
            _ => {},
        }
    }
}

/// A block whose text can be read has a name and a size that are not
/// empty.
proof fn lemma_readable_block_filled(b: Seq<u8>, f: BlockFields)
    requires
        spans_forward(b, f),
        block_text(b, f) is Some,
    ensures
        spans_filled(f),
{
    lemma_trim(b, f.size.0 as int, f.size.1 as int);
    if f.id.0 == f.id.1 {
        assert(span_text(b, f.id) =~= Seq::<u8>::empty());
    }
}

/// A block list that [`fill_blocks`] reads, into an array of any length,
/// holds no more blocks than a body of its length can: one block takes at
/// least the 43 bytes of `<Block><Name>x</Name><Size>0</Size></Block>`, so
/// the count is at most the length divided by 43, which is what
/// `max_blocks_in` gives. This holds of the blocks read and of the count a
/// capacity error reports.
pub proof fn law_an_accepted_block_list_fits_its_bound(b: Seq<u8>, room: int)
    requires
        b.len() <= isize::MAX,
    ensures
        blocks_result(b, room) matches Ok(ts) ==> ts.len() <= b.len() / 43,
        blocks_result(b, room) matches Err(Error::Capacity(c)) ==> c.required <= b.len() / 43,
{
    if let Some(fs) = blocks_of(b) {
        if !exists|k: int| 0 <= k < fs.len() && #[trigger] block_text(b, fs[k]) is None {
            if let Some((t, i)) = root_open(b, "BlockList".spec_bytes()) {
                if !t.empty {
                    lemma_sections_len(b, i, false, false, seq![]);
                    assert forall|k: int| 0 <= k < fs.len() implies spans_filled(#[trigger] fs[k]) by {
                        assert(block_text(b, fs[k]) is Some);
                        lemma_readable_block_filled(b, fs[k]);
                    }
                }
            }
            assert(43 * fs.len() <= b.len());
        }
    }
}

} // verus!
