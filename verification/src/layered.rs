//! Helpers built on the public API.
//!
//! Each function here uses only the public types, so you can write your own
//! version if you need different behaviour.

use vstd::prelude::*;
use vstd::string::*;

use crate::azure::{
    base_headers, commit_body, commit_refusal, condition_headers, delete_headers, delete_refusal,
    encoded_as, get_headers, get_method, get_refusal, list_blocks_query, list_blocks_refusal,
    list_query, list_refusal, put_headers, put_refusal, spec_capacity_error, spec_url,
    stage_query, stage_refusal, Blobs, BlockRef, PhysicalCommitBlocks, PhysicalListBlocks,
    PhysicalStageBlock, header_span_size,
    base64_byte, block_id_ok, trailing_padding,
};
use crate::error::{CapacityError, Error, InvalidPlan};
use crate::request::{head_text, saturated, HeaderSpan, Method, RequestSize, WireRequest};
use crate::text::{all_digits, decimal_digits, decimal_value, utf8_text, all_ascii, lemma_ascii_is_utf8};
use crate::time::{
    civil_from_days, four_digits, month_name, spec_rfc1123, two_digits, LAST_HTTP_SECOND,
};
use crate::time::Timestamps;
use crate::types::{Payload, PhysicalDelete, PhysicalGet, PhysicalList, PhysicalPut, RequestedRange};
use crate::xml::decode::{decode_text, decoded_text};

verus! {

/// What a head of this URL and these headers needs: its bytes and its
/// header slots, or a plan that cannot become a request when either is
/// larger than any slice can be.
pub open spec fn spec_requirements(url: Seq<u8>, headers: Seq<(Seq<u8>, Seq<u8>)>, body: nat) -> Result<RequestSize, Error> {
    let bytes = head_text(url, headers).len() + body;
    if bytes > isize::MAX || headers.len() > isize::MAX as nat / header_span_size() {
        Err(Error::InvalidPlan(InvalidPlan::RequestTooLarge))
    } else {
        Ok(RequestSize { bytes: bytes as usize, headers: headers.len() as usize })
    }
}

/// The requirements of a plan, or the reason it cannot be sent.
pub open spec fn requirements_or(refusal: Option<InvalidPlan>, url: Seq<u8>, headers: Seq<(Seq<u8>, Seq<u8>)>, body: nat) -> Result<RequestSize, Error> {
    match refusal {
        Some(reason) => Err(Error::InvalidPlan(reason)),
        None => spec_requirements(url, headers, body),
    }
}

fn required<'r>(result: Result<WireRequest<'r>, Error>) -> (r: Result<RequestSize, Error>)
    ensures
        r == match result {
            Ok(_) => Ok(RequestSize { bytes: 0, headers: 0 }),
            Err(Error::Capacity(c)) => Ok(RequestSize { bytes: c.required, headers: c.required_headers }),
            Err(e) => Err::<RequestSize, Error>(e),
        },
{
    match result {
        Ok(_) => Ok(RequestSize { bytes: 0, headers: 0 }),
        Err(Error::Capacity(error)) => Ok(RequestSize { bytes: error.required, headers: error.required_headers }),
        Err(error) => Err(error),
    }
}

/// A dry run into empty buffers reports the requirements of the head.
proof fn lemma_dry_run<'r>(r: Result<WireRequest<'r>, Error>, url: Seq<u8>, headers: Seq<(Seq<u8>, Seq<u8>)>, method: Method)
    requires
        headers.len() > 0,
        encoded_as(r, 0, 0, url, headers, method),
    ensures
        (match r {
            Ok(_) => Ok(RequestSize { bytes: 0, headers: 0 }),
            Err(Error::Capacity(c)) => Ok(RequestSize { bytes: c.required, headers: c.required_headers }),
            Err(e) => Err::<RequestSize, Error>(e),
        }) == spec_requirements(url, headers, 0),
{
}

/// Returns the byte and header-slot capacities that [`Blobs::encode_get`]
/// needs for this plan.
///
/// Call this to size a buffer before you encode; the answer is exact.
///
/// # Errors
///
/// Returns [`Error::InvalidPlan`] if `get` cannot become an Azure request,
/// unchanged from [`Blobs::encode_get`].
#[verifier::spinoff_prover]
pub fn get_requirements(blobs: &Blobs, get: &PhysicalGet, now: &Timestamps) -> (r: Result<RequestSize, Error>)
    ensures
        r == requirements_or(get_refusal(*get, blobs.spec_namespace()),
            spec_url(*blobs, Some(get.key), Seq::empty()), get_headers(*blobs, *get, *now), 0),
{
    let mut buf: [u8; 0] = [];
    let mut headers: [HeaderSpan; 0] = [];
    let result = blobs.encode_get(&mut buf, &mut headers, get, now);
    proof {
        if get_refusal(*get, blobs.spec_namespace()) is None {
            lemma_dry_run(result, spec_url(*blobs, Some(get.key), Seq::empty()), get_headers(*blobs, *get, *now), get_method(get.kind));
        }
    }
    required(result)
}

/// Returns the byte and header-slot capacities that [`Blobs::encode_put`]
/// needs for this plan.
///
/// The answer covers the request head only, and never the content. Only the
/// length of `content` reaches the head, so a [`Payload::Streamed`] sizes a
/// buffer without the bytes.
///
/// # Errors
///
/// Returns [`Error::InvalidPlan`] if `put` cannot become an Azure request,
/// unchanged from [`Blobs::encode_put`].
#[verifier::spinoff_prover]
pub fn put_requirements(blobs: &Blobs, put: &PhysicalPut, content: Payload, now: &Timestamps) -> (r: Result<RequestSize, Error>)
    ensures
        r == requirements_or(put_refusal(*put, content.spec_len() as u64, blobs.spec_namespace()),
            spec_url(*blobs, Some(put.key), Seq::empty()), put_headers(*blobs, *put, content.spec_len() as u64, *now), 0),
{
    let mut buf: [u8; 0] = [];
    let mut headers: [HeaderSpan; 0] = [];
    let result = blobs.encode_put(&mut buf, &mut headers, put, content, now);
    proof {
        if put_refusal(*put, content.spec_len() as u64, blobs.spec_namespace()) is None {
            lemma_dry_run(result, spec_url(*blobs, Some(put.key), Seq::empty()),
                put_headers(*blobs, *put, content.spec_len() as u64, *now), Method::Put);
        }
    }
    required(result)
}

/// Returns the byte and header-slot capacities that
/// [`Blobs::encode_delete`] needs for this plan.
///
/// # Errors
///
/// Returns [`Error::InvalidPlan`] if `delete` cannot become an Azure
/// request, unchanged from [`Blobs::encode_delete`].
#[verifier::spinoff_prover]
pub fn delete_requirements(blobs: &Blobs, delete: &PhysicalDelete, now: &Timestamps) -> (r: Result<RequestSize, Error>)
    ensures
        r == requirements_or(delete_refusal(*delete, blobs.spec_namespace()),
            spec_url(*blobs, Some(delete.key), Seq::empty()), delete_headers(*blobs, *delete, *now), 0),
{
    let mut buf: [u8; 0] = [];
    let mut headers: [HeaderSpan; 0] = [];
    let result = blobs.encode_delete(&mut buf, &mut headers, delete, now);
    proof {
        if delete_refusal(*delete, blobs.spec_namespace()) is None {
            lemma_dry_run(result, spec_url(*blobs, Some(delete.key), Seq::empty()), delete_headers(*blobs, *delete, *now), Method::Delete);
        }
    }
    required(result)
}

/// Returns the byte and header-slot capacities that [`Blobs::encode_list`]
/// needs for this plan.
///
/// # Errors
///
/// Returns [`Error::InvalidPlan`] if `list` cannot become an Azure request,
/// unchanged from [`Blobs::encode_list`].
#[verifier::spinoff_prover]
pub fn list_requirements(blobs: &Blobs, list: &PhysicalList, now: &Timestamps) -> (r: Result<RequestSize, Error>)
    ensures
        r == requirements_or(list_refusal(*list, blobs.spec_namespace()),
            spec_url(*blobs, None, list_query(*list)), base_headers(*blobs, RequestedRange::Whole, *now), 0),
{
    let mut buf: [u8; 0] = [];
    let mut headers: [HeaderSpan; 0] = [];
    let result = blobs.encode_list(&mut buf, &mut headers, list, now);
    proof {
        if list_refusal(*list, blobs.spec_namespace()) is None {
            lemma_dry_run(result, spec_url(*blobs, None, list_query(*list)), base_headers(*blobs, RequestedRange::Whole, *now), Method::Get);
        }
    }
    required(result)
}

/// Returns the byte and header-slot capacities that
/// [`Blobs::encode_stage_block`] needs for this plan.
///
/// As [`put_requirements`]: the answer covers the head, and only the length
/// of `content` reaches it.
///
/// # Errors
///
/// Returns [`Error::InvalidPlan`] if the plan cannot become an Azure request,
/// unchanged from [`Blobs::encode_stage_block`].
#[verifier::spinoff_prover]
pub fn stage_block_requirements(blobs: &Blobs, plan: &PhysicalStageBlock, content: Payload, now: &Timestamps) -> (r: Result<RequestSize, Error>)
    ensures
        r == requirements_or(stage_refusal(*plan, content.spec_len() as u64, blobs.spec_namespace()),
            spec_url(*blobs, Some(plan.key), stage_query(*plan)),
            base_headers(*blobs, RequestedRange::Whole, *now).push(("content-length".spec_bytes(), decimal_digits(content.spec_len()))), 0),
{
    let mut buf: [u8; 0] = [];
    let mut headers: [HeaderSpan; 0] = [];
    let result = blobs.encode_stage_block(&mut buf, &mut headers, plan, content, now);
    proof {
        if stage_refusal(*plan, content.spec_len() as u64, blobs.spec_namespace()) is None {
            lemma_dry_run(result, spec_url(*blobs, Some(plan.key), stage_query(*plan)),
                base_headers(*blobs, RequestedRange::Whole, *now).push(("content-length".spec_bytes(), decimal_digits(content.spec_len()))), Method::Put);
        }
    }
    required(result)
}

/// Returns the byte and header-slot capacities that
/// [`Blobs::encode_list_blocks`] needs for this plan.
///
/// # Errors
///
/// Returns [`Error::InvalidPlan`] if the plan cannot become an Azure request,
/// unchanged from [`Blobs::encode_list_blocks`].
#[verifier::spinoff_prover]
pub fn list_blocks_requirements(blobs: &Blobs, plan: &PhysicalListBlocks, now: &Timestamps) -> (r: Result<RequestSize, Error>)
    ensures
        r == requirements_or(list_blocks_refusal(*plan, blobs.spec_namespace()),
            spec_url(*blobs, Some(plan.key), list_blocks_query(*plan)), base_headers(*blobs, RequestedRange::Whole, *now), 0),
{
    let mut buf: [u8; 0] = [];
    let mut headers: [HeaderSpan; 0] = [];
    let result = blobs.encode_list_blocks(&mut buf, &mut headers, plan, now);
    proof {
        if list_blocks_refusal(*plan, blobs.spec_namespace()) is None {
            lemma_dry_run(result, spec_url(*blobs, Some(plan.key), list_blocks_query(*plan)),
                base_headers(*blobs, RequestedRange::Whole, *now), Method::Get);
        }
    }
    required(result)
}

/// The headers of a commit of these blocks.
pub open spec fn commit_headers(blobs: Blobs, plan: PhysicalCommitBlocks, blocks: Seq<BlockRef>, now: Timestamps) -> Seq<(Seq<u8>, Seq<u8>)> {
    base_headers(blobs, RequestedRange::Whole, now)
        .push(("content-length".spec_bytes(), decimal_digits(commit_body(blocks).len())))
        + condition_headers(plan.condition, plan.condition_value)
}

/// Returns the byte and header-slot capacities that
/// [`Blobs::encode_commit_blocks`] needs for this plan.
///
/// The answer is exact, and the bytes include the XML body that the request
/// carries.
///
/// # Errors
///
/// Returns [`Error::InvalidPlan`] if the plan cannot become an Azure request,
/// unchanged from [`Blobs::encode_commit_blocks`].
#[verifier::spinoff_prover]
pub fn commit_blocks_requirements(blobs: &Blobs, plan: &PhysicalCommitBlocks, blocks: &[BlockRef], now: &Timestamps) -> (r: Result<RequestSize, Error>)
    ensures
        r == requirements_or(commit_refusal(*plan, blocks@, blobs.spec_namespace()),
            spec_url(*blobs, Some(plan.key), seq![("comp".spec_bytes(), "blocklist".spec_bytes())]),
            commit_headers(*blobs, *plan, blocks@, *now), commit_body(blocks@).len()),
{
    let mut buf: [u8; 0] = [];
    let mut headers: [HeaderSpan; 0] = [];
    let result = blobs.encode_commit_blocks(&mut buf, &mut headers, plan, blocks, now);
    required(result)
}

/// A requirement is exact: a plan that can be sent encodes into buffers of
/// at least the bytes and the header slots that its requirement states, and
/// into any smaller buffers fails with a capacity error that states them.
pub proof fn law_requirements_are_exact<'r>(
    url: Seq<u8>,
    headers: Seq<(Seq<u8>, Seq<u8>)>,
    method: Method,
    bytes: nat,
    slots: nat,
    size: RequestSize,
    r: Result<WireRequest<'r>, Error>,
)
    requires
        bytes <= usize::MAX,
        slots <= usize::MAX,
        spec_requirements(url, headers, 0) == Ok::<RequestSize, Error>(size),
        encoded_as(r, bytes, slots, url, headers, method),
    ensures
        r is Ok <==> (size.bytes <= bytes && size.headers <= slots),
        r matches Ok(req) ==> req.spec_url() == url && req.spec_headers() == headers,
        r matches Err(e) ==> e == Error::Capacity(CapacityError {
            required: size.bytes,
            available: bytes as usize,
            required_headers: size.headers,
            available_headers: slots as usize,
        }),
{
}

/// Whether an encoding result `r` into buffers of `bytes` bytes and `slots`
/// header slots is the one that the requirement `req` foretells: a plan
/// refused for a reason, a head larger than any slice can be among them, is
/// refused with that same error, and a head that needs a
/// size encodes exactly when the buffers hold that size, failing otherwise
/// with a capacity error that states it.
pub open spec fn requirement_met<'r>(req: Result<RequestSize, Error>, r: Result<WireRequest<'r>, Error>, bytes: nat, slots: nat) -> bool {
    match req {
        Ok(size) => {
            &&& r is Ok <==> (size.bytes <= bytes && size.headers <= slots)
            &&& r matches Err(e) ==> e == Error::Capacity(CapacityError {
                required: size.bytes,
                available: bytes as usize,
                required_headers: size.headers,
                available_headers: slots as usize,
            })
        },
        Err(e) => r == Err::<WireRequest<'r>, Error>(e),
    }
}

/// Whether `bytes` and `slots` are sizes that a slice of bytes and a slice
/// of header descriptors can have.
pub open spec fn slice_sizes(bytes: nat, slots: nat) -> bool {
    bytes <= isize::MAX && slots <= isize::MAX as nat / header_span_size()
}

proof fn lemma_requirement_met<'r>(
    refusal: Option<InvalidPlan>,
    url: Seq<u8>,
    headers: Seq<(Seq<u8>, Seq<u8>)>,
    method: Method,
    bytes: nat,
    slots: nat,
    r: Result<WireRequest<'r>, Error>,
)
    requires
        slice_sizes(bytes, slots),
        refusal matches Some(reason) ==> r == Err::<WireRequest<'r>, Error>(Error::InvalidPlan(reason)),
        refusal is None ==> encoded_as(r, bytes, slots, url, headers, method),
    ensures
        requirement_met(requirements_or(refusal, url, headers, 0), r, bytes, slots),
{
}

/// A read encodes as [`get_requirements`] says: the same refusal, or
/// success exactly in buffers of at least the stated sizes.
pub proof fn law_a_get_requirement_is_exact<'r>(blobs: Blobs, get: PhysicalGet, now: Timestamps, bytes: nat, slots: nat, r: Result<WireRequest<'r>, Error>)
    requires
        slice_sizes(bytes, slots),
        get_refusal(get, blobs.spec_namespace()) matches Some(reason) ==> r == Err::<WireRequest<'r>, Error>(Error::InvalidPlan(reason)),
        get_refusal(get, blobs.spec_namespace()) is None ==> encoded_as(r, bytes, slots,
            spec_url(blobs, Some(get.key), Seq::empty()), get_headers(blobs, get, now), get_method(get.kind)),
    ensures
        requirement_met(requirements_or(get_refusal(get, blobs.spec_namespace()),
            spec_url(blobs, Some(get.key), Seq::empty()), get_headers(blobs, get, now), 0), r, bytes, slots),
{
    lemma_requirement_met(get_refusal(get, blobs.spec_namespace()), spec_url(blobs, Some(get.key), Seq::empty()),
        get_headers(blobs, get, now), get_method(get.kind), bytes, slots, r);
}

/// A write encodes as [`put_requirements`] says.
pub proof fn law_a_put_requirement_is_exact<'r>(blobs: Blobs, put: PhysicalPut, len: u64, now: Timestamps, bytes: nat, slots: nat, r: Result<WireRequest<'r>, Error>)
    requires
        slice_sizes(bytes, slots),
        put_refusal(put, len, blobs.spec_namespace()) matches Some(reason) ==> r == Err::<WireRequest<'r>, Error>(Error::InvalidPlan(reason)),
        put_refusal(put, len, blobs.spec_namespace()) is None ==> encoded_as(r, bytes, slots,
            spec_url(blobs, Some(put.key), Seq::empty()), put_headers(blobs, put, len, now), Method::Put),
    ensures
        requirement_met(requirements_or(put_refusal(put, len, blobs.spec_namespace()),
            spec_url(blobs, Some(put.key), Seq::empty()), put_headers(blobs, put, len, now), 0), r, bytes, slots),
{
    lemma_requirement_met(put_refusal(put, len, blobs.spec_namespace()), spec_url(blobs, Some(put.key), Seq::empty()),
        put_headers(blobs, put, len, now), Method::Put, bytes, slots, r);
}

/// A removal encodes as [`delete_requirements`] says.
pub proof fn law_a_delete_requirement_is_exact<'r>(blobs: Blobs, delete: PhysicalDelete, now: Timestamps, bytes: nat, slots: nat, r: Result<WireRequest<'r>, Error>)
    requires
        slice_sizes(bytes, slots),
        delete_refusal(delete, blobs.spec_namespace()) matches Some(reason) ==> r == Err::<WireRequest<'r>, Error>(Error::InvalidPlan(reason)),
        delete_refusal(delete, blobs.spec_namespace()) is None ==> encoded_as(r, bytes, slots,
            spec_url(blobs, Some(delete.key), Seq::empty()), delete_headers(blobs, delete, now), Method::Delete),
    ensures
        requirement_met(requirements_or(delete_refusal(delete, blobs.spec_namespace()),
            spec_url(blobs, Some(delete.key), Seq::empty()), delete_headers(blobs, delete, now), 0), r, bytes, slots),
{
    lemma_requirement_met(delete_refusal(delete, blobs.spec_namespace()), spec_url(blobs, Some(delete.key), Seq::empty()),
        delete_headers(blobs, delete, now), Method::Delete, bytes, slots, r);
}

/// A listing encodes as [`list_requirements`] says.
pub proof fn law_a_list_requirement_is_exact<'r>(blobs: Blobs, list: PhysicalList, now: Timestamps, bytes: nat, slots: nat, r: Result<WireRequest<'r>, Error>)
    requires
        slice_sizes(bytes, slots),
        list_refusal(list, blobs.spec_namespace()) matches Some(reason) ==> r == Err::<WireRequest<'r>, Error>(Error::InvalidPlan(reason)),
        list_refusal(list, blobs.spec_namespace()) is None ==> encoded_as(r, bytes, slots,
            spec_url(blobs, None, list_query(list)), base_headers(blobs, RequestedRange::Whole, now), Method::Get),
    ensures
        requirement_met(requirements_or(list_refusal(list, blobs.spec_namespace()),
            spec_url(blobs, None, list_query(list)), base_headers(blobs, RequestedRange::Whole, now), 0), r, bytes, slots),
{
    lemma_requirement_met(list_refusal(list, blobs.spec_namespace()), spec_url(blobs, None, list_query(list)),
        base_headers(blobs, RequestedRange::Whole, now), Method::Get, bytes, slots, r);
}

/// A stage of a block encodes as [`stage_block_requirements`] says.
pub proof fn law_a_stage_requirement_is_exact<'r>(blobs: Blobs, plan: PhysicalStageBlock, len: nat, now: Timestamps, bytes: nat, slots: nat, r: Result<WireRequest<'r>, Error>)
    requires
        slice_sizes(bytes, slots),
        stage_refusal(plan, len as u64, blobs.spec_namespace()) matches Some(reason) ==> r == Err::<WireRequest<'r>, Error>(Error::InvalidPlan(reason)),
        stage_refusal(plan, len as u64, blobs.spec_namespace()) is None ==> encoded_as(r, bytes, slots,
            spec_url(blobs, Some(plan.key), stage_query(plan)),
            base_headers(blobs, RequestedRange::Whole, now).push(("content-length".spec_bytes(), decimal_digits(len))), Method::Put),
    ensures
        requirement_met(requirements_or(stage_refusal(plan, len as u64, blobs.spec_namespace()),
            spec_url(blobs, Some(plan.key), stage_query(plan)),
            base_headers(blobs, RequestedRange::Whole, now).push(("content-length".spec_bytes(), decimal_digits(len))), 0), r, bytes, slots),
{
    lemma_requirement_met(stage_refusal(plan, len as u64, blobs.spec_namespace()), spec_url(blobs, Some(plan.key), stage_query(plan)),
        base_headers(blobs, RequestedRange::Whole, now).push(("content-length".spec_bytes(), decimal_digits(len))), Method::Put, bytes, slots, r);
}

/// A block listing encodes as [`list_blocks_requirements`] says.
pub proof fn law_a_list_blocks_requirement_is_exact<'r>(blobs: Blobs, plan: PhysicalListBlocks, now: Timestamps, bytes: nat, slots: nat, r: Result<WireRequest<'r>, Error>)
    requires
        slice_sizes(bytes, slots),
        list_blocks_refusal(plan, blobs.spec_namespace()) matches Some(reason) ==> r == Err::<WireRequest<'r>, Error>(Error::InvalidPlan(reason)),
        list_blocks_refusal(plan, blobs.spec_namespace()) is None ==> encoded_as(r, bytes, slots,
            spec_url(blobs, Some(plan.key), list_blocks_query(plan)), base_headers(blobs, RequestedRange::Whole, now), Method::Get),
    ensures
        requirement_met(requirements_or(list_blocks_refusal(plan, blobs.spec_namespace()),
            spec_url(blobs, Some(plan.key), list_blocks_query(plan)), base_headers(blobs, RequestedRange::Whole, now), 0), r, bytes, slots),
{
    lemma_requirement_met(list_blocks_refusal(plan, blobs.spec_namespace()), spec_url(blobs, Some(plan.key), list_blocks_query(plan)),
        base_headers(blobs, RequestedRange::Whole, now), Method::Get, bytes, slots, r);
}

/// A write's requirement sees its content only through its length: a
/// slice and a streamed payload of the same length need the same buffers,
/// which hold the head alone.
pub proof fn law_a_put_requirement_sees_only_the_length(blobs: Blobs, put: PhysicalPut, now: Timestamps, a: Payload, b: Payload)
    requires
        a.spec_len() == b.spec_len(),
    ensures
        requirements_or(put_refusal(put, a.spec_len() as u64, blobs.spec_namespace()),
            spec_url(blobs, Some(put.key), Seq::empty()), put_headers(blobs, put, a.spec_len() as u64, now), 0)
        == requirements_or(put_refusal(put, b.spec_len() as u64, blobs.spec_namespace()),
            spec_url(blobs, Some(put.key), Seq::empty()), put_headers(blobs, put, b.spec_len() as u64, now), 0),
{
}

/// The most blocks that a Get Block List body of `len` bytes can hold.
///
/// The smallest element the reader accepts is
/// `<Block><Name>x</Name><Size>0</Size></Block>`, 43 bytes.
pub fn max_blocks_in(len: usize) -> (r: usize)
    ensures
        r == len / 43,
{
    len / 43
}

/// The character of the standard base64 alphabet for a sextet.
pub open spec fn base64_char(n: int) -> u8 {
    if n < 26 {
        (0x41 + n) as u8
    } else if n < 52 {
        (0x61 + n - 26) as u8
    } else if n < 62 {
        (0x30 + n - 52) as u8
    } else if n == 62 {
        0x2bu8
    } else {
        0x2fu8
    }
}

/// The four characters of base64 that one group of one to three bytes is
/// written as, padded with `=`.
pub open spec fn base64_group(g: Seq<u8>) -> Seq<u8> {
    let b0 = g[0] as int;
    let b1 = if g.len() > 1 { g[1] as int } else { 0 };
    let b2 = if g.len() > 2 { g[2] as int } else { 0 };
    seq![
        base64_char(b0 / 4),
        base64_char((b0 % 4) * 16 + b1 / 16),
        if g.len() > 1 { base64_char((b1 % 16) * 4 + b2 / 64) } else { 0x3du8 },
        if g.len() > 2 { base64_char(b2 % 64) } else { 0x3du8 },
    ]
}

/// The standard base64 text of `s`, padded with `=`.
pub open spec fn base64(s: Seq<u8>) -> Seq<u8>
    decreases s.len(),
{
    if s.len() == 0 {
        Seq::empty()
    } else {
        let m = if s.len() < 3 { s.len() as int } else { 3 };
        base64_group(s.subrange(0, m)) + base64(s.subrange(m, s.len() as int))
    }
}

proof fn lemma_base64_len(s: Seq<u8>)
    ensures
        base64(s).len() == (s.len() + 2) / 3 * 4,
        all_ascii(base64(s)),
    decreases s.len(),
{
    if s.len() > 0 {
        let m = if s.len() < 3 { s.len() as int } else { 3 };
        lemma_base64_len(s.subrange(m, s.len() as int));
        let head = base64_group(s.subrange(0, m));
        let tail = base64(s.subrange(m, s.len() as int));
        assert forall|i: int| 0 <= i < base64(s).len() implies #[trigger] base64(s)[i] < 0x80 by {
            if i >= 4 {
                assert(base64(s)[i] == tail[i - 4]);
            } else {
                assert(base64(s)[i] == head[i]);
            }
        }
    }
}

fn sextet_char(n: u8) -> (r: u8)
    requires
        n < 64,
    ensures
        r == base64_char(n as int),
{
    if n < 26 {
        0x41 + n
    } else if n < 52 {
        0x61 + n - 26
    } else if n < 62 {
        0x30 + n - 52
    } else if n == 62 {
        0x2b
    } else {
        0x2f
    }
}

/// Writes the base64 of `bytes` at the start of `into` and returns it.
pub(crate) fn base64_into<'a>(bytes: &[u8], into: &'a mut [u8]) -> (r: &'a str)
    requires
        bytes@.len() <= 64,
        (bytes@.len() + 2) / 3 * 4 <= old(into)@.len(),
    ensures
        r.spec_bytes() == base64(bytes@),
{
    let n = bytes.len();
    let out_len = (n + 2) / 3 * 4;
    proof {
        lemma_base64_len(bytes@);
        assert(bytes@.subrange(0, n as int) =~= bytes@);
        assert(into@.subrange(0, 0) + base64(bytes@) =~= base64(bytes@));
    }
    let mut i: usize = 0;
    let mut w: usize = 0;
    let ghost mut k: int = 0;
    while i < n
        invariant
            n == bytes@.len(),
            n <= 64,
            out_len == (n + 2) / 3 * 4,
            out_len <= into@.len(),
            i == if 3 * k <= n { 3 * k } else { n as int },
            3 * k < n + 3,
            w == 4 * k,
            i <= n,
            into@.len() == old(into)@.len(),
            base64(bytes@) == into@.subrange(0, w as int) + base64(bytes@.subrange(i as int, n as int)),
        decreases n - i,
    {
        let ghost rest = bytes@.subrange(i as int, n as int);
        assert(w + 4 <= out_len);
        let m: usize = if n - i < 3 { n - i } else { 3 };
        let b0 = bytes[i];
        let b1: u8 = if m > 1 { bytes[i + 1] } else { 0 };
        let b2: u8 = if m > 2 { bytes[i + 2] } else { 0 };
        let ghost before = into@;
        into[w] = sextet_char(b0 / 4);
        into[w + 1] = sextet_char((b0 % 4) * 16 + b1 / 16);
        into[w + 2] = if m > 1 { sextet_char((b1 % 16) * 4 + b2 / 64) } else { 0x3d };
        into[w + 3] = if m > 2 { sextet_char(b2 % 64) } else { 0x3d };
        proof {
            let g = rest.subrange(0, m as int);
            assert(g[0] == b0);
            if m > 1 { assert(g[1] == b1); }
            if m > 2 { assert(g[2] == b2); }
            assert(into@.subrange(w as int, w + 4) =~= base64_group(g));
            assert(rest.subrange(m as int, rest.len() as int) =~= bytes@.subrange(i + m, n as int));
            assert(into@.subrange(0, w as int) =~= before.subrange(0, w as int));
            assert(into@.subrange(0, w + 4) =~= before.subrange(0, w as int) + base64_group(g));
            assert(base64(rest) == base64_group(g) + base64(bytes@.subrange(i + m, n as int)));
        }
        i = i + m;
        w = w + 4;
        proof { k = k + 1; }
    }
    proof {
        assert(bytes@.subrange(n as int, n as int) =~= Seq::<u8>::empty());
        assert(into@.subrange(0, w as int) + Seq::<u8>::empty() =~= into@.subrange(0, w as int));
    }
    let written: &'a [u8] = into;
    let text = vstd::slice::slice_subrange(written, 0, out_len);
    proof {
        assert(text@ =~= base64(bytes@));
        lemma_ascii_is_utf8(text@);
    }
    match utf8_text(text) {
        Some(s) => s,
        None => {
            assert(false);
            ""
        },
    }
}

/// Writes the block ID for `bytes` in the base64 form that Azure stores.
///
/// A block ID is base64 text on the wire, of at most 64 decoded bytes, and
/// every block of one blob must decode to the same length.
///
/// Copies the encoding into `into` and returns it. Returns [`None`] if
/// `bytes` is empty or longer than 64 bytes, or if `into` is shorter than
/// the encoding, which is four characters for every three bytes, rounded up.
pub fn block_id<'a>(bytes: &[u8], into: &'a mut [u8]) -> (r: Option<&'a str>)
    ensures
        r is Some <==> (1 <= bytes@.len() <= 64 && (bytes@.len() + 2) / 3 * 4 <= old(into)@.len()),
        r matches Some(id) ==> id.spec_bytes() == base64(bytes@),
{
    let n = bytes.len();
    if n == 0 || n > 64 {
        return None;
    }
    if (n + 2) / 3 * 4 > into.len() {
        return None;
    }
    Some(base64_into(bytes, into))
}

/// Whether an entity tag already carries its quotes, or is weak.
pub open spec fn etag_written_whole(listed: Seq<u8>) -> bool {
    ||| (listed.len() >= 2 && listed[0] == 0x22 && listed.last() == 0x22)
    ||| (listed.len() >= 2 && listed[0] == 0x57 && listed[1] == 0x2f)
}

/// The quoted form of a listed entity tag.
pub open spec fn spec_quoted_etag(listed: Seq<u8>) -> Seq<u8> {
    if etag_written_whole(listed) {
        listed
    } else {
        seq![0x22u8] + listed + seq![0x22u8]
    }
}

/// Writes an entity tag from a listing in the quoted form that HTTP defines.
///
/// Copies `listed` into `into`, adding the quotes unless it already carries
/// them or is a weak tag, and returns what it wrote. Returns [`None`] if
/// `into` is too small; it needs at most two bytes more than `listed`.
pub fn quoted_etag<'a>(listed: &[u8], into: &'a mut [u8]) -> (r: Option<&'a [u8]>)
    ensures
        r is Some <==> spec_quoted_etag(listed@).len() <= old(into)@.len(),
        r matches Some(tag) ==> tag@ == spec_quoted_etag(listed@),
{
    let n = listed.len();
    let quoted = n >= 2 && listed[0] == 0x22 && listed[n - 1] == 0x22;
    let weak = n >= 2 && listed[0] == 0x57 && listed[1] == 0x2f;
    if quoted || weak {
        if n > into.len() {
            return None;
        }
        let mut i: usize = 0;
        while i < n
            invariant
                n == listed@.len(),
                n <= into@.len(),
                i <= n,
                forall|j: int| 0 <= j < i ==> into@[j] == listed@[j],
            decreases n - i,
        {
            into[i] = listed[i];
            i = i + 1;
        }
        let written: &'a [u8] = into;
        let tag = vstd::slice::slice_subrange(written, 0, n);
        proof { assert(tag@ =~= spec_quoted_etag(listed@)); }
        return Some(tag);
    }
    if into.len() < 2 || n > into.len() - 2 {
        return None;
    }
    into[0] = 0x22;
    let mut i: usize = 0;
    while i < n
        invariant
            n == listed@.len(),
            n + 2 <= into@.len(),
            i <= n,
            into@[0] == 0x22,
            forall|j: int| 0 <= j < i ==> into@[j + 1] == listed@[j],
        decreases n - i,
    {
        into[i + 1] = listed[i];
        i = i + 1;
    }
    into[n + 1] = 0x22;
    let written: &'a [u8] = into;
    let tag = vstd::slice::slice_subrange(written, 0, n + 2);
    proof { assert(tag@ =~= spec_quoted_etag(listed@)); }
    Some(tag)
}

/// Writes the text of a listed value with its references resolved.
///
/// Copies `value` into `into` and returns what it wrote, which is never longer
/// than `value`. Returns [`None`] if `into` is shorter than `value`, and for a
/// reference that no listing declares. This undoes XML references and
/// nothing else; it does not percent-decode.
pub fn decode_into<'a>(value: &[u8], into: &'a mut [u8]) -> (r: Option<&'a [u8]>)
    ensures
        r is Some <==> (value@.len() <= old(into)@.len() && decoded_text(value@, false) is Some),
        r matches Some(text) ==> Some(text@) == decoded_text(value@, false),
{
    let n = value.len();
    if n > into.len() {
        return None;
    }
    let mut copy: Vec<u8> = Vec::new();
    let mut i: usize = 0;
    while i < n
        invariant
            n == value@.len(),
            i <= n,
            copy@ == value@.subrange(0, i as int),
        decreases n - i,
    {
        copy.push(value[i]);
        proof { assert(copy@ =~= value@.subrange(0, i + 1)); }
        i = i + 1;
    }
    proof { assert(copy@ =~= value@); }
    let mut j: usize = 0;
    while j < n
        invariant
            n == value@.len(),
            n <= into@.len(),
            copy@ == value@,
            j <= n,
            into@.len() == old(into)@.len(),
            forall|k: int| 0 <= k < j ==> into@[k] == value@[k],
        decreases n - j,
    {
        into[j] = copy[j];
        j = j + 1;
    }
    proof { assert(into@.subrange(0, n as int) =~= value@); }
    let result = decode_prefix(into, n);
    match result {
        Some(len) => {
            let written: &'a [u8] = into;
            Some(vstd::slice::slice_subrange(written, 0, len))
        },
        None => None,
    }
}

// Decodes the references in the first `n` bytes of `b` in place.
fn decode_prefix(b: &mut [u8], n: usize) -> (r: Option<usize>)
    requires
        n <= old(b)@.len(),
    ensures
        final(b)@.len() == old(b)@.len(),
        r is Some <==> decoded_text(old(b)@.subrange(0, n as int), false) is Some,
        r matches Some(len) ==> len <= n && Some(final(b)@.subrange(0, len as int)) == decoded_text(old(b)@.subrange(0, n as int), false),
{
    let mut part: Vec<u8> = Vec::new();
    let mut i: usize = 0;
    while i < n
        invariant
            n <= b@.len(),
            b@ == old(b)@,
            i <= n,
            part@ == b@.subrange(0, i as int),
        decreases n - i,
    {
        part.push(b[i]);
        proof { assert(part@ =~= b@.subrange(0, i + 1)); }
        i = i + 1;
    }
    let ghost given = part@;
    let result = decode_text(part.as_mut_slice(), false);
    match result {
        Ok(len) => {
            let mut k: usize = 0;
            while k < len
                invariant
                    len <= part@.len(),
                    part@.len() == n,
                    n <= b@.len(),
                    b@.len() == old(b)@.len(),
                    k <= len,
                    forall|x: int| 0 <= x < k ==> b@[x] == part@[x],
                decreases len - k,
            {
                b[k] = part[k];
                k = k + 1;
            }
            proof {
                assert(b@.subrange(0, len as int) =~= part@.subrange(0, len as int));
            }
            Some(len)
        },
        Err(_) => None,
    }
}

/// The number of days from 1970-01-01 to a Gregorian date, by the civil
/// calendar algorithm of Howard Hinnant; division rounds down.
pub open spec fn days_from_civil(year: int, month: int, day: int) -> int {
    let y = if month <= 2 { year - 1 } else { year };
    let era = y / 400;
    let yoe = y % 400;
    let mp = if month > 2 { month - 3 } else { month + 9 };
    let doy = (153 * mp + 2) / 5 + day - 1;
    let doe = yoe * 365 + yoe / 4 - yoe / 100 + doy;
    era * 146097 + doe - 719468
}

/// The month that three letters name, January as 1.
pub open spec fn month_of(name: Seq<u8>) -> Option<int> {
    if name == month_name(1) { Some(1) }
    else if name == month_name(2) { Some(2) }
    else if name == month_name(3) { Some(3) }
    else if name == month_name(4) { Some(4) }
    else if name == month_name(5) { Some(5) }
    else if name == month_name(6) { Some(6) }
    else if name == month_name(7) { Some(7) }
    else if name == month_name(8) { Some(8) }
    else if name == month_name(9) { Some(9) }
    else if name == month_name(10) { Some(10) }
    else if name == month_name(11) { Some(11) }
    else if name == month_name(12) { Some(12) }
    else { None }
}

/// Whether an HTTP date has the fixed shape of RFC 1123:
/// `Www, DD Mon YYYY HH:MM:SS GMT`, with digits where the numbers stand.
pub open spec fn rfc1123_shape(v: Seq<u8>) -> bool {
    &&& v.len() == 29
    &&& v[3] == 0x2c && v[4] == 0x20 && v[7] == 0x20 && v[11] == 0x20 && v[16] == 0x20
    &&& v[19] == 0x3a && v[22] == 0x3a
    &&& v[25] == 0x20 && v[26] == 0x47 && v[27] == 0x4d && v[28] == 0x54
    &&& all_digits(v.subrange(5, 7)) && all_digits(v.subrange(12, 16)) && all_digits(v.subrange(17, 19))
    &&& all_digits(v.subrange(20, 22)) && all_digits(v.subrange(23, 25))
    &&& month_of(v.subrange(8, 11)) is Some
}

/// The milliseconds since the Unix epoch that an RFC 1123 date names, if it
/// is one: a day of 1 to 31, an hour to 23, a minute to 59, a second to 60
/// and a time that is not before the epoch.
pub open spec fn spec_http_date_ms(v: Seq<u8>) -> Option<u64> {
    if !rfc1123_shape(v) {
        None
    } else {
        let day = decimal_value(v.subrange(5, 7)) as int;
        let year = decimal_value(v.subrange(12, 16)) as int;
        let hour = decimal_value(v.subrange(17, 19)) as int;
        let minute = decimal_value(v.subrange(20, 22)) as int;
        let second = decimal_value(v.subrange(23, 25)) as int;
        let month = month_of(v.subrange(8, 11))->0;
        if !(1 <= day <= 31) || hour > 23 || minute > 59 || second > 60 {
            None
        } else {
            let seconds = days_from_civil(year, month, day) * 86400 + hour * 3600 + minute * 60 + second;
            if seconds < 0 { None } else { Some((seconds * 1000) as u64) }
        }
    }
}

// Reads a field of two or four digits.
fn number(bytes: &[u8]) -> (r: Option<u64>)
    requires
        bytes@.len() <= 4,
    ensures
        r is Some <==> all_digits(bytes@),
        r matches Some(v) ==> v == decimal_value(bytes@) && v < 10000,
{
    let mut value: u64 = 0;
    let mut i: usize = 0;
    while i < bytes.len()
        invariant
            bytes@.len() <= 4,
            i <= bytes@.len(),
            all_digits(bytes@.subrange(0, i as int)),
            value == decimal_value(bytes@.subrange(0, i as int)),
            value < if i == 0 { 1int } else if i == 1 { 10int } else if i == 2 { 100int } else if i == 3 { 1000int } else { 10000int },
        decreases bytes@.len() - i,
    {
        let b = bytes[i];
        if b < 0x30 || b > 0x39 {
            assert(!all_digits(bytes@)) by { assert(bytes@[i as int] == b); }
            return None;
        }
        proof {
            let t = bytes@.subrange(0, i + 1);
            assert(t.drop_last() =~= bytes@.subrange(0, i as int));
            assert forall|j: int| 0 <= j < t.len() implies 0x30 <= #[trigger] t[j] <= 0x39 by {
                if j < i { assert(t[j] == bytes@.subrange(0, i as int)[j]); }
            }
        }
        value = value * 10 + (b - 0x30) as u64;
        i = i + 1;
    }
    proof { assert(bytes@.subrange(0, bytes@.len() as int) =~= bytes@); }
    Some(value)
}

fn month_number(name: &[u8]) -> (r: Option<u64>)
    ensures
        r is Some <==> month_of(name@) is Some,
        r matches Some(m) ==> m == month_of(name@)->0,
{
    if name.len() != 3 {
        return None;
    }
    let a = name[0];
    let b = name[1];
    let c = name[2];
    let m: u64 = if a == 0x4a && b == 0x61 && c == 0x6e { 1 }
        else if a == 0x46 && b == 0x65 && c == 0x62 { 2 }
        else if a == 0x4d && b == 0x61 && c == 0x72 { 3 }
        else if a == 0x41 && b == 0x70 && c == 0x72 { 4 }
        else if a == 0x4d && b == 0x61 && c == 0x79 { 5 }
        else if a == 0x4a && b == 0x75 && c == 0x6e { 6 }
        else if a == 0x4a && b == 0x75 && c == 0x6c { 7 }
        else if a == 0x41 && b == 0x75 && c == 0x67 { 8 }
        else if a == 0x53 && b == 0x65 && c == 0x70 { 9 }
        else if a == 0x4f && b == 0x63 && c == 0x74 { 10 }
        else if a == 0x4e && b == 0x6f && c == 0x76 { 11 }
        else if a == 0x44 && b == 0x65 && c == 0x63 { 12 }
        else { 0 };
    proof {
        assert(name@ =~= seq![a, b, c]);
    }
    if m == 0 { None } else { Some(m) }
}

// The days from 1970-01-01 to a date with a year of at most four digits.
fn days_before(year: u64, month: u64, day: u64) -> (r: i64)
    requires
        year < 10000,
        1 <= month <= 12,
        1 <= day <= 31,
    ensures
        r == days_from_civil(year as int, month as int, day as int),
        -900000 <= r <= 3000000,
{
    let shifted: u64 = if month <= 2 { year + 399 } else { year + 400 };
    let era = shifted / 400;
    let yoe = shifted % 400;
    let mp: u64 = if month > 2 { month - 3 } else { month + 9 };
    let doy = (153 * mp + 2) / 5 + day - 1;
    let doe = yoe * 365 + yoe / 4 - yoe / 100 + doy;
    proof {
        let y: int = if month <= 2 { year - 1 } else { year as int };
        assert(shifted == y + 400);
        assert((y + 400) / 400 == y / 400 + 1 && (y + 400) % 400 == y % 400) by {
            vstd::arithmetic::div_mod::lemma_hoist_over_denominator(y, 1, 400);
            vstd::arithmetic::div_mod::lemma_mod_multiples_vanish(1, y, 400);
        }
    }
    let total = (era * 146097 + doe) as i64;
    total - 719468 - 146097
}

/// Reads an HTTP date as milliseconds since the Unix epoch.
///
/// Returns [`None`] if `value` is not an RFC 1123 date,
/// `Www, DD Mon YYYY HH:MM:SS GMT`, the only form these services send. The
/// day of the week is not checked.
pub fn http_date_ms(value: &[u8]) -> (r: Option<u64>)
    ensures
        r == spec_http_date_ms(value@),
{
    if value.len() != 29 || value[3] != 0x2c || value[4] != 0x20 || value[7] != 0x20 || value[11] != 0x20
        || value[16] != 0x20 || value[19] != 0x3a || value[22] != 0x3a
        || value[25] != 0x20 || value[26] != 0x47 || value[27] != 0x4d || value[28] != 0x54 {
        return None;
    }
    let day = match number(vstd::slice::slice_subrange(value, 5, 7)) { Some(v) => v, None => return None };
    let month = match month_number(vstd::slice::slice_subrange(value, 8, 11)) { Some(m) => m, None => return None };
    let year = match number(vstd::slice::slice_subrange(value, 12, 16)) { Some(v) => v, None => return None };
    let hour = match number(vstd::slice::slice_subrange(value, 17, 19)) { Some(v) => v, None => return None };
    let minute = match number(vstd::slice::slice_subrange(value, 20, 22)) { Some(v) => v, None => return None };
    let second = match number(vstd::slice::slice_subrange(value, 23, 25)) { Some(v) => v, None => return None };
    if !(1 <= day && day <= 31) || hour > 23 || minute > 59 || second > 60 {
        return None;
    }
    let days = days_before(year, month, day);
    let seconds: i64 = days * 86400 + (hour * 3600 + minute * 60 + second) as i64;
    if seconds < 0 {
        return None;
    }
    Some((seconds as u64) * 1000)
}


/// The number of `=` that end the base64 of `n` bytes.
pub open spec fn base64_padding(n: int) -> int {
    if n % 3 == 0 { 0 } else { 3 - n % 3 }
}

proof fn lemma_base64_char(x: int)
    requires
        0 <= x < 64,
    ensures
        base64_byte(base64_char(x)),
        base64_char(x) != 0x3d,
{
}

/// The base64 of `s` is characters of the alphabet followed by as many `=`
/// as [`base64_padding`] says.
pub(crate) proof fn lemma_base64_shape(s: Seq<u8>)
    ensures
        base64(s).len() == (s.len() + 2) / 3 * 4,
        forall|i: int| 0 <= i < base64(s).len() - base64_padding(s.len() as int) ==> base64_byte(#[trigger] base64(s)[i]),
        forall|i: int| base64(s).len() - base64_padding(s.len() as int) <= i < base64(s).len() ==> #[trigger] base64(s)[i] == 0x3d,
    decreases s.len(),
{
    lemma_base64_len(s);
    if s.len() > 0 {
        let m = if s.len() < 3 { s.len() as int } else { 3 };
        let g = s.subrange(0, m);
        let rest = s.subrange(m, s.len() as int);
        lemma_base64_shape(rest);
        let head = base64_group(g);
        let tail = base64(rest);
        let b0 = g[0] as int;
        let b1 = if g.len() > 1 { g[1] as int } else { 0 };
        let b2 = if g.len() > 2 { g[2] as int } else { 0 };
        lemma_base64_char(b0 / 4);
        lemma_base64_char((b0 % 4) * 16 + b1 / 16);
        lemma_base64_char((b1 % 16) * 4 + b2 / 64);
        lemma_base64_char(b2 % 64);
        assert(base64(s) == head + tail);
        assert forall|i: int| 0 <= i < base64(s).len() - base64_padding(s.len() as int) implies base64_byte(#[trigger] base64(s)[i]) by {
            if i >= 4 {
                assert(base64(s)[i] == tail[i - 4]);
            } else {
                assert(base64(s)[i] == head[i]);
            }
        }
        assert forall|i: int| base64(s).len() - base64_padding(s.len() as int) <= i < base64(s).len() implies #[trigger] base64(s)[i] == 0x3d by {
            if i >= 4 {
                assert(base64(s)[i] == tail[i - 4]);
            } else {
                assert(base64(s)[i] == head[i]);
            }
        }
    }
}

proof fn lemma_trailing_padding(t: Seq<u8>, k: int)
    requires
        0 <= k <= t.len(),
        forall|i: int| t.len() - k <= i < t.len() ==> #[trigger] t[i] == 0x3d,
        t.len() - k > 0 ==> t[t.len() - k - 1] != 0x3d,
    ensures
        trailing_padding(t) == k,
    decreases k,
{
    if k > 0 {
        let d = t.drop_last();
        assert forall|i: int| d.len() - (k - 1) <= i < d.len() implies #[trigger] d[i] == 0x3d by {
            assert(d[i] == t[i]);
        }
        if d.len() - (k - 1) > 0 {
            assert(d[d.len() - (k - 1) - 1] == t[t.len() - k - 1]);
        }
        lemma_trailing_padding(d, k - 1);
    }
}

/// A block ID that [`block_id`] writes is one that a stage and a commit
/// accept: the base64 of one to 64 bytes passes the check on block IDs.
pub proof fn law_written_block_ids_are_accepted(bytes: Seq<u8>)
    requires
        1 <= bytes.len() <= 64,
    ensures
        block_id_ok(base64(bytes)),
{
    let t = base64(bytes);
    let n = bytes.len() as int;
    let k = base64_padding(n);
    lemma_base64_shape(bytes);
    if t.len() - k > 0 {
        assert(base64_byte(t[t.len() - k - 1]));
    }
    lemma_trailing_padding(t, k);
    assert(t.len() / 4 * 3 - k == n) by {
        assert(t.len() == (n + 2) / 3 * 4);
    }
}

/// Quoting an entity tag once is quoting it for good: a tag that
/// [`quoted_etag`] wrote is written again unchanged.
pub proof fn law_quoting_an_etag_is_idempotent(listed: Seq<u8>)
    ensures
        spec_quoted_etag(spec_quoted_etag(listed)) == spec_quoted_etag(listed),
{
    let q = spec_quoted_etag(listed);
    if !etag_written_whole(listed) {
        assert(q[0] == 0x22);
        assert(q.last() == 0x22);
        assert(etag_written_whole(q));
    }
}


/// The date of a day in the range of an HTTP date is a date of a four-digit
/// year, and [`days_from_civil`] counts the days back to it.
proof fn lemma_civil_round_trip(d: nat)
    requires
        d <= LAST_HTTP_SECOND / 86400,
    ensures
        ({
            let (y, m, dd) = civil_from_days(d);
            &&& 1 <= m <= 12
            &&& 1 <= dd <= 31
            &&& 0 <= y <= 9999
            &&& days_from_civil(y, m, dd) == d
        }),
{
    reveal(civil_from_days);
    let z = d + 719468;
    let era = z / 146097;
    let doe = z - era * 146097;
    let yoe = (doe - doe / 1460 + doe / 36524 - doe / 146096) / 365;
    let doy = doe - (365 * yoe + yoe / 4 - yoe / 100);
    let mp = (5 * doy + 2) / 153;
    let day = doy - (153 * mp + 2) / 5 + 1;
    let month = if mp < 10 { mp + 3 } else { mp - 9 };
    let year = yoe + era * 400 + if month <= 2 { 1int } else { 0int };
    assert(0 <= doe < 146097 && 4 <= era <= 24) by (nonlinear_arith)
        requires
            z == d + 719468,
            d <= 2932896,
            era == z / 146097,
            doe == z - era * 146097,
    ;
    assert(0 <= yoe <= 399 && 0 <= doy <= 365) by (nonlinear_arith)
        requires
            0 <= doe < 146097,
            yoe == (doe - doe / 1460 + doe / 36524 - doe / 146096) / 365,
            doy == doe - (365 * yoe + yoe / 4 - yoe / 100),
    ;
    assert(0 <= mp <= 11 && 1 <= day <= 31) by (nonlinear_arith)
        requires
            0 <= doy <= 365,
            mp == (5 * doy + 2) / 153,
            day == doy - (153 * mp + 2) / 5 + 1,
    ;
    assert(year <= 9999) by (nonlinear_arith)
        requires
            z == d + 719468,
            d <= 2932896,
            era == z / 146097,
            doe == z - era * 146097,
            0 <= doe < 146097,
            yoe == (doe - doe / 1460 + doe / 36524 - doe / 146096) / 365,
            doy == doe - (365 * yoe + yoe / 4 - yoe / 100),
            mp == (5 * doy + 2) / 153,
            month == if mp < 10 { mp + 3 } else { mp - 9 },
            year == yoe + era * 400 + if month <= 2 { 1int } else { 0int },
    ;
    let y = if month <= 2 { year - 1 } else { year };
    assert(y == yoe + era * 400);
    assert(y / 400 == era && y % 400 == yoe) by {
        vstd::arithmetic::div_mod::lemma_fundamental_div_mod_converse(y, 400, era as int, yoe as int);
    }
    let mp2 = if month > 2 { month - 3 } else { month + 9 };
    assert(mp2 == mp);
}

proof fn lemma_two_digits(n: int)
    requires
        0 <= n < 100,
    ensures
        all_digits(two_digits(n)),
        decimal_value(two_digits(n)) == n,
{
    let s = two_digits(n);
    let (a, b) = (n / 10, n % 10);
    assert(a < 10 && a % 10 == a);
    assert(s[0] == 0x30 + a && s[1] == 0x30 + b);
    assert(s.drop_last() =~= seq![s[0]]);
    assert(seq![s[0]].drop_last() =~= Seq::<u8>::empty());
    assert(decimal_value(seq![s[0]]) == a) by {
        reveal_with_fuel(decimal_value, 2);
    }
    assert(decimal_value(s) == a * 10 + b);
}

proof fn lemma_four_digits(n: int)
    requires
        0 <= n < 10000,
    ensures
        all_digits(four_digits(n)),
        decimal_value(four_digits(n)) == n,
{
    let s = four_digits(n);
    let (a, b, c, d) = (n / 1000, (n / 100) % 10, (n / 10) % 10, n % 10);
    assert(a < 10 && a % 10 == a);
    assert(s[0] == 0x30 + a && s[1] == 0x30 + b && s[2] == 0x30 + c && s[3] == 0x30 + d);
    let s1 = seq![s[0]];
    let s2 = seq![s[0], s[1]];
    let s3 = seq![s[0], s[1], s[2]];
    assert(s.drop_last() =~= s3);
    assert(s3.drop_last() =~= s2);
    assert(s2.drop_last() =~= s1);
    assert(s1.drop_last() =~= Seq::<u8>::empty());
    assert(decimal_value(s1) == a) by {
        reveal_with_fuel(decimal_value, 2);
    }
    assert(decimal_value(s2) == a * 10 + b);
    assert(decimal_value(s3) == (a * 10 + b) * 10 + c);
    assert(decimal_value(s) == ((a * 10 + b) * 10 + c) * 10 + d);
    assert(((a * 10 + b) * 10 + c) * 10 + d == n) by (nonlinear_arith)
        requires
            0 <= n < 10000,
            a == n / 1000,
            b == (n / 100) % 10,
            c == (n / 10) % 10,
            d == n % 10,
    ;
}

proof fn lemma_month_of_name(m: int)
    requires
        1 <= m <= 12,
    ensures
        month_of(month_name(m)) == Some(m),
{
    let n = month_name(m);
    assert(n.len() == 3);
    if m >= 2 { assert(n[0] != month_name(1)[0] || n[1] != month_name(1)[1] || n[2] != month_name(1)[2]); }
    if m >= 3 { assert(n[0] != month_name(2)[0] || n[1] != month_name(2)[1] || n[2] != month_name(2)[2]); }
    if m >= 4 { assert(n[0] != month_name(3)[0] || n[1] != month_name(3)[1] || n[2] != month_name(3)[2]); }
    if m >= 5 { assert(n[0] != month_name(4)[0] || n[1] != month_name(4)[1] || n[2] != month_name(4)[2]); }
    if m >= 6 { assert(n[0] != month_name(5)[0] || n[1] != month_name(5)[1] || n[2] != month_name(5)[2]); }
    if m >= 7 { assert(n[0] != month_name(6)[0] || n[1] != month_name(6)[1] || n[2] != month_name(6)[2]); }
    if m >= 8 { assert(n[0] != month_name(7)[0] || n[1] != month_name(7)[1] || n[2] != month_name(7)[2]); }
    if m >= 9 { assert(n[0] != month_name(8)[0] || n[1] != month_name(8)[1] || n[2] != month_name(8)[2]); }
    if m >= 10 { assert(n[0] != month_name(9)[0] || n[1] != month_name(9)[1] || n[2] != month_name(9)[2]); }
    if m >= 11 { assert(n[0] != month_name(10)[0] || n[1] != month_name(10)[1] || n[2] != month_name(10)[2]); }
    if m >= 12 { assert(n[0] != month_name(11)[0] || n[1] != month_name(11)[1] || n[2] != month_name(11)[2]); }
}

/// A written HTTP date reads back as the time it was written from: for
/// every time that a request head can carry, [`http_date_ms`] of the date
/// that [`Timestamps::rfc1123`] writes is that time in milliseconds.
#[verifier::spinoff_prover]
#[verifier::rlimit(40)]
pub proof fn law_a_written_date_reads_back(seconds: u64)
    requires
        seconds <= LAST_HTTP_SECOND,
    ensures
        spec_http_date_ms(spec_rfc1123(seconds as nat)) == Some((seconds * 1000) as u64),
{
    let days = (seconds / 86400) as nat;
    let rest = (seconds % 86400) as nat;
    lemma_civil_round_trip(days);
    let (year, month, day) = civil_from_days(days);
    let v = spec_rfc1123(seconds as nat);
    let hour = (rest / 3600) as int;
    let minute = ((rest % 3600) / 60) as int;
    let second = (rest % 60) as int;
    lemma_two_digits(day);
    lemma_two_digits(hour);
    lemma_two_digits(minute);
    lemma_two_digits(second);
    lemma_four_digits(year);
    lemma_month_of_name(month);
    assert(v.len() == 29);
    assert(v.subrange(5, 7) =~= two_digits(day));
    assert(v.subrange(8, 11) =~= month_name(month));
    assert(v.subrange(12, 16) =~= four_digits(year));
    assert(v.subrange(17, 19) =~= two_digits(hour));
    assert(v.subrange(20, 22) =~= two_digits(minute));
    assert(v.subrange(23, 25) =~= two_digits(second));
    assert(rfc1123_shape(v));
    assert(days * 86400 + hour * 3600 + minute * 60 + second == seconds);
}

} // verus!
