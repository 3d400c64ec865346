//! The request head, as it is written into the caller's buffer.

use vstd::prelude::*;
use vstd::utf8::*;
use vstd::string::*;

use crate::error::CapacityError;
use crate::text::{utf8_text, decimal_digits, lemma_decimal_digits_ascii, lemma_ascii_is_utf8, all_ascii};
use crate::types::Payload;

verus! {

broadcast use vstd::string::group_string_axioms, vstd::utf8::group_utf8_lib, vstd::slice::group_slice_axioms;

/// The storage required to encode a request.
#[derive(Debug, Clone, Copy, Default, PartialEq, Eq)]
pub struct RequestSize {
    /// Bytes for the URL and headers.
    pub bytes: usize,
    /// Header descriptor slots.
    pub headers: usize,
}

/// A range of bytes, as an offset from the start of a buffer.
#[derive(Debug, Clone, Copy, Default, PartialEq, Eq)]
pub struct Span {
    /// The offset of the first byte.
    pub start: usize,
    /// The number of bytes.
    pub len: usize,
}

/// One header's name and value in the request buffer.
#[derive(Debug, Clone, Copy, Default, PartialEq, Eq)]
pub struct HeaderSpan {
    /// The header name.
    pub name: Span,
    /// The header value.
    pub value: Span,
}

/// The HTTP method of a request.
#[derive(Debug, Clone, Copy, PartialEq, Eq)]
pub enum Method {
    /// `GET`.
    Get,
    /// `HEAD`.
    Head,
    /// `PUT`.
    Put,
    /// `DELETE`.
    Delete,
}

impl Method {
    pub open spec fn spec_as_str(self) -> Seq<char> {
        match self {
            Method::Get => "GET"@,
            Method::Head => "HEAD"@,
            Method::Put => "PUT"@,
            Method::Delete => "DELETE"@,
        }
    }

    /// Returns the method as it is written on the wire.
    pub fn as_str(self) -> (r: &'static str)
        ensures
            r@ == self.spec_as_str(),
    {
        match self {
            Method::Get => "GET",
            Method::Head => "HEAD",
            Method::Put => "PUT",
            Method::Delete => "DELETE",
        }
    }
}

/// `n`, or `usize::MAX` if `n` does not fit.
pub open spec fn saturated(n: nat) -> usize {
    if n > usize::MAX { usize::MAX } else { n as usize }
}

/// The bytes of `text` that `span` names.
pub open spec fn span_of(text: Seq<u8>, span: Span) -> Seq<u8> {
    text.subrange(span.start as int, span.start + span.len)
}

/// Whether `span` lies within `len` bytes.
pub open spec fn span_within(span: Span, len: nat) -> bool {
    span.start + span.len <= len
}

/// A request borrowing caller-owned byte storage and header descriptors.
///
/// Send this with the HTTP client of your choice. Read the method, the URL,
/// the headers and the body, and give them to the client. Every byte of the
/// head is in the caller's buffer, so each part is also named by offset and
/// length.
#[derive(Debug, Clone, Copy)]
pub struct WireRequest<'r> {
    bytes: &'r [u8],
    method: Method,
    url: Span,
    headers: &'r [HeaderSpan],
    payload: Payload<'r>,
}

impl<'r> WireRequest<'r> {
    #[verifier::type_invariant]
    closed spec fn parts_are_text(self) -> bool {
        &&& span_within(self.url, self.bytes@.len())
        &&& valid_utf8(span_of(self.bytes@, self.url))
        &&& forall|i: int| 0 <= i < self.headers@.len() ==> {
            let h = #[trigger] self.headers@[i];
            &&& span_within(h.name, self.bytes@.len())
            &&& span_within(h.value, self.bytes@.len())
            &&& valid_utf8(span_of(self.bytes@, h.name))
            &&& valid_utf8(span_of(self.bytes@, h.value))
        }
    }

    /// Every byte of the head, in the order it was written.
    pub closed spec fn spec_bytes(self) -> Seq<u8> {
        self.bytes@
    }

    pub closed spec fn spec_method(self) -> Method {
        self.method
    }

    pub closed spec fn spec_url_span(self) -> Span {
        self.url
    }

    pub closed spec fn spec_header_spans(self) -> Seq<HeaderSpan> {
        self.headers@
    }

    pub closed spec fn spec_payload(self) -> Payload<'r> {
        self.payload
    }

    /// Whether the name and the value of every header lie within the bytes.
    pub open spec fn header_spans_fit(self) -> bool {
        forall|i: int| 0 <= i < self.spec_header_spans().len() ==> {
            &&& span_within(#[trigger] self.spec_header_spans()[i].name, self.spec_bytes().len())
            &&& span_within(self.spec_header_spans()[i].value, self.spec_bytes().len())
        }
    }

    /// The bytes of the URL.
    pub open spec fn spec_url(self) -> Seq<u8> {
        span_of(self.spec_bytes(), self.spec_url_span())
    }

    /// The name and the value of every header, in order.
    pub open spec fn spec_headers(self) -> Seq<(Seq<u8>, Seq<u8>)> {
        self.spec_header_spans().map_values(
            |h: HeaderSpan| (span_of(self.spec_bytes(), h.name), span_of(self.spec_bytes(), h.value)),
        )
    }

    /// Returns the caller-owned descriptor array used by this request.
    pub fn header_descriptors(&self) -> (r: &'r [HeaderSpan])
        ensures
            r@ == self.spec_header_spans(),
            self.header_spans_fit(),
    {
        proof { use_type_invariant(self); }
        self.headers
    }

    /// Returns the HTTP method.
    pub fn method(&self) -> (r: Method)
        ensures
            r == self.spec_method(),
    {
        self.method
    }

    /// Returns the complete object URL.
    pub fn url(&self) -> (r: &'r str)
        ensures
            r.spec_bytes() == self.spec_url(),
    {
        proof { use_type_invariant(self); }
        let _total = self.bytes.len();
        let bytes = vstd::slice::slice_subrange(self.bytes, self.url.start, self.url.start + self.url.len);
        match utf8_text(bytes) {
            Some(text) => text,
            None => "",
        }
    }

    /// Returns every header name and value, in the order they were written.
    ///
    /// The order of the headers does not matter to Azure.
    pub fn headers(&self) -> (r: Vec<(&'r str, &'r str)>)
        ensures
            r@.len() == self.spec_headers().len(),
            forall|i: int| 0 <= i < r@.len() ==> {
                &&& (#[trigger] r@[i]).0.spec_bytes() == self.spec_headers()[i].0
                &&& r@[i].1.spec_bytes() == self.spec_headers()[i].1
            },
    {
        proof { use_type_invariant(self); }
        let mut out: Vec<(&'r str, &'r str)> = Vec::new();
        let mut i: usize = 0;
        while i < self.headers.len()
            invariant
                i <= self.headers@.len(),
                out@.len() == i,
                self.parts_are_text(),
                forall|j: int| 0 <= j < i ==> {
                    &&& (#[trigger] out@[j]).0.spec_bytes() == self.spec_headers()[j].0
                    &&& out@[j].1.spec_bytes() == self.spec_headers()[j].1
                },
            decreases self.headers@.len() - i,
        {
            let h = self.headers[i];
            let _total = self.bytes.len();
            assert(self.headers@[i as int] == h);
            let name = vstd::slice::slice_subrange(self.bytes, h.name.start, h.name.start + h.name.len);
            let value = vstd::slice::slice_subrange(self.bytes, h.value.start, h.value.start + h.value.len);
            let name = match utf8_text(name) { Some(t) => t, None => "" };
            let value = match utf8_text(value) { Some(t) => t, None => "" };
            out.push((name, value));
            i += 1;
        }
        out
    }

    /// Returns the content of the request.
    ///
    /// A read has no content, so this is an empty [`Payload::Slice`] for a
    /// read. For a write of streamed content this states the length that you
    /// must send, and carries no bytes.
    pub fn payload(&self) -> (r: Payload<'r>)
        ensures
            r == self.spec_payload(),
    {
        self.payload
    }

    /// Returns the URL as a range of the buffer that holds the head.
    pub fn url_span(&self) -> (r: Span)
        ensures
            r == self.spec_url_span(),
            span_within(r, self.spec_bytes().len()),
    {
        proof { use_type_invariant(self); }
        self.url
    }

    /// Returns each header name and value as a range of that same buffer.
    pub fn header_spans(&self) -> (r: Vec<(Span, Span)>)
        ensures
            r@.len() == self.spec_header_spans().len(),
            forall|i: int| 0 <= i < r@.len() ==> #[trigger] r@[i] == (self.spec_header_spans()[i].name, self.spec_header_spans()[i].value),
            self.header_spans_fit(),
    {
        proof { use_type_invariant(self); }
        let mut out: Vec<(Span, Span)> = Vec::new();
        let mut i: usize = 0;
        while i < self.headers.len()
            invariant
                i <= self.headers@.len(),
                out@.len() == i,
                forall|j: int| 0 <= j < i ==> #[trigger] out@[j] == (self.headers@[j].name, self.headers@[j].value),
            decreases self.headers@.len() - i,
        {
            out.push((self.headers[i].name, self.headers[i].value));
            i += 1;
        }
        out
    }
}

/// A byte writer over a buffer of the caller's.
///
/// It keeps counting after its capacity is exhausted, so one pass produces
/// either the bytes or their exact length. Partial bytes are never returned.
///
/// Its fields are public so that contracts can follow the caller's buffer
/// through it; its methods keep [`Self::wf`], which they require.
pub struct Writer<'a> {
    pub bytes: &'a mut [u8],
    pub position: usize,
    pub overflowed: bool,
    pub written: Ghost<Seq<u8>>,
}

impl<'a> Writer<'a> {
    /// Every byte pushed so far, whether or not it fitted.
    pub closed spec fn written(&self) -> Seq<u8> {
        self.written@
    }

    /// The capacity of the buffer.
    pub closed spec fn capacity(&self) -> nat {
        self.bytes@.len()
    }

    pub closed spec fn wf(&self) -> bool {
        &&& self.position == saturated(self.written@.len())
        &&& self.overflowed == (self.written@.len() > usize::MAX)
        &&& self.written@.len() <= self.bytes@.len() ==> self.bytes@.subrange(0, self.written@.len() as int) == self.written@
    }

    /// A writer over `bytes` that has written nothing.
    pub fn new(bytes: &'a mut [u8]) -> (w: Self)
        ensures
            w.wf(),
            w.written() == Seq::<u8>::empty(),
            w.capacity() == old(bytes)@.len(),
            final(w.bytes)@ == final(bytes)@,
    {
        let w = Writer { bytes, position: 0, overflowed: false, written: Ghost(Seq::empty()) };
        assert(w.bytes@.subrange(0, 0) =~= Seq::<u8>::empty());
        w
    }

    /// A writer over `bytes` that has already counted `position` bytes
    /// that it did not keep, because they did not fit.
    pub fn counted(bytes: &'a mut [u8], position: usize) -> (w: Self)
        requires
            position > old(bytes)@.len(),
        ensures
            w.wf(),
            w.written().len() == position,
            w.capacity() == old(bytes)@.len(),
            final(w.bytes)@ == final(bytes)@,
    {
        Writer { bytes, position, overflowed: false, written: Ghost(Seq::new(position as nat, |i: int| 0u8)) }
    }

    /// Writes `value` after what was written, or only counts it if it does
    /// not fit.
    pub fn push(&mut self, value: &[u8])
        requires
            old(self).wf(),
        ensures
            final(self).wf(),
            final(self).written() == old(self).written() + value@,
            final(self).capacity() == old(self).capacity(),
            final(final(self).bytes)@ == final(old(self).bytes)@,
    {
        let ghost old_written = self.written@;
        let _capacity = self.bytes.len();
        if value.len() == 0 {
            assert(old_written + value@ =~= old_written);
            assert(self.wf());
            return;
        }
        match self.position.checked_add(value.len()) {
            None => {
                assert(self.position + value@.len() > usize::MAX);
                assert(self.position <= old_written.len());
                self.position = usize::MAX;
                self.overflowed = true;
            },
            Some(end) => {
                assert(!self.overflowed);
                assert(end == old_written.len() + value@.len());
                if end <= self.bytes.len() {
                    let start = self.position;
                    let mut i: usize = 0;
                    while i < value.len()
                        invariant
                            start + value@.len() == end,
                            end <= self.bytes@.len(),
                            self.bytes@.len() == old(self).bytes@.len(),
                            final(self.bytes)@ == final(old(self).bytes)@,
                            i <= value@.len(),
                            start == old_written.len(),
                            !self.overflowed,
                            self.bytes@.subrange(0, start as int) == old_written,
                            forall|j: int| 0 <= j < i ==> self.bytes@[start + j] == value@[j],
                        decreases value@.len() - i,
                    {
                        let ghost before = self.bytes@;
                        self.bytes[start + i] = value[i];
                        assert(self.bytes@.subrange(0, start as int) =~= before.subrange(0, start as int));
                        i += 1;
                    }
                    assert(self.bytes@.subrange(0, end as int) =~= old_written + value@);
                }
                self.position = end;
            },
        }
        self.written = Ghost(old_written + value@);
        assert(self.position == saturated(self.written@.len()));
        assert(self.overflowed == (self.written@.len() > usize::MAX));
    }

    /// The number of bytes written or counted so far.
    pub fn position(&self) -> (r: usize)
        requires
            self.wf(),
        ensures
            r == saturated(self.written().len()),
    {
        self.position
    }

    /// The written bytes, or `None` if they did not fit.
    pub fn finish(self) -> (r: Option<&'a [u8]>)
        requires
            self.wf(),
        ensures
            r is Some <==> self.written().len() <= self.capacity(),
            r matches Some(b) ==> b@ == self.written(),
            r matches Some(b) ==> final(self.bytes)@.subrange(0, b@.len() as int) == b@,
            final(self.bytes)@ == old(self.bytes)@,
    {
        let p = self.position;
        let overflowed = self.overflowed;
        let bytes: &'a [u8] = self.bytes;
        let capacity = bytes.len();
        if !overflowed && p <= capacity {
            Some(vstd::slice::slice_subrange(bytes, 0, p))
        } else {
            None
        }
    }
}


/// A request names each of its parts by a span of its bytes: the URL is
/// the text of its URL span, there is one header per header span, and each
/// header's name and value are the text of that span's name and value, in
/// the same order. The bytes are the head as written: the URL, then every
/// header, name then value.
pub proof fn law_a_request_names_its_parts_by_span<'r>(req: WireRequest<'r>)
    ensures
        req.spec_url() == span_of(req.spec_bytes(), req.spec_url_span()),
        req.spec_headers().len() == req.spec_header_spans().len(),
        forall|i: int| 0 <= i < req.spec_header_spans().len() ==> #[trigger] req.spec_headers()[i] == (
            span_of(req.spec_bytes(), req.spec_header_spans()[i].name),
            span_of(req.spec_bytes(), req.spec_header_spans()[i].value),
        ),
{
}

/// A request's bytes are the start of the buffer it was written into, so
/// its spans name its parts in that buffer too: the URL is the text of the
/// buffer at the URL span, and each header's name and value are the text of
/// the buffer at that header's spans, in order.
pub proof fn law_a_request_names_its_parts_in_the_buffer<'r>(req: WireRequest<'r>, buf: Seq<u8>)
    requires
        req.spec_bytes().len() <= buf.len(),
        buf.subrange(0, req.spec_bytes().len() as int) == req.spec_bytes(),
        span_within(req.spec_url_span(), req.spec_bytes().len()),
        req.header_spans_fit(),
    ensures
        req.spec_url() == span_of(buf, req.spec_url_span()),
        req.spec_headers().len() == req.spec_header_spans().len(),
        forall|i: int| 0 <= i < req.spec_header_spans().len() ==> #[trigger] req.spec_headers()[i] == (
            span_of(buf, req.spec_header_spans()[i].name),
            span_of(buf, req.spec_header_spans()[i].value),
        ),
{
    let n = req.spec_bytes().len() as int;
    let u = req.spec_url_span();
    assert(span_of(req.spec_bytes(), u) =~= span_of(buf, u));
    assert forall|i: int| 0 <= i < req.spec_header_spans().len() implies #[trigger] req.spec_headers()[i] == (
        span_of(buf, req.spec_header_spans()[i].name),
        span_of(buf, req.spec_header_spans()[i].value),
    ) by {
        let h = req.spec_header_spans()[i];
        assert(span_of(req.spec_bytes(), h.name) =~= span_of(buf, h.name));
        assert(span_of(req.spec_bytes(), h.value) =~= span_of(buf, h.value));
    }
}

/// The bytes of every header, name then value, in order.
pub open spec fn headers_text(headers: Seq<(Seq<u8>, Seq<u8>)>) -> Seq<u8>
    decreases headers.len(),
{
    if headers.len() == 0 {
        Seq::empty()
    } else {
        headers_text(headers.drop_last()) + headers.last().0 + headers.last().1
    }
}

/// The bytes of a whole head: the URL, then every header.
pub open spec fn head_text(url: Seq<u8>, headers: Seq<(Seq<u8>, Seq<u8>)>) -> Seq<u8> {
    url + headers_text(headers)
}

proof fn lemma_headers_text_push_empty(h: Seq<(Seq<u8>, Seq<u8>)>)
    ensures
        headers_text(h.push((Seq::<u8>::empty(), Seq::<u8>::empty()))) == headers_text(h),
{
    let e = Seq::<u8>::empty();
    assert(h.push((e, e)).drop_last() =~= h);
    assert(headers_text(h) + e + e =~= headers_text(h));
}

proof fn lemma_headers_text_grow_name(h: Seq<(Seq<u8>, Seq<u8>)>, x: Seq<u8>)
    requires
        h.len() > 0,
        h.last().1.len() == 0,
    ensures
        headers_text(h.update(h.len() - 1, (h.last().0 + x, h.last().1))) == headers_text(h) + x,
{
    let h2 = h.update(h.len() - 1, (h.last().0 + x, h.last().1));
    assert(h2.drop_last() =~= h.drop_last());
    assert(h.last().1 =~= Seq::<u8>::empty());
    assert(headers_text(h.drop_last()) + (h.last().0 + x) + h.last().1 =~= headers_text(h.drop_last()) + h.last().0 + h.last().1 + x);
}

proof fn lemma_headers_text_grow_value(h: Seq<(Seq<u8>, Seq<u8>)>, x: Seq<u8>)
    requires
        h.len() > 0,
    ensures
        headers_text(h.update(h.len() - 1, (h.last().0, h.last().1 + x))) == headers_text(h) + x,
{
    let h2 = h.update(h.len() - 1, (h.last().0, h.last().1 + x));
    assert(h2.drop_last() =~= h.drop_last());
    assert(headers_text(h.drop_last()) + h.last().0 + (h.last().1 + x) =~= headers_text(h.drop_last()) + h.last().0 + h.last().1 + x);
}

/// Which part of the head the writer is writing.
#[derive(Clone, Copy, PartialEq, Eq)]
pub enum HeadPart {
    /// The URL.
    Url,
    /// The name of the last header.
    Name,
    /// The value of the last header.
    Value,
    /// Nothing: every part is complete.
    Closed,
}

/// The head as it is written: every byte of it goes into the caller's
/// buffer, and every part of it is recorded as a range of that buffer.
///
/// The URL comes first. Each header is then started with
/// [`Self::header_name`], whose bytes follow, and [`Self::header_value`],
/// whose bytes follow in turn.
///
/// Its fields are public so that contracts can follow the caller's buffer
/// through it; its methods keep [`Self::wf`], which they require.
pub struct HeadWriter<'a> {
    pub out: Writer<'a>,
    pub url: Span,
    pub headers: &'a mut [HeaderSpan],
    pub count: usize,
    pub name: Span,
    pub part_start: usize,
    pub part: HeadPart,
    pub headers_overflowed: bool,
    pub url_bytes: Ghost<Seq<u8>>,
    pub header_bytes: Ghost<Seq<(Seq<u8>, Seq<u8>)>>,
    pub closed: Ghost<Seq<HeaderSpan>>,
    pub exact: Ghost<bool>,
}

impl<'a> HeadWriter<'a> {
    /// The bytes of the URL.
    pub closed spec fn url_bytes(&self) -> Seq<u8> {
        self.url_bytes@
    }

    /// The bytes of every header started so far, name then value.
    pub closed spec fn header_bytes(&self) -> Seq<(Seq<u8>, Seq<u8>)> {
        self.header_bytes@
    }

    /// Which part the next bytes belong to.
    pub closed spec fn current(&self) -> HeadPart {
        self.part
    }

    /// The capacity of the byte buffer.
    pub closed spec fn byte_capacity(&self) -> nat {
        self.out.capacity()
    }

    /// The capacity of the header array.
    pub closed spec fn header_capacity(&self) -> nat {
        self.headers@.len()
    }

    /// Every byte written or counted, in order.
    pub open spec fn text(&self) -> Seq<u8> {
        head_text(self.url_bytes(), self.header_bytes())
    }

    /// Whether every part is UTF-8 text.
    pub open spec fn parts_are_text(&self) -> bool {
        &&& valid_utf8(self.url_bytes())
        &&& forall|i: int| 0 <= i < self.header_bytes().len() ==> {
            &&& valid_utf8(#[trigger] self.header_bytes()[i].0)
            &&& valid_utf8(self.header_bytes()[i].1)
        }
    }

    closed spec fn closed_count(&self) -> nat {
        if self.part == HeadPart::Url || self.part == HeadPart::Closed {
            self.header_bytes@.len()
        } else {
            (self.header_bytes@.len() - 1) as nat
        }
    }

    pub closed spec fn wf(&self) -> bool {
        &&& self.out.wf()
        &&& self.out.written() == self.text()
        &&& self.count == saturated(self.header_bytes@.len())
        &&& self.part == HeadPart::Url ==> self.header_bytes@.len() == 0
        &&& self.headers_overflowed == (self.header_bytes@.len() > usize::MAX)
        &&& (self.part == HeadPart::Name || self.part == HeadPart::Value) ==> self.header_bytes@.len() > 0
        &&& self.part_start <= saturated(self.text().len())
        &&& self.part == HeadPart::Name ==> self.header_bytes@.len() == 0 || self.header_bytes@.last().1.len() == 0
        &&& !self.exact@ ==> (self.text().len() > usize::MAX || self.header_bytes@.len() > self.headers@.len())
        &&& self.exact@ ==> self.exact_wf()
    }

    closed spec fn exact_wf(&self) -> bool {
        let text = self.text();
        let h = self.header_bytes@;
        &&& text.len() <= usize::MAX
        &&& self.parts_are_text()
        &&& self.closed@.len() == self.closed_count()
        &&& self.url.start == 0
        &&& (self.part == HeadPart::Url ==> self.part_start == 0 && self.url_bytes@ == text)
        &&& (self.part != HeadPart::Url ==> self.url.len == self.url_bytes@.len())
        &&& self.header_bytes@.len() <= usize::MAX
        &&& self.url_bytes@.len() <= text.len()
        &&& text.subrange(0, self.url_bytes@.len() as int) == self.url_bytes@
        &&& (forall|i: int| 0 <= i < self.closed@.len() ==> {
            let s = #[trigger] self.closed@[i];
            &&& span_within(s.name, text.len())
            &&& span_within(s.value, text.len())
            &&& span_of(text, s.name) == h[i].0
            &&& span_of(text, s.value) == h[i].1
        })
        &&& (forall|i: int| 0 <= i < self.closed@.len() && i < self.headers@.len() ==> #[trigger] self.headers@[i] == self.closed@[i])
        &&& (self.part == HeadPart::Name ==> {
            &&& self.part_start + h.last().0.len() == text.len()
            &&& text.subrange(self.part_start as int, text.len() as int) == h.last().0
        })
        &&& (self.part == HeadPart::Value ==> {
            &&& self.part_start + h.last().1.len() == text.len()
            &&& text.subrange(self.part_start as int, text.len() as int) == h.last().1
            &&& span_within(self.name, text.len())
            &&& span_of(text, self.name) == h.last().0
        })
    }

    /// A header that is being written has a name, and maybe a value, in
    /// the last entry of the header list.
    pub proof fn lemma_open_header(&self)
        requires
            self.wf(),
        ensures
            (self.current() == HeadPart::Name || self.current() == HeadPart::Value)
                ==> self.header_bytes().len() > 0,
            self.current() == HeadPart::Url ==> self.header_bytes().len() == 0,
    {
    }

    /// A head writer over a byte buffer and a header array, with nothing
    /// written yet. The URL is written first.
    pub fn new(bytes: &'a mut [u8], headers: &'a mut [HeaderSpan]) -> (w: Self)
        ensures
            w.wf(),
            w.url_bytes() == Seq::<u8>::empty(),
            w.header_bytes() == Seq::<(Seq<u8>, Seq<u8>)>::empty(),
            w.current() == HeadPart::Url,
            w.byte_capacity() == old(bytes)@.len(),
            w.header_capacity() == old(headers)@.len(),
            final(w.out.bytes)@ == final(bytes)@,
    {
        let out = Writer::new(bytes);
        let w = HeadWriter {
            out,
            url: Span { start: 0, len: 0 },
            headers,
            count: 0,
            name: Span { start: 0, len: 0 },
            part_start: 0,
            part: HeadPart::Url,
            headers_overflowed: false,
            url_bytes: Ghost(Seq::empty()),
            header_bytes: Ghost(Seq::empty()),
            closed: Ghost(Seq::empty()),
            exact: Ghost(true),
        };
        proof {
            assert(w.text() =~= Seq::<u8>::empty());
            assert(valid_utf8(Seq::<u8>::empty())) by { reveal_with_fuel(valid_utf8, 1); }
            assert(w.text().subrange(0, 0) =~= Seq::<u8>::empty());
        }
        w
    }

    /// A head writer that has already counted `count` headers that did not
    /// fit its header array.
    pub fn counted(bytes: &'a mut [u8], headers: &'a mut [HeaderSpan], count: usize) -> (w: Self)
        requires
            count > old(headers)@.len(),
        ensures
            w.wf(),
            w.header_bytes().len() == count,
            w.byte_capacity() == old(bytes)@.len(),
            w.header_capacity() == old(headers)@.len(),
            final(w.out.bytes)@ == final(bytes)@,
    {
        let out = Writer::new(bytes);
        let ghost empty = Seq::<u8>::empty();
        let ghost h = Seq::new(count as nat, |i: int| (empty, empty));
        let w = HeadWriter {
            out,
            url: Span { start: 0, len: 0 },
            headers,
            count,
            name: Span { start: 0, len: 0 },
            part_start: 0,
            part: HeadPart::Value,
            headers_overflowed: false,
            url_bytes: Ghost(Seq::empty()),
            header_bytes: Ghost(h),
            closed: Ghost(Seq::empty()),
            exact: Ghost(false),
        };
        proof {
            lemma_headers_text_empty_pairs(count as nat);
            assert(w.text() =~= Seq::<u8>::empty());
        }
        w
    }

    /// The number of bytes written or counted so far.
    pub fn position(&self) -> (r: usize)
        requires
            self.wf(),
        ensures
            r == saturated(self.text().len()),
    {
        self.out.position()
    }

    /// The capacities that this head needs, given the `available` bytes.
    pub fn capacity(&self, available: usize) -> (r: CapacityError)
        requires
            self.wf(),
        ensures
            r.required == saturated(self.text().len()),
            r.available == available,
            r.required_headers == saturated(self.header_bytes().len()),
            r.available_headers == self.header_capacity(),
    {
        CapacityError {
            required: self.out.position(),
            available,
            required_headers: self.count,
            available_headers: self.headers.len(),
        }
    }

    /// Appends `value` to the part being written.
    pub fn push(&mut self, value: &[u8])
        requires
            old(self).wf(),
            old(self).current() != HeadPart::Closed,
            valid_utf8(value@),
        ensures
            final(self).wf(),
            final(self).current() == old(self).current(),
            final(self).byte_capacity() == old(self).byte_capacity(),
            final(self).header_capacity() == old(self).header_capacity(),
            old(self).current() == HeadPart::Url ==> final(self).url_bytes() == old(self).url_bytes() + value@
                && final(self).header_bytes() == old(self).header_bytes(),
            old(self).current() == HeadPart::Name ==> final(self).url_bytes() == old(self).url_bytes()
                && final(self).header_bytes() == old(self).header_bytes().update(
                    old(self).header_bytes().len() - 1,
                    (old(self).header_bytes().last().0 + value@, old(self).header_bytes().last().1)),
            old(self).current() == HeadPart::Value ==> final(self).url_bytes() == old(self).url_bytes()
                && final(self).header_bytes() == old(self).header_bytes().update(
                    old(self).header_bytes().len() - 1,
                    (old(self).header_bytes().last().0, old(self).header_bytes().last().1 + value@)),
            final(final(self).out.bytes)@ == final(old(self).out.bytes)@,
    {
        let ghost old_text = self.text();
        let ghost h = self.header_bytes@;
        self.out.push(value);
        proof {
            match self.part {
                HeadPart::Url => {
                    self.url_bytes@ = self.url_bytes@ + value@;
                    assert(self.text() =~= old_text + value@);
                },
                HeadPart::Name => {
                    if h.len() > 0 {
                        lemma_headers_text_grow_name(h, value@);
                        self.header_bytes@ = h.update(h.len() - 1, (h.last().0 + value@, h.last().1));
                        assert(self.text() =~= old_text + value@);
                    }
                },
                HeadPart::Value => {
                    lemma_headers_text_grow_value(h, value@);
                    self.header_bytes@ = h.update(h.len() - 1, (h.last().0, h.last().1 + value@));
                    assert(self.text() =~= old_text + value@);
                },
                HeadPart::Closed => {},
            }
            if self.exact@ {
                if self.text().len() > usize::MAX {
                    self.exact@ = false;
                } else {
                    let text = self.text();
                    assert(text.subrange(0, old_text.len() as int) =~= old_text);
                    assert(text.subrange(0, self.url_bytes@.len() as int) =~= self.url_bytes@) by {
                        if self.part == HeadPart::Url {
                            assert(self.header_bytes@.len() == 0);
                            assert(text =~= self.url_bytes@);
                        } else {
                            assert(self.url_bytes@.len() <= old_text.len());
                            assert(text.subrange(0, self.url_bytes@.len() as int) =~= old_text.subrange(0, self.url_bytes@.len() as int));
                        }
                    }
                    assert forall|i: int| 0 <= i < self.closed@.len() implies {
                        let s = #[trigger] self.closed@[i];
                        &&& span_within(s.name, text.len())
                        &&& span_within(s.value, text.len())
                        &&& span_of(text, s.name) == self.header_bytes@[i].0
                        &&& span_of(text, s.value) == self.header_bytes@[i].1
                    } by {
                        let s = self.closed@[i];
                        assert(span_of(text, s.name) =~= span_of(old_text, s.name));
                        assert(span_of(text, s.value) =~= span_of(old_text, s.value));
                        assert(self.header_bytes@[i] == h[i]);
                    }
                    match self.part {
                        HeadPart::Url => {
                            assert(valid_utf8(self.url_bytes@)) by {
                                valid_utf8_concat(self.url_bytes@.subrange(0, self.url_bytes@.len() - value@.len()), value@);
                                assert(old_text + value@ =~= self.url_bytes@);
                            }
                        },
                        HeadPart::Name => {
                            let last = self.header_bytes@.last();
                            valid_utf8_concat(h.last().0, value@);
                            assert(text.subrange(self.part_start as int, text.len() as int) =~= old_text.subrange(self.part_start as int, old_text.len() as int) + value@);
                            assert forall|i: int| 0 <= i < self.header_bytes@.len() implies {
                                &&& valid_utf8(#[trigger] self.header_bytes@[i].0)
                                &&& valid_utf8(self.header_bytes@[i].1)
                            } by {
                                if i < h.len() - 1 { assert(self.header_bytes@[i] == h[i]); }
                            }
                        },
                        HeadPart::Value => {
                            valid_utf8_concat(h.last().1, value@);
                            assert(text.subrange(self.part_start as int, text.len() as int) =~= old_text.subrange(self.part_start as int, old_text.len() as int) + value@);
                            assert(span_of(text, self.name) =~= span_of(old_text, self.name));
                            assert forall|i: int| 0 <= i < self.header_bytes@.len() implies {
                                &&& valid_utf8(#[trigger] self.header_bytes@[i].0)
                                &&& valid_utf8(self.header_bytes@[i].1)
                            } by {
                                if i < h.len() - 1 { assert(self.header_bytes@[i] == h[i]); }
                            }
                        },
                        HeadPart::Closed => {},
                    }
                }
            }
        }
    }

    /// Appends the bytes of `value` to the part being written.
    pub fn push_str(&mut self, value: &str)
        requires
            old(self).wf(),
            old(self).current() != HeadPart::Closed,
        ensures
            final(self).wf(),
            final(self).current() == old(self).current(),
            final(self).byte_capacity() == old(self).byte_capacity(),
            final(self).header_capacity() == old(self).header_capacity(),
            old(self).current() == HeadPart::Url ==> final(self).url_bytes() == old(self).url_bytes() + value.spec_bytes()
                && final(self).header_bytes() == old(self).header_bytes(),
            old(self).current() == HeadPart::Name ==> final(self).url_bytes() == old(self).url_bytes()
                && final(self).header_bytes() == old(self).header_bytes().update(
                    old(self).header_bytes().len() - 1,
                    (old(self).header_bytes().last().0 + value.spec_bytes(), old(self).header_bytes().last().1)),
            old(self).current() == HeadPart::Value ==> final(self).url_bytes() == old(self).url_bytes()
                && final(self).header_bytes() == old(self).header_bytes().update(
                    old(self).header_bytes().len() - 1,
                    (old(self).header_bytes().last().0, old(self).header_bytes().last().1 + value.spec_bytes())),
            final(final(self).out.bytes)@ == final(old(self).out.bytes)@,
    {
        let bytes = value.as_bytes();
        proof { encode_utf8_valid_utf8(value@); }
        self.push(bytes);
    }

    // Completes the part being written: the URL, or the last header, whose
    // descriptor is then written if the array has room.
    fn seal(&mut self)
        requires
            old(self).wf(),
        ensures
            final(self).wf(),
            final(self).current() == HeadPart::Closed,
            final(self).url_bytes() == old(self).url_bytes(),
            final(self).header_bytes() == old(self).header_bytes(),
            final(self).byte_capacity() == old(self).byte_capacity(),
            final(self).header_capacity() == old(self).header_capacity(),
            final(self).exact@ == old(self).exact@,
            final(self).count == old(self).count,
            final(final(self).out.bytes)@ == final(old(self).out.bytes)@,
    {
        let position = self.out.position();
        let ghost text = self.text();
        let ghost h = self.header_bytes@;
        match self.part {
            HeadPart::Url => {
                self.url = Span { start: self.part_start, len: position - self.part_start };
                self.part = HeadPart::Closed;
            },
            HeadPart::Closed => {},
            HeadPart::Name => {
                let span = HeaderSpan {
                    name: Span { start: self.part_start, len: position - self.part_start },
                    value: Span { start: position, len: 0 },
                };
                proof {
                    if self.exact@ {
                        assert(span_of(text, span.value) =~= Seq::<u8>::empty());
                        assert(h.last().1 =~= Seq::<u8>::empty());
                    }
                }
                self.record(span);
                self.part = HeadPart::Closed;
                proof { self.lemma_recorded(span, text); }
            },
            HeadPart::Value => {
                let span = HeaderSpan {
                    name: self.name,
                    value: Span { start: self.part_start, len: position - self.part_start },
                };
                self.record(span);
                self.part = HeadPart::Closed;
                proof { self.lemma_recorded(span, text); }
            },
        }
        proof {
            if self.exact@ {
                assert(self.closed@.len() == self.closed_count());
            }
        }
    }

    proof fn lemma_recorded(&self, span: HeaderSpan, text: Seq<u8>)
        requires
            self.exact@ ==> {
                &&& self.closed@.len() >= 1
                &&& self.closed@.last() == span
                &&& text == self.text()
                &&& span_within(span.name, text.len())
                &&& span_within(span.value, text.len())
                &&& span_of(text, span.name) == self.header_bytes@[self.closed@.len() - 1].0
                &&& span_of(text, span.value) == self.header_bytes@[self.closed@.len() - 1].1
                &&& forall|i: int| 0 <= i < self.closed@.len() - 1 ==> {
                    let s = #[trigger] self.closed@[i];
                    &&& span_within(s.name, text.len())
                    &&& span_within(s.value, text.len())
                    &&& span_of(text, s.name) == self.header_bytes@[i].0
                    &&& span_of(text, s.value) == self.header_bytes@[i].1
                }
            },
        ensures
            self.exact@ ==> forall|i: int| 0 <= i < self.closed@.len() ==> {
                let s = #[trigger] self.closed@[i];
                &&& span_within(s.name, self.text().len())
                &&& span_within(s.value, self.text().len())
                &&& span_of(self.text(), s.name) == self.header_bytes@[i].0
                &&& span_of(self.text(), s.value) == self.header_bytes@[i].1
            },
    {
        if self.exact@ {
            assert forall|i: int| 0 <= i < self.closed@.len() implies {
                let s = #[trigger] self.closed@[i];
                &&& span_within(s.name, self.text().len())
                &&& span_within(s.value, self.text().len())
                &&& span_of(self.text(), s.name) == self.header_bytes@[i].0
                &&& span_of(self.text(), s.value) == self.header_bytes@[i].1
            } by {
                if i == self.closed@.len() - 1 {
                } else {
                }
            }
        }
    }

    // Records the spans of the last header, which is complete.
    fn record(&mut self, span: HeaderSpan)
        requires
            old(self).wf(),
            old(self).current() == HeadPart::Name || old(self).current() == HeadPart::Value,
            old(self).exact@ ==> {
                &&& span_within(span.name, old(self).text().len())
                &&& span_within(span.value, old(self).text().len())
                &&& span_of(old(self).text(), span.name) == old(self).header_bytes().last().0
                &&& span_of(old(self).text(), span.value) == old(self).header_bytes().last().1
            },
        ensures
            final(self).out == old(self).out,
            final(self).url == old(self).url,
            final(self).part == old(self).part,
            final(self).part_start == old(self).part_start,
            final(self).headers_overflowed == old(self).headers_overflowed,
            final(self).name == old(self).name,
            final(self).count == old(self).count,
            final(self).url_bytes@ == old(self).url_bytes@,
            final(self).header_bytes@ == old(self).header_bytes@,
            final(self).exact@ == old(self).exact@,
            final(self).headers@.len() == old(self).headers@.len(),
            final(self).closed@ == old(self).closed@.push(span),
            old(self).exact@ ==> (forall|i: int| 0 <= i < final(self).closed@.len() && i < final(self).headers@.len()
                ==> #[trigger] final(self).headers@[i] == final(self).closed@[i]),
            final(final(self).out.bytes)@ == final(old(self).out.bytes)@,
    {
        let index = self.count - 1;
        if index < self.headers.len() {
            self.headers[index] = span;
        }
        proof {
            let old_closed = self.closed@;
            self.closed@ = self.closed@.push(span);
            if self.exact@ {
                assert(index == old_closed.len());
                assert forall|i: int| 0 <= i < self.closed@.len() && i < self.headers@.len()
                    implies #[trigger] self.headers@[i] == self.closed@[i] by {
                    if i < old_closed.len() {
                        assert(self.headers@[i] == old(self).headers@[i]);
                    }
                }
            }
        }
    }

    /// Starts the next header. Its name follows.
    pub fn header_name(&mut self)
        requires
            old(self).wf(),
        ensures
            final(self).wf(),
            final(self).current() == HeadPart::Name,
            final(self).url_bytes() == old(self).url_bytes(),
            final(self).header_bytes() == old(self).header_bytes().push((Seq::<u8>::empty(), Seq::<u8>::empty())),
            final(self).byte_capacity() == old(self).byte_capacity(),
            final(self).header_capacity() == old(self).header_capacity(),
            final(final(self).out.bytes)@ == final(old(self).out.bytes)@,
    {
        self.seal();
        let position = self.out.position();
        let _slots = self.headers.len();
        let ghost h = self.header_bytes@;
        let ghost text = self.text();
        proof {
            if self.exact@ {
                assert forall|i: int| 0 <= i < h.len() implies valid_utf8(#[trigger] h[i].0) && valid_utf8(h[i].1) by {
                    assert(h[i] == self.header_bytes()[i]);
                }
            }
        }
        self.part = HeadPart::Name;
        self.part_start = position;
        if self.count == usize::MAX {
            self.headers_overflowed = true;
        }
        self.count = self.count.saturating_add(1);
        proof {
            let e = Seq::<u8>::empty();
            lemma_headers_text_push_empty(h);
            self.header_bytes@ = h.push((e, e));
            assert(self.text() == text);
            if self.exact@ {
                if h.len() + 1 > usize::MAX {
                    self.exact@ = false;
                    assert(self.header_bytes@.len() > self.headers@.len());
                } else {
                    assert(text.subrange(text.len() as int, text.len() as int) =~= e);
                    assert forall|i: int| 0 <= i < self.header_bytes().len() implies {
                        &&& valid_utf8(#[trigger] self.header_bytes()[i].0)
                        &&& valid_utf8(self.header_bytes()[i].1)
                    } by {
                        if i < h.len() {
                            assert(self.header_bytes@[i] == h[i]);
                            assert(valid_utf8(h[i].0) && valid_utf8(h[i].1));
                        } else {
                            assert(self.header_bytes@[i] == (e, e));
                            assert(valid_utf8(e)) by { reveal_with_fuel(valid_utf8, 1); }
                        }
                    }
                    assert forall|i: int| 0 <= i < self.closed@.len() implies {
                        let s = #[trigger] self.closed@[i];
                        &&& span_of(text, s.name) == self.header_bytes@[i].0
                        &&& span_of(text, s.value) == self.header_bytes@[i].1
                    } by {
                        assert(self.header_bytes@[i] == h[i]);
                    }
                }
            }
        }
    }

    /// Starts the value of the header whose name was just written.
    pub fn header_value(&mut self)
        requires
            old(self).wf(),
            old(self).current() == HeadPart::Name,
        ensures
            final(self).wf(),
            final(self).current() == HeadPart::Value,
            final(self).url_bytes() == old(self).url_bytes(),
            final(self).header_bytes() == old(self).header_bytes(),
            final(self).byte_capacity() == old(self).byte_capacity(),
            final(self).header_capacity() == old(self).header_capacity(),
            final(final(self).out.bytes)@ == final(old(self).out.bytes)@,
    {
        let position = self.out.position();
        let ghost text = self.text();
        self.name = Span { start: self.part_start, len: position - self.part_start };
        self.part = HeadPart::Value;
        self.part_start = position;
        proof {
            if self.exact@ {
                assert(text.subrange(text.len() as int, text.len() as int) =~= Seq::<u8>::empty());
                assert(self.header_bytes@.last().1 =~= Seq::<u8>::empty());
            }
        }
    }

    /// Writes one header whose name and value are given whole.
    pub fn header(&mut self, name: &str, value: &[u8])
        requires
            old(self).wf(),
            valid_utf8(value@),
        ensures
            final(self).wf(),
            final(self).current() == HeadPart::Value,
            final(self).url_bytes() == old(self).url_bytes(),
            final(self).header_bytes() == old(self).header_bytes().push((name.spec_bytes(), value@)),
            final(self).byte_capacity() == old(self).byte_capacity(),
            final(self).header_capacity() == old(self).header_capacity(),
            final(final(self).out.bytes)@ == final(old(self).out.bytes)@,
    {
        self.header_name();
        self.push_str(name);
        self.header_value();
        self.push(value);
        proof {
            let e = Seq::<u8>::empty();
            let h = old(self).header_bytes().push((e, e));
            assert(h.update(h.len() - 1, (h.last().0 + name.spec_bytes(), h.last().1)).update(h.len() - 1,
                (h.last().0 + name.spec_bytes(), h.last().1 + value@)) =~= old(self).header_bytes().push((name.spec_bytes(), value@)));
        }
    }

    /// Writes one header whose name and value are both text.
    pub fn header_str(&mut self, name: &str, value: &str)
        requires
            old(self).wf(),
        ensures
            final(self).wf(),
            final(self).current() == HeadPart::Value,
            final(self).url_bytes() == old(self).url_bytes(),
            final(self).header_bytes() == old(self).header_bytes().push((name.spec_bytes(), value.spec_bytes())),
            final(self).byte_capacity() == old(self).byte_capacity(),
            final(self).header_capacity() == old(self).header_capacity(),
            final(final(self).out.bytes)@ == final(old(self).out.bytes)@,
    {
        proof { encode_utf8_valid_utf8(value@); }
        self.header(name, value.as_bytes());
    }

    /// The written head, or `None` if the bytes or the header descriptors
    /// did not fit.
    pub fn finish(self, method: Method, payload: Payload<'a>) -> (r: Option<WireRequest<'a>>)
        requires
            self.wf(),
        ensures
            r is Some <==> (self.text().len() <= self.byte_capacity() && self.header_bytes().len() <= self.header_capacity()),
            r matches Some(req) ==> {
                &&& req.spec_bytes() == self.text()
                &&& req.spec_url() == self.url_bytes()
                &&& req.spec_headers() == self.header_bytes()
                &&& req.spec_method() == method
                &&& req.spec_payload() == payload
            },
            r matches Some(req) ==> req.spec_bytes().len() <= final(self.out.bytes)@.len()
                && final(self.out.bytes)@.subrange(0, req.spec_bytes().len() as int) == req.spec_bytes(),
    {
        let mut me = self;
        me.seal();
        let count = me.count;
        let _capacity = me.out.bytes.len();
        if me.headers_overflowed || count > me.headers.len() {
            return None;
        }
        let url = me.url;
        let ghost text = me.text();
        let ghost closed = me.closed@;
        let ghost h = me.header_bytes@;
        let headers: &'a [HeaderSpan] = me.headers;
        let bytes = match me.out.finish() {
            Some(bytes) => bytes,
            None => return None,
        };
        let descriptors = vstd::slice::slice_subrange(headers, 0, count);
        proof {
            assert(h.len() <= headers@.len());
            assert(descriptors@ =~= closed);
            assert(text.subrange(0, h.len() as int) == text.subrange(0, h.len() as int));
        }
        let request = WireRequest { bytes, method, url, headers: descriptors, payload };
        proof {
            assert(span_of(bytes@, url) =~= me.url_bytes@);
            assert(request.spec_headers() =~= h);
        }
        Some(request)
    }
}

impl<'a> HeadWriter<'a> {
    /// The written head, followed in the buffer by `body`, which the request
    /// lends as its payload; or the capacities that the two need together.
    pub fn finish_with_body(self, method: Method, body: &[u8]) -> (r: Result<WireRequest<'a>, CapacityError>)
        requires
            self.wf(),
        ensures
            r is Ok <==> (self.text().len() + body@.len() <= self.byte_capacity()
                && self.header_bytes().len() <= self.header_capacity()),
            r matches Ok(req) ==> {
                &&& req.spec_bytes() == self.text()
                &&& req.spec_url() == self.url_bytes()
                &&& req.spec_headers() == self.header_bytes()
                &&& req.spec_method() == method
                &&& req.spec_payload() matches Payload::Slice(b) && b@ == body@
            },
            r matches Err(c) ==> {
                &&& c.required == saturated(self.text().len() + body@.len())
                &&& c.available == self.byte_capacity()
                &&& c.required_headers == saturated(self.header_bytes().len())
                &&& c.available_headers == self.header_capacity()
            },
            r matches Ok(req) ==> req.spec_bytes().len() <= final(self.out.bytes)@.len()
                && final(self.out.bytes)@.subrange(0, req.spec_bytes().len() as int) == req.spec_bytes(),
    {
        let mut me = self;
        me.seal();
        let count = me.count;
        let capacity = me.out.bytes.len();
        let slots = me.headers.len();
        let head_len = me.out.position();
        me.out.push(body);
        let required = me.out.position();
        let failed = CapacityError {
            required,
            available: capacity,
            required_headers: count,
            available_headers: slots,
        };
        if me.headers_overflowed || count > me.headers.len() {
            return Err(failed);
        }
        let url = me.url;
        let ghost text = me.text();
        let ghost closed = me.closed@;
        let ghost h = me.header_bytes@;
        let headers: &'a [HeaderSpan] = me.headers;
        let all = match me.out.finish() {
            Some(bytes) => bytes,
            None => return Err(failed),
        };
        proof {
            assert(text.len() <= usize::MAX);
            assert(head_len == text.len());
        }
        let bytes = vstd::slice::slice_subrange(all, 0, head_len);
        let content = vstd::slice::slice_subrange(all, head_len, all.len());
        let descriptors = vstd::slice::slice_subrange(headers, 0, count);
        proof {
            assert(all@ == text + body@);
            assert(bytes@ =~= text);
            assert(bytes@ =~= all@.subrange(0, head_len as int));
            assert(final(self.out.bytes)@.subrange(0, head_len as int) =~= final(self.out.bytes)@.subrange(0, all@.len() as int).subrange(0, head_len as int));
            assert(content@ =~= body@);
            assert(h.len() <= headers@.len());
            assert(descriptors@ =~= closed);
        }
        let request = WireRequest { bytes, method, url, headers: descriptors, payload: Payload::Slice(content) };
        proof {
            assert(span_of(bytes@, url) =~= me.url_bytes@);
            assert(request.spec_headers() =~= h);
        }
        Ok(request)
    }
}

proof fn lemma_headers_text_empty_pairs(n: nat)
    ensures
        headers_text(Seq::new(n, |i: int| (Seq::<u8>::empty(), Seq::<u8>::empty()))) == Seq::<u8>::empty(),
    decreases n,
{
    let e = Seq::<u8>::empty();
    if n > 0 {
        lemma_headers_text_empty_pairs((n - 1) as nat);
        assert(Seq::new(n, |i: int| (e, e)).drop_last() =~= Seq::new((n - 1) as nat, |i: int| (e, e)));
        assert(Seq::<u8>::empty() + e + e =~= Seq::<u8>::empty());
    }
}

/// The decimal representation of a `u64`, without leading zeros.
pub struct U64Decimal {
    bytes: [u8; 20],
    start: usize,
}

pub open spec fn pow10(k: nat) -> nat
    decreases k,
{
    if k == 0 { 1 } else { 10 * pow10((k - 1) as nat) }
}

impl U64Decimal {
    pub closed spec fn wf(&self) -> bool {
        self.start < 20
    }

    /// The digits.
    pub closed spec fn digits(&self) -> Seq<u8> {
        self.bytes@.subrange(self.start as int, 20)
    }

    /// Formats `value`.
    pub fn new(value: u64) -> (r: Self)
        ensures
            r.wf(),
            r.digits() == decimal_digits(value as nat),
    {
        let mut bytes = [0u8; 20];
        assert(pow10(19) == 10_000_000_000_000_000_000) by { reveal_with_fuel(pow10, 20); }
        bytes[19] = 0x30u8 + (value % 10) as u8;
        let mut start: usize = 19;
        let mut rest = value / 10;
        assert(bytes@.subrange(19, 20) =~= seq![(value % 10 + 0x30) as u8]);
        while rest > 0
            invariant
                start <= 19,
                rest < pow10(start as nat),
                decimal_digits(value as nat) =~= (if rest == 0 { Seq::<u8>::empty() } else { decimal_digits(rest as nat) }) + bytes@.subrange(start as int, 20),
            decreases start,
        {
            assert(start >= 1) by {
                if start == 0 {
                    assert(pow10(0) == 1);
                }
            }
            let ghost old_rest = rest;
            let ghost old_start = start;
            let ghost old_bytes = bytes@;
            start -= 1;
            let digit = (rest % 10) as u8;
            bytes[start] = 0x30u8 + digit;
            rest = rest / 10;
            assert(pow10(old_start as nat) == 10 * pow10(start as nat));
            assert(rest < pow10(start as nat)) by (nonlinear_arith)
                requires old_rest < 10 * pow10(start as nat), rest == old_rest / 10;
            assert(bytes@.subrange(start as int + 1, 20) =~= old_bytes.subrange(start as int + 1, 20));
            assert(bytes@.subrange(start as int, 20) =~= seq![(old_rest % 10 + 0x30) as u8] + old_bytes.subrange(start as int + 1, 20));
        }
        assert(start < 20);
        U64Decimal { bytes, start }
    }

    /// The digits, most significant first.
    pub fn as_bytes(&self) -> (r: &[u8])
        requires
            self.wf(),
        ensures
            r@ == self.digits(),
    {
        vstd::slice::slice_subrange(self.bytes.as_slice(), self.start, 20)
    }
}

} // verus!
