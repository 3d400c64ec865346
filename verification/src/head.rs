//! The response headers that reading a response needs.

use vstd::prelude::*;
use vstd::string::*;

use crate::text::{ascii_eq_ignore_case, eq_ignore_ascii_case};

verus! {

/// Whether a header name is `field`, compared without regard to ASCII case.
pub open spec fn names(name: Seq<u8>, field: &str) -> bool {
    ascii_eq_ignore_case(name, field.spec_bytes())
}

/// A slot after a header was offered to it: the first value that matches
/// fills it, and a later one leaves it alone.
pub open spec fn offered<'a>(slot: Option<&'a [u8]>, matches: bool, value: &'a [u8]) -> Option<&'a [u8]> {
    if matches && slot is None {
        Some(value)
    } else {
        slot
    }
}

/// The status and the headers of a response, borrowing their values.
///
/// Each field holds the value of the first header with that name; names are
/// compared without regard to ASCII case. A header that no field names is
/// ignored.
#[derive(Debug, Clone, Copy, Default, PartialEq, Eq)]
pub struct ResponseHead<'a> {
    /// The HTTP status.
    pub status: u16,
    /// The `x-ms-error-code` value.
    pub error_code: Option<&'a [u8]>,
    /// The `x-ms-request-id` value.
    pub request_id: Option<&'a [u8]>,
    /// The `ETag` value.
    pub e_tag: Option<&'a [u8]>,
    /// The `Last-Modified` value.
    pub last_modified: Option<&'a [u8]>,
    /// The `x-ms-version-id` value.
    pub version: Option<&'a [u8]>,
    /// The `Content-Encoding` value.
    pub content_encoding: Option<&'a [u8]>,
    /// The `Content-Type` value.
    pub content_type: Option<&'a [u8]>,
    /// The `Content-Length` value.
    pub content_length: Option<&'a [u8]>,
    /// The `Content-Range` value.
    pub content_range: Option<&'a [u8]>,
}

/// Whether a header name is one that [`ResponseHead`] keeps.
pub open spec fn kept_by_head(name: Seq<u8>) -> bool {
    ||| names(name, "x-ms-error-code")
    ||| names(name, "x-ms-request-id")
    ||| names(name, "etag")
    ||| names(name, "last-modified")
    ||| names(name, "x-ms-version-id")
    ||| names(name, "content-encoding")
    ||| names(name, "content-type")
    ||| names(name, "content-length")
    ||| names(name, "content-range")
}

impl<'a> ResponseHead<'a> {
    /// The head after one more header.
    pub open spec fn spec_insert(self, name: Seq<u8>, value: &'a [u8]) -> Self {
        ResponseHead {
            status: self.status,
            error_code: offered(self.error_code, names(name, "x-ms-error-code"), value),
            request_id: offered(self.request_id, names(name, "x-ms-request-id"), value),
            e_tag: offered(self.e_tag, names(name, "etag"), value),
            last_modified: offered(self.last_modified, names(name, "last-modified"), value),
            version: offered(self.version, names(name, "x-ms-version-id"), value),
            content_encoding: offered(self.content_encoding, names(name, "content-encoding"), value),
            content_type: offered(self.content_type, names(name, "content-type"), value),
            content_length: offered(self.content_length, names(name, "content-length"), value),
            content_range: offered(self.content_range, names(name, "content-range"), value),
        }
    }

    /// The head after every header of `headers`, in order.
    pub open spec fn spec_insert_all(self, headers: Seq<(&'a str, &'a [u8])>) -> Self
        decreases headers.len(),
    {
        if headers.len() == 0 {
            self
        } else {
            self.spec_insert_all(headers.drop_last()).spec_insert(
                headers.last().0.spec_bytes(),
                headers.last().1,
            )
        }
    }

    /// The head of a response with this status and no headers.
    pub open spec fn spec_new(status: u16) -> Self {
        ResponseHead {
            status,
            error_code: None,
            request_id: None,
            e_tag: None,
            last_modified: None,
            version: None,
            content_encoding: None,
            content_type: None,
            content_length: None,
            content_range: None,
        }
    }

    /// Creates a head with this status and no headers yet.
    pub fn new(status: u16) -> (r: Self)
        ensures
            r == Self::spec_new(status),
    {
        ResponseHead {
            status,
            error_code: None,
            request_id: None,
            e_tag: None,
            last_modified: None,
            version: None,
            content_encoding: None,
            content_type: None,
            content_length: None,
            content_range: None,
        }
    }

    /// Creates a head from a status and the headers, in the order received.
    pub fn from_headers(status: u16, headers: &[(&'a str, &'a [u8])]) -> (r: Self)
        ensures
            r == Self::spec_new(status).spec_insert_all(headers@),
    {
        let mut head = Self::new(status);
        let mut i: usize = 0;
        while i < headers.len()
            invariant
                i <= headers@.len(),
                head == Self::spec_new(status).spec_insert_all(headers@.subrange(0, i as int)),
            decreases headers@.len() - i,
        {
            let (name, value) = headers[i];
            head.insert(name, value);
            proof {
                let next = headers@.subrange(0, i + 1);
                assert(next.drop_last() =~= headers@.subrange(0, i as int));
            }
            i = i + 1;
        }
        proof {
            assert(headers@.subrange(0, headers@.len() as int) =~= headers@);
        }
        head
    }

    /// Takes one header, as an incremental parser hands it over, without
    /// copying its value.
    pub fn insert(&mut self, name: &str, value: &'a [u8])
        ensures
            *final(self) == old(self).spec_insert(name.spec_bytes(), value),
    {
        let name = name.as_bytes();
        if eq_ignore_ascii_case(name, "x-ms-error-code".as_bytes()) {
            if self.error_code.is_none() {
                self.error_code = Some(value);
            }
        }
        if eq_ignore_ascii_case(name, "x-ms-request-id".as_bytes()) {
            if self.request_id.is_none() {
                self.request_id = Some(value);
            }
        }
        if eq_ignore_ascii_case(name, "etag".as_bytes()) {
            if self.e_tag.is_none() {
                self.e_tag = Some(value);
            }
        }
        if eq_ignore_ascii_case(name, "last-modified".as_bytes()) {
            if self.last_modified.is_none() {
                self.last_modified = Some(value);
            }
        }
        if eq_ignore_ascii_case(name, "x-ms-version-id".as_bytes()) {
            if self.version.is_none() {
                self.version = Some(value);
            }
        }
        if eq_ignore_ascii_case(name, "content-encoding".as_bytes()) {
            if self.content_encoding.is_none() {
                self.content_encoding = Some(value);
            }
        }
        if eq_ignore_ascii_case(name, "content-type".as_bytes()) {
            if self.content_type.is_none() {
                self.content_type = Some(value);
            }
        }
        if eq_ignore_ascii_case(name, "content-length".as_bytes()) {
            if self.content_length.is_none() {
                self.content_length = Some(value);
            }
        }
        if eq_ignore_ascii_case(name, "content-range".as_bytes()) {
            if self.content_range.is_none() {
                self.content_range = Some(value);
            }
        }
    }
}


/// The value of the first header of `headers` that `field` names, compared
/// without regard to ASCII case.
pub open spec fn first_value<'a>(headers: Seq<(&'a str, &'a [u8])>, field: &str) -> Option<&'a [u8]>
    decreases headers.len(),
{
    if headers.len() == 0 {
        None
    } else {
        match first_value(headers.drop_last(), field) {
            Some(v) => Some(v),
            None => if names(headers.last().0.spec_bytes(), field) {
                Some(headers.last().1)
            } else {
                None
            },
        }
    }
}

/// Each field of a head read from `headers` holds the value of the first
/// header that names it, whatever follows: a repeated header never replaces
/// the value before it.
pub proof fn law_each_field_holds_the_first_value<'a>(status: u16, headers: Seq<(&'a str, &'a [u8])>)
    ensures
        ({
            let head = ResponseHead::spec_new(status).spec_insert_all(headers);
            &&& head.status == status
            &&& head.error_code == first_value(headers, "x-ms-error-code")
            &&& head.request_id == first_value(headers, "x-ms-request-id")
            &&& head.e_tag == first_value(headers, "etag")
            &&& head.last_modified == first_value(headers, "last-modified")
            &&& head.version == first_value(headers, "x-ms-version-id")
            &&& head.content_encoding == first_value(headers, "content-encoding")
            &&& head.content_type == first_value(headers, "content-type")
            &&& head.content_length == first_value(headers, "content-length")
            &&& head.content_range == first_value(headers, "content-range")
        }),
    decreases headers.len(),
{
    if headers.len() > 0 {
        law_each_field_holds_the_first_value(status, headers.drop_last());
    }
}

} // verus!
