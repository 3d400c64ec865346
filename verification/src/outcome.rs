//! What reading a response head can report, besides an error.

use vstd::prelude::*;
use vstd::string::*;
use vstd::utf8::*;

use crate::text::{decimal_text, decimal_digits, utf8_text};

verus! {

broadcast use vstd::string::group_string_axioms, vstd::utf8::group_utf8_lib;

/// Object metadata borrowed from a response head.
///
/// Each field holds the bytes that the service sent.
#[derive(Debug, Clone, Copy, Default, PartialEq, Eq)]
pub struct ObjectMeta<'h> {
    /// The size of the whole object, if the head states it.
    ///
    /// This is not the length of the returned range. For that length, read
    /// [`BodyWindow::expected_len`].
    pub size: Option<u64>,
    /// The entity tag, if the service returned one.
    pub e_tag: Option<&'h [u8]>,
    /// The value of the `Last-Modified` header, if the service returned one.
    pub last_modified: Option<&'h str>,
    /// The version identifier, if the service returned one.
    pub version: Option<&'h [u8]>,
    /// The value of the `Content-Encoding` header, if the service returned
    /// one. This crate does not decode the body.
    pub content_encoding: Option<&'h [u8]>,
    /// The value of the `Content-Type` header, if the service returned one.
    pub content_type: Option<&'h [u8]>,
}

/// Where the bytes of the response body belong in the object.
///
/// The offsets count the stored bytes of the object. Your HTTP client must
/// remove the transfer encoding but keep the content encoding: a client that
/// decompresses the body changes the bytes, and the offsets here are then
/// wrong.
#[derive(Debug, Clone, Copy, PartialEq, Eq)]
pub struct BodyWindow {
    /// The offset in the object of the first byte of the response body.
    pub object_offset: u64,
    /// The exact length of the response body, if the head states it.
    pub expected_len: Option<u64>,
    /// The size of the whole object, if the head states it.
    pub object_size: Option<u64>,
}

/// The category of a service failure.
///
/// Use this to decide whether to retry a request, and how.
#[derive(Debug, Clone, Copy, PartialEq, Eq)]
#[non_exhaustive]
pub enum FailureClass {
    /// The service rejected the credentials or the authorization.
    Auth,
    /// The service throttled the request. You can retry it later.
    Throttled,
    /// The service failed, or it was unavailable.
    Server,
    /// The service answered with a redirect, which this crate does not
    /// follow.
    Redirect,
    /// Any other failure, such as a malformed request.
    Other,
}

impl FailureClass {
    pub open spec fn spec_discriminant(self) -> u16 {
        match self {
            FailureClass::Auth => 1,
            FailureClass::Throttled => 2,
            FailureClass::Server => 3,
            FailureClass::Redirect => 4,
            FailureClass::Other => 5,
        }
    }

    /// Returns the number that stands for this category.
    pub fn discriminant(self) -> (r: u16)
        ensures
            r == self.spec_discriminant(),
    {
        match self {
            FailureClass::Auth => 1,
            FailureClass::Throttled => 2,
            FailureClass::Server => 3,
            FailureClass::Redirect => 4,
            FailureClass::Other => 5,
        }
    }

    pub open spec fn spec_as_str(self) -> Seq<char> {
        match self {
            FailureClass::Auth => "the service rejected the credentials or the authorization"@,
            FailureClass::Throttled => "the service throttled the request"@,
            FailureClass::Server => "the service failed, or it was unavailable"@,
            FailureClass::Redirect => "the service answered with a redirect"@,
            FailureClass::Other => "the service refused the request"@,
        }
    }

    /// Returns the sentence that describes this category.
    pub fn as_str(self) -> (r: &'static str)
        ensures
            r@ == self.spec_as_str(),
    {
        match self {
            FailureClass::Auth => "the service rejected the credentials or the authorization",
            FailureClass::Throttled => "the service throttled the request",
            FailureClass::Server => "the service failed, or it was unavailable",
            FailureClass::Redirect => "the service answered with a redirect",
            FailureClass::Other => "the service refused the request",
        }
    }

    /// Returns the category with this discriminant.
    ///
    /// Returns [`None`] for a discriminant that this version does not define.
    pub fn from_discriminant(value: u16) -> (r: Option<Self>)
        ensures
            r matches Some(class) ==> class.spec_discriminant() == value,
            r is None ==> forall|class: Self| class.spec_discriminant() != value,
    {
        match value {
            1 => Some(FailureClass::Auth),
            2 => Some(FailureClass::Throttled),
            3 => Some(FailureClass::Server),
            4 => Some(FailureClass::Redirect),
            5 => Some(FailureClass::Other),
            _ => None,
        }
    }
}

/// A service error code, mapped to a name that does not change.
///
/// A storage service defines many error codes. This enum groups the ones
/// that a request can return. Match on this instead of on the code strings.
#[derive(Debug, Clone, Copy, PartialEq, Eq)]
#[non_exhaustive]
pub enum ServiceErrorKind {
    /// The object does not exist.
    NotFound,
    /// The container does not exist.
    NoSuchContainer,
    /// The object or the container already exists.
    AlreadyExists,
    /// The service rejected the credentials or the authorization.
    Unauthorized,
    /// A precondition on the request did not hold.
    Precondition,
    /// The service cannot serve the requested byte range.
    RangeNotSatisfiable,
    /// The service throttled the request.
    Throttled,
    /// The service timed out while it processed the request.
    Timeout,
    /// The service failed, or it was unavailable.
    Service,
    /// The block list of an upload is not one the service accepts.
    InvalidUpload,
}

impl ServiceErrorKind {
    pub open spec fn spec_discriminant(self) -> u16 {
        match self {
            ServiceErrorKind::NotFound => 1,
            ServiceErrorKind::NoSuchContainer => 2,
            ServiceErrorKind::AlreadyExists => 3,
            ServiceErrorKind::Unauthorized => 4,
            ServiceErrorKind::Precondition => 5,
            ServiceErrorKind::RangeNotSatisfiable => 6,
            ServiceErrorKind::Throttled => 7,
            ServiceErrorKind::Timeout => 8,
            ServiceErrorKind::Service => 9,
            ServiceErrorKind::InvalidUpload => 10,
        }
    }

    /// Returns the number that stands for this error.
    pub fn discriminant(self) -> (r: u16)
        ensures
            r == self.spec_discriminant(),
    {
        match self {
            ServiceErrorKind::NotFound => 1,
            ServiceErrorKind::NoSuchContainer => 2,
            ServiceErrorKind::AlreadyExists => 3,
            ServiceErrorKind::Unauthorized => 4,
            ServiceErrorKind::Precondition => 5,
            ServiceErrorKind::RangeNotSatisfiable => 6,
            ServiceErrorKind::Throttled => 7,
            ServiceErrorKind::Timeout => 8,
            ServiceErrorKind::Service => 9,
            ServiceErrorKind::InvalidUpload => 10,
        }
    }

    pub open spec fn spec_as_str(self) -> Seq<char> {
        match self {
            ServiceErrorKind::NotFound => "the object does not exist"@,
            ServiceErrorKind::NoSuchContainer => "the container does not exist"@,
            ServiceErrorKind::AlreadyExists => "the object or the container already exists"@,
            ServiceErrorKind::Unauthorized => "the service rejected the credentials or the authorization"@,
            ServiceErrorKind::Precondition => "a precondition on the request did not hold"@,
            ServiceErrorKind::RangeNotSatisfiable => "the service cannot serve the requested byte range"@,
            ServiceErrorKind::Throttled => "the service throttled the request"@,
            ServiceErrorKind::Timeout => "the service timed out while it processed the request"@,
            ServiceErrorKind::Service => "the service failed, or it was unavailable"@,
            ServiceErrorKind::InvalidUpload => "the service refused the block list of the upload"@,
        }
    }

    /// Returns the sentence that describes this error.
    pub fn as_str(self) -> (r: &'static str)
        ensures
            r@ == self.spec_as_str(),
    {
        match self {
            ServiceErrorKind::NotFound => "the object does not exist",
            ServiceErrorKind::NoSuchContainer => "the container does not exist",
            ServiceErrorKind::AlreadyExists => "the object or the container already exists",
            ServiceErrorKind::Unauthorized => "the service rejected the credentials or the authorization",
            ServiceErrorKind::Precondition => "a precondition on the request did not hold",
            ServiceErrorKind::RangeNotSatisfiable => "the service cannot serve the requested byte range",
            ServiceErrorKind::Throttled => "the service throttled the request",
            ServiceErrorKind::Timeout => "the service timed out while it processed the request",
            ServiceErrorKind::Service => "the service failed, or it was unavailable",
            ServiceErrorKind::InvalidUpload => "the service refused the block list of the upload",
        }
    }

    /// Returns the error with this discriminant.
    ///
    /// Returns [`None`] for a discriminant that this version does not define.
    pub fn from_discriminant(value: u16) -> (r: Option<Self>)
        ensures
            r matches Some(kind) ==> kind.spec_discriminant() == value,
            r is None ==> forall|kind: Self| kind.spec_discriminant() != value,
    {
        match value {
            1 => Some(ServiceErrorKind::NotFound),
            2 => Some(ServiceErrorKind::NoSuchContainer),
            3 => Some(ServiceErrorKind::AlreadyExists),
            4 => Some(ServiceErrorKind::Unauthorized),
            5 => Some(ServiceErrorKind::Precondition),
            6 => Some(ServiceErrorKind::RangeNotSatisfiable),
            7 => Some(ServiceErrorKind::Throttled),
            8 => Some(ServiceErrorKind::Timeout),
            9 => Some(ServiceErrorKind::Service),
            10 => Some(ServiceErrorKind::InvalidUpload),
            _ => None,
        }
    }
}

/// A response head that reports a failure.
///
/// Its fields are public, so you can store one and hand the parts back to
/// the `accept_*_error_body` method of the same operation later.
#[derive(Debug, Clone, Copy, PartialEq, Eq)]
pub struct Failure<'h> {
    /// The HTTP status code.
    pub status: u16,
    /// The category of the failure. Use it to decide whether to retry.
    pub class: FailureClass,
    /// The specific error, if the head or the body named one.
    pub kind: Option<ServiceErrorKind>,
    /// The value of the `x-ms-request-id` header, if Azure sent one.
    pub request_id: Option<&'h [u8]>,
}

impl<'h> Failure<'h> {
    /// The sentence that describes this failure: the error if one was named,
    /// or the category, then the status, then the request identifier when it
    /// is text.
    pub open spec fn spec_message(self) -> Seq<char> {
        let reason = match self.kind {
            Some(kind) => kind.spec_as_str(),
            None => self.class.spec_as_str(),
        };
        let id = match self.request_id {
            Some(id) => if valid_utf8(id@) { ", request "@ + decode_utf8(id@) } else { Seq::empty() },
            None => Seq::empty(),
        };
        reason + " (HTTP "@ + decode_utf8(decimal_digits(self.status as nat)) + id + ")"@
    }

    /// Returns the sentence that describes this failure.
    pub fn message(&self) -> (r: String)
        ensures
            r@ == self.spec_message(),
    {
        let reason = match self.kind {
            Some(kind) => kind.as_str(),
            None => self.class.as_str(),
        };
        let mut text = String::from_str(reason);
        text.append(" (HTTP ");
        let status = decimal_text(self.status as u64);
        text.append(status.as_str());
        // A header value is not promised to be text, so the identifier is
        // named only when it is.
        if let Some(id) = self.request_id {
            if let Some(id) = utf8_text(id) {
                proof { encode_utf8_decode_utf8(id@); }
                text.append(", request ");
                text.append(id);
            }
        }
        text.append(")");
        text
    }
}

/// The result of reading the response head of a read.
///
/// Every head that the service sends becomes one of these values, including
/// the heads that report a failure.
#[derive(Debug, Clone, Copy, PartialEq, Eq)]
#[non_exhaustive]
pub enum GetHeadOutcome<'h> {
    /// A body follows. Read it and put the bytes at `body`.
    Body {
        /// The metadata from the head.
        meta: ObjectMeta<'h>,
        /// Where the bytes of the body belong.
        body: BodyWindow,
    },
    /// No body follows and the request is complete. A metadata plan ends
    /// here.
    Complete {
        /// The metadata from the head.
        meta: ObjectMeta<'h>,
    },
    /// The `If-None-Match` condition held, so the service sent no body.
    NotModified {
        /// The entity tag, if the service repeated it.
        e_tag: Option<&'h [u8]>,
    },
    /// The `If-Match` condition did not hold, so the service sent no body.
    PreconditionFailed,
    /// The object does not exist, or the container that holds it does not.
    NotFound {
        /// Which of the two is missing, if the head names the error.
        kind: Option<ServiceErrorKind>,
    },
    /// The service cannot serve the requested range.
    RangeNotSatisfiable {
        /// The size of the object, if `Content-Range: bytes */N` states it.
        object_size: Option<u64>,
    },
    /// The head reports a failure but names no error.
    ///
    /// Read the response body and pass it, with the status and the request
    /// identifier of this failure, to
    /// [`Blobs::accept_error_body`](crate::Blobs::accept_error_body). The
    /// `kind` of this failure is always [`None`].
    NeedErrorBody(Failure<'h>),
    /// The service refused the request, or it failed to serve it.
    ServiceFailure(Failure<'h>),
}

impl<'h> GetHeadOutcome<'h> {
    pub open spec fn spec_message(self) -> Seq<char> {
        match self {
            GetHeadOutcome::Body { .. } => "the object follows in the response body"@,
            GetHeadOutcome::Complete { .. } => "the response carries no body and is complete"@,
            GetHeadOutcome::NotModified { .. } => "the object is not modified"@,
            GetHeadOutcome::PreconditionFailed => "the If-Match condition did not hold"@,
            GetHeadOutcome::NotFound { kind } => match kind {
                Some(ServiceErrorKind::NoSuchContainer) => ServiceErrorKind::NoSuchContainer.spec_as_str(),
                _ => ServiceErrorKind::NotFound.spec_as_str(),
            },
            GetHeadOutcome::RangeNotSatisfiable { object_size } => match object_size {
                Some(size) => "the service cannot serve the requested range; the object is "@
                    + decode_utf8(decimal_digits(size as nat)) + " bytes"@,
                None => "the service cannot serve the requested range"@,
            },
            GetHeadOutcome::NeedErrorBody(failure) => failure.spec_message(),
            GetHeadOutcome::ServiceFailure(failure) => failure.spec_message(),
        }
    }

    /// Returns the sentence that describes this outcome.
    pub fn message(&self) -> (r: String)
        ensures
            r@ == self.spec_message(),
    {
        match *self {
            GetHeadOutcome::Body { .. } => String::from_str("the object follows in the response body"),
            GetHeadOutcome::Complete { .. } => String::from_str("the response carries no body and is complete"),
            GetHeadOutcome::NotModified { .. } => String::from_str("the object is not modified"),
            GetHeadOutcome::PreconditionFailed => String::from_str("the If-Match condition did not hold"),
            GetHeadOutcome::NotFound { kind } => match kind {
                Some(ServiceErrorKind::NoSuchContainer) => String::from_str(ServiceErrorKind::NoSuchContainer.as_str()),
                _ => String::from_str(ServiceErrorKind::NotFound.as_str()),
            },
            GetHeadOutcome::RangeNotSatisfiable { object_size } => match object_size {
                Some(size) => {
                    let mut text = String::from_str("the service cannot serve the requested range; the object is ");
                    let digits = decimal_text(size);
                    text.append(digits.as_str());
                    text.append(" bytes");
                    text
                },
                None => String::from_str("the service cannot serve the requested range"),
            },
            GetHeadOutcome::NeedErrorBody(failure) => failure.message(),
            GetHeadOutcome::ServiceFailure(failure) => failure.message(),
        }
    }
}

/// The result of reading the response head of a write.
#[derive(Debug, Clone, Copy, PartialEq, Eq)]
#[non_exhaustive]
pub enum PutHeadOutcome<'h> {
    /// Azure stored the object. A write reports no size.
    Created {
        /// The metadata of the object that Azure stored.
        meta: ObjectMeta<'h>,
    },
    /// The entity tag in the condition did not match, so Azure stored nothing.
    ///
    /// Azure answers a write conditional on `If-None-Match: *` that lost a
    /// race with status 409, which reaches you as [`Self::ServiceFailure`]
    /// whose kind is [`ServiceErrorKind::AlreadyExists`].
    PreconditionFailed,
    /// The container does not exist, so Azure stored nothing.
    NotFound {
        /// The specific error, if the head names one.
        kind: Option<ServiceErrorKind>,
    },
    /// The head reports a failure but names no error. Finish it with
    /// [`Blobs::accept_put_error_body`](crate::Blobs::accept_put_error_body).
    NeedErrorBody(Failure<'h>),
    /// The service refused the write, or it failed to store the object.
    ServiceFailure(Failure<'h>),
}

impl<'h> PutHeadOutcome<'h> {
    pub open spec fn spec_message(self) -> Seq<char> {
        match self {
            PutHeadOutcome::Created { .. } => "the service stored the object"@,
            PutHeadOutcome::PreconditionFailed => "the condition on the write did not hold"@,
            PutHeadOutcome::NotFound { .. } => ServiceErrorKind::NoSuchContainer.spec_as_str(),
            PutHeadOutcome::NeedErrorBody(failure) => failure.spec_message(),
            PutHeadOutcome::ServiceFailure(failure) => failure.spec_message(),
        }
    }

    /// Returns the sentence that describes this outcome.
    pub fn message(&self) -> (r: String)
        ensures
            r@ == self.spec_message(),
    {
        match *self {
            PutHeadOutcome::Created { .. } => String::from_str("the service stored the object"),
            PutHeadOutcome::PreconditionFailed => String::from_str("the condition on the write did not hold"),
            PutHeadOutcome::NotFound { .. } => String::from_str(ServiceErrorKind::NoSuchContainer.as_str()),
            PutHeadOutcome::NeedErrorBody(failure) => failure.message(),
            PutHeadOutcome::ServiceFailure(failure) => failure.message(),
        }
    }
}

/// The result of reading the response head of a removal.
#[derive(Debug, Clone, Copy, PartialEq, Eq)]
#[non_exhaustive]
pub enum DeleteHeadOutcome<'h> {
    /// Azure accepted the removal.
    Accepted,
    /// The entity tag in the condition did not match, so Azure removed
    /// nothing.
    PreconditionFailed,
    /// The object does not exist, so there was nothing to remove.
    NotFound {
        /// The specific error, if the head names one.
        kind: Option<ServiceErrorKind>,
    },
    /// The head reports a failure but names no error. Finish it with
    /// [`Blobs::accept_delete_error_body`](crate::Blobs::accept_delete_error_body).
    NeedErrorBody(Failure<'h>),
    /// The service refused the removal, or it failed to carry it out.
    ServiceFailure(Failure<'h>),
}

impl<'h> DeleteHeadOutcome<'h> {
    pub open spec fn spec_message(self) -> Seq<char> {
        match self {
            DeleteHeadOutcome::Accepted => "the service accepted the removal"@,
            DeleteHeadOutcome::PreconditionFailed => "the condition on the removal did not hold"@,
            DeleteHeadOutcome::NotFound { .. } => ServiceErrorKind::NotFound.spec_as_str(),
            DeleteHeadOutcome::NeedErrorBody(failure) => failure.spec_message(),
            DeleteHeadOutcome::ServiceFailure(failure) => failure.spec_message(),
        }
    }

    /// Returns the sentence that describes this outcome.
    pub fn message(&self) -> (r: String)
        ensures
            r@ == self.spec_message(),
    {
        match *self {
            DeleteHeadOutcome::Accepted => String::from_str("the service accepted the removal"),
            DeleteHeadOutcome::PreconditionFailed => String::from_str("the condition on the removal did not hold"),
            DeleteHeadOutcome::NotFound { .. } => String::from_str(ServiceErrorKind::NotFound.as_str()),
            DeleteHeadOutcome::NeedErrorBody(failure) => failure.message(),
            DeleteHeadOutcome::ServiceFailure(failure) => failure.message(),
        }
    }
}

/// The result of reading the response head of a listing.
#[derive(Debug, Clone, Copy, PartialEq, Eq)]
#[non_exhaustive]
pub enum ListHeadOutcome<'h> {
    /// The page follows in the response body. Read it whole and pass it to
    /// [`Blobs::fill_listing`](crate::Blobs::fill_listing).
    Page {
        /// The exact length of the response body, if the head states it.
        expected_len: Option<u64>,
    },
    /// The container does not exist, so there was nothing to list.
    NotFound {
        /// The specific error, if the head names one.
        kind: Option<ServiceErrorKind>,
    },
    /// The head reports a failure but names no error. Finish it with
    /// [`Blobs::accept_list_error_body`](crate::Blobs::accept_list_error_body).
    NeedErrorBody(Failure<'h>),
    /// The service refused the listing, or it failed to serve it.
    ServiceFailure(Failure<'h>),
}

impl<'h> ListHeadOutcome<'h> {
    pub open spec fn spec_message(self) -> Seq<char> {
        match self {
            ListHeadOutcome::Page { .. } => "the page follows in the response body"@,
            ListHeadOutcome::NotFound { .. } => ServiceErrorKind::NoSuchContainer.spec_as_str(),
            ListHeadOutcome::NeedErrorBody(failure) => failure.spec_message(),
            ListHeadOutcome::ServiceFailure(failure) => failure.spec_message(),
        }
    }

    /// Returns the sentence that describes this outcome.
    pub fn message(&self) -> (r: String)
        ensures
            r@ == self.spec_message(),
    {
        match *self {
            ListHeadOutcome::Page { .. } => String::from_str("the page follows in the response body"),
            ListHeadOutcome::NotFound { .. } => String::from_str(ServiceErrorKind::NoSuchContainer.as_str()),
            ListHeadOutcome::NeedErrorBody(failure) => failure.message(),
            ListHeadOutcome::ServiceFailure(failure) => failure.message(),
        }
    }
}

/// The result of reading the head that answers a block stage.
#[derive(Debug, Clone, Copy, PartialEq, Eq)]
#[non_exhaustive]
pub enum StageBlockHeadOutcome<'h> {
    /// Azure staged the block.
    Staged,
    /// The container does not exist.
    NotFound {
        /// The specific error, if the head names one.
        kind: Option<ServiceErrorKind>,
    },
    /// The head reports a failure but names no error. Finish it with
    /// [`Blobs::accept_stage_block_error_body`](crate::Blobs::accept_stage_block_error_body).
    NeedErrorBody(Failure<'h>),
    /// The service refused the stage, or it failed to carry it out.
    ServiceFailure(Failure<'h>),
}

/// The result of reading the head that answers a block commit.
#[derive(Debug, Clone, Copy, PartialEq, Eq)]
#[non_exhaustive]
pub enum CommitBlocksHeadOutcome<'h> {
    /// Azure published the block list as the object.
    Committed {
        /// The metadata of the object that Azure stored.
        meta: ObjectMeta<'h>,
    },
    /// The condition of the commit did not hold, so Azure published nothing.
    PreconditionFailed,
    /// The container does not exist.
    NotFound {
        /// The specific error, if the head names one.
        kind: Option<ServiceErrorKind>,
    },
    /// The head reports a failure but names no error. Finish it with
    /// [`Blobs::accept_commit_blocks_error_body`](crate::Blobs::accept_commit_blocks_error_body).
    NeedErrorBody(Failure<'h>),
    /// The service refused the commit, or it failed to carry it out.
    ServiceFailure(Failure<'h>),
}

/// The result of reading the head that answers a block listing.
#[derive(Debug, Clone, Copy, PartialEq, Eq)]
#[non_exhaustive]
pub enum ListBlocksHeadOutcome<'h> {
    /// The block list follows in the response body.
    Blocks {
        /// The metadata of the object.
        meta: ObjectMeta<'h>,
        /// The exact length of the response body, if the head states it.
        expected_len: Option<u64>,
    },
    /// The object or its container does not exist.
    NotFound {
        /// The specific error, if the head names one.
        kind: Option<ServiceErrorKind>,
    },
    /// The head reports a failure but names no error. Finish it with
    /// [`Blobs::accept_list_blocks_error_body`](crate::Blobs::accept_list_blocks_error_body).
    NeedErrorBody(Failure<'h>),
    /// The service refused the listing, or it failed to serve it.
    ServiceFailure(Failure<'h>),
}

/// What one page of a listing held.
#[derive(Debug, Clone, Copy, Default, PartialEq, Eq)]
pub struct Listing<'b> {
    /// The number of entries that the call wrote into your array. The
    /// entries after these are untouched.
    pub filled: usize,
    /// Where the next page starts, or [`None`] when the listing is complete.
    ///
    /// Pass these bytes as [`PhysicalList::marker`](crate::PhysicalList::marker)
    /// to read the next page. They borrow the body.
    pub next_marker: Option<&'b str>,
}

/// The result of [`classify_error`](crate::classify_error).
#[derive(Debug, Clone, Copy, PartialEq, Eq)]
#[non_exhaustive]
pub enum Classification {
    /// The head or the body named an error that this crate recognizes.
    Classified(ServiceErrorKind),
    /// Your read limit cut the body short before a recognized error code
    /// appeared. Read more of the body and classify it again.
    Incomplete,
    /// The response was complete, but it named no error code that this crate
    /// recognizes.
    Unknown,
}

} // verus!
