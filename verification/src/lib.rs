//! Azure Blob Storage requests and responses for callers that own their
//! memory and their I/O.
//!
//! This crate builds HTTP requests and reads HTTP responses. It never opens a
//! socket and never reads the clock: you supply the buffers, the current time
//! and the HTTP client.
//!
//! A read has three steps: describe it as a plan ([`PhysicalGet`]), write its
//! head into your buffer with [`Blobs::encode_get`] and send the
//! [`WireRequest`], then put the response headers into a [`ResponseHead`] and
//! read them with [`Blobs::accept_get_head`]. A removal, a write, a listing
//! and the block operations follow the same three steps.
//!
//! Every byte of a request head is written into the caller's buffer: the
//! encoders state that the request's bytes are the start of that buffer, and
//! its URL and header spans name the same parts there.
//!
//! The library uses the heap only for short-lived working storage: the
//! encoders of a listing, a block stage, a block listing and a commit build
//! their query in a `Vec`, and a commit builds its body in one before it is
//! copied after the head; the readers of a listing page and of a block list
//! gather the spans of the entries in a `Vec` before they fill the caller's
//! array. The encoders of a read, a write and a removal allocate nothing, and
//! no request or result borrows heap memory of the library's.

pub mod azure;
pub mod block_options;
pub mod checksum;
pub mod error;
pub mod head;
pub mod http;
pub mod layered;
pub mod outcome;
pub mod path;
pub mod request;
pub mod text;
pub mod time;
pub mod types;
pub mod xml;

pub use azure::{classify_error, AzureNamespace, AzureRejection, Blobs, Container, VERSION};
pub use error::{CapacityError, Error, ErrorCode, InvalidPlan, ResponseFault, Result};
pub use head::ResponseHead;
pub use outcome::{
    BodyWindow, Classification, CommitBlocksHeadOutcome, DeleteHeadOutcome, Failure, FailureClass,
    GetHeadOutcome, ListBlocksHeadOutcome, ListHeadOutcome, Listing, ObjectMeta, PutHeadOutcome,
    ServiceErrorKind, StageBlockHeadOutcome,
};
pub use request::{HeaderSpan, Method, RequestSize, Span, WireRequest};
pub use time::Timestamps;
pub use xml::listing::{BlobProperty, PropertySet, PropertyValues};
pub use types::{
    CommitBlocksShape, ConditionKind, DeleteKind, DeleteShape, EntryKind, GetKind, GetShape,
    ListEntry, ListShape, Payload, PhysicalDelete, PhysicalGet, PhysicalList, PhysicalPut,
    PutShape, RangeForm, RequestedRange,
};
