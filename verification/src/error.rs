//! What can go wrong: a plan that cannot become a request, a buffer that is
//! too small, and a response that cannot be read.

use vstd::prelude::*;
use vstd::string::*;
use vstd::utf8::*;

use crate::text::decimal_text;

verus! {

/// The result type that this crate returns.
pub type Result<T> = core::result::Result<T, Error>;

/// The exact capacity that your buffer needs.
///
/// For an encoding method the counts are bytes of the request buffer and
/// slots of the header array. Grow both to the `required` numbers and call the
/// same method again.
///
/// For [`Blobs::fill_listing`](crate::Blobs::fill_listing) the counts are
/// entries of the array, and `required` is the number that the page holds.
#[derive(Debug, Clone, Copy, Default, PartialEq, Eq)]
pub struct CapacityError {
    /// The smallest buffer that the call accepts.
    pub required: usize,
    /// The size of the buffer that you supplied.
    pub available: usize,
    /// The smallest number of header slots that the call accepts.
    pub required_headers: usize,
    /// The number of header slots that you supplied.
    pub available_headers: usize,
}

impl CapacityError {
    pub open spec fn spec_message(self) -> Seq<char> {
        "the buffer needs "@ + decode_utf8(crate::text::decimal_digits(self.required as nat))
            + " but has "@ + decode_utf8(crate::text::decimal_digits(self.available as nat))
    }

    /// The sentence that describes this error.
    pub fn message(&self) -> (r: String)
        ensures
            r@ == self.spec_message(),
    {
        let mut text = String::from_str("the buffer needs ");
        let required = decimal_text(self.required as u64);
        text.append(required.as_str());
        text.append(" but has ");
        let available = decimal_text(self.available as u64);
        text.append(available.as_str());
        text
    }
}

/// The reason that a plan cannot become a request.
///
/// The encoding methods report these before they write any byte, and never
/// confuse them with a capacity error.
#[derive(Debug, Clone, Copy, PartialEq, Eq)]
#[non_exhaustive]
pub enum InvalidPlan {
    /// The object key cannot name an object: it is empty, longer than a flat
    /// account allows, holds an ASCII control character, has more
    /// `/`-delimited segments than Azure takes, or has a segment that ends
    /// with a dot, which Azure would drop or a URL would resolve away.
    Key,
    /// A bounded range is empty, or its end is before its start.
    Range,
    /// The service does not accept this form of range.
    UnsupportedRange,
    /// A metadata plan carries a byte range, which the service cannot answer.
    RangedMetadata,
    /// The condition kind and the condition value do not agree.
    ///
    /// A kind without a value, and a value without a kind, are both invalid.
    /// The value must also be usable as one HTTP header value.
    Condition,
    /// The content is longer than the service writes in one request.
    PayloadTooLarge,
    /// A field of the plan holds a discriminant that this crate does not
    /// define.
    Unknown,
    /// The listing prefix is longer than an object key may be.
    Prefix,
    /// The listing marker is empty.
    ///
    /// A page that starts at the beginning of the container carries no marker
    /// at all.
    Marker,
    /// The listing asks for zero entries.
    MaxResults,
    /// A block option is not valid for the operation, or the options
    /// contradict each other.
    Option,
    /// A block ID is not the base64 text of at most 64 bytes.
    BlockId,
    /// A commit names more blocks than the service takes.
    Blocks,
    /// The request is larger than any buffer can be.
    RequestTooLarge,
    /// A checksum is not the base64 of a digest of its kind.
    Checksum,
}

impl InvalidPlan {
    /// The number that stands for this reason across a language boundary.
    pub open spec fn spec_discriminant(self) -> u16 {
        match self {
            InvalidPlan::Key => 1,
            InvalidPlan::Range => 2,
            InvalidPlan::UnsupportedRange => 3,
            InvalidPlan::RangedMetadata => 4,
            InvalidPlan::Condition => 5,
            InvalidPlan::PayloadTooLarge => 6,
            InvalidPlan::Unknown => 7,
            InvalidPlan::Prefix => 10,
            InvalidPlan::Marker => 11,
            InvalidPlan::MaxResults => 12,
            InvalidPlan::Option => 18,
            InvalidPlan::BlockId => 19,
            InvalidPlan::Blocks => 20,
            InvalidPlan::RequestTooLarge => 21,
            InvalidPlan::Checksum => 22,
        }
    }

    /// Returns the number that stands for this reason.
    pub fn discriminant(self) -> (r: u16)
        ensures
            r == self.spec_discriminant(),
    {
        match self {
            InvalidPlan::Key => 1,
            InvalidPlan::Range => 2,
            InvalidPlan::UnsupportedRange => 3,
            InvalidPlan::RangedMetadata => 4,
            InvalidPlan::Condition => 5,
            InvalidPlan::PayloadTooLarge => 6,
            InvalidPlan::Unknown => 7,
            InvalidPlan::Prefix => 10,
            InvalidPlan::Marker => 11,
            InvalidPlan::MaxResults => 12,
            InvalidPlan::Option => 18,
            InvalidPlan::BlockId => 19,
            InvalidPlan::Blocks => 20,
            InvalidPlan::RequestTooLarge => 21,
            InvalidPlan::Checksum => 22,
        }
    }

    pub open spec fn spec_as_str(self) -> Seq<char> {
        match self {
            InvalidPlan::Key => "invalid object key"@,
            InvalidPlan::Range => "invalid byte range"@,
            InvalidPlan::UnsupportedRange => "the service does not support Range: bytes=-N suffix requests"@,
            InvalidPlan::RangedMetadata => "a metadata plan cannot carry a byte range"@,
            InvalidPlan::Condition => "invalid condition"@,
            InvalidPlan::PayloadTooLarge => "the content is too long to write in one request"@,
            InvalidPlan::Unknown => "the plan holds a value that this crate does not define"@,
            InvalidPlan::Prefix => "invalid listing prefix"@,
            InvalidPlan::Marker => "invalid listing marker"@,
            InvalidPlan::MaxResults => "a listing cannot ask for zero entries"@,
            InvalidPlan::Option => "invalid block option"@,
            InvalidPlan::BlockId => "invalid block ID"@,
            InvalidPlan::Blocks => "the commit names too many blocks"@,
            InvalidPlan::RequestTooLarge => "the request is larger than any buffer can be"@,
            InvalidPlan::Checksum => "the checksum is not the base64 of a digest of its kind"@,
        }
    }

    /// Returns the sentence that describes this reason.
    pub fn as_str(self) -> (r: &'static str)
        ensures
            r@ == self.spec_as_str(),
    {
        match self {
            InvalidPlan::Key => "invalid object key",
            InvalidPlan::Range => "invalid byte range",
            InvalidPlan::UnsupportedRange => "the service does not support Range: bytes=-N suffix requests",
            InvalidPlan::RangedMetadata => "a metadata plan cannot carry a byte range",
            InvalidPlan::Condition => "invalid condition",
            InvalidPlan::PayloadTooLarge => "the content is too long to write in one request",
            InvalidPlan::Unknown => "the plan holds a value that this crate does not define",
            InvalidPlan::Prefix => "invalid listing prefix",
            InvalidPlan::Marker => "invalid listing marker",
            InvalidPlan::MaxResults => "a listing cannot ask for zero entries",
            InvalidPlan::Option => "invalid block option",
            InvalidPlan::BlockId => "invalid block ID",
            InvalidPlan::Blocks => "the commit names too many blocks",
            InvalidPlan::RequestTooLarge => "the request is larger than any buffer can be",
            InvalidPlan::Checksum => "the checksum is not the base64 of a digest of its kind",
        }
    }

    /// Returns the reason with this discriminant.
    ///
    /// Returns [`None`] for a discriminant that this version does not define.
    pub fn from_discriminant(value: u16) -> (r: Option<Self>)
        ensures
            r matches Some(plan) ==> plan.spec_discriminant() == value,
            r is None ==> forall|plan: Self| plan.spec_discriminant() != value,
    {
        match value {
            1 => Some(InvalidPlan::Key),
            2 => Some(InvalidPlan::Range),
            3 => Some(InvalidPlan::UnsupportedRange),
            4 => Some(InvalidPlan::RangedMetadata),
            5 => Some(InvalidPlan::Condition),
            6 => Some(InvalidPlan::PayloadTooLarge),
            7 => Some(InvalidPlan::Unknown),
            10 => Some(InvalidPlan::Prefix),
            11 => Some(InvalidPlan::Marker),
            12 => Some(InvalidPlan::MaxResults),
            18 => Some(InvalidPlan::Option),
            19 => Some(InvalidPlan::BlockId),
            20 => Some(InvalidPlan::Blocks),
            21 => Some(InvalidPlan::RequestTooLarge),
            22 => Some(InvalidPlan::Checksum),
            _ => None,
        }
    }
}

/// Why a response cannot be read.
///
/// Azure sends none of these. Each one means that the response was changed on
/// the way to you, or that the service did not behave as it documents.
#[derive(Debug, Clone, Copy, PartialEq, Eq)]
#[non_exhaustive]
pub enum ResponseFault {
    /// A value in the head is missing, is not a number, or disagrees with
    /// another value in the same head.
    Head,
    /// The status does not answer the request that was sent.
    Status,
    /// The service served a range other than the one that the plan requested.
    Range,
    /// The response body is not well formed, or it is not the document that
    /// answers the request.
    Body,
}

impl ResponseFault {
    pub open spec fn spec_discriminant(self) -> u16 {
        match self {
            ResponseFault::Head => 1,
            ResponseFault::Status => 2,
            ResponseFault::Range => 3,
            ResponseFault::Body => 4,
        }
    }

    /// Returns the number that stands for this fault.
    pub fn discriminant(self) -> (r: u16)
        ensures
            r == self.spec_discriminant(),
    {
        match self {
            ResponseFault::Head => 1,
            ResponseFault::Status => 2,
            ResponseFault::Range => 3,
            ResponseFault::Body => 4,
        }
    }

    pub open spec fn spec_as_str(self) -> Seq<char> {
        match self {
            ResponseFault::Head => "the response head is unreadable, or it contradicts itself"@,
            ResponseFault::Status => "the status does not answer the request"@,
            ResponseFault::Range => "the service served another range than the plan requested"@,
            ResponseFault::Body => "the response body is not the document that answers the request"@,
        }
    }

    /// Returns the sentence that describes this fault.
    pub fn as_str(self) -> (r: &'static str)
        ensures
            r@ == self.spec_as_str(),
    {
        match self {
            ResponseFault::Head => "the response head is unreadable, or it contradicts itself",
            ResponseFault::Status => "the status does not answer the request",
            ResponseFault::Range => "the service served another range than the plan requested",
            ResponseFault::Body => "the response body is not the document that answers the request",
        }
    }

    /// Returns the fault with this discriminant.
    ///
    /// Returns [`None`] for a discriminant that this version does not define.
    pub fn from_discriminant(value: u16) -> (r: Option<Self>)
        ensures
            r matches Some(fault) ==> fault.spec_discriminant() == value,
            r is None ==> forall|fault: Self| fault.spec_discriminant() != value,
    {
        match value {
            1 => Some(ResponseFault::Head),
            2 => Some(ResponseFault::Status),
            3 => Some(ResponseFault::Range),
            4 => Some(ResponseFault::Body),
            _ => None,
        }
    }
}

/// Which kind of failure an [`Error`] is.
///
/// This is the discriminant of [`Error`] on its own, as a number that does not
/// change between versions. Read it with [`Error::code`], and read the
/// discriminant of the value inside with [`Error::detail`].
#[derive(Debug, Clone, Copy, PartialEq, Eq)]
#[non_exhaustive]
pub enum ErrorCode {
    /// [`Error::InvalidEndpoint`].
    InvalidEndpoint,
    /// [`Error::InvalidContainer`].
    InvalidContainer,
    /// [`Error::InvalidToken`].
    InvalidToken,
    /// [`Error::InvalidPlan`].
    InvalidPlan,
    /// [`Error::Capacity`].
    Capacity,
    /// [`Error::Response`].
    Response,
}

impl ErrorCode {
    pub open spec fn spec_discriminant(self) -> u16 {
        match self {
            ErrorCode::InvalidEndpoint => 1,
            ErrorCode::InvalidContainer => 2,
            ErrorCode::InvalidToken => 3,
            ErrorCode::InvalidPlan => 4,
            ErrorCode::Capacity => 5,
            ErrorCode::Response => 6,
        }
    }

    /// Returns the number that stands for this kind of failure.
    pub fn discriminant(self) -> (r: u16)
        ensures
            r == self.spec_discriminant(),
    {
        match self {
            ErrorCode::InvalidEndpoint => 1,
            ErrorCode::InvalidContainer => 2,
            ErrorCode::InvalidToken => 3,
            ErrorCode::InvalidPlan => 4,
            ErrorCode::Capacity => 5,
            ErrorCode::Response => 6,
        }
    }

    pub open spec fn spec_as_str(self) -> Seq<char> {
        match self {
            ErrorCode::InvalidEndpoint => "invalid endpoint"@,
            ErrorCode::InvalidContainer => "invalid container name"@,
            ErrorCode::InvalidToken => "invalid bearer token"@,
            ErrorCode::InvalidPlan => "the plan cannot become a request"@,
            ErrorCode::Capacity => "the buffer is too small"@,
            ErrorCode::Response => "the response cannot be read"@,
        }
    }

    /// Returns a sentence naming this kind of failure.
    pub fn as_str(self) -> (r: &'static str)
        ensures
            r@ == self.spec_as_str(),
    {
        match self {
            ErrorCode::InvalidEndpoint => "invalid endpoint",
            ErrorCode::InvalidContainer => "invalid container name",
            ErrorCode::InvalidToken => "invalid bearer token",
            ErrorCode::InvalidPlan => "the plan cannot become a request",
            ErrorCode::Capacity => "the buffer is too small",
            ErrorCode::Response => "the response cannot be read",
        }
    }

    /// Returns the code with this discriminant.
    ///
    /// Returns [`None`] for a discriminant that this version does not define.
    pub fn from_discriminant(value: u16) -> (r: Option<Self>)
        ensures
            r matches Some(code) ==> code.spec_discriminant() == value,
            r is None ==> forall|code: Self| code.spec_discriminant() != value,
    {
        match value {
            1 => Some(ErrorCode::InvalidEndpoint),
            2 => Some(ErrorCode::InvalidContainer),
            3 => Some(ErrorCode::InvalidToken),
            4 => Some(ErrorCode::InvalidPlan),
            5 => Some(ErrorCode::Capacity),
            6 => Some(ErrorCode::Response),
            _ => None,
        }
    }
}

/// A failure to validate, to encode, or to read a request.
///
/// This type reports only your own mistakes and invalid responses. A response
/// that the service sends in normal operation, such as a missing object or a
/// failed precondition, is not an error here: it is an outcome.
///
/// No value of this type carries text. [`Error::code`] and [`Error::detail`]
/// describe every value but a capacity error as two numbers.
#[derive(Debug, Clone, Copy, PartialEq, Eq)]
#[non_exhaustive]
pub enum Error {
    /// The endpoint is not an ASCII HTTP or HTTPS origin.
    InvalidEndpoint,
    /// The container name is empty, or it contains bytes that would change the
    /// structure of the request.
    InvalidContainer,
    /// The bearer token is not usable as one HTTP header value.
    InvalidToken,
    /// The plan cannot become a request.
    InvalidPlan(InvalidPlan),
    /// Your request buffer or your entry array is too small.
    Capacity(CapacityError),
    /// The response cannot be read.
    Response(ResponseFault),
}

impl Error {
    pub open spec fn spec_code(self) -> ErrorCode {
        match self {
            Error::InvalidEndpoint => ErrorCode::InvalidEndpoint,
            Error::InvalidContainer => ErrorCode::InvalidContainer,
            Error::InvalidToken => ErrorCode::InvalidToken,
            Error::InvalidPlan(_) => ErrorCode::InvalidPlan,
            Error::Capacity(_) => ErrorCode::Capacity,
            Error::Response(_) => ErrorCode::Response,
        }
    }

    pub open spec fn spec_detail(self) -> u16 {
        match self {
            Error::InvalidPlan(plan) => plan.spec_discriminant(),
            Error::Response(fault) => fault.spec_discriminant(),
            _ => 0,
        }
    }

    pub open spec fn spec_message(self) -> Seq<char> {
        match self {
            Error::InvalidPlan(plan) => plan.spec_as_str(),
            Error::Capacity(capacity) => capacity.spec_message(),
            Error::Response(fault) => fault.spec_as_str(),
            _ => self.spec_code().spec_as_str(),
        }
    }

    /// Returns the capacity details, if this is a capacity error.
    pub fn capacity(&self) -> (r: Option<CapacityError>)
        ensures
            r == (match *self {
                Error::Capacity(c) => Some(c),
                _ => None,
            }),
    {
        match *self {
            Error::Capacity(error) => Some(error),
            _ => None,
        }
    }

    /// Returns which kind of failure this is.
    pub fn code(&self) -> (r: ErrorCode)
        ensures
            r == self.spec_code(),
    {
        match self {
            Error::InvalidEndpoint => ErrorCode::InvalidEndpoint,
            Error::InvalidContainer => ErrorCode::InvalidContainer,
            Error::InvalidToken => ErrorCode::InvalidToken,
            Error::InvalidPlan(_) => ErrorCode::InvalidPlan,
            Error::Capacity(_) => ErrorCode::Capacity,
            Error::Response(_) => ErrorCode::Response,
        }
    }

    /// Returns the discriminant of the value inside, or 0 if there is none.
    ///
    /// [`Self::Capacity`] carries sizes rather than a discriminant, and
    /// returns 0 here. Read those sizes with [`Self::capacity`].
    pub fn detail(&self) -> (r: u16)
        ensures
            r == self.spec_detail(),
    {
        match *self {
            Error::InvalidPlan(plan) => plan.discriminant(),
            Error::Response(fault) => fault.discriminant(),
            _ => 0,
        }
    }

    /// Rebuilds an error from a [`Self::code`] and a [`Self::detail`].
    ///
    /// Returns [`None`] if `detail` is not a discriminant that `code` defines,
    /// and for [`ErrorCode::Capacity`], whose sizes this pair does not carry.
    /// A code that carries no value inside accepts only a `detail` of 0.
    pub fn from_parts(code: ErrorCode, detail: u16) -> (r: Option<Self>)
        ensures
            r matches Some(e) ==> e.spec_code() == code && e.spec_detail() == detail && !(e is Capacity),
            r is None <==> (code == ErrorCode::Capacity
                || ((code == ErrorCode::InvalidEndpoint || code == ErrorCode::InvalidContainer || code == ErrorCode::InvalidToken) && detail != 0)
                || (code == ErrorCode::InvalidPlan && forall|p: InvalidPlan| p.spec_discriminant() != detail)
                || (code == ErrorCode::Response && forall|f: ResponseFault| f.spec_discriminant() != detail)),
    {
        match code {
            ErrorCode::InvalidEndpoint => if detail == 0 { Some(Error::InvalidEndpoint) } else { None },
            ErrorCode::InvalidContainer => if detail == 0 { Some(Error::InvalidContainer) } else { None },
            ErrorCode::InvalidToken => if detail == 0 { Some(Error::InvalidToken) } else { None },
            ErrorCode::InvalidPlan => match InvalidPlan::from_discriminant(detail) {
                Some(plan) => Some(Error::InvalidPlan(plan)),
                None => None,
            },
            ErrorCode::Response => match ResponseFault::from_discriminant(detail) {
                Some(fault) => Some(Error::Response(fault)),
                None => None,
            },
            ErrorCode::Capacity => None,
        }
    }

    /// The sentence that describes this error.
    pub fn message(&self) -> (r: String)
        ensures
            r@ == self.spec_message(),
    {
        match *self {
            Error::InvalidPlan(plan) => String::from_str(plan.as_str()),
            Error::Capacity(capacity) => capacity.message(),
            Error::Response(fault) => String::from_str(fault.as_str()),
            _ => String::from_str(self.code().as_str()),
        }
    }
}

/// Every error but a capacity error is told whole by its two numbers:
/// rebuilding it from its code and its detail gives it back.
pub proof fn law_an_error_is_rebuilt_from_its_code_and_detail(error: Error)
    requires
        !(error is Capacity),
    ensures
        error.spec_code() != ErrorCode::Capacity,
        error.spec_code() == ErrorCode::InvalidPlan ==> error == Error::InvalidPlan(
            choose|p: InvalidPlan| p.spec_discriminant() == error.spec_detail()),
        error.spec_code() == ErrorCode::Response ==> error == Error::Response(
            choose|f: ResponseFault| f.spec_discriminant() == error.spec_detail()),
{
    match error {
        Error::InvalidPlan(plan) => {
            lemma_invalid_plan_discriminant_injective(plan);
        },
        Error::Response(fault) => {
            lemma_fault_discriminant_injective(fault);
        },
        _ => {},
    }
}

/// Two reasons with one discriminant are one reason.
pub proof fn lemma_invalid_plan_discriminant_injective(plan: InvalidPlan)
    ensures
        forall|other: InvalidPlan| #[trigger] other.spec_discriminant() == plan.spec_discriminant() ==> other == plan,
{
}

/// Two faults with one discriminant are one fault.
pub proof fn lemma_fault_discriminant_injective(fault: ResponseFault)
    ensures
        forall|other: ResponseFault| #[trigger] other.spec_discriminant() == fault.spec_discriminant() ==> other == fault,
{
}

} // verus!
