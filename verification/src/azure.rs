//! Azure Blob Storage requests and responses.

use vstd::prelude::*;
use vstd::string::*;
use vstd::utf8::*;

use crate::error::{Error, InvalidPlan, ResponseFault};
use crate::head::{names, offered, ResponseHead};
use crate::text::eq_ignore_ascii_case;
use crate::http::{header_value_ok, http_origin, valid_header, valid_http_origin, ascii_control};
use crate::outcome::{
    BodyWindow, Classification, CommitBlocksHeadOutcome, DeleteHeadOutcome, Failure, FailureClass,
    GetHeadOutcome, ListBlocksHeadOutcome, ListHeadOutcome, Listing, ObjectMeta, PutHeadOutcome,
    ServiceErrorKind, StageBlockHeadOutcome,
};
use crate::types::{
    CommitBlocksShape, ConditionKind, DeleteShape, GetKind, GetShape, ListEntry, PhysicalDelete,
    PhysicalGet, PhysicalList, PhysicalPut, PutShape, RequestedRange,
};
use crate::xml::decode::{starts_with, starts_with_bytes};
use crate::xml::{find_byte, find_byte_from, lemma_find_byte_from};
use crate::text::{all_digits, bytes_equal, decimal, decimal_value, is_u64_decimal, trim, trim_ascii, utf8_text};
use crate::xml::{error_code as body_error_code, spec_error_code};
use crate::xml::blocks::{
    block_is, blocks_result, fill_blocks, law_an_accepted_block_list_fits_its_bound, BlockText,
};
use crate::xml::listing::{
    entry_is, fill_listing, fill_listing_with, filled_as, listing_result, no_properties, page_texts,
    same_text, EntryText, PropertySet, PropertyValues,
};
use crate::error::CapacityError;
use crate::path::{appended, lemma_appended_nothing, lemma_appended_twice, percent_encoded, push_encoded};
use crate::request::{
    head_text, saturated, HeadPart, HeadWriter, HeaderSpan, Method, U64Decimal, WireRequest,
};
use crate::text::{decimal_digits, lemma_decimal_digits_ascii, lemma_ascii_is_utf8};
use crate::time::{spec_rfc1123, Timestamps};
use crate::types::{DeleteKind, Payload};

verus! {

broadcast use vstd::string::group_string_axioms;

/// The most recent Azure Storage version that every region supports.
pub const VERSION: &'static str = "2026-04-06";

/// The most bytes that Azure writes in one `Put Blob` request.
///
/// This is a `u64` because it does not fit a 32-bit `usize`.
pub const MAX_PUT_LEN: u64 = 5000 * 1024 * 1024;

/// The most bytes that Azure stages in one `Put Block` request.
pub const MAX_STAGE_LEN: u64 = 4000 * 1024 * 1024;

/// The most blocks that one commit may name.
pub const MAX_BLOCKS: usize = 50000;

/// The most UTF-16 code units in a name on a flat-namespace account.
pub const MAX_BLOB_NAME_UNITS: usize = 1024;

/// The most `/`-delimited segments that Azure takes in a name.
pub const MAX_BLOB_NAME_SEGMENTS: usize = 255;

/// The kind of storage account that a client talks to.
///
/// [`Blobs::with_namespace`] sets it. No request or response says which kind
/// of account answered.
#[derive(Debug, Clone, Copy, Default, PartialEq, Eq, Structural)]
pub enum AzureNamespace {
    /// The account's namespace is not known. A client refuses only what
    /// both kinds of account refuse, and sends the rest.
    #[default]
    Unknown,
    /// A flat-namespace account.
    Flat,
    /// A hierarchical-namespace account.
    Hierarchical,
}

impl AzureNamespace {
    pub open spec fn spec_discriminant(self) -> u16 {
        match self {
            AzureNamespace::Unknown => 0,
            AzureNamespace::Flat => 1,
            AzureNamespace::Hierarchical => 2,
        }
    }

    /// Returns the number that stands for this namespace.
    pub fn discriminant(self) -> (r: u16)
        ensures
            r == self.spec_discriminant(),
    {
        match self {
            AzureNamespace::Unknown => 0,
            AzureNamespace::Flat => 1,
            AzureNamespace::Hierarchical => 2,
        }
    }

    /// Returns the namespace with this discriminant, or `None` for an unknown
    /// one.
    pub fn from_discriminant(value: u16) -> (r: Option<Self>)
        ensures
            r matches Some(n) ==> n.spec_discriminant() == value,
            r is None ==> forall|n: Self| n.spec_discriminant() != value,
    {
        match value {
            0 => Some(AzureNamespace::Unknown),
            1 => Some(AzureNamespace::Flat),
            2 => Some(AzureNamespace::Hierarchical),
            _ => None,
        }
    }
}

/// Azure's corresponding rejection for one local validation failure.
///
/// No request was sent. This is not a received response.
#[derive(Debug, Clone, Copy, PartialEq, Eq)]
pub struct AzureRejection {
    /// The corresponding HTTP status.
    pub status: u16,
    /// The service error code.
    pub code: &'static str,
}

impl InvalidPlan {
    /// The code of the rejection that Azure answers this reason with, if one
    /// is established for the namespace.
    pub open spec fn spec_azure_code(self, namespace: AzureNamespace) -> Option<Seq<char>> {
        match self {
            InvalidPlan::MaxResults => Some("OutOfRangeQueryParameterValue"@),
            _ => None,
        }
    }

    /// Returns the known Azure rejection corresponding to this reason.
    ///
    /// Returns `None` when no mapping is established for the namespace. A
    /// refused key names no single cause, so it has none.
    pub fn azure_rejection(self, namespace: AzureNamespace) -> (r: Option<AzureRejection>)
        ensures
            r is Some <==> self.spec_azure_code(namespace) is Some,
            r matches Some(rejection) ==> rejection.status == 400
                && Some(rejection.code@) == self.spec_azure_code(namespace),
    {
        let code = match self {
            InvalidPlan::MaxResults => "OutOfRangeQueryParameterValue",
            _ => return None,
        };
        Some(AzureRejection { status: 400, code })
    }
}

/// Whether a container name is not empty and holds no byte that would
/// change the structure of a request: `/`, `?`, `#` or a control.
pub open spec fn container_name_ok(name: Seq<u8>) -> bool {
    &&& name.len() > 0
    &&& forall|i: int| 0 <= i < name.len() ==> {
        let b = #[trigger] name[i];
        b != 0x2f && b != 0x3f && b != 0x23 && !ascii_control(b)
    }
}

fn valid_container_name(name: &[u8]) -> (r: bool)
    ensures
        r == container_name_ok(name@),
{
    if name.len() == 0 {
        return false;
    }
    let mut i: usize = 0;
    while i < name.len()
        invariant
            i <= name@.len(),
            forall|j: int| 0 <= j < i ==> {
                let b = #[trigger] name@[j];
                b != 0x2f && b != 0x3f && b != 0x23 && !ascii_control(b)
            },
        decreases name@.len() - i,
    {
        let b = name[i];
        if b == 0x2f || b == 0x3f || b == 0x23 || b < 0x20 || b == 0x7f {
            return false;
        }
        i = i + 1;
    }
    true
}

/// An Azure Blob endpoint and container name, both borrowed.
#[derive(Debug, Clone, Copy)]
pub struct Container<'a> {
    endpoint: &'a str,
    name: &'a str,
}

impl<'a> Container<'a> {
    /// The origin of the endpoint.
    pub closed spec fn spec_endpoint(self) -> &'a str {
        self.endpoint
    }

    /// The name of the container.
    pub closed spec fn spec_name(self) -> &'a str {
        self.name
    }

    /// Creates a container reference from an origin and a container name.
    ///
    /// # Errors
    ///
    /// Returns [`Error::InvalidEndpoint`] if `endpoint` is not an ASCII HTTP
    /// or HTTPS origin.
    ///
    /// Returns [`Error::InvalidContainer`] if `name` is empty, or if it
    /// contains bytes that would change the structure of the request.
    pub fn new(endpoint: &'a str, name: &'a str) -> (r: Result<Self, Error>)
        ensures
            !http_origin(endpoint.spec_bytes()) ==> r == Err::<Self, Error>(Error::InvalidEndpoint),
            http_origin(endpoint.spec_bytes()) && !container_name_ok(name.spec_bytes())
                ==> r == Err::<Self, Error>(Error::InvalidContainer),
            r is Ok <==> http_origin(endpoint.spec_bytes()) && container_name_ok(name.spec_bytes()),
            r matches Ok(c) ==> c.spec_endpoint() == endpoint && c.spec_name() == name,
    {
        if !valid_http_origin(endpoint) {
            return Err(Error::InvalidEndpoint);
        }
        if !valid_container_name(name.as_bytes()) {
            return Err(Error::InvalidContainer);
        }
        Ok(Container { endpoint, name })
    }
}

/// The Azure Blob operations that one bearer token authorizes.
///
/// This is a small borrowed value, and it is [`Copy`]. Every method that
/// encodes a request takes the current time in `now`, because this crate
/// never reads the clock.
#[derive(Clone, Copy)]
pub struct Blobs<'a> {
    container: Container<'a>,
    token: &'a str,
    namespace: AzureNamespace,
}

impl<'a> Blobs<'a> {
    /// The container that the requests name.
    pub closed spec fn spec_container(self) -> Container<'a> {
        self.container
    }

    /// The bearer token.
    pub closed spec fn spec_token(self) -> &'a str {
        self.token
    }

    /// The kind of account that this client was told it talks to.
    pub closed spec fn spec_namespace(self) -> AzureNamespace {
        self.namespace
    }

    /// Creates a client from a container and a bearer token.
    ///
    /// # Errors
    ///
    /// Returns [`Error::InvalidToken`] if `token` is not usable as one HTTP
    /// header value.
    pub fn new(container: Container<'a>, token: &'a str) -> (r: Result<Self, Error>)
        ensures
            r is Err <==> !header_value_ok(token.spec_bytes()),
            r matches Err(e) ==> e == Error::InvalidToken,
            r matches Ok(b) ==> b.spec_container() == container && b.spec_token() == token
                && b.spec_namespace() == AzureNamespace::Unknown,
    {
        if !valid_header(token.as_bytes()) {
            return Err(Error::InvalidToken);
        }
        Ok(Blobs { container, token, namespace: AzureNamespace::Unknown })
    }

    /// Returns this client with the account's namespace set.
    ///
    /// A client told it is on a flat account refuses a key of more than 1,024
    /// UTF-16 code units as [`InvalidPlan::Key`]. Any other client
    /// sends it and reports what the service answers.
    pub fn with_namespace(self, namespace: AzureNamespace) -> (r: Self)
        ensures
            r == self.spec_with_namespace(namespace),
            r.spec_container() == self.spec_container(),
            r.spec_token() == self.spec_token(),
            r.spec_namespace() == namespace,
    {
        Blobs { namespace, ..self }
    }

    /// This client with the account's namespace set.
    pub closed spec fn spec_with_namespace(self, namespace: AzureNamespace) -> Self {
        Blobs { namespace, ..self }
    }
}

/// A client is the container, the token and the namespace it holds: two
/// clients that hold the same three are one client, so every method answers
/// them alike.
pub proof fn law_a_client_is_what_it_holds<'a>(a: Blobs<'a>, b: Blobs<'a>)
    requires
        a.spec_container() == b.spec_container(),
        a.spec_token() == b.spec_token(),
        a.spec_namespace() == b.spec_namespace(),
    ensures
        a == b,
{
}

/// Setting the namespace twice keeps the last one set, and telling a new
/// client that its namespace is unknown leaves it as it was.
pub proof fn law_the_last_namespace_set_is_the_one_kept<'a>(b: Blobs<'a>, first: AzureNamespace, second: AzureNamespace)
    ensures
        b.spec_with_namespace(first).spec_with_namespace(second) == b.spec_with_namespace(second),
        b.spec_namespace() == AzureNamespace::Unknown ==> b.spec_with_namespace(AzureNamespace::Unknown) == b,
{
}

/// Whether `code` is the bytes of `name`.
pub open spec fn is_code(code: Seq<u8>, name: &str) -> bool {
    code == name.spec_bytes()
}

fn code_is(code: &[u8], name: &str) -> (r: bool)
    ensures
        r == is_code(code@, name),
{
    bytes_equal(code, name.as_bytes())
}

/// The kind of error that an Azure error code names, if this crate knows the
/// code.
pub open spec fn spec_kind_for_code(code: Seq<u8>) -> Option<ServiceErrorKind> {
    if is_code(code, "BlobNotFound") || is_code(code, "ResourceNotFound") {
        Some(ServiceErrorKind::NotFound)
    } else if is_code(code, "ContainerNotFound") {
        Some(ServiceErrorKind::NoSuchContainer)
    } else if is_code(code, "BlobAlreadyExists") || is_code(code, "ContainerAlreadyExists") {
        Some(ServiceErrorKind::AlreadyExists)
    } else if is_code(code, "ConditionNotMet") || is_code(code, "TargetConditionNotMet") {
        Some(ServiceErrorKind::Precondition)
    } else if is_code(code, "InvalidRange") {
        Some(ServiceErrorKind::RangeNotSatisfiable)
    } else if is_code(code, "ServerBusy") {
        Some(ServiceErrorKind::Throttled)
    } else if is_code(code, "OperationTimedOut") {
        Some(ServiceErrorKind::Timeout)
    } else if is_code(code, "AuthenticationFailed") || is_code(code, "AuthorizationFailure")
        || is_code(code, "InvalidAuthenticationInfo") || is_code(code, "AuthorizationPermissionMismatch")
        || is_code(code, "InsufficientAccountPermissions") {
        Some(ServiceErrorKind::Unauthorized)
    } else if is_code(code, "InternalError") || is_code(code, "ServiceUnavailable") {
        Some(ServiceErrorKind::Service)
    } else if is_code(code, "InvalidBlockList") || is_code(code, "InvalidBlockId")
        || is_code(code, "InvalidBlobOrBlock") || is_code(code, "BlockCountExceedsLimit")
        || is_code(code, "BlockListTooLong") {
        Some(ServiceErrorKind::InvalidUpload)
    } else {
        None
    }
}

/// The length and the first byte of each error code that names a kind.
proof fn lemma_code_names()
    ensures
        "BlobNotFound".spec_bytes().len() == 12 && "BlobNotFound".spec_bytes()[0] == 0x42,
        "ResourceNotFound".spec_bytes().len() == 16 && "ResourceNotFound".spec_bytes()[0] == 0x52,
        "ContainerNotFound".spec_bytes().len() == 17 && "ContainerNotFound".spec_bytes()[0] == 0x43,
        "BlobAlreadyExists".spec_bytes().len() == 17 && "BlobAlreadyExists".spec_bytes()[0] == 0x42,
        "ContainerAlreadyExists".spec_bytes().len() == 22 && "ContainerAlreadyExists".spec_bytes()[0] == 0x43,
        "ConditionNotMet".spec_bytes().len() == 15 && "ConditionNotMet".spec_bytes()[0] == 0x43,
        "TargetConditionNotMet".spec_bytes().len() == 21 && "TargetConditionNotMet".spec_bytes()[0] == 0x54,
        "InvalidRange".spec_bytes().len() == 12 && "InvalidRange".spec_bytes()[0] == 0x49,
        "ServerBusy".spec_bytes().len() == 10 && "ServerBusy".spec_bytes()[0] == 0x53,
        "OperationTimedOut".spec_bytes().len() == 17 && "OperationTimedOut".spec_bytes()[0] == 0x4f,
        "AuthenticationFailed".spec_bytes().len() == 20 && "AuthenticationFailed".spec_bytes()[0] == 0x41,
        "AuthorizationFailure".spec_bytes().len() == 20 && "AuthorizationFailure".spec_bytes()[0] == 0x41,
        "InvalidAuthenticationInfo".spec_bytes().len() == 25 && "InvalidAuthenticationInfo".spec_bytes()[0] == 0x49,
        "AuthorizationPermissionMismatch".spec_bytes().len() == 31 && "AuthorizationPermissionMismatch".spec_bytes()[0] == 0x41,
        "InsufficientAccountPermissions".spec_bytes().len() == 30 && "InsufficientAccountPermissions".spec_bytes()[0] == 0x49,
        "InternalError".spec_bytes().len() == 13 && "InternalError".spec_bytes()[0] == 0x49,
        "ServiceUnavailable".spec_bytes().len() == 18 && "ServiceUnavailable".spec_bytes()[0] == 0x53,
        "InvalidBlockList".spec_bytes().len() == 16 && "InvalidBlockList".spec_bytes()[0] == 0x49,
        "InvalidBlockId".spec_bytes().len() == 14 && "InvalidBlockId".spec_bytes()[0] == 0x49,
        "InvalidBlobOrBlock".spec_bytes().len() == 18 && "InvalidBlobOrBlock".spec_bytes()[0] == 0x49,
        "BlockCountExceedsLimit".spec_bytes().len() == 22 && "BlockCountExceedsLimit".spec_bytes()[0] == 0x42,
        "BlockListTooLong".spec_bytes().len() == 16 && "BlockListTooLong".spec_bytes()[0] == 0x42,
{
    reveal_strlit("BlobNotFound");
    assert(is_ascii("BlobNotFound"));
    reveal_strlit("ResourceNotFound");
    assert(is_ascii("ResourceNotFound"));
    reveal_strlit("ContainerNotFound");
    assert(is_ascii("ContainerNotFound"));
    reveal_strlit("BlobAlreadyExists");
    assert(is_ascii("BlobAlreadyExists"));
    reveal_strlit("ContainerAlreadyExists");
    assert(is_ascii("ContainerAlreadyExists"));
    reveal_strlit("ConditionNotMet");
    assert(is_ascii("ConditionNotMet"));
    reveal_strlit("TargetConditionNotMet");
    assert(is_ascii("TargetConditionNotMet"));
    reveal_strlit("InvalidRange");
    assert(is_ascii("InvalidRange"));
    reveal_strlit("ServerBusy");
    assert(is_ascii("ServerBusy"));
    reveal_strlit("OperationTimedOut");
    assert(is_ascii("OperationTimedOut"));
    reveal_strlit("AuthenticationFailed");
    assert(is_ascii("AuthenticationFailed"));
    reveal_strlit("AuthorizationFailure");
    assert(is_ascii("AuthorizationFailure"));
    reveal_strlit("InvalidAuthenticationInfo");
    assert(is_ascii("InvalidAuthenticationInfo"));
    reveal_strlit("AuthorizationPermissionMismatch");
    assert(is_ascii("AuthorizationPermissionMismatch"));
    reveal_strlit("InsufficientAccountPermissions");
    assert(is_ascii("InsufficientAccountPermissions"));
    reveal_strlit("InternalError");
    assert(is_ascii("InternalError"));
    reveal_strlit("ServiceUnavailable");
    assert(is_ascii("ServiceUnavailable"));
    reveal_strlit("InvalidBlockList");
    assert(is_ascii("InvalidBlockList"));
    reveal_strlit("InvalidBlockId");
    assert(is_ascii("InvalidBlockId"));
    reveal_strlit("InvalidBlobOrBlock");
    assert(is_ascii("InvalidBlobOrBlock"));
    reveal_strlit("BlockCountExceedsLimit");
    assert(is_ascii("BlockCountExceedsLimit"));
    reveal_strlit("BlockListTooLong");
    assert(is_ascii("BlockListTooLong"));
}

/// Each Azure error code names the kind of error that Azure documents for
/// it, and each kind is named by its codes alone: `ServerBusy` and nothing
/// else is throttling, `OperationTimedOut` and nothing else is a timeout, and
/// a code outside the table names no kind.
pub proof fn law_each_error_code_names_its_documented_kind(code: Seq<u8>)
    ensures
        spec_kind_for_code(code) == Some(ServiceErrorKind::NotFound) <==> (code == "BlobNotFound".spec_bytes() || code == "ResourceNotFound".spec_bytes()),
        spec_kind_for_code(code) == Some(ServiceErrorKind::NoSuchContainer) <==> (code == "ContainerNotFound".spec_bytes()),
        spec_kind_for_code(code) == Some(ServiceErrorKind::AlreadyExists) <==> (code == "BlobAlreadyExists".spec_bytes() || code == "ContainerAlreadyExists".spec_bytes()),
        spec_kind_for_code(code) == Some(ServiceErrorKind::Precondition) <==> (code == "ConditionNotMet".spec_bytes() || code == "TargetConditionNotMet".spec_bytes()),
        spec_kind_for_code(code) == Some(ServiceErrorKind::RangeNotSatisfiable) <==> (code == "InvalidRange".spec_bytes()),
        spec_kind_for_code(code) == Some(ServiceErrorKind::Throttled) <==> (code == "ServerBusy".spec_bytes()),
        spec_kind_for_code(code) == Some(ServiceErrorKind::Timeout) <==> (code == "OperationTimedOut".spec_bytes()),
        spec_kind_for_code(code) == Some(ServiceErrorKind::Unauthorized) <==> (code == "AuthenticationFailed".spec_bytes() || code == "AuthorizationFailure".spec_bytes() || code == "InvalidAuthenticationInfo".spec_bytes() || code == "AuthorizationPermissionMismatch".spec_bytes() || code == "InsufficientAccountPermissions".spec_bytes()),
        spec_kind_for_code(code) == Some(ServiceErrorKind::Service) <==> (code == "InternalError".spec_bytes() || code == "ServiceUnavailable".spec_bytes()),
        spec_kind_for_code(code) == Some(ServiceErrorKind::InvalidUpload) <==> (code == "InvalidBlockList".spec_bytes() || code == "InvalidBlockId".spec_bytes() || code == "InvalidBlobOrBlock".spec_bytes() || code == "BlockCountExceedsLimit".spec_bytes() || code == "BlockListTooLong".spec_bytes()),
        spec_kind_for_code(code) is None <==> !(code == "BlobNotFound".spec_bytes() || code == "ResourceNotFound".spec_bytes() || code == "ContainerNotFound".spec_bytes() || code == "BlobAlreadyExists".spec_bytes() || code == "ContainerAlreadyExists".spec_bytes() || code == "ConditionNotMet".spec_bytes() || code == "TargetConditionNotMet".spec_bytes() || code == "InvalidRange".spec_bytes() || code == "ServerBusy".spec_bytes() || code == "OperationTimedOut".spec_bytes() || code == "AuthenticationFailed".spec_bytes() || code == "AuthorizationFailure".spec_bytes() || code == "InvalidAuthenticationInfo".spec_bytes() || code == "AuthorizationPermissionMismatch".spec_bytes() || code == "InsufficientAccountPermissions".spec_bytes() || code == "InternalError".spec_bytes() || code == "ServiceUnavailable".spec_bytes() || code == "InvalidBlockList".spec_bytes() || code == "InvalidBlockId".spec_bytes() || code == "InvalidBlobOrBlock".spec_bytes() || code == "BlockCountExceedsLimit".spec_bytes() || code == "BlockListTooLong".spec_bytes()),
{
    lemma_code_names();
}

/// A timed-out operation is the server's failure, whatever the status it
/// came with, and only a busy server asks the caller to back off: the class
/// of a failure that names `OperationTimedOut` is the server's, and that of
/// one that names `ServerBusy` is throttling.
pub proof fn law_a_timeout_is_the_servers_and_only_a_busy_server_throttles(status: u16)
    ensures
        spec_failure_class(status, spec_kind_for_code("OperationTimedOut".spec_bytes())) == FailureClass::Server,
        spec_failure_class(status, spec_kind_for_code("ServerBusy".spec_bytes())) == FailureClass::Throttled,
{
    lemma_code_names();
}

/// Returns the kind of error that an Azure error code names.
pub fn kind_for_code(code: &[u8]) -> (r: Option<ServiceErrorKind>)
    ensures
        r == spec_kind_for_code(code@),
{
    if code_is(code, "BlobNotFound") || code_is(code, "ResourceNotFound") {
        Some(ServiceErrorKind::NotFound)
    } else if code_is(code, "ContainerNotFound") {
        Some(ServiceErrorKind::NoSuchContainer)
    } else if code_is(code, "BlobAlreadyExists") || code_is(code, "ContainerAlreadyExists") {
        Some(ServiceErrorKind::AlreadyExists)
    } else if code_is(code, "ConditionNotMet") || code_is(code, "TargetConditionNotMet") {
        Some(ServiceErrorKind::Precondition)
    } else if code_is(code, "InvalidRange") {
        Some(ServiceErrorKind::RangeNotSatisfiable)
    } else if code_is(code, "ServerBusy") {
        Some(ServiceErrorKind::Throttled)
    } else if code_is(code, "OperationTimedOut") {
        Some(ServiceErrorKind::Timeout)
    } else if code_is(code, "AuthenticationFailed") || code_is(code, "AuthorizationFailure")
        || code_is(code, "InvalidAuthenticationInfo") || code_is(code, "AuthorizationPermissionMismatch")
        || code_is(code, "InsufficientAccountPermissions") {
        Some(ServiceErrorKind::Unauthorized)
    } else if code_is(code, "InternalError") || code_is(code, "ServiceUnavailable") {
        Some(ServiceErrorKind::Service)
    } else if code_is(code, "InvalidBlockList") || code_is(code, "InvalidBlockId")
        || code_is(code, "InvalidBlobOrBlock") || code_is(code, "BlockCountExceedsLimit")
        || code_is(code, "BlockListTooLong") {
        Some(ServiceErrorKind::InvalidUpload)
    } else {
        None
    }
}

/// Whether a retry of a failed request can succeed, from its status and the
/// error it names.
pub open spec fn spec_failure_class(status: u16, kind: Option<ServiceErrorKind>) -> FailureClass {
    match kind {
        Some(ServiceErrorKind::Unauthorized) => FailureClass::Auth,
        Some(ServiceErrorKind::Throttled) => FailureClass::Throttled,
        Some(ServiceErrorKind::Service) => FailureClass::Server,
        Some(ServiceErrorKind::Timeout) => FailureClass::Server,
        _ => if 300 <= status <= 399 {
            FailureClass::Redirect
        } else if status == 401 || status == 403 {
            FailureClass::Auth
        } else if status == 408 || status == 429 {
            FailureClass::Throttled
        } else if 500 <= status <= 599 {
            FailureClass::Server
        } else {
            FailureClass::Other
        },
    }
}

/// Returns the class of a failure.
pub fn failure_class(status: u16, kind: Option<ServiceErrorKind>) -> (r: FailureClass)
    ensures
        r == spec_failure_class(status, kind),
{
    match kind {
        Some(ServiceErrorKind::Unauthorized) => FailureClass::Auth,
        Some(ServiceErrorKind::Throttled) => FailureClass::Throttled,
        Some(ServiceErrorKind::Service) => FailureClass::Server,
        Some(ServiceErrorKind::Timeout) => FailureClass::Server,
        _ => {
            if 300 <= status && status <= 399 {
                FailureClass::Redirect
            } else if status == 401 || status == 403 {
                FailureClass::Auth
            } else if status == 408 || status == 429 {
                FailureClass::Throttled
            } else if 500 <= status && status <= 599 {
                FailureClass::Server
            } else {
                FailureClass::Other
            }
        },
    }
}

/// The one record that every failing head becomes.
pub open spec fn spec_failure<'h>(status: u16, kind: Option<ServiceErrorKind>, request_id: Option<&'h [u8]>) -> Failure<'h> {
    Failure { status, class: spec_failure_class(status, kind), kind, request_id }
}

/// Returns the record of a failing head.
pub fn failure<'h>(status: u16, kind: Option<ServiceErrorKind>, request_id: Option<&'h [u8]>) -> (r: Failure<'h>)
    ensures
        r == spec_failure(status, kind, request_id),
{
    Failure { status, class: failure_class(status, kind), kind, request_id }
}

/// The bytes of an optional header value; an absent one is empty.
pub open spec fn value_bytes(value: Option<&[u8]>) -> Seq<u8> {
    match value {
        Some(v) => v@,
        None => Seq::empty(),
    }
}

/// The error that a head names in `x-ms-error-code`, if this crate knows it.
pub open spec fn spec_named(head: ResponseHead) -> Option<ServiceErrorKind> {
    spec_kind_for_code(trim_ascii(value_bytes(head.error_code)))
}

/// Returns the error that a head names.
pub fn named(head: &ResponseHead) -> (r: Option<ServiceErrorKind>)
    ensures
        r == spec_named(*head),
{
    let code: &[u8] = match head.error_code {
        Some(code) => code,
        None => &[],
    };
    proof {
        assert(code@ == value_bytes(head.error_code));
    }
    kind_for_code(trim(code))
}

/// The error that a failed response body names, if it names one this crate
/// recognizes.
pub open spec fn spec_body_kind(body: Seq<u8>) -> Option<ServiceErrorKind> {
    match spec_error_code(body) {
        Some(code) => if valid_utf8(code) { spec_kind_for_code(code) } else { None },
        None => None,
    }
}

/// Returns the error that a failed response body names.
pub fn body_kind(body: &[u8]) -> (r: Option<ServiceErrorKind>)
    ensures
        r == spec_body_kind(body@),
{
    match body_error_code(body) {
        Some(code) => kind_for_code(code.as_bytes()),
        None => None,
    }
}

/// The native error code of a response: the header's, trimmed of ASCII
/// white space, or else the one that the body names.
pub open spec fn spec_native_code(head: ResponseHead, body: Seq<u8>) -> Option<Seq<u8>> {
    match head.error_code {
        Some(code) => Some(trim_ascii(code@)),
        None => match spec_error_code(body) {
            Some(code) => if valid_utf8(code) { Some(code) } else { None },
            None => None,
        },
    }
}

/// Borrows the native error code, preferring the header over the XML body.
/// Unknown codes are retained unchanged.
pub fn error_code<'a>(head: &ResponseHead<'a>, body: &'a [u8]) -> (r: Option<&'a [u8]>)
    ensures
        r is Some <==> spec_native_code(*head, body@) is Some,
        r matches Some(code) ==> spec_native_code(*head, body@) == Some(code@),
{
    match head.error_code {
        Some(code) => Some(trim(code)),
        None => match body_error_code(body) {
            Some(code) => Some(code.as_bytes()),
            None => None,
        },
    }
}

/// How a failed response reads: the error it names, or whether its body was
/// cut short before it named one this crate knows.
pub open spec fn spec_classify(head: ResponseHead, body: Seq<u8>, truncated: bool) -> Classification {
    let kind = match spec_native_code(head, body) {
        Some(code) => spec_kind_for_code(code),
        None => None,
    };
    match kind {
        Some(kind) => Classification::Classified(kind),
        None => if truncated { Classification::Incomplete } else { Classification::Unknown },
    }
}

/// Classifies the Azure error that `head` names, or that `body` names if the
/// head carries no error code. Set `truncated` if a read limit stopped the
/// body early.
pub fn classify_error(head: &ResponseHead, body: &[u8], truncated: bool) -> (r: Classification)
    ensures
        r == spec_classify(*head, body@, truncated),
{
    let kind = match error_code(head, body) {
        Some(code) => kind_for_code(code),
        None => None,
    };
    match kind {
        Some(kind) => Classification::Classified(kind),
        None => if truncated { Classification::Incomplete } else { Classification::Unknown },
    }
}

/// A header value read as text, or a fault in the head if it is not UTF-8.
pub open spec fn spec_text_header(value: Option<&[u8]>) -> Result<Option<Seq<u8>>, Error> {
    match value {
        None => Ok(None),
        Some(v) => if valid_utf8(v@) { Ok(Some(v@)) } else { Err(Error::Response(ResponseFault::Head)) },
    }
}

/// Reads a header value that carries text.
pub fn text_header(value: Option<&[u8]>) -> (r: Result<Option<&str>, Error>)
    ensures
        r is Ok <==> spec_text_header(value) is Ok,
        r matches Ok(t) ==> spec_text_header(value) == Ok::<Option<Seq<u8>>, Error>(match t {
            Some(s) => Some(s.spec_bytes()),
            None => None,
        }),
        r matches Err(e) ==> e == Error::Response(ResponseFault::Head),
{
    match value {
        None => Ok(None),
        Some(v) => match utf8_text(v) {
            Some(text) => Ok(Some(text)),
            None => Err(Error::Response(ResponseFault::Head)),
        },
    }
}

/// A header value read as a decimal number, trimmed of ASCII white space, or
/// a fault in the head if it is not one.
pub open spec fn spec_decimal_header(value: Option<&[u8]>) -> Result<Option<u64>, Error> {
    match value {
        None => Ok(None),
        Some(v) => if is_u64_decimal(trim_ascii(v@)) {
            Ok(Some(decimal_value(trim_ascii(v@)) as u64))
        } else {
            Err(Error::Response(ResponseFault::Head))
        },
    }
}

/// Reads a header value that carries a number.
pub fn decimal_header(value: Option<&[u8]>) -> (r: Result<Option<u64>, Error>)
    ensures
        r == spec_decimal_header(value),
{
    match value {
        None => Ok(None),
        Some(v) => match decimal(trim(v)) {
            Some(n) => Ok(Some(n)),
            None => Err(Error::Response(ResponseFault::Head)),
        },
    }
}

/// The last offset where `s` holds `b`, or -1 if there is none.
pub open spec fn rfind_byte(s: Seq<u8>, b: u8) -> int
    decreases s.len(),
{
    if s.len() == 0 {
        -1
    } else if s.last() == b {
        s.len() - 1
    } else {
        rfind_byte(s.drop_last(), b)
    }
}

proof fn lemma_rfind_byte(s: Seq<u8>, b: u8)
    ensures
        -1 <= rfind_byte(s, b) < s.len(),
    decreases s.len(),
{
    if s.len() > 0 && s.last() != b {
        lemma_rfind_byte(s.drop_last(), b);
    }
}

fn rfind(s: &[u8], b: u8) -> (r: Option<usize>)
    ensures
        r is None <==> rfind_byte(s@, b) == -1,
        r matches Some(i) ==> i == rfind_byte(s@, b),
{
    let mut i: usize = s.len();
    proof { assert(s@.subrange(0, i as int) =~= s@); }
    while i > 0
        invariant
            i <= s@.len(),
            rfind_byte(s@, b) == rfind_byte(s@.subrange(0, i as int), b),
        decreases i,
    {
        if s[i - 1] == b {
            return Some(i - 1);
        }
        proof { assert(s@.subrange(0, i as int).drop_last() =~= s@.subrange(0, i - 1)); }
        i = i - 1;
    }
    None
}

/// What a `Content-Range` header states.
#[derive(Debug, Clone, Copy, PartialEq, Eq)]
pub enum ContentRange {
    /// The served bytes, `bytes start-end/total`, with `start <= end` and
    /// `end` below the total, or below `u64::MAX` when the total is `*`.
    Satisfied {
        /// The first byte served.
        start: u64,
        /// The last byte served.
        end: u64,
        /// The size of the object, if stated.
        total: Option<u64>,
    },
    /// No bytes served, `bytes */total`.
    Unsatisfied {
        /// The size of the object, if stated.
        total: Option<u64>,
    },
}

/// A total as written after the `/`: `*` for unknown, or a number.
pub open spec fn spec_total(text: Seq<u8>) -> Option<Option<u64>> {
    if text == "*".spec_bytes() {
        Some(None)
    } else if is_u64_decimal(text) {
        Some(Some(decimal_value(text) as u64))
    } else {
        None
    }
}

/// What a `Content-Range` value states, if it is one: `bytes`, a space, and
/// either `*` or `start-end`, then `/` and the total; white space may
/// surround the value and each side of its last `/`.
pub open spec fn spec_parse_content_range(value: Seq<u8>) -> Option<ContentRange> {
    let t = trim_ascii(value);
    let prefix = "bytes ".spec_bytes();
    if !starts_with(t, prefix) {
        None
    } else {
        let rest = t.subrange(prefix.len() as int, t.len() as int);
        let slash = rfind_byte(rest, 0x2f);
        if slash < 0 {
            None
        } else {
            let range = trim_ascii(rest.subrange(0, slash));
            match spec_total(trim_ascii(rest.subrange(slash + 1, rest.len() as int))) {
                None => None,
                Some(total) => if range == "*".spec_bytes() {
                    Some(ContentRange::Unsatisfied { total })
                } else {
                    let dash = find_byte_from(range, 0, 0x2d);
                    let first = range.subrange(0, dash);
                    let last = range.subrange(dash + 1, range.len() as int);
                    if dash >= range.len() || !is_u64_decimal(first) || !is_u64_decimal(last) {
                        None
                    } else {
                        let start = decimal_value(first);
                        let end = decimal_value(last);
                        let limit: nat = match total {
                            Some(t) => t as nat,
                            None => u64::MAX as nat,
                        };
                        if start > end || end >= limit {
                            None
                        } else {
                            Some(ContentRange::Satisfied { start: start as u64, end: end as u64, total })
                        }
                    }
                },
            }
        }
    }
}

fn read_total(text: &[u8]) -> (r: Option<Option<u64>>)
    ensures
        r == spec_total(text@),
{
    if bytes_equal(text, "*".as_bytes()) {
        Some(None)
    } else {
        match decimal(text) {
            Some(n) => Some(Some(n)),
            None => None,
        }
    }
}

/// Reads a `Content-Range` value.
pub fn parse_content_range(value: &[u8]) -> (r: Option<ContentRange>)
    ensures
        r == spec_parse_content_range(value@),
{
    let t = trim(value);
    let prefix = "bytes ".as_bytes();
    if !starts_with_bytes(t, prefix) {
        return None;
    }
    let rest = vstd::slice::slice_subrange(t, prefix.len(), t.len());
    let slash = match rfind(rest, 0x2f) {
        Some(i) => i,
        None => return None,
    };
    proof { lemma_rfind_byte(rest@, 0x2f); }
    let range = trim(vstd::slice::slice_subrange(rest, 0, slash));
    let total = match read_total(trim(vstd::slice::slice_subrange(rest, slash + 1, rest.len()))) {
        Some(total) => total,
        None => return None,
    };
    if bytes_equal(range, "*".as_bytes()) {
        return Some(ContentRange::Unsatisfied { total });
    }
    let dash = find_byte(range, 0, 0x2d);
    if dash >= range.len() {
        return None;
    }
    let start = match decimal(vstd::slice::slice_subrange(range, 0, dash)) {
        Some(n) => n,
        None => return None,
    };
    let end = match decimal(vstd::slice::slice_subrange(range, dash + 1, range.len())) {
        Some(n) => n,
        None => return None,
    };
    let limit = match total {
        Some(t) => t,
        None => u64::MAX,
    };
    if start > end || end >= limit {
        return None;
    }
    Some(ContentRange::Satisfied { start, end, total })
}

/// The bytes of an optional text.
pub open spec fn text_bytes(text: Option<&str>) -> Option<Seq<u8>> {
    match text {
        Some(s) => Some(s.spec_bytes()),
        None => None,
    }
}

/// Whether `meta` is the metadata of `head`, with this size.
pub open spec fn meta_from<'h>(meta: ObjectMeta<'h>, head: ResponseHead<'h>, size: Option<u64>) -> bool {
    &&& meta.size == size
    &&& meta.e_tag == head.e_tag
    &&& text_bytes(meta.last_modified) == match head.last_modified {
        Some(v) => Some(v@),
        None => None,
    }
    &&& meta.version == head.version
    &&& meta.content_encoding == head.content_encoding
    &&& meta.content_type == head.content_type
}

fn object_meta<'h>(head: &ResponseHead<'h>, last_modified: Option<&'h str>, size: Option<u64>) -> (r: ObjectMeta<'h>)
    requires
        spec_text_header(head.last_modified) == Ok::<Option<Seq<u8>>, Error>(text_bytes(last_modified)),
    ensures
        meta_from(r, *head, size),
{
    ObjectMeta {
        size,
        e_tag: head.e_tag,
        last_modified,
        version: head.version,
        content_encoding: head.content_encoding,
        content_type: head.content_type,
    }
}

/// The window that a ranged read's `206` head describes, with the object's
/// size; or the fault that the head holds against the plan.
pub open spec fn spec_ranged_window(shape: GetShape, head: ResponseHead, length: Option<u64>) -> Result<(BodyWindow, Option<u64>), Error> {
    match head.content_range {
        None => Err(Error::Response(ResponseFault::Head)),
        Some(value) => match spec_parse_content_range(value@) {
            Some(ContentRange::Satisfied { start, end, total }) => {
                let served = (end - start + 1) as u64;
                if length is Some && length->0 != served {
                    Err(Error::Response(ResponseFault::Head))
                } else {
                    match shape.range {
                        RequestedRange::Bounded { start: first, end: stop } => if start != first {
                            Err(Error::Response(ResponseFault::Range))
                        } else if total is Some && end + 1 != (if stop < total->0 { stop } else { total->0 }) {
                            Err(Error::Response(ResponseFault::Range))
                        } else {
                            Ok((BodyWindow { object_offset: start, expected_len: Some(served), object_size: total }, total))
                        },
                        RequestedRange::Offset(first) => if start != first {
                            Err(Error::Response(ResponseFault::Range))
                        } else if total is Some && end + 1 != total->0 {
                            Err(Error::Response(ResponseFault::Range))
                        } else {
                            Ok((BodyWindow { object_offset: start, expected_len: Some(served), object_size: total }, total))
                        },
                        _ => Err(Error::Response(ResponseFault::Range)),
                    }
                }
            },
            _ => Err(Error::Response(ResponseFault::Head)),
        },
    }
}

/// What a `200` or `206` head that answers a read holds.
pub open spec fn success_result<'h>(shape: GetShape, head: ResponseHead<'h>, r: Result<GetHeadOutcome<'h>, Error>) -> bool {
    match spec_decimal_header(head.content_length) {
        Err(e) => r == Err::<GetHeadOutcome<'h>, Error>(e),
        Ok(length) => match spec_text_header(head.last_modified) {
            Err(e) => r == Err::<GetHeadOutcome<'h>, Error>(e),
            Ok(_) => if head.status == 200 {
                match shape.kind {
                    GetKind::Metadata => r matches Ok(GetHeadOutcome::Complete { meta }) && meta_from(meta, head, length),
                    GetKind::Bytes => r matches Ok(GetHeadOutcome::Body { meta, body }) && meta_from(meta, head, length)
                        && body == (BodyWindow { object_offset: 0, expected_len: length, object_size: length }),
                }
            } else {
                match spec_ranged_window(shape, head, length) {
                    Err(e) => r == Err::<GetHeadOutcome<'h>, Error>(e),
                    Ok((window, total)) => r matches Ok(GetHeadOutcome::Body { meta, body })
                        && meta_from(meta, head, total) && body == window,
                }
            },
        },
    }
}

fn accept_success<'h>(shape: GetShape, head: ResponseHead<'h>) -> (r: Result<GetHeadOutcome<'h>, Error>)
    requires
        head.status == 200 || head.status == 206,
    ensures
        success_result(shape, head, r),
{
    let content_length = decimal_header(head.content_length)?;
    let last_modified = text_header(head.last_modified)?;
    if head.status == 200 {
        let meta = object_meta(&head, last_modified, content_length);
        return Ok(match shape.kind {
            GetKind::Metadata => GetHeadOutcome::Complete { meta },
            GetKind::Bytes => GetHeadOutcome::Body {
                meta,
                body: BodyWindow { object_offset: 0, expected_len: content_length, object_size: content_length },
            },
        });
    }
    let value = match head.content_range {
        Some(value) => value,
        None => return Err(Error::Response(ResponseFault::Head)),
    };
    let (start, end, total) = match parse_content_range(value) {
        Some(ContentRange::Satisfied { start, end, total }) => (start, end, total),
        _ => return Err(Error::Response(ResponseFault::Head)),
    };
    let served = end - start + 1;
    match content_length {
        Some(length) => {
            if length != served {
                return Err(Error::Response(ResponseFault::Head));
            }
        },
        None => {},
    }
    let requested_start = match shape.range {
        RequestedRange::Bounded { start, .. } => start,
        RequestedRange::Offset(start) => start,
        _ => return Err(Error::Response(ResponseFault::Range)),
    };
    if start != requested_start {
        return Err(Error::Response(ResponseFault::Range));
    }
    match total {
        Some(total) => {
            let satisfiable = match shape.range {
                RequestedRange::Bounded { end, .. } => if end < total { end } else { total },
                _ => total,
            };
            if end + 1 != satisfiable {
                return Err(Error::Response(ResponseFault::Range));
            }
        },
        None => {},
    }
    let meta = object_meta(&head, last_modified, total);
    Ok(GetHeadOutcome::Body {
        meta,
        body: BodyWindow { object_offset: start, expected_len: Some(served), object_size: total },
    })
}

/// What a head that answers a read holds, when the status is none that
/// the operation succeeds or fails on in its own way.
pub open spec fn spec_get_tail<'h>(head: ResponseHead<'h>) -> Result<GetHeadOutcome<'h>, Error> {
    if head.status == 404 {
        if head.error_code is None {
            Ok(GetHeadOutcome::NeedErrorBody(spec_failure(404, None, head.request_id)))
        } else {
            Ok(GetHeadOutcome::NotFound { kind: spec_named(head) })
        }
    } else if 200 <= head.status <= 299 {
        Err(Error::Response(ResponseFault::Status))
    } else if head.error_code is None {
        Ok(GetHeadOutcome::NeedErrorBody(spec_failure(head.status, None, head.request_id)))
    } else {
        Ok(GetHeadOutcome::ServiceFailure(spec_failure(head.status, spec_named(head), head.request_id)))
    }
}

fn get_tail<'h>(head: &ResponseHead<'h>) -> (r: Result<GetHeadOutcome<'h>, Error>)
    ensures
        r == spec_get_tail(*head),
{
    if head.status == 404 {
        if head.error_code.is_none() {
            Ok(GetHeadOutcome::NeedErrorBody(failure(404, None, head.request_id)))
        } else {
            Ok(GetHeadOutcome::NotFound { kind: named(head) })
        }
    } else if 200 <= head.status && head.status <= 299 {
        Err(Error::Response(ResponseFault::Status))
    } else if head.error_code.is_none() {
        Ok(GetHeadOutcome::NeedErrorBody(failure(head.status, None, head.request_id)))
    } else {
        Ok(GetHeadOutcome::ServiceFailure(failure(head.status, named(head), head.request_id)))
    }
}

/// What a failed response body that answers a read names.
pub open spec fn spec_get_error_body<'h>(status: u16, request_id: Option<&'h [u8]>, body: Seq<u8>) -> GetHeadOutcome<'h> {
    let kind = spec_body_kind(body);
    if status == 404 {
        GetHeadOutcome::NotFound { kind }
    } else {
        GetHeadOutcome::ServiceFailure(spec_failure(status, kind, request_id))
    }
}

/// What a head that answers a write holds, when the status is none that
/// the operation succeeds or fails on in its own way.
pub open spec fn spec_put_tail<'h>(head: ResponseHead<'h>) -> Result<PutHeadOutcome<'h>, Error> {
    if head.status == 404 {
        if head.error_code is None {
            Ok(PutHeadOutcome::NeedErrorBody(spec_failure(404, None, head.request_id)))
        } else {
            Ok(PutHeadOutcome::NotFound { kind: spec_named(head) })
        }
    } else if 200 <= head.status <= 299 {
        Err(Error::Response(ResponseFault::Status))
    } else if head.error_code is None {
        Ok(PutHeadOutcome::NeedErrorBody(spec_failure(head.status, None, head.request_id)))
    } else {
        Ok(PutHeadOutcome::ServiceFailure(spec_failure(head.status, spec_named(head), head.request_id)))
    }
}

fn put_tail<'h>(head: &ResponseHead<'h>) -> (r: Result<PutHeadOutcome<'h>, Error>)
    ensures
        r == spec_put_tail(*head),
{
    if head.status == 404 {
        if head.error_code.is_none() {
            Ok(PutHeadOutcome::NeedErrorBody(failure(404, None, head.request_id)))
        } else {
            Ok(PutHeadOutcome::NotFound { kind: named(head) })
        }
    } else if 200 <= head.status && head.status <= 299 {
        Err(Error::Response(ResponseFault::Status))
    } else if head.error_code.is_none() {
        Ok(PutHeadOutcome::NeedErrorBody(failure(head.status, None, head.request_id)))
    } else {
        Ok(PutHeadOutcome::ServiceFailure(failure(head.status, named(head), head.request_id)))
    }
}

/// What a failed response body that answers a write names.
pub open spec fn spec_put_error_body<'h>(status: u16, request_id: Option<&'h [u8]>, body: Seq<u8>) -> PutHeadOutcome<'h> {
    let kind = spec_body_kind(body);
    if status == 404 {
        PutHeadOutcome::NotFound { kind }
    } else {
        PutHeadOutcome::ServiceFailure(spec_failure(status, kind, request_id))
    }
}

/// What a head that answers a removal holds, when the status is none that
/// the operation succeeds or fails on in its own way.
pub open spec fn spec_delete_tail<'h>(head: ResponseHead<'h>) -> Result<DeleteHeadOutcome<'h>, Error> {
    if head.status == 404 {
        if head.error_code is None {
            Ok(DeleteHeadOutcome::NeedErrorBody(spec_failure(404, None, head.request_id)))
        } else {
            Ok(DeleteHeadOutcome::NotFound { kind: spec_named(head) })
        }
    } else if 200 <= head.status <= 299 {
        Err(Error::Response(ResponseFault::Status))
    } else if head.error_code is None {
        Ok(DeleteHeadOutcome::NeedErrorBody(spec_failure(head.status, None, head.request_id)))
    } else {
        Ok(DeleteHeadOutcome::ServiceFailure(spec_failure(head.status, spec_named(head), head.request_id)))
    }
}

fn delete_tail<'h>(head: &ResponseHead<'h>) -> (r: Result<DeleteHeadOutcome<'h>, Error>)
    ensures
        r == spec_delete_tail(*head),
{
    if head.status == 404 {
        if head.error_code.is_none() {
            Ok(DeleteHeadOutcome::NeedErrorBody(failure(404, None, head.request_id)))
        } else {
            Ok(DeleteHeadOutcome::NotFound { kind: named(head) })
        }
    } else if 200 <= head.status && head.status <= 299 {
        Err(Error::Response(ResponseFault::Status))
    } else if head.error_code.is_none() {
        Ok(DeleteHeadOutcome::NeedErrorBody(failure(head.status, None, head.request_id)))
    } else {
        Ok(DeleteHeadOutcome::ServiceFailure(failure(head.status, named(head), head.request_id)))
    }
}

/// What a failed response body that answers a removal names.
pub open spec fn spec_delete_error_body<'h>(status: u16, request_id: Option<&'h [u8]>, body: Seq<u8>) -> DeleteHeadOutcome<'h> {
    let kind = spec_body_kind(body);
    if status == 404 {
        DeleteHeadOutcome::NotFound { kind }
    } else {
        DeleteHeadOutcome::ServiceFailure(spec_failure(status, kind, request_id))
    }
}

/// What a head that answers a listing holds, when the status is none that
/// the operation succeeds or fails on in its own way.
pub open spec fn spec_list_tail<'h>(head: ResponseHead<'h>) -> Result<ListHeadOutcome<'h>, Error> {
    if head.status == 404 {
        if head.error_code is None {
            Ok(ListHeadOutcome::NeedErrorBody(spec_failure(404, None, head.request_id)))
        } else {
            Ok(ListHeadOutcome::NotFound { kind: spec_named(head) })
        }
    } else if 200 <= head.status <= 299 {
        Err(Error::Response(ResponseFault::Status))
    } else if head.error_code is None {
        Ok(ListHeadOutcome::NeedErrorBody(spec_failure(head.status, None, head.request_id)))
    } else {
        Ok(ListHeadOutcome::ServiceFailure(spec_failure(head.status, spec_named(head), head.request_id)))
    }
}

fn list_tail<'h>(head: &ResponseHead<'h>) -> (r: Result<ListHeadOutcome<'h>, Error>)
    ensures
        r == spec_list_tail(*head),
{
    if head.status == 404 {
        if head.error_code.is_none() {
            Ok(ListHeadOutcome::NeedErrorBody(failure(404, None, head.request_id)))
        } else {
            Ok(ListHeadOutcome::NotFound { kind: named(head) })
        }
    } else if 200 <= head.status && head.status <= 299 {
        Err(Error::Response(ResponseFault::Status))
    } else if head.error_code.is_none() {
        Ok(ListHeadOutcome::NeedErrorBody(failure(head.status, None, head.request_id)))
    } else {
        Ok(ListHeadOutcome::ServiceFailure(failure(head.status, named(head), head.request_id)))
    }
}

/// What a failed response body that answers a listing names.
pub open spec fn spec_list_error_body<'h>(status: u16, request_id: Option<&'h [u8]>, body: Seq<u8>) -> ListHeadOutcome<'h> {
    let kind = spec_body_kind(body);
    if status == 404 {
        ListHeadOutcome::NotFound { kind }
    } else {
        ListHeadOutcome::ServiceFailure(spec_failure(status, kind, request_id))
    }
}

/// What a head that answers a stage holds, when the status is none that
/// the operation succeeds or fails on in its own way.
pub open spec fn spec_stage_block_tail<'h>(head: ResponseHead<'h>) -> Result<StageBlockHeadOutcome<'h>, Error> {
    if head.status == 404 {
        if head.error_code is None {
            Ok(StageBlockHeadOutcome::NeedErrorBody(spec_failure(404, None, head.request_id)))
        } else {
            Ok(StageBlockHeadOutcome::NotFound { kind: spec_named(head) })
        }
    } else if 200 <= head.status <= 299 {
        Err(Error::Response(ResponseFault::Status))
    } else if head.error_code is None {
        Ok(StageBlockHeadOutcome::NeedErrorBody(spec_failure(head.status, None, head.request_id)))
    } else {
        Ok(StageBlockHeadOutcome::ServiceFailure(spec_failure(head.status, spec_named(head), head.request_id)))
    }
}

fn stage_block_tail<'h>(head: &ResponseHead<'h>) -> (r: Result<StageBlockHeadOutcome<'h>, Error>)
    ensures
        r == spec_stage_block_tail(*head),
{
    if head.status == 404 {
        if head.error_code.is_none() {
            Ok(StageBlockHeadOutcome::NeedErrorBody(failure(404, None, head.request_id)))
        } else {
            Ok(StageBlockHeadOutcome::NotFound { kind: named(head) })
        }
    } else if 200 <= head.status && head.status <= 299 {
        Err(Error::Response(ResponseFault::Status))
    } else if head.error_code.is_none() {
        Ok(StageBlockHeadOutcome::NeedErrorBody(failure(head.status, None, head.request_id)))
    } else {
        Ok(StageBlockHeadOutcome::ServiceFailure(failure(head.status, named(head), head.request_id)))
    }
}

/// What a failed response body that answers a stage names.
pub open spec fn spec_stage_block_error_body<'h>(status: u16, request_id: Option<&'h [u8]>, body: Seq<u8>) -> StageBlockHeadOutcome<'h> {
    let kind = spec_body_kind(body);
    if status == 404 {
        StageBlockHeadOutcome::NotFound { kind }
    } else {
        StageBlockHeadOutcome::ServiceFailure(spec_failure(status, kind, request_id))
    }
}

/// What a head that answers a commit holds, when the status is none that
/// the operation succeeds or fails on in its own way.
pub open spec fn spec_commit_blocks_tail<'h>(head: ResponseHead<'h>) -> Result<CommitBlocksHeadOutcome<'h>, Error> {
    if head.status == 404 {
        if head.error_code is None {
            Ok(CommitBlocksHeadOutcome::NeedErrorBody(spec_failure(404, None, head.request_id)))
        } else {
            Ok(CommitBlocksHeadOutcome::NotFound { kind: spec_named(head) })
        }
    } else if 200 <= head.status <= 299 {
        Err(Error::Response(ResponseFault::Status))
    } else if head.error_code is None {
        Ok(CommitBlocksHeadOutcome::NeedErrorBody(spec_failure(head.status, None, head.request_id)))
    } else {
        Ok(CommitBlocksHeadOutcome::ServiceFailure(spec_failure(head.status, spec_named(head), head.request_id)))
    }
}

fn commit_blocks_tail<'h>(head: &ResponseHead<'h>) -> (r: Result<CommitBlocksHeadOutcome<'h>, Error>)
    ensures
        r == spec_commit_blocks_tail(*head),
{
    if head.status == 404 {
        if head.error_code.is_none() {
            Ok(CommitBlocksHeadOutcome::NeedErrorBody(failure(404, None, head.request_id)))
        } else {
            Ok(CommitBlocksHeadOutcome::NotFound { kind: named(head) })
        }
    } else if 200 <= head.status && head.status <= 299 {
        Err(Error::Response(ResponseFault::Status))
    } else if head.error_code.is_none() {
        Ok(CommitBlocksHeadOutcome::NeedErrorBody(failure(head.status, None, head.request_id)))
    } else {
        Ok(CommitBlocksHeadOutcome::ServiceFailure(failure(head.status, named(head), head.request_id)))
    }
}

/// What a failed response body that answers a commit names.
pub open spec fn spec_commit_blocks_error_body<'h>(status: u16, request_id: Option<&'h [u8]>, body: Seq<u8>) -> CommitBlocksHeadOutcome<'h> {
    let kind = spec_body_kind(body);
    if status == 404 {
        CommitBlocksHeadOutcome::NotFound { kind }
    } else {
        CommitBlocksHeadOutcome::ServiceFailure(spec_failure(status, kind, request_id))
    }
}

/// What a head that answers a block listing holds, when the status is none that
/// the operation succeeds or fails on in its own way.
pub open spec fn spec_list_blocks_tail<'h>(head: ResponseHead<'h>) -> Result<ListBlocksHeadOutcome<'h>, Error> {
    if head.status == 404 {
        if head.error_code is None {
            Ok(ListBlocksHeadOutcome::NeedErrorBody(spec_failure(404, None, head.request_id)))
        } else {
            Ok(ListBlocksHeadOutcome::NotFound { kind: spec_named(head) })
        }
    } else if 200 <= head.status <= 299 {
        Err(Error::Response(ResponseFault::Status))
    } else if head.error_code is None {
        Ok(ListBlocksHeadOutcome::NeedErrorBody(spec_failure(head.status, None, head.request_id)))
    } else {
        Ok(ListBlocksHeadOutcome::ServiceFailure(spec_failure(head.status, spec_named(head), head.request_id)))
    }
}

fn list_blocks_tail<'h>(head: &ResponseHead<'h>) -> (r: Result<ListBlocksHeadOutcome<'h>, Error>)
    ensures
        r == spec_list_blocks_tail(*head),
{
    if head.status == 404 {
        if head.error_code.is_none() {
            Ok(ListBlocksHeadOutcome::NeedErrorBody(failure(404, None, head.request_id)))
        } else {
            Ok(ListBlocksHeadOutcome::NotFound { kind: named(head) })
        }
    } else if 200 <= head.status && head.status <= 299 {
        Err(Error::Response(ResponseFault::Status))
    } else if head.error_code.is_none() {
        Ok(ListBlocksHeadOutcome::NeedErrorBody(failure(head.status, None, head.request_id)))
    } else {
        Ok(ListBlocksHeadOutcome::ServiceFailure(failure(head.status, named(head), head.request_id)))
    }
}

/// What a failed response body that answers a block listing names.
pub open spec fn spec_list_blocks_error_body<'h>(status: u16, request_id: Option<&'h [u8]>, body: Seq<u8>) -> ListBlocksHeadOutcome<'h> {
    let kind = spec_body_kind(body);
    if status == 404 {
        ListBlocksHeadOutcome::NotFound { kind }
    } else {
        ListBlocksHeadOutcome::ServiceFailure(spec_failure(status, kind, request_id))
    }
}

/// What a head that answers a read holds, checked against the plan's shape.
pub open spec fn get_head_result<'h>(shape: GetShape, head: ResponseHead<'h>, r: Result<GetHeadOutcome<'h>, Error>) -> bool {
    let ranged = shape.range != RequestedRange::Whole;
    let status = head.status;
    if status == 206 && !ranged {
        r == Err::<GetHeadOutcome<'h>, Error>(Error::Response(ResponseFault::Range))
    } else if status == 200 && ranged {
        r == Err::<GetHeadOutcome<'h>, Error>(Error::Response(ResponseFault::Range))
    } else if status == 200 || status == 206 {
        success_result(shape, head, r)
    } else if status == 304 {
        if shape.condition != ConditionKind::IfNoneMatch {
            r == Err::<GetHeadOutcome<'h>, Error>(Error::Response(ResponseFault::Status))
        } else {
            r == Ok::<GetHeadOutcome<'h>, Error>(GetHeadOutcome::NotModified { e_tag: head.e_tag })
        }
    } else if status == 412 {
        if shape.condition != ConditionKind::IfMatch {
            r == Err::<GetHeadOutcome<'h>, Error>(Error::Response(ResponseFault::Status))
        } else {
            r == Ok::<GetHeadOutcome<'h>, Error>(GetHeadOutcome::PreconditionFailed)
        }
    } else if status == 416 {
        r == match head.content_range {
            None => Ok::<GetHeadOutcome<'h>, Error>(GetHeadOutcome::RangeNotSatisfiable { object_size: None }),
            Some(value) => match spec_parse_content_range(value@) {
                Some(ContentRange::Unsatisfied { total }) => Ok(GetHeadOutcome::RangeNotSatisfiable { object_size: total }),
                _ => Err(Error::Response(ResponseFault::Head)),
            },
        }
    } else {
        r == spec_get_tail(head)
    }
}

/// What a head that answers a write holds, checked against the plan's shape.
pub open spec fn put_head_result<'h>(shape: PutShape, head: ResponseHead<'h>, r: Result<PutHeadOutcome<'h>, Error>) -> bool {
    if head.status == 201 {
        match spec_text_header(head.last_modified) {
            Err(e) => r == Err::<PutHeadOutcome<'h>, Error>(e),
            Ok(_) => r matches Ok(PutHeadOutcome::Created { meta }) && meta_from(meta, head, None),
        }
    } else if head.status == 412 {
        if shape.condition == ConditionKind::Unconditional {
            r == Err::<PutHeadOutcome<'h>, Error>(Error::Response(ResponseFault::Status))
        } else {
            r == Ok::<PutHeadOutcome<'h>, Error>(PutHeadOutcome::PreconditionFailed)
        }
    } else {
        r == spec_put_tail(head)
    }
}

/// A write whose precondition failed is reported as such exactly when the
/// write carried a condition, either kind of it: `If-Match` found another
/// version, `If-None-Match: *` found the object already there. A `412` on a
/// write that carried none is a fault in the response.
pub proof fn law_a_failed_write_condition_is_reported_for_any_condition<'h>(
    shape: PutShape,
    head: ResponseHead<'h>,
    r: Result<PutHeadOutcome<'h>, Error>,
)
    requires
        head.status == 412,
        put_head_result(shape, head, r),
    ensures
        r == Ok::<PutHeadOutcome<'h>, Error>(PutHeadOutcome::PreconditionFailed) <==> (
            shape.condition == ConditionKind::IfMatch || shape.condition == ConditionKind::IfNoneMatch),
        shape.condition == ConditionKind::Unconditional ==> r == Err::<PutHeadOutcome<'h>, Error>(
            Error::Response(ResponseFault::Status)),
{
}

/// A whole read's body is the whole object: when a `200` head is read as a
/// body, the body starts at the object's first byte, and its length and the
/// object's size are both the stated `Content-Length`.
pub proof fn law_a_whole_body_starts_at_the_first_byte<'h>(
    shape: GetShape,
    head: ResponseHead<'h>,
    r: Result<GetHeadOutcome<'h>, Error>,
)
    requires
        head.status == 200,
        get_head_result(shape, head, r),
        r is Ok,
        r->Ok_0 is Body,
    ensures
        shape.range == RequestedRange::Whole,
        spec_decimal_header(head.content_length) is Ok,
        r->Ok_0->body == (BodyWindow {
            object_offset: 0,
            expected_len: spec_decimal_header(head.content_length)->Ok_0,
            object_size: spec_decimal_header(head.content_length)->Ok_0,
        }),
{
    assert(success_result(shape, head, r));
}

/// A ranged read's body belongs where the service says it starts: when a
/// `206` head is read as a body, the body's offset in the object is the
/// first byte of its `Content-Range`, which is the first byte the plan asked
/// for, whether the plan named an end or read to the end; the body's length
/// is the number of bytes that range holds.
pub proof fn law_a_ranged_body_starts_where_the_service_says<'h>(
    shape: GetShape,
    head: ResponseHead<'h>,
    r: Result<GetHeadOutcome<'h>, Error>,
)
    requires
        head.status == 206,
        get_head_result(shape, head, r),
        r is Ok,
        r->Ok_0 is Body,
    ensures
        head.content_range is Some,
        spec_parse_content_range(head.content_range->0@) matches Some(ContentRange::Satisfied { .. }),
        ({
            let served = spec_parse_content_range(head.content_range->0@)->0;
            let body = r->Ok_0->body;
            &&& body.object_offset == served->start
            &&& body.expected_len == Some((served->end - served->start + 1) as u64)
            &&& shape.range matches RequestedRange::Offset(first) ==> body.object_offset == first
            &&& shape.range matches RequestedRange::Bounded { start, .. } ==> body.object_offset == start
        }),
{
    assert(shape.range != RequestedRange::Whole);
    assert(success_result(shape, head, r));
}

/// What a head that answers a removal holds, checked against the plan's
/// shape.
pub open spec fn spec_accept_delete_head<'h>(shape: DeleteShape, head: ResponseHead<'h>) -> Result<DeleteHeadOutcome<'h>, Error> {
    if head.status == 202 {
        Ok(DeleteHeadOutcome::Accepted)
    } else if head.status == 412 {
        if shape.condition == ConditionKind::Unconditional {
            Err(Error::Response(ResponseFault::Status))
        } else {
            Ok(DeleteHeadOutcome::PreconditionFailed)
        }
    } else {
        spec_delete_tail(head)
    }
}

/// What a head that answers a listing holds.
pub open spec fn spec_accept_list_head<'h>(head: ResponseHead<'h>) -> Result<ListHeadOutcome<'h>, Error> {
    if head.status == 200 {
        match spec_decimal_header(head.content_length) {
            Ok(expected_len) => Ok(ListHeadOutcome::Page { expected_len }),
            Err(e) => Err(e),
        }
    } else {
        spec_list_tail(head)
    }
}

/// What a head that answers a stage holds.
pub open spec fn spec_accept_stage_block_head<'h>(head: ResponseHead<'h>) -> Result<StageBlockHeadOutcome<'h>, Error> {
    if head.status == 201 {
        Ok(StageBlockHeadOutcome::Staged)
    } else {
        spec_stage_block_tail(head)
    }
}

/// What a head that answers a commit holds, checked against the plan's
/// shape.
pub open spec fn commit_blocks_head_result<'h>(shape: CommitBlocksShape, head: ResponseHead<'h>, r: Result<CommitBlocksHeadOutcome<'h>, Error>) -> bool {
    if head.status == 201 {
        match spec_text_header(head.last_modified) {
            Err(e) => r == Err::<CommitBlocksHeadOutcome<'h>, Error>(e),
            Ok(_) => r matches Ok(CommitBlocksHeadOutcome::Committed { meta }) && meta_from(meta, head, None),
        }
    } else if head.status == 412 && shape.condition != ConditionKind::Unconditional
        && spec_named(head) == Some(ServiceErrorKind::Precondition) {
        r == Ok::<CommitBlocksHeadOutcome<'h>, Error>(CommitBlocksHeadOutcome::PreconditionFailed)
    } else {
        r == spec_commit_blocks_tail(head)
    }
}

/// What a head that answers a block listing holds.
pub open spec fn list_blocks_head_result<'h>(head: ResponseHead<'h>, r: Result<ListBlocksHeadOutcome<'h>, Error>) -> bool {
    if head.status == 200 {
        match spec_text_header(head.last_modified) {
            Err(e) => r == Err::<ListBlocksHeadOutcome<'h>, Error>(e),
            Ok(_) => match spec_decimal_header(head.content_length) {
                Err(e) => r == Err::<ListBlocksHeadOutcome<'h>, Error>(e),
                Ok(length) => r matches Ok(ListBlocksHeadOutcome::Blocks { meta, expected_len })
                    && meta_from(meta, head, None) && expected_len == length,
            },
        }
    } else {
        r == spec_list_blocks_tail(head)
    }
}

/// What a failed response body that answers a commit names.
pub open spec fn spec_commit_blocks_body<'h>(shape: CommitBlocksShape, status: u16, request_id: Option<&'h [u8]>, body: Seq<u8>) -> CommitBlocksHeadOutcome<'h> {
    if status == 412 && shape.condition != ConditionKind::Unconditional
        && spec_body_kind(body) == Some(ServiceErrorKind::Precondition) {
        CommitBlocksHeadOutcome::PreconditionFailed
    } else {
        spec_commit_blocks_error_body(status, request_id, body)
    }
}

fn multipart_meta<'h>(head: &ResponseHead<'h>) -> (r: Result<ObjectMeta<'h>, Error>)
    ensures
        r is Ok <==> spec_text_header(head.last_modified) is Ok,
        r matches Ok(meta) ==> meta_from(meta, *head, None),
        r matches Err(e) ==> spec_text_header(head.last_modified) == Err::<Option<Seq<u8>>, Error>(e),
{
    let last_modified = text_header(head.last_modified)?;
    Ok(object_meta(head, last_modified, None))
}

fn conditional(condition: ConditionKind) -> (r: bool)
    ensures
        r == (condition != ConditionKind::Unconditional),
{
    match condition {
        ConditionKind::Unconditional => false,
        _ => true,
    }
}

impl<'a> Blobs<'a> {
    /// Reads a response head and reports what to do next.
    ///
    /// Pass the same `shape` that you passed to [`Self::encode_get`]. Every
    /// head that Azure sends becomes a [`GetHeadOutcome`], including the
    /// heads that report a failure. If Azure sent no error code, the outcome
    /// names no error: call [`classify_error`] with the response body.
    ///
    /// # Errors
    ///
    /// Returns [`Error::Response`] if the head cannot be read against `shape`.
    pub fn accept_get_head<'h>(&self, shape: GetShape, head: ResponseHead<'h>) -> (r: Result<GetHeadOutcome<'h>, Error>)
        ensures
            get_head_result(shape, head, r),
    {
        let ranged = match shape.range {
            RequestedRange::Whole => false,
            _ => true,
        };
        let status = head.status;
        if status == 206 && !ranged {
            return Err(Error::Response(ResponseFault::Range));
        }
        if status == 200 && ranged {
            return Err(Error::Response(ResponseFault::Range));
        }
        if status == 200 || status == 206 {
            return accept_success(shape, head);
        }
        if status == 304 {
            return match shape.condition {
                ConditionKind::IfNoneMatch => Ok(GetHeadOutcome::NotModified { e_tag: head.e_tag }),
                _ => Err(Error::Response(ResponseFault::Status)),
            };
        }
        if status == 412 {
            return match shape.condition {
                ConditionKind::IfMatch => Ok(GetHeadOutcome::PreconditionFailed),
                _ => Err(Error::Response(ResponseFault::Status)),
            };
        }
        if status == 416 {
            return match head.content_range {
                None => Ok(GetHeadOutcome::RangeNotSatisfiable { object_size: None }),
                Some(value) => match parse_content_range(value) {
                    Some(ContentRange::Unsatisfied { total }) => Ok(GetHeadOutcome::RangeNotSatisfiable { object_size: total }),
                    _ => Err(Error::Response(ResponseFault::Head)),
                },
            };
        }
        get_tail(&head)
    }

    /// Finishes a [`GetHeadOutcome::NeedErrorBody`] with the response body.
    ///
    /// Pass the `status` and the `request_id` of that [`Failure`], and the
    /// body that you read. Pass an empty body if you could not read one: the
    /// outcome is then final with the error unnamed.
    pub fn accept_error_body<'h>(&self, status: u16, request_id: Option<&'h [u8]>, body: &[u8]) -> (r: GetHeadOutcome<'h>)
        ensures
            r == spec_get_error_body(status, request_id, body@),
    {
        let kind = body_kind(body);
        if status == 404 {
            GetHeadOutcome::NotFound { kind }
        } else {
            GetHeadOutcome::ServiceFailure(failure(status, kind, request_id))
        }
    }

    /// Reads the response head of a write and reports what Azure did.
    ///
    /// # Errors
    ///
    /// Returns [`Error::Response`] if the head cannot be read against `shape`.
    /// A success status that a write never returns, and a failed condition on
    /// a write that carried none, are both [`ResponseFault::Status`].
    pub fn accept_put_head<'h>(&self, shape: PutShape, head: ResponseHead<'h>) -> (r: Result<PutHeadOutcome<'h>, Error>)
        ensures
            put_head_result(shape, head, r),
    {
        if head.status == 201 {
            let meta = multipart_meta(&head)?;
            return Ok(PutHeadOutcome::Created { meta });
        }
        if head.status == 412 {
            return if conditional(shape.condition) {
                Ok(PutHeadOutcome::PreconditionFailed)
            } else {
                Err(Error::Response(ResponseFault::Status))
            };
        }
        put_tail(&head)
    }

    /// Finishes a [`PutHeadOutcome::NeedErrorBody`] with the response body.
    pub fn accept_put_error_body<'h>(&self, status: u16, request_id: Option<&'h [u8]>, body: &[u8]) -> (r: PutHeadOutcome<'h>)
        ensures
            r == spec_put_error_body(status, request_id, body@),
    {
        let kind = body_kind(body);
        if status == 404 {
            PutHeadOutcome::NotFound { kind }
        } else {
            PutHeadOutcome::ServiceFailure(failure(status, kind, request_id))
        }
    }

    /// Reads the response head of a removal and reports what Azure did.
    ///
    /// # Errors
    ///
    /// Returns [`Error::Response`] if the head cannot be read against `shape`.
    pub fn accept_delete_head<'h>(&self, shape: DeleteShape, head: ResponseHead<'h>) -> (r: Result<DeleteHeadOutcome<'h>, Error>)
        ensures
            r == spec_accept_delete_head(shape, head),
    {
        if head.status == 202 {
            return Ok(DeleteHeadOutcome::Accepted);
        }
        if head.status == 412 {
            return if conditional(shape.condition) {
                Ok(DeleteHeadOutcome::PreconditionFailed)
            } else {
                Err(Error::Response(ResponseFault::Status))
            };
        }
        delete_tail(&head)
    }

    /// Finishes a [`DeleteHeadOutcome::NeedErrorBody`] with the response body.
    pub fn accept_delete_error_body<'h>(&self, status: u16, request_id: Option<&'h [u8]>, body: &[u8]) -> (r: DeleteHeadOutcome<'h>)
        ensures
            r == spec_delete_error_body(status, request_id, body@),
    {
        let kind = body_kind(body);
        if status == 404 {
            DeleteHeadOutcome::NotFound { kind }
        } else {
            DeleteHeadOutcome::ServiceFailure(failure(status, kind, request_id))
        }
    }

    /// Reads the response head of a listing and reports what Azure did.
    ///
    /// # Errors
    ///
    /// Returns [`Error::Response`] if the head cannot be read.
    pub fn accept_list_head<'h>(&self, head: ResponseHead<'h>) -> (r: Result<ListHeadOutcome<'h>, Error>)
        ensures
            r == spec_accept_list_head(head),
    {
        if head.status == 200 {
            let expected_len = decimal_header(head.content_length)?;
            return Ok(ListHeadOutcome::Page { expected_len });
        }
        list_tail(&head)
    }

    /// Finishes a [`ListHeadOutcome::NeedErrorBody`] with the response body.
    pub fn accept_list_error_body<'h>(&self, status: u16, request_id: Option<&'h [u8]>, body: &[u8]) -> (r: ListHeadOutcome<'h>)
        ensures
            r == spec_list_error_body(status, request_id, body@),
    {
        let kind = body_kind(body);
        if status == 404 {
            ListHeadOutcome::NotFound { kind }
        } else {
            ListHeadOutcome::ServiceFailure(failure(status, kind, request_id))
        }
    }

    /// Reads a Get Block List body whole into `into`.
    ///
    /// Both sections are read in the order the service wrote them, and each
    /// entry names its section in [`Block::state`]. IDs are decoded in place,
    /// so the entries borrow `body`, and the body cannot be read again.
    ///
    /// # Errors
    ///
    /// Returns [`Error::Capacity`] with the number of blocks the body holds
    /// if `into` is shorter than that;
    /// [`layered::max_blocks_in`](crate::layered::max_blocks_in) bounds it
    /// from the body's length. Returns [`Error::Response`] if the body is not
    /// a block list.
    pub fn fill_blocks<'b>(&self, body: &'b mut [u8], into: &mut [Block<'b>]) -> (r: Result<Listing<'b>, Error>)
        requires
            old(body)@.len() <= isize::MAX,
        ensures
            final(into)@.len() == old(into)@.len(),
            r matches Err(e) ==> blocks_result(old(body)@, old(into)@.len() as int) == Err::<Seq<BlockText>, Error>(e),
            r matches Ok(l) ==> (blocks_result(old(body)@, old(into)@.len() as int) matches Ok(ts) && {
                &&& l.filled == ts.len()
                &&& l.next_marker is None
                &&& forall|k: int| 0 <= k < ts.len() ==> block_is(#[trigger] final(into)@[k], ts[k])
                &&& forall|k: int| ts.len() <= k < final(into)@.len() ==> #[trigger] final(into)@[k] == old(into)@[k]
            }),
            r matches Ok(l) ==> l.filled <= old(body)@.len() / 43,
            r matches Err(Error::Capacity(c)) ==> c.required <= old(body)@.len() / 43,
    {
        proof {
            law_an_accepted_block_list_fits_its_bound(old(body)@, old(into)@.len() as int);
        }
        fill_blocks(body, into)
    }

    /// Reads a page out of the response body of a listing.
    ///
    /// Pass the whole body that [`ListHeadOutcome::Page`] announced and an
    /// array to write the entries into. Reading is destructive: the text of
    /// each entry is decoded where it stands, so the entries borrow the body,
    /// and a body that has been read is no longer a document.
    ///
    /// Your array must hold the whole page. An array of `max_results` entries
    /// always does, because the service never writes more than it asked for.
    ///
    /// # Errors
    ///
    /// Returns [`Error::Capacity`] if the page holds more entries than the
    /// array, with `required` set to the number it holds; the entries that
    /// fit were written into the array by then, and the body cannot be read
    /// again. Returns
    /// [`Error::Response`] with [`ResponseFault::Body`] if `body` is not a
    /// listing page, or holds a value that does not decode.
    pub fn fill_listing<'b>(&self, body: &'b mut [u8], into: &mut [ListEntry<'b>]) -> (r: Result<Listing<'b>, Error>)
        requires
            old(body)@.len() <= isize::MAX,
        ensures
            final(into)@.len() == old(into)@.len(),
            r matches Err(e) ==> listing_result(old(body)@, old(into)@.len() as int, no_properties()) == Err::<(Seq<EntryText>, Option<Seq<u8>>), Error>(e),
            r matches Ok(l) ==> (listing_result(old(body)@, old(into)@.len() as int, no_properties()) matches Ok((es, m)) && {
                &&& l.filled == es.len()
                &&& same_text(l.next_marker, m)
                &&& forall|k: int| 0 <= k < es.len() ==> entry_is(#[trigger] final(into)@[k], es[k])
                &&& forall|k: int| es.len() <= k < final(into)@.len() ==> #[trigger] final(into)@[k] == old(into)@[k]
            }),
            r matches Err(Error::Capacity(_)) ==> forall|k: int| 0 <= k < final(into)@.len() ==> entry_is(
                #[trigger] final(into)@[k],
                page_texts(old(body)@, no_properties(), old(into)@.len())[k],
            ),
    {
        fill_listing(body, into)
    }

    /// Reads a page the way [`Self::fill_listing`] does, and hands you the
    /// values of the properties in `wanted` as it goes.
    ///
    /// `build` is called once per entry that fits, with the entry and its
    /// values, and what it returns is written into your array. So your entry
    /// type can hold the two or three properties you care about, read in the
    /// same pass as everything else. The values borrow `body`, like the
    /// entry; an element written empty has an empty value, and a group of
    /// keys gives no values.
    ///
    /// # Errors
    ///
    /// As [`Self::fill_listing`]. An element of a wanted property is read as
    /// a value, so one that holds other elements makes the body a fault.
    pub fn fill_listing_with<'b, E, F: Fn(ListEntry<'b>, PropertyValues<'b>) -> E>(
        &self,
        body: &'b mut [u8],
        into: &mut [E],
        wanted: PropertySet,
        build: F,
    ) -> (r: Result<Listing<'b>, Error>)
        requires
            old(body)@.len() <= isize::MAX,
            forall|e: ListEntry<'b>, v: PropertyValues<'b>| call_requires(build, (e, v)),
        ensures
            final(into)@.len() == old(into)@.len(),
            r matches Err(e) ==> listing_result(old(body)@, old(into)@.len() as int, wanted) == Err::<(Seq<EntryText>, Option<Seq<u8>>), Error>(e),
            r matches Ok(l) ==> (listing_result(old(body)@, old(into)@.len() as int, wanted) matches Ok((es, m)) && {
                &&& l.filled == es.len()
                &&& same_text(l.next_marker, m)
                &&& filled_as(old(body)@, wanted, build, old(into)@, final(into)@, es)
            }),
            r matches Err(Error::Capacity(_)) ==> filled_as(
                old(body)@,
                wanted,
                build,
                old(into)@,
                final(into)@,
                page_texts(old(body)@, wanted, old(into)@.len()),
            ),
    {
        fill_listing_with(body, into, wanted, build)
    }

    /// Reads the head that answers a stage.
    ///
    /// # Errors
    ///
    /// Returns [`Error::Response`] if the head cannot be read.
    pub fn accept_stage_block_head<'h>(&self, head: ResponseHead<'h>) -> (r: Result<StageBlockHeadOutcome<'h>, Error>)
        ensures
            r == spec_accept_stage_block_head(head),
    {
        if head.status == 201 {
            return Ok(StageBlockHeadOutcome::Staged);
        }
        stage_block_tail(&head)
    }

    /// Finishes a missing error code of a stage with the response body.
    pub fn accept_stage_block_error_body<'h>(&self, status: u16, request_id: Option<&'h [u8]>, body: &[u8]) -> (r: StageBlockHeadOutcome<'h>)
        ensures
            r == spec_stage_block_error_body(status, request_id, body@),
    {
        let kind = body_kind(body);
        if status == 404 {
            StageBlockHeadOutcome::NotFound { kind }
        } else {
            StageBlockHeadOutcome::ServiceFailure(failure(status, kind, request_id))
        }
    }

    /// Reads the head that answers a commit.
    ///
    /// A failed condition is [`CommitBlocksHeadOutcome::PreconditionFailed`]
    /// only if the plan carried a condition and the head names that error.
    ///
    /// # Errors
    ///
    /// Returns [`Error::Response`] if the head cannot be read.
    pub fn accept_commit_blocks_head<'h>(&self, shape: CommitBlocksShape, head: ResponseHead<'h>) -> (r: Result<CommitBlocksHeadOutcome<'h>, Error>)
        ensures
            commit_blocks_head_result(shape, head, r),
    {
        if head.status == 201 {
            let meta = multipart_meta(&head)?;
            return Ok(CommitBlocksHeadOutcome::Committed { meta });
        }
        if head.status == 412 && conditional(shape.condition) {
            match named(&head) {
                Some(ServiceErrorKind::Precondition) => return Ok(CommitBlocksHeadOutcome::PreconditionFailed),
                _ => {},
            }
        }
        commit_blocks_tail(&head)
    }

    /// Finishes a missing error code of a commit with the response body.
    pub fn accept_commit_blocks_error_body<'h>(&self, shape: CommitBlocksShape, status: u16, request_id: Option<&'h [u8]>, body: &[u8]) -> (r: CommitBlocksHeadOutcome<'h>)
        ensures
            r == spec_commit_blocks_body(shape, status, request_id, body@),
    {
        let kind = body_kind(body);
        if status == 412 && conditional(shape.condition) {
            match kind {
                Some(ServiceErrorKind::Precondition) => return CommitBlocksHeadOutcome::PreconditionFailed,
                _ => {},
            }
        }
        if status == 404 {
            CommitBlocksHeadOutcome::NotFound { kind }
        } else {
            CommitBlocksHeadOutcome::ServiceFailure(failure(status, kind, request_id))
        }
    }

    /// Reads the head that answers a block listing.
    ///
    /// # Errors
    ///
    /// Returns [`Error::Response`] if the head cannot be read.
    pub fn accept_list_blocks_head<'h>(&self, head: ResponseHead<'h>) -> (r: Result<ListBlocksHeadOutcome<'h>, Error>)
        ensures
            list_blocks_head_result(head, r),
    {
        if head.status == 200 {
            let meta = multipart_meta(&head)?;
            let expected_len = decimal_header(head.content_length)?;
            return Ok(ListBlocksHeadOutcome::Blocks { meta, expected_len });
        }
        list_blocks_tail(&head)
    }

    /// Finishes a missing error code of a block listing with the response
    /// body.
    pub fn accept_list_blocks_error_body<'h>(&self, status: u16, request_id: Option<&'h [u8]>, body: &[u8]) -> (r: ListBlocksHeadOutcome<'h>)
        ensures
            r == spec_list_blocks_error_body(status, request_id, body@),
    {
        let kind = body_kind(body);
        if status == 404 {
            ListBlocksHeadOutcome::NotFound { kind }
        } else {
            ListBlocksHeadOutcome::ServiceFailure(failure(status, kind, request_id))
        }
    }
}

/// The number of UTF-16 code units of the text that UTF-8 bytes hold: one
/// for each character, and one more for each character outside the basic
/// plane, which UTF-8 writes in four bytes.
pub open spec fn utf16_units(s: Seq<u8>) -> nat
    decreases s.len(),
{
    if s.len() == 0 {
        0
    } else {
        let b = s.last();
        utf16_units(s.drop_last()) + (if b < 0x80 || b >= 0xc0 { 1nat } else { 0nat }) + (if b >= 0xf0 { 1nat } else { 0nat })
    }
}

proof fn lemma_utf16_units_grow(s: Seq<u8>, n: int)
    requires
        0 <= n <= s.len(),
    ensures
        utf16_units(s.subrange(0, n)) <= utf16_units(s),
    decreases s.len() - n,
{
    if n < s.len() {
        let t = s.subrange(0, n + 1);
        assert(t.drop_last() =~= s.subrange(0, n));
        lemma_utf16_units_grow(s, n + 1);
    } else {
        assert(s.subrange(0, n) =~= s);
    }
}

/// Returns whether the text that UTF-8 bytes hold is longer than `limit`
/// UTF-16 code units.
fn units_exceed(s: &[u8], limit: usize) -> (r: bool)
    requires
        limit < usize::MAX - 2,
    ensures
        r == (utf16_units(s@) > limit),
{
    let mut units: usize = 0;
    let mut i: usize = 0;
    while i < s.len()
        invariant
            i <= s@.len(),
            limit < usize::MAX - 2,
            units == utf16_units(s@.subrange(0, i as int)),
            units <= limit,
        decreases s@.len() - i,
    {
        let b = s[i];
        proof {
            let t = s@.subrange(0, i + 1);
            assert(t.drop_last() =~= s@.subrange(0, i as int));
        }
        if b < 0x80 || b >= 0xc0 {
            units = units + 1;
        }
        if b >= 0xf0 {
            units = units + 1;
        }
        i = i + 1;
        if units > limit {
            proof { lemma_utf16_units_grow(s@, i as int); }
            return true;
        }
    }
    proof { assert(s@.subrange(0, s@.len() as int) =~= s@); }
    false
}

/// The number of times `b` stands in `s`.
pub open spec fn count_byte(s: Seq<u8>, b: u8) -> nat
    decreases s.len(),
{
    if s.len() == 0 {
        0
    } else {
        count_byte(s.drop_last(), b) + if s.last() == b { 1nat } else { 0nat }
    }
}

/// Whether some segment of a `/`-delimited name ends with a dot.
pub open spec fn segment_ends_with_dot(s: Seq<u8>) -> bool {
    exists|i: int| 0 <= i < s.len() && #[trigger] s[i] == 0x2e && (i + 1 == s.len() || s[i + 1] == 0x2f)
}

/// Whether a name holds an ASCII control character.
pub open spec fn has_control(s: Seq<u8>) -> bool {
    exists|i: int| 0 <= i < s.len() && ascii_control(#[trigger] s[i])
}

/// Whether a key cannot name an object: it is empty, too long for a flat
/// account, holds a control character, has more segments than Azure takes,
/// or has a segment that ends with a dot.
pub open spec fn key_refused(key: Seq<u8>, namespace: AzureNamespace) -> bool {
    ||| key.len() == 0
    ||| (namespace == AzureNamespace::Flat && utf16_units(key) > MAX_BLOB_NAME_UNITS)
    ||| has_control(key)
    ||| count_byte(key, 0x2f) + 1 > MAX_BLOB_NAME_SEGMENTS
    ||| segment_ends_with_dot(key)
}

/// Why a key cannot name an object, if it cannot.
pub open spec fn key_refusal(key: Seq<u8>, namespace: AzureNamespace) -> Option<InvalidPlan> {
    if key_refused(key, namespace) {
        Some(InvalidPlan::Key)
    } else {
        None
    }
}

fn any_control(s: &[u8]) -> (r: bool)
    ensures
        r == has_control(s@),
{
    let mut i: usize = 0;
    while i < s.len()
        invariant
            i <= s@.len(),
            forall|j: int| 0 <= j < i ==> !ascii_control(#[trigger] s@[j]),
        decreases s@.len() - i,
    {
        if s[i] < 0x20 || s[i] == 0x7f {
            assert(ascii_control(s@[i as int]));
            return true;
        }
        i = i + 1;
    }
    false
}

fn slashes_exceed(s: &[u8], limit: usize) -> (r: bool)
    requires
        1 <= limit < usize::MAX,
    ensures
        r == (count_byte(s@, 0x2f) + 1 > limit),
{
    let mut count: usize = 0;
    let mut i: usize = 0;
    while i < s.len()
        invariant
            i <= s@.len(),
            1 <= limit < usize::MAX,
            count == count_byte(s@.subrange(0, i as int), 0x2f),
            count + 1 <= limit,
        decreases s@.len() - i,
    {
        proof {
            let t = s@.subrange(0, i + 1);
            assert(t.drop_last() =~= s@.subrange(0, i as int));
        }
        if s[i] == 0x2f {
            count = count + 1;
        }
        i = i + 1;
        if count + 1 > limit {
            proof { lemma_count_byte_grows(s@, 0x2f, i as int); }
            return true;
        }
    }
    proof { assert(s@.subrange(0, s@.len() as int) =~= s@); }
    false
}

proof fn lemma_count_byte_grows(s: Seq<u8>, b: u8, n: int)
    requires
        0 <= n <= s.len(),
    ensures
        count_byte(s.subrange(0, n), b) <= count_byte(s, b),
    decreases s.len() - n,
{
    if n < s.len() {
        let t = s.subrange(0, n + 1);
        assert(t.drop_last() =~= s.subrange(0, n));
        lemma_count_byte_grows(s, b, n + 1);
    } else {
        assert(s.subrange(0, n) =~= s);
    }
}

fn dot_ends_segment(s: &[u8]) -> (r: bool)
    ensures
        r == segment_ends_with_dot(s@),
{
    let mut i: usize = 0;
    while i < s.len()
        invariant
            i <= s@.len(),
            forall|j: int| 0 <= j < i ==> !(#[trigger] s@[j] == 0x2e && (j + 1 == s@.len() || s@[j + 1] == 0x2f)),
        decreases s@.len() - i,
    {
        if s[i] == 0x2e && (i + 1 == s.len() || s[i + 1] == 0x2f) {
            return true;
        }
        i = i + 1;
    }
    false
}

/// Checks that `key` can name an object in an account of this namespace.
pub fn validate_key(key: &str, namespace: AzureNamespace) -> (r: Result<(), Error>)
    ensures
        r is Err <==> key_refusal(key.spec_bytes(), namespace) is Some,
        r matches Err(e) ==> e == Error::InvalidPlan(key_refusal(key.spec_bytes(), namespace)->0),
{
    let bytes = key.as_bytes();
    if bytes.len() == 0 || (namespace == AzureNamespace::Flat && units_exceed(bytes, MAX_BLOB_NAME_UNITS))
        || any_control(bytes) || slashes_exceed(bytes, MAX_BLOB_NAME_SEGMENTS) || dot_ends_segment(bytes) {
        return Err(Error::InvalidPlan(InvalidPlan::Key));
    }
    Ok(())
}

/// Why a condition cannot be sent, if it cannot: the kind and the value must
/// agree, and the value must be usable as one header value.
pub open spec fn condition_refusal(condition: ConditionKind, value: Option<&[u8]>) -> Option<InvalidPlan> {
    match (condition, value) {
        (ConditionKind::Unconditional, None) => None,
        (ConditionKind::Unconditional, Some(_)) => Some(InvalidPlan::Condition),
        (_, Some(v)) => if header_value_ok(v@) { None } else { Some(InvalidPlan::Condition) },
        (_, None) => Some(InvalidPlan::Condition),
    }
}

/// Checks that a condition and its value agree.
pub fn validate_condition(condition: ConditionKind, value: Option<&[u8]>) -> (r: Result<(), Error>)
    ensures
        r is Err <==> condition_refusal(condition, value) is Some,
        r matches Err(e) ==> e == Error::InvalidPlan(condition_refusal(condition, value)->0),
{
    match (condition, value) {
        (ConditionKind::Unconditional, None) => Ok(()),
        (ConditionKind::Unconditional, Some(_)) => Err(Error::InvalidPlan(InvalidPlan::Condition)),
        (_, Some(v)) => if valid_header(v) { Ok(()) } else { Err(Error::InvalidPlan(InvalidPlan::Condition)) },
        (_, None) => Err(Error::InvalidPlan(InvalidPlan::Condition)),
    }
}

/// Why a read cannot be sent, if it cannot.
pub open spec fn get_refusal(get: PhysicalGet, namespace: AzureNamespace) -> Option<InvalidPlan> {
    match key_refusal(get.key.spec_bytes(), namespace) {
        Some(reason) => Some(reason),
        None => match get.range {
            RequestedRange::Bounded { start, end } if start >= end => Some(InvalidPlan::Range),
            RequestedRange::Suffix(_) => Some(InvalidPlan::UnsupportedRange),
            RequestedRange::Whole => condition_refusal(get.condition, get.condition_value),
            _ => if get.kind == GetKind::Metadata {
                Some(InvalidPlan::RangedMetadata)
            } else {
                condition_refusal(get.condition, get.condition_value)
            },
        },
    }
}

/// Checks that a read can be sent.
pub fn validate_get(get: &PhysicalGet, namespace: AzureNamespace) -> (r: Result<(), Error>)
    ensures
        r is Err <==> get_refusal(*get, namespace) is Some,
        r matches Err(e) ==> e == Error::InvalidPlan(get_refusal(*get, namespace)->0),
{
    validate_key(get.key, namespace)?;
    match get.range {
        RequestedRange::Bounded { start, end } => {
            if start >= end {
                return Err(Error::InvalidPlan(InvalidPlan::Range));
            }
            if let GetKind::Metadata = get.kind {
                return Err(Error::InvalidPlan(InvalidPlan::RangedMetadata));
            }
        },
        RequestedRange::Suffix(_) => return Err(Error::InvalidPlan(InvalidPlan::UnsupportedRange)),
        RequestedRange::Whole => {},
        RequestedRange::Offset(_) => {
            if let GetKind::Metadata = get.kind {
                return Err(Error::InvalidPlan(InvalidPlan::RangedMetadata));
            }
        },
    }
    validate_condition(get.condition, get.condition_value)
}

/// Why a write cannot be sent, if it cannot.
pub open spec fn put_refusal(put: PhysicalPut, len: u64, namespace: AzureNamespace) -> Option<InvalidPlan> {
    match key_refusal(put.key.spec_bytes(), namespace) {
        Some(reason) => Some(reason),
        None => if len > MAX_PUT_LEN {
            Some(InvalidPlan::PayloadTooLarge)
        } else {
            condition_refusal(put.condition, put.condition_value)
        },
    }
}

/// Checks that a write of `len` bytes can be sent.
pub fn validate_put(put: &PhysicalPut, len: u64, namespace: AzureNamespace) -> (r: Result<(), Error>)
    ensures
        r is Err <==> put_refusal(*put, len, namespace) is Some,
        r matches Err(e) ==> e == Error::InvalidPlan(put_refusal(*put, len, namespace)->0),
{
    validate_key(put.key, namespace)?;
    if len > MAX_PUT_LEN {
        return Err(Error::InvalidPlan(InvalidPlan::PayloadTooLarge));
    }
    validate_condition(put.condition, put.condition_value)
}

/// Why a listing cannot be sent, if it cannot: a prefix longer than a key
/// may be on a flat account, an empty marker, or a page of no entries.
pub open spec fn list_refusal(list: PhysicalList, namespace: AzureNamespace) -> Option<InvalidPlan> {
    if namespace == AzureNamespace::Flat && utf16_units(list.prefix.spec_bytes()) > MAX_BLOB_NAME_UNITS {
        Some(InvalidPlan::Prefix)
    } else if list.marker matches Some(m) && m.spec_bytes().len() == 0 {
        Some(InvalidPlan::Marker)
    } else if list.max_results == Some(0u32) {
        Some(InvalidPlan::MaxResults)
    } else {
        None
    }
}

/// Checks that a listing can be sent.
pub fn validate_list(list: &PhysicalList, namespace: AzureNamespace) -> (r: Result<(), Error>)
    ensures
        r is Err <==> list_refusal(*list, namespace) is Some,
        r matches Err(e) ==> e == Error::InvalidPlan(list_refusal(*list, namespace)->0),
{
    if namespace == AzureNamespace::Flat && units_exceed(list.prefix.as_bytes(), MAX_BLOB_NAME_UNITS) {
        return Err(Error::InvalidPlan(InvalidPlan::Prefix));
    }
    match list.marker {
        Some(marker) => {
            if marker.as_bytes().len() == 0 {
                return Err(Error::InvalidPlan(InvalidPlan::Marker));
            }
        },
        None => {},
    }
    match list.max_results {
        Some(0) => Err(Error::InvalidPlan(InvalidPlan::MaxResults)),
        _ => Ok(()),
    }
}

/// Why a removal cannot be sent, if it cannot.
pub open spec fn delete_refusal(delete: PhysicalDelete, namespace: AzureNamespace) -> Option<InvalidPlan> {
    match key_refusal(delete.key.spec_bytes(), namespace) {
        Some(reason) => Some(reason),
        None => condition_refusal(delete.condition, delete.condition_value),
    }
}

/// Checks that a removal can be sent.
pub fn validate_delete(delete: &PhysicalDelete, namespace: AzureNamespace) -> (r: Result<(), Error>)
    ensures
        r is Err <==> delete_refusal(*delete, namespace) is Some,
        r matches Err(e) ==> e == Error::InvalidPlan(delete_refusal(*delete, namespace)->0),
{
    validate_key(delete.key, namespace)?;
    validate_condition(delete.condition, delete.condition_value)
}

/// The number of `=` that end `s`.
pub open spec fn trailing_padding(s: Seq<u8>) -> nat
    decreases s.len(),
{
    if s.len() > 0 && s.last() == 0x3d {
        trailing_padding(s.drop_last()) + 1
    } else {
        0
    }
}

/// Whether a byte is one of the standard base64 alphabet.
pub open spec fn base64_byte(b: u8) -> bool {
    (0x30 <= b <= 0x39) || (0x41 <= b <= 0x5a) || (0x61 <= b <= 0x7a) || b == 0x2b || b == 0x2f
}

/// Whether a block ID is the standard base64 text of 1 to 64 bytes: at
/// most 88 characters, a multiple of four, at most two `=` of padding, and
/// the alphabet before them.
pub open spec fn block_id_ok(id: Seq<u8>) -> bool {
    let padding = trailing_padding(id);
    &&& id.len() > 0
    &&& id.len() <= 88
    &&& id.len() % 4 == 0
    &&& padding <= 2
    &&& id.len() / 4 * 3 - padding <= 64
    &&& forall|i: int| 0 <= i < id.len() - padding ==> base64_byte(#[trigger] id[i])
}

proof fn lemma_trailing_padding_bound(s: Seq<u8>)
    ensures
        trailing_padding(s) <= s.len(),
    decreases s.len(),
{
    if s.len() > 0 && s.last() == 0x3d {
        lemma_trailing_padding_bound(s.drop_last());
    }
}

/// Checks the local rules on a block ID. That every block of one blob
/// decodes to the same length, and that a referenced block exists, are the
/// service's to check.
pub fn validate_block_id(id: &str) -> (r: Result<(), Error>)
    ensures
        r is Err <==> !block_id_ok(id.spec_bytes()),
        r matches Err(e) ==> e == Error::InvalidPlan(InvalidPlan::BlockId),
{
    let bytes = id.as_bytes();
    let len = bytes.len();
    let mut data = len;
    proof { assert(bytes@.subrange(0, len as int) =~= bytes@); }
    while data > 0 && bytes[data - 1] == 0x3d
        invariant
            data <= len,
            len == bytes@.len(),
            trailing_padding(bytes@) == trailing_padding(bytes@.subrange(0, data as int)) + (len - data),
        decreases data,
    {
        proof {
            let t = bytes@.subrange(0, data as int);
            assert(t.drop_last() =~= bytes@.subrange(0, data - 1));
        }
        data = data - 1;
    }
    proof {
        let t = bytes@.subrange(0, data as int);
        assert(trailing_padding(t) == 0);
    }
    let padding = len - data;
    assert(padding == trailing_padding(bytes@));
    assert(bytes@ == id.spec_bytes());
    if len == 0 || len > 88 || len % 4 != 0 || padding > 2 || len / 4 * 3 - padding > 64 {
        return Err(Error::InvalidPlan(InvalidPlan::BlockId));
    }
    let mut i: usize = 0;
    while i < data
        invariant
            i <= data <= len,
            len == bytes@.len(),
            bytes@ == id.spec_bytes(),
            len - data == trailing_padding(bytes@),
            forall|j: int| 0 <= j < i ==> base64_byte(#[trigger] bytes@[j]),
        decreases data - i,
    {
        let b = bytes[i];
        if !((0x30 <= b && b <= 0x39) || (0x41 <= b && b <= 0x5a) || (0x61 <= b && b <= 0x7a) || b == 0x2b || b == 0x2f) {
            assert(!base64_byte(bytes@[i as int]));
            return Err(Error::InvalidPlan(InvalidPlan::BlockId));
        }
        i = i + 1;
    }
    Ok(())
}

/// The byte size of one [`HeaderSpan`]: four `usize` fields.
pub open spec fn header_span_size() -> nat {
    4 * (usize::BITS / 8) as nat
}

/// The error for a head that does not fit: the capacities it needs, or, for
/// a head larger than any slice can be, a plan that cannot become a request.
pub open spec fn spec_capacity_error(capacity: CapacityError) -> Error {
    if capacity.required > isize::MAX || capacity.required_headers > isize::MAX as nat / header_span_size() {
        Error::InvalidPlan(InvalidPlan::RequestTooLarge)
    } else {
        Error::Capacity(capacity)
    }
}

/// Returns the error for a head that does not fit.
pub fn capacity_error(capacity: CapacityError) -> (r: Error)
    ensures
        r == spec_capacity_error(capacity),
{
    let span_size: usize = 4 * ((usize::BITS / 8) as usize);
    let max_headers = (isize::MAX as usize) / span_size;
    if capacity.required > isize::MAX as usize || capacity.required_headers > max_headers {
        Error::InvalidPlan(InvalidPlan::RequestTooLarge)
    } else {
        Error::Capacity(capacity)
    }
}

/// Whether `r` is the request of this URL and these headers, written into
/// buffers of `bytes` bytes and `slots` header slots: the request if both
/// fit, and otherwise the error that states what they need.
pub open spec fn encoded_as<'r>(
    r: Result<WireRequest<'r>, Error>,
    bytes: nat,
    slots: nat,
    url: Seq<u8>,
    headers: Seq<(Seq<u8>, Seq<u8>)>,
    method: Method,
) -> bool {
    let text = head_text(url, headers);
    if text.len() <= bytes && headers.len() <= slots {
        r matches Ok(req) && req.spec_url() == url && req.spec_headers() == headers
            && req.spec_method() == method && req.spec_bytes() == text
    } else {
        r == Err::<WireRequest<'r>, Error>(spec_capacity_error(CapacityError {
            required: saturated(text.len()),
            available: bytes as usize,
            required_headers: saturated(headers.len()),
            available_headers: slots as usize,
        }))
    }
}

fn encoded<'r>(head: HeadWriter<'r>, available: usize, method: Method, payload: Payload<'r>) -> (r: Result<WireRequest<'r>, Error>)
    requires
        head.wf(),
        head.byte_capacity() == available,
    ensures
        encoded_as(r, head.byte_capacity(), head.header_capacity(), head.url_bytes(), head.header_bytes(), method),
        r matches Ok(req) ==> req.spec_payload() == payload,
        r matches Ok(req) ==> req.spec_bytes().len() <= final(head.out.bytes)@.len()
                && final(head.out.bytes)@.subrange(0, req.spec_bytes().len() as int) == req.spec_bytes(),
{
    let capacity = head.capacity(available);
    match head.finish(method, payload) {
        Some(request) => Ok(request),
        None => Err(capacity_error(capacity)),
    }
}

/// One query value, in the form that the URL writer needs it.
#[derive(Clone, Copy)]
pub enum QueryValue<'q> {
    /// Text of this crate's own, which is already usable in a URL.
    Literal(&'q str),
    /// Bytes of the caller's or the service's, which are escaped.
    Encoded(&'q [u8]),
    /// A number, written in decimal.
    Number(u32),
}

/// The bytes that a query value is written as.
pub open spec fn query_value_text(value: QueryValue) -> Seq<u8> {
    match value {
        QueryValue::Literal(text) => text.spec_bytes(),
        QueryValue::Encoded(bytes) => percent_encoded(bytes@, true),
        QueryValue::Number(n) => decimal_digits(n as nat),
    }
}

/// Each query parameter as its name and the bytes its value is written as.
pub open spec fn rendered_query(query: Seq<(&str, QueryValue)>) -> Seq<(Seq<u8>, Seq<u8>)> {
    Seq::new(query.len(), |i: int| (query[i].0.spec_bytes(), query_value_text(query[i].1)))
}

/// The query of a URL: `?`, then each parameter as `name=value`, joined by
/// `&`; nothing if there is no parameter.
pub open spec fn query_text(query: Seq<(Seq<u8>, Seq<u8>)>) -> Seq<u8>
    decreases query.len(),
{
    if query.len() == 0 {
        Seq::empty()
    } else {
        query_text(query.drop_last())
            + (if query.len() == 1 { "?".spec_bytes() } else { "&".spec_bytes() })
            + query.last().0 + "=".spec_bytes() + query.last().1
    }
}

/// The URL of a request: the endpoint, `/`, the container, then `/` and the
/// escaped key if the request names an object, then the query.
pub open spec fn spec_url(blobs: Blobs, key: Option<&str>, query: Seq<(Seq<u8>, Seq<u8>)>) -> Seq<u8> {
    blobs.spec_container().spec_endpoint().spec_bytes() + "/".spec_bytes()
        + blobs.spec_container().spec_name().spec_bytes()
        + match key {
            Some(k) => "/".spec_bytes() + percent_encoded(k.spec_bytes(), false),
            None => Seq::empty(),
        }
        + query_text(query)
}

/// The value of the `range` header that a range is written as.
pub open spec fn range_text(range: RequestedRange) -> Seq<u8> {
    match range {
        RequestedRange::Bounded { start, end } => "bytes=".spec_bytes() + decimal_digits(start as nat)
            + "-".spec_bytes() + decimal_digits((end - 1) as nat),
        RequestedRange::Offset(first) => "bytes=".spec_bytes() + decimal_digits(first as nat) + "-".spec_bytes(),
        _ => Seq::empty(),
    }
}

/// Decimal digits read back as the number they were written from.
proof fn lemma_decimal_round_trip(n: nat)
    ensures
        all_digits(decimal_digits(n)),
        decimal_digits(n).len() >= 1,
        decimal_value(decimal_digits(n)) == n,
    decreases n,
{
    lemma_decimal_digits_ascii(n);
    let d = decimal_digits(n);
    if n >= 10 {
        lemma_decimal_round_trip(n / 10);
        assert(d.drop_last() =~= decimal_digits(n / 10));
        assert(d.last() == (n % 10 + 0x30) as u8);
        assert((d.last() - 0x30) as nat == n % 10);
        assert(decimal_value(d) == decimal_value(decimal_digits(n / 10)) * 10 + n % 10);
        assert((n / 10) * 10 + n % 10 == n) by (nonlinear_arith);
    } else {
        assert(d.drop_last() =~= Seq::<u8>::empty());
        assert(decimal_value(d.drop_last()) == 0);
        assert(decimal_value(d) == decimal_value(d.drop_last()) * 10 + (d.last() - 0x30) as nat);
    }
}

proof fn lemma_range_literals()
    ensures
        "bytes=".spec_bytes() == seq![0x62u8, 0x79u8, 0x74u8, 0x65u8, 0x73u8, 0x3du8],
        "-".spec_bytes() == seq![0x2du8],
        "range".spec_bytes() == seq![0x72u8, 0x61u8, 0x6eu8, 0x67u8, 0x65u8],
{
    reveal_strlit("bytes=");
    reveal_strlit("-");
    reveal_strlit("range");
    assert(is_ascii("bytes="));
    assert(is_ascii("-"));
    assert(is_ascii("range"));
    assert("bytes=".spec_bytes() =~= seq![0x62u8, 0x79u8, 0x74u8, 0x65u8, 0x73u8, 0x3du8]);
    assert("-".spec_bytes() =~= seq![0x2du8]);
    assert("range".spec_bytes() =~= seq![0x72u8, 0x61u8, 0x6eu8, 0x67u8, 0x65u8]);
}

/// A read of part of an object asks for the bytes it names: after the
/// token, the date and the version, the request of a read from an offset,
/// or of a bounded range that is not empty, carries a `range` header
/// whose value is `bytes=`, then the first offset in decimal, then `-`.
/// A read from an offset to the end stops there, so it never asks for a
/// suffix (`bytes=-n`, the last `n` bytes); a bounded read ends with its
/// last offset, one below its end, in decimal.
pub proof fn law_a_range_header_starts_at_the_first_byte(blobs: Blobs, get: PhysicalGet, now: Timestamps)
    requires
        get.range is Offset || get.range is Bounded,
        get.range matches RequestedRange::Bounded { start, end } ==> start < end,
    ensures
        get_headers(blobs, get, now).len() >= 4,
        get_headers(blobs, get, now)[3].0 == seq![0x72u8, 0x61u8, 0x6eu8, 0x67u8, 0x65u8],
        get_headers(blobs, get, now)[3].1.len() >= 8,
        get_headers(blobs, get, now)[3].1.subrange(0, 6) == seq![0x62u8, 0x79u8, 0x74u8, 0x65u8, 0x73u8, 0x3du8],
        0x30 <= get_headers(blobs, get, now)[3].1[6] <= 0x39,
        get.range matches RequestedRange::Offset(first) ==> ({
            let v = get_headers(blobs, get, now)[3].1;
            &&& v.last() == 0x2d
            &&& all_digits(v.subrange(6, v.len() - 1))
            &&& decimal_value(v.subrange(6, v.len() - 1)) == first
        }),
        get.range matches RequestedRange::Bounded { start, end } ==> ({
            let v = get_headers(blobs, get, now)[3].1;
            exists|d: int| {
                &&& 6 < d < v.len() - 1
                &&& #[trigger] v[d] == 0x2d
                &&& all_digits(v.subrange(6, d))
                &&& decimal_value(v.subrange(6, d)) == start
                &&& all_digits(v.subrange(d + 1, v.len() as int))
                &&& decimal_value(v.subrange(d + 1, v.len() as int)) == end - 1
            }
        }),
{
    lemma_range_literals();
    let hs = get_headers(blobs, get, now);
    let b = base_headers(blobs, get.range, now);
    assert(hs[3] == b[3]);
    assert(b[3] == ("range".spec_bytes(), range_text(get.range)));
    let pre = "bytes=".spec_bytes();
    let dash = "-".spec_bytes();
    match get.range {
        RequestedRange::Offset(first) => {
            let dd = decimal_digits(first as nat);
            lemma_decimal_round_trip(first as nat);
            let v = pre + dd + dash;
            assert(hs[3].1 == v);
            assert(v.last() == dash[0]);
            assert(v.subrange(0, 6) =~= pre);
            assert(v.subrange(6, v.len() - 1) =~= dd);
            assert(v[6] == dd[0]);
        },
        RequestedRange::Bounded { start, end } => {
            let d1 = decimal_digits(start as nat);
            let d2 = decimal_digits((end - 1) as nat);
            lemma_decimal_round_trip(start as nat);
            lemma_decimal_round_trip((end - 1) as nat);
            let v = pre + d1 + dash + d2;
            let d: int = 6 + d1.len() as int;
            assert(v.subrange(0, 6) =~= pre);
            assert(v.subrange(6, d) =~= d1);
            assert(v.subrange(d + 1, v.len() as int) =~= d2);
            assert(v[6] == d1[0]);
            assert(v[d] == 0x2d);
        },
        _ => {},
    }
}

/// The headers that every request carries, in the order written: the
/// token, the date, the version, and the range if the request has one.
pub open spec fn base_headers(blobs: Blobs, range: RequestedRange, now: Timestamps) -> Seq<(Seq<u8>, Seq<u8>)> {
    seq![
        ("authorization".spec_bytes(), "Bearer ".spec_bytes() + blobs.spec_token().spec_bytes()),
        ("x-ms-date".spec_bytes(), spec_rfc1123(now.spec_seconds() as nat)),
        ("x-ms-version".spec_bytes(), VERSION.spec_bytes()),
    ] + if range == RequestedRange::Whole {
        Seq::empty()
    } else {
        seq![("range".spec_bytes(), range_text(range))]
    }
}

/// The header that a condition is written as, if any.
pub open spec fn condition_headers(condition: ConditionKind, value: Option<&[u8]>) -> Seq<(Seq<u8>, Seq<u8>)> {
    match (condition, value) {
        (ConditionKind::IfMatch, Some(v)) => seq![("if-match".spec_bytes(), v@)],
        (ConditionKind::IfNoneMatch, Some(v)) => seq![("if-none-match".spec_bytes(), v@)],
        _ => Seq::empty(),
    }
}

fn push_decimal(head: &mut HeadWriter, value: u64)
    requires
        old(head).wf(),
        old(head).current() != HeadPart::Closed,
    ensures
        appended(*old(head), *final(head), decimal_digits(value as nat)),
        final(final(head).out.bytes)@ == final(old(head).out.bytes)@,
{
    let digits = U64Decimal::new(value);
    let bytes = digits.as_bytes();
    proof {
        lemma_decimal_digits_ascii(value as nat);
        lemma_ascii_is_utf8(bytes@);
    }
    head.push(bytes);
}

fn write_query_value(head: &mut HeadWriter, value: QueryValue)
    requires
        old(head).wf(),
        old(head).current() != HeadPart::Closed,
    ensures
        appended(*old(head), *final(head), query_value_text(value)),
        final(final(head).out.bytes)@ == final(old(head).out.bytes)@,
{
    match value {
        QueryValue::Literal(text) => head.push_str(text),
        QueryValue::Encoded(bytes) => push_encoded(head, bytes, true),
        QueryValue::Number(n) => push_decimal(head, n as u64),
    }
}

fn write_range(head: &mut HeadWriter, range: RequestedRange)
    requires
        old(head).wf(),
        old(head).current() != HeadPart::Closed,
        range matches RequestedRange::Bounded { start, end } ==> start < end,
    ensures
        appended(*old(head), *final(head), range_text(range)),
        final(final(head).out.bytes)@ == final(old(head).out.bytes)@,
{
    let ghost a = *head;
    match range {
        RequestedRange::Bounded { start, end } => {
            head.push_str("bytes=");
            let ghost b = *head;
            push_decimal(head, start);
            let ghost c = *head;
            proof { lemma_appended_twice(a, b, c, "bytes=".spec_bytes(), decimal_digits(start as nat)); }
            head.push_str("-");
            let ghost d = *head;
            proof { lemma_appended_twice(a, c, d, "bytes=".spec_bytes() + decimal_digits(start as nat), "-".spec_bytes()); }
            push_decimal(head, end - 1);
            proof {
                lemma_appended_twice(a, d, *head,
                    "bytes=".spec_bytes() + decimal_digits(start as nat) + "-".spec_bytes(),
                    decimal_digits((end - 1) as nat));
            }
        },
        RequestedRange::Offset(first) => {
            head.push_str("bytes=");
            let ghost b = *head;
            push_decimal(head, first);
            let ghost c = *head;
            proof { lemma_appended_twice(a, b, c, "bytes=".spec_bytes(), decimal_digits(first as nat)); }
            head.push_str("-");
            proof { lemma_appended_twice(a, c, *head, "bytes=".spec_bytes() + decimal_digits(first as nat), "-".spec_bytes()); }
        },
        _ => {
            proof { lemma_appended_nothing(a); }
        },
    }
}

impl<'a> Blobs<'a> {
    // The URL of a request, which every head starts with.
    fn write_url(&self, head: &mut HeadWriter, key: Option<&str>, query: &Vec<(&str, QueryValue)>)
        requires
            old(head).wf(),
            old(head).current() == HeadPart::Url,
            old(head).url_bytes() == Seq::<u8>::empty(),
        ensures
            appended(*old(head), *final(head), spec_url(*self, key, rendered_query(query@))),
            final(final(head).out.bytes)@ == final(old(head).out.bytes)@,
    {
        let ghost a = *head;
        head.push_str(self.container.endpoint);
        let ghost b = *head;
        head.push_str("/");
        let ghost c = *head;
        proof { lemma_appended_twice(a, b, c, self.container.endpoint.spec_bytes(), "/".spec_bytes()); }
        head.push_str(self.container.name);
        let ghost base = self.container.endpoint.spec_bytes() + "/".spec_bytes() + self.container.name.spec_bytes();
        proof { lemma_appended_twice(a, c, *head, self.container.endpoint.spec_bytes() + "/".spec_bytes(), self.container.name.spec_bytes()); }
        let ghost with_key = base + match key {
            Some(k) => "/".spec_bytes() + percent_encoded(k.spec_bytes(), false),
            None => Seq::empty(),
        };
        match key {
            Some(key) => {
                let ghost d = *head;
                head.push_str("/");
                let ghost e = *head;
                push_encoded(head, key.as_bytes(), false);
                proof {
                    lemma_appended_twice(d, e, *head, "/".spec_bytes(), percent_encoded(key.spec_bytes(), false));
                    lemma_appended_twice(a, d, *head, base, "/".spec_bytes() + percent_encoded(key.spec_bytes(), false));
                }
            },
            None => {
                proof { assert(base + Seq::<u8>::empty() =~= base); }
            },
        }
        let ghost q = rendered_query(query@);
        let mut i: usize = 0;
        proof {
            assert(q.subrange(0, 0) =~= Seq::<(Seq<u8>, Seq<u8>)>::empty());
            assert(with_key + query_text(q.subrange(0, 0)) =~= with_key);
        }
        while i < query.len()
            invariant
                final(head.out.bytes)@ == final(old(head).out.bytes)@,
                a.wf(),
                a.current() == HeadPart::Url,
                i <= query@.len(),
                q == rendered_query(query@),
                appended(a, *head, with_key + query_text(q.subrange(0, i as int))),
            decreases query@.len() - i,
        {
            let ghost before = *head;
            let (name, value) = query[i];
            if i == 0 {
                head.push_str("?");
            } else {
                head.push_str("&");
            }
            let ghost s1 = *head;
            head.push_str(name);
            let ghost s2 = *head;
            head.push_str("=");
            let ghost s3 = *head;
            write_query_value(head, value);
            proof {
                let sep = if i == 0 { "?".spec_bytes() } else { "&".spec_bytes() };
                lemma_appended_twice(before, s1, s2, sep, name.spec_bytes());
                lemma_appended_twice(before, s2, s3, sep + name.spec_bytes(), "=".spec_bytes());
                lemma_appended_twice(before, s3, *head, sep + name.spec_bytes() + "=".spec_bytes(), query_value_text(value));
                let piece = sep + name.spec_bytes() + "=".spec_bytes() + query_value_text(value);
                lemma_appended_twice(a, before, *head, with_key + query_text(q.subrange(0, i as int)), piece);
                let next = q.subrange(0, i + 1);
                assert(next.drop_last() =~= q.subrange(0, i as int));
                assert(next.last() == (name.spec_bytes(), query_value_text(value)));
                assert(with_key + query_text(q.subrange(0, i as int)) + piece =~= with_key + query_text(next));
            }
            i = i + 1;
        }
        proof {
            assert(q.subrange(0, query@.len() as int) =~= q);
        }
    }

    // The headers that every request carries.
    fn write_base_headers(&self, head: &mut HeadWriter, range: RequestedRange, now: &Timestamps)
        requires
            old(head).wf(),
            range matches RequestedRange::Bounded { start, end } ==> start < end,
        ensures
            final(head).wf(),
            final(head).current() == HeadPart::Value,
            final(head).url_bytes() == old(head).url_bytes(),
            final(head).header_bytes() == old(head).header_bytes() + base_headers(*self, range, *now),
            final(head).byte_capacity() == old(head).byte_capacity(),
            final(head).header_capacity() == old(head).header_capacity(),
            final(final(head).out.bytes)@ == final(old(head).out.bytes)@,
    {
        let ghost h0 = head.header_bytes();
        head.header_name();
        head.push_str("authorization");
        head.header_value();
        let ghost v0 = *head;
        head.push_str("Bearer ");
        let ghost v1 = *head;
        head.push_str(self.token);
        proof {
            v0.lemma_open_header();
            lemma_appended_twice(v0, v1, *head, "Bearer ".spec_bytes(), self.token.spec_bytes());
            let e = Seq::<u8>::empty();
            let h = h0.push((e, e));
            assert(h.update(h.len() - 1, (h.last().0 + "authorization".spec_bytes(), h.last().1)) =~= h0.push(("authorization".spec_bytes(), e)));
            assert(e + ("Bearer ".spec_bytes() + self.token.spec_bytes()) =~= "Bearer ".spec_bytes() + self.token.spec_bytes());
            assert(head.header_bytes() =~= h0.push(("authorization".spec_bytes(), "Bearer ".spec_bytes() + self.token.spec_bytes())));
        }
        let date = now.rfc1123();
        let date_bytes = date.as_bytes();
        proof { lemma_ascii_is_utf8(date_bytes@); }
        head.header("x-ms-date", date_bytes);
        head.header_str("x-ms-version", VERSION);
        let ghost h3 = head.header_bytes();
        match range {
            RequestedRange::Whole => {
                proof {
                    assert(h3 =~= h0 + base_headers(*self, range, *now));
                }
            },
            _ => {
                head.header_name();
                head.push_str("range");
                head.header_value();
                let ghost v2 = *head;
                write_range(head, range);
                proof {
                    v2.lemma_open_header();
                    let e = Seq::<u8>::empty();
                    let h = h3.push((e, e));
                    assert(h.update(h.len() - 1, (h.last().0 + "range".spec_bytes(), h.last().1)) =~= h3.push(("range".spec_bytes(), e)));
                    assert(e + range_text(range) =~= range_text(range));
                    assert(head.header_bytes() =~= h3.push(("range".spec_bytes(), range_text(range))));
                    assert(head.header_bytes() =~= h0 + base_headers(*self, range, *now));
                }
            },
        }
    }
}

fn push_condition(head: &mut HeadWriter, condition: ConditionKind, value: Option<&[u8]>)
    requires
        old(head).wf(),
        old(head).current() != HeadPart::Url,
        condition_refusal(condition, value) is None,
    ensures
        final(head).wf(),
        final(head).current() == if condition == ConditionKind::Unconditional { old(head).current() } else { HeadPart::Value },
        final(head).url_bytes() == old(head).url_bytes(),
        final(head).header_bytes() == old(head).header_bytes() + condition_headers(condition, value),
        final(head).byte_capacity() == old(head).byte_capacity(),
        final(head).header_capacity() == old(head).header_capacity(),
        final(final(head).out.bytes)@ == final(old(head).out.bytes)@,
{
    let ghost h0 = head.header_bytes();
    match (condition, value) {
        (ConditionKind::IfMatch, Some(v)) => {
            proof { lemma_ascii_is_utf8(v@); }
            head.header("if-match", v);
        },
        (ConditionKind::IfNoneMatch, Some(v)) => {
            proof { lemma_ascii_is_utf8(v@); }
            head.header("if-none-match", v);
        },
        _ => {},
    }
    proof {
        assert(head.header_bytes() =~= h0 + condition_headers(condition, value));
    }
}

fn header_decimal(head: &mut HeadWriter, name: &str, value: u64)
    requires
        old(head).wf(),
    ensures
        final(head).wf(),
        final(head).current() == HeadPart::Value,
        final(head).url_bytes() == old(head).url_bytes(),
        final(head).header_bytes() == old(head).header_bytes().push((name.spec_bytes(), decimal_digits(value as nat))),
        final(head).byte_capacity() == old(head).byte_capacity(),
        final(head).header_capacity() == old(head).header_capacity(),
        final(final(head).out.bytes)@ == final(old(head).out.bytes)@,
{
    let ghost h0 = head.header_bytes();
    head.header_name();
    head.push_str(name);
    head.header_value();
    let ghost v0 = *head;
    push_decimal(head, value);
    proof {
        v0.lemma_open_header();
        let e = Seq::<u8>::empty();
        let h = h0.push((e, e));
        assert(h.update(h.len() - 1, (h.last().0 + name.spec_bytes(), h.last().1)) =~= h0.push((name.spec_bytes(), e)));
        assert(e + decimal_digits(value as nat) =~= decimal_digits(value as nat));
        assert(head.header_bytes() =~= h0.push((name.spec_bytes(), decimal_digits(value as nat))));
    }
}

fn payload_len(content: &Payload) -> (r: u64)
    ensures
        r == content.spec_len(),
{
    match *content {
        Payload::Slice(bytes) => {
            let n = bytes.len();
            n as u64
        },
        Payload::Streamed { len } => len,
    }
}

/// The method of a read: `HEAD` for the metadata alone, `GET` for the bytes.
pub open spec fn get_method(kind: GetKind) -> Method {
    match kind {
        GetKind::Bytes => Method::Get,
        GetKind::Metadata => Method::Head,
    }
}

/// The headers of a read.
pub open spec fn get_headers(blobs: Blobs, get: PhysicalGet, now: Timestamps) -> Seq<(Seq<u8>, Seq<u8>)> {
    base_headers(blobs, get.range, now) + condition_headers(get.condition, get.condition_value)
}

/// The headers of a write of `len` bytes.
pub open spec fn put_headers(blobs: Blobs, put: PhysicalPut, len: u64, now: Timestamps) -> Seq<(Seq<u8>, Seq<u8>)> {
    base_headers(blobs, RequestedRange::Whole, now)
        + seq![
            ("x-ms-blob-type".spec_bytes(), "BlockBlob".spec_bytes()),
            ("content-length".spec_bytes(), decimal_digits(len as nat)),
        ]
        + condition_headers(put.condition, put.condition_value)
}

/// The value of `x-ms-delete-snapshots` that a removal sends, if any.
pub open spec fn delete_snapshots(kind: DeleteKind) -> Option<Seq<u8>> {
    match kind {
        DeleteKind::Object => None,
        DeleteKind::ObjectAndSnapshots => Some("include".spec_bytes()),
        DeleteKind::SnapshotsOnly => Some("only".spec_bytes()),
    }
}

/// The headers of a removal.
pub open spec fn delete_headers(blobs: Blobs, delete: PhysicalDelete, now: Timestamps) -> Seq<(Seq<u8>, Seq<u8>)> {
    base_headers(blobs, RequestedRange::Whole, now)
        + match delete_snapshots(delete.kind) {
            Some(value) => seq![("x-ms-delete-snapshots".spec_bytes(), value)],
            None => Seq::empty(),
        }
        + condition_headers(delete.condition, delete.condition_value)
}

/// The query of a listing, in the order written: the container listing,
/// then the prefix if it is not empty, the delimiter if the listing groups
/// keys, the marker and the page size.
pub open spec fn list_query(list: PhysicalList) -> Seq<(Seq<u8>, Seq<u8>)> {
    seq![("restype".spec_bytes(), "container".spec_bytes()), ("comp".spec_bytes(), "list".spec_bytes())]
        + (if list.prefix.spec_bytes().len() > 0 {
            seq![("prefix".spec_bytes(), percent_encoded(list.prefix.spec_bytes(), true))]
        } else {
            Seq::empty()
        })
        + (if list.delimited {
            seq![("delimiter".spec_bytes(), percent_encoded("/".spec_bytes(), true))]
        } else {
            Seq::empty()
        })
        + match list.marker {
            Some(m) => seq![("marker".spec_bytes(), percent_encoded(m.spec_bytes(), true))],
            None => Seq::empty(),
        }
        + match list.max_results {
            Some(n) => seq![("maxresults".spec_bytes(), decimal_digits(n as nat))],
            None => Seq::empty(),
        }
}

proof fn lemma_rendered_push<'q>(query: Seq<(&'q str, QueryValue<'q>)>, item: (&'q str, QueryValue<'q>))
    ensures
        rendered_query(query.push(item)) == rendered_query(query).push((item.0.spec_bytes(), query_value_text(item.1))),
{
    assert(rendered_query(query.push(item)) =~= rendered_query(query).push((item.0.spec_bytes(), query_value_text(item.1))));
}

impl<'a> Blobs<'a> {
    /// Writes the request head for `get` into `buf`.
    ///
    /// This method allocates nothing. It writes the URL and the header values
    /// into `buf`, records their spans in `headers`, and returns a
    /// [`WireRequest`] that borrows both buffers.
    ///
    /// # Errors
    ///
    /// Returns [`Error::InvalidPlan`] if `get` cannot become an Azure
    /// request; the plan is checked before any byte is written.
    ///
    /// Returns [`Error::Capacity`] if `buf` or `headers` is too small, with
    /// the required bytes and header slots.
    pub fn encode_get<'r>(&self, buf: &'r mut [u8], headers: &'r mut [HeaderSpan], get: &PhysicalGet, now: &Timestamps) -> (r: Result<WireRequest<'r>, Error>)
        ensures
            get_refusal(*get, self.spec_namespace()) matches Some(reason)
                ==> r == Err::<WireRequest<'r>, Error>(Error::InvalidPlan(reason))
                && final(buf)@ == old(buf)@ && final(headers)@ == old(headers)@,
            get_refusal(*get, self.spec_namespace()) is None ==> encoded_as(r, old(buf)@.len(), old(headers)@.len(),
                spec_url(*self, Some(get.key), Seq::empty()), get_headers(*self, *get, *now), get_method(get.kind)),
            r matches Ok(req) ==> req.spec_payload() matches Payload::Slice(b) && b@.len() == 0,
            r matches Ok(req) ==> req.spec_bytes().len() <= final(buf)@.len()
                && final(buf)@.subrange(0, req.spec_bytes().len() as int) == req.spec_bytes(),
    {
        validate_get(get, self.namespace)?;
        let available = buf.len();
        let mut head = HeadWriter::new(buf, headers);
        let query: Vec<(&str, QueryValue)> = Vec::new();
        proof { assert(rendered_query(query@) =~= Seq::<(Seq<u8>, Seq<u8>)>::empty()); }
        self.write_url(&mut head, Some(get.key), &query);
        self.write_base_headers(&mut head, get.range, now);
        push_condition(&mut head, get.condition, get.condition_value);
        let method = match get.kind {
            GetKind::Bytes => Method::Get,
            GetKind::Metadata => Method::Head,
        };
        let empty: &[u8] = &[];
        proof {
            assert(head.header_bytes() =~= get_headers(*self, *get, *now));
        }
        encoded(head, available, method, Payload::Slice(empty))
    }

    /// Writes the request head for `put` into `buf`.
    ///
    /// The head states the length of `content`. If you pass
    /// [`Payload::Slice`], the returned request borrows those bytes and copies
    /// none of them. If you pass [`Payload::Streamed`], the request carries no
    /// content and you send the stated number of bytes yourself.
    ///
    /// # Errors
    ///
    /// Returns [`Error::InvalidPlan`] if `put` cannot become an Azure request,
    /// or if `content` is longer than Azure writes in one request. Returns
    /// [`Error::Capacity`] if `buf` or `headers` is too small.
    pub fn encode_put<'r>(&self, buf: &'r mut [u8], headers: &'r mut [HeaderSpan], put: &PhysicalPut, content: Payload<'r>, now: &Timestamps) -> (r: Result<WireRequest<'r>, Error>)
        ensures
            put_refusal(*put, content.spec_len() as u64, self.spec_namespace()) matches Some(reason)
                ==> r == Err::<WireRequest<'r>, Error>(Error::InvalidPlan(reason))
                && final(buf)@ == old(buf)@ && final(headers)@ == old(headers)@,
            put_refusal(*put, content.spec_len() as u64, self.spec_namespace()) is None ==> encoded_as(r, old(buf)@.len(), old(headers)@.len(),
                spec_url(*self, Some(put.key), Seq::empty()), put_headers(*self, *put, content.spec_len() as u64, *now), Method::Put),
            r matches Ok(req) ==> req.spec_payload() == content,
            r matches Ok(req) ==> req.spec_bytes().len() <= final(buf)@.len()
                && final(buf)@.subrange(0, req.spec_bytes().len() as int) == req.spec_bytes(),
    {
        let length = payload_len(&content);
        validate_put(put, length, self.namespace)?;
        let available = buf.len();
        let mut head = HeadWriter::new(buf, headers);
        let query: Vec<(&str, QueryValue)> = Vec::new();
        proof { assert(rendered_query(query@) =~= Seq::<(Seq<u8>, Seq<u8>)>::empty()); }
        self.write_url(&mut head, Some(put.key), &query);
        self.write_base_headers(&mut head, RequestedRange::Whole, now);
        head.header_str("x-ms-blob-type", "BlockBlob");
        header_decimal(&mut head, "content-length", length);
        push_condition(&mut head, put.condition, put.condition_value);
        proof {
            assert(head.header_bytes() =~= put_headers(*self, *put, length, *now));
        }
        encoded(head, available, Method::Put, content)
    }

    /// Writes the request head for `delete` into `buf`.
    ///
    /// # Errors
    ///
    /// Returns [`Error::InvalidPlan`] if `delete` cannot become an Azure
    /// request, and [`Error::Capacity`] if `buf` or `headers` is too small.
    pub fn encode_delete<'r>(&self, buf: &'r mut [u8], headers: &'r mut [HeaderSpan], delete: &PhysicalDelete, now: &Timestamps) -> (r: Result<WireRequest<'r>, Error>)
        ensures
            delete_refusal(*delete, self.spec_namespace()) matches Some(reason)
                ==> r == Err::<WireRequest<'r>, Error>(Error::InvalidPlan(reason))
                && final(buf)@ == old(buf)@ && final(headers)@ == old(headers)@,
            delete_refusal(*delete, self.spec_namespace()) is None ==> encoded_as(r, old(buf)@.len(), old(headers)@.len(),
                spec_url(*self, Some(delete.key), Seq::empty()), delete_headers(*self, *delete, *now), Method::Delete),
            r matches Ok(req) ==> req.spec_payload() matches Payload::Slice(b) && b@.len() == 0,
            r matches Ok(req) ==> req.spec_bytes().len() <= final(buf)@.len()
                && final(buf)@.subrange(0, req.spec_bytes().len() as int) == req.spec_bytes(),
    {
        validate_delete(delete, self.namespace)?;
        let available = buf.len();
        let mut head = HeadWriter::new(buf, headers);
        let query: Vec<(&str, QueryValue)> = Vec::new();
        proof { assert(rendered_query(query@) =~= Seq::<(Seq<u8>, Seq<u8>)>::empty()); }
        self.write_url(&mut head, Some(delete.key), &query);
        self.write_base_headers(&mut head, RequestedRange::Whole, now);
        let ghost h1 = head.header_bytes();
        match delete.kind {
            DeleteKind::Object => {},
            DeleteKind::ObjectAndSnapshots => head.header_str("x-ms-delete-snapshots", "include"),
            DeleteKind::SnapshotsOnly => head.header_str("x-ms-delete-snapshots", "only"),
        }
        push_condition(&mut head, delete.condition, delete.condition_value);
        proof {
            assert(head.header_bytes() =~= delete_headers(*self, *delete, *now));
        }
        let empty: &[u8] = &[];
        encoded(head, available, Method::Delete, Payload::Slice(empty))
    }

    /// Writes the request head for one page of `list` into `buf`.
    ///
    /// The response carries the page as a document in its body: read it whole
    /// and pass it to [`Self::fill_listing`].
    ///
    /// # Errors
    ///
    /// Returns [`Error::InvalidPlan`] if `list` cannot become an Azure
    /// request, and [`Error::Capacity`] if `buf` or `headers` is too small.
    pub fn encode_list<'r>(&self, buf: &'r mut [u8], headers: &'r mut [HeaderSpan], list: &PhysicalList, now: &Timestamps) -> (r: Result<WireRequest<'r>, Error>)
        ensures
            list_refusal(*list, self.spec_namespace()) matches Some(reason)
                ==> r == Err::<WireRequest<'r>, Error>(Error::InvalidPlan(reason))
                && final(buf)@ == old(buf)@ && final(headers)@ == old(headers)@,
            list_refusal(*list, self.spec_namespace()) is None ==> encoded_as(r, old(buf)@.len(), old(headers)@.len(),
                spec_url(*self, None, list_query(*list)), base_headers(*self, RequestedRange::Whole, *now), Method::Get),
            r matches Ok(req) ==> req.spec_payload() matches Payload::Slice(b) && b@.len() == 0,
            r matches Ok(req) ==> req.spec_bytes().len() <= final(buf)@.len()
                && final(buf)@.subrange(0, req.spec_bytes().len() as int) == req.spec_bytes(),
    {
        validate_list(list, self.namespace)?;
        let mut query: Vec<(&str, QueryValue)> = Vec::new();
        let ghost q0 = query@;
        query.push(("restype", QueryValue::Literal("container")));
        proof { lemma_rendered_push(q0, ("restype", QueryValue::Literal("container"))); }
        let ghost q1 = query@;
        query.push(("comp", QueryValue::Literal("list")));
        proof {
            lemma_rendered_push(q1, ("comp", QueryValue::Literal("list")));
            assert(rendered_query(q0) =~= Seq::<(Seq<u8>, Seq<u8>)>::empty());
        }
        let ghost base_q = rendered_query(query@);
        let prefix = list.prefix.as_bytes();
        if prefix.len() > 0 {
            let ghost q = query@;
            query.push(("prefix", QueryValue::Encoded(prefix)));
            proof { lemma_rendered_push(q, ("prefix", QueryValue::Encoded(prefix))); }
        }
        let ghost with_prefix = rendered_query(query@);
        if list.delimited {
            let ghost q = query@;
            let delimiter = "/".as_bytes();
            query.push(("delimiter", QueryValue::Encoded(delimiter)));
            proof { lemma_rendered_push(q, ("delimiter", QueryValue::Encoded(delimiter))); }
        }
        let ghost with_delimiter = rendered_query(query@);
        match list.marker {
            Some(marker) => {
                let ghost q = query@;
                let marker_bytes = marker.as_bytes();
                query.push(("marker", QueryValue::Encoded(marker_bytes)));
                proof { lemma_rendered_push(q, ("marker", QueryValue::Encoded(marker_bytes))); }
            },
            None => {},
        }
        let ghost with_marker = rendered_query(query@);
        match list.max_results {
            Some(n) => {
                let ghost q = query@;
                query.push(("maxresults", QueryValue::Number(n)));
                proof { lemma_rendered_push(q, ("maxresults", QueryValue::Number(n))); }
            },
            None => {},
        }
        proof {
            assert(rendered_query(query@) =~= list_query(*list));
        }
        let available = buf.len();
        let mut head = HeadWriter::new(buf, headers);
        self.write_url(&mut head, None, &query);
        self.write_base_headers(&mut head, RequestedRange::Whole, now);
        proof {
            assert(head.header_bytes() =~= base_headers(*self, RequestedRange::Whole, *now));
        }
        let empty: &[u8] = &[];
        encoded(head, available, Method::Get, Payload::Slice(empty))
    }
}

/// Which stored version of a block Put Block List must use.
#[derive(Debug, Clone, Copy, Default, PartialEq, Eq)]
pub enum BlockSource {
    /// Require a staged block.
    Uncommitted,
    /// Reuse a block from the current committed object.
    Committed,
    /// Prefer staged data, otherwise use committed data.
    #[default]
    Latest,
}

impl BlockSource {
    pub open spec fn spec_discriminant(self) -> u16 {
        match self {
            BlockSource::Uncommitted => 1,
            BlockSource::Committed => 2,
            BlockSource::Latest => 3,
        }
    }

    /// Returns the number that stands for this source.
    pub fn discriminant(self) -> (r: u16)
        ensures
            r == self.spec_discriminant(),
    {
        match self {
            BlockSource::Uncommitted => 1,
            BlockSource::Committed => 2,
            BlockSource::Latest => 3,
        }
    }

    /// Decodes a native selector from a binding.
    pub fn from_discriminant(value: u16) -> (r: Option<Self>)
        ensures
            r matches Some(s) ==> s.spec_discriminant() == value,
            r is None ==> forall|s: Self| s.spec_discriminant() != value,
    {
        match value {
            1 => Some(BlockSource::Uncommitted),
            2 => Some(BlockSource::Committed),
            3 => Some(BlockSource::Latest),
            _ => None,
        }
    }

    pub open spec fn spec_tag(self) -> &'static str {
        match self {
            BlockSource::Uncommitted => "Uncommitted",
            BlockSource::Committed => "Committed",
            BlockSource::Latest => "Latest",
        }
    }

    /// The element that names this source in a block list.
    pub fn tag(self) -> (r: &'static str)
        ensures
            r == self.spec_tag(),
    {
        match self {
            BlockSource::Uncommitted => "Uncommitted",
            BlockSource::Committed => "Committed",
            BlockSource::Latest => "Latest",
        }
    }
}

/// One entry of the ordered block list that a commit writes.
///
/// The same ID may appear more than once, and entries with different
/// [`BlockSource`]s may be mixed in one list.
#[derive(Debug, Clone, Copy, Default, PartialEq, Eq)]
pub struct BlockRef<'a> {
    /// The block ID, as the base64 text that the service stores: not empty,
    /// at most 88 characters of standard base64 with at most two `=` of
    /// padding, which is at most 64 decoded bytes.
    pub id: &'a str,
    /// The stored version to select.
    pub source: BlockSource,
}

/// Which blocks to enumerate.
#[derive(Debug, Clone, Copy, Default, PartialEq, Eq)]
#[non_exhaustive]
pub enum BlockListKind {
    /// Blocks staged but not yet committed.
    #[default]
    Staged,
    /// Blocks of the committed object; empty before the first commit.
    Committed,
    /// Both lists; succeeds even when only staged blocks exist.
    All,
}

impl BlockListKind {
    pub open spec fn spec_discriminant(self) -> u16 {
        match self {
            BlockListKind::Staged => 1,
            BlockListKind::Committed => 2,
            BlockListKind::All => 3,
        }
    }

    /// Returns the number that stands for this kind.
    pub fn discriminant(self) -> (r: u16)
        ensures
            r == self.spec_discriminant(),
    {
        match self {
            BlockListKind::Staged => 1,
            BlockListKind::Committed => 2,
            BlockListKind::All => 3,
        }
    }

    /// Returns the kind with this discriminant, or `None` for an unknown one.
    pub fn from_discriminant(value: u16) -> (r: Option<Self>)
        ensures
            r matches Some(k) ==> k.spec_discriminant() == value,
            r is None ==> forall|k: Self| k.spec_discriminant() != value,
    {
        match value {
            1 => Some(BlockListKind::Staged),
            2 => Some(BlockListKind::Committed),
            3 => Some(BlockListKind::All),
            _ => None,
        }
    }

    pub open spec fn spec_query(self) -> &'static str {
        match self {
            BlockListKind::Committed => "committed",
            BlockListKind::Staged => "uncommitted",
            BlockListKind::All => "all",
        }
    }

    fn query(self) -> (r: &'static str)
        ensures
            r == self.spec_query(),
    {
        match self {
            BlockListKind::Committed => "committed",
            BlockListKind::Staged => "uncommitted",
            BlockListKind::All => "all",
        }
    }
}

/// Whether a listed block belongs to the committed object.
#[derive(Debug, Clone, Copy, Default, PartialEq, Eq)]
#[non_exhaustive]
pub enum BlockState {
    /// Staged and not yet committed.
    #[default]
    Staged,
    /// Block of the committed object.
    Committed,
}

impl BlockState {
    pub open spec fn spec_discriminant(self) -> u16 {
        match self {
            BlockState::Staged => 1,
            BlockState::Committed => 2,
        }
    }

    /// Returns the number that stands for this state.
    pub fn discriminant(self) -> (r: u16)
        ensures
            r == self.spec_discriminant(),
    {
        match self {
            BlockState::Staged => 1,
            BlockState::Committed => 2,
        }
    }

    /// Returns the state with this discriminant, or `None` for an unknown one.
    pub fn from_discriminant(value: u16) -> (r: Option<Self>)
        ensures
            r matches Some(k) ==> k.spec_discriminant() == value,
            r is None ==> forall|k: Self| k.spec_discriminant() != value,
    {
        match value {
            1 => Some(BlockState::Staged),
            2 => Some(BlockState::Committed),
            _ => None,
        }
    }
}

/// One block, borrowing the response body after in-place decoding.
#[derive(Debug, Clone, Copy, Default, PartialEq, Eq)]
pub struct Block<'b> {
    /// The identifier to pass unchanged to [`BlockRef::id`].
    pub id: &'b str,
    /// The block's byte length.
    pub size: u64,
    /// The list that held this block.
    pub state: BlockState,
}

/// Azure block-operation response headers, borrowing transport-owned values.
///
/// Each field holds the value of the first header with that name; names are
/// compared without regard to ASCII case. A header that no field here names
/// goes to [`Self::common`].
#[derive(Debug, Clone, Copy, Default, PartialEq, Eq)]
pub struct BlockResponseHead<'a> {
    /// Shared headers, including raw native error code and request ID.
    pub common: ResponseHead<'a>,
    /// The `content-md5` value.
    pub content_md5: Option<&'a [u8]>,
    /// The `x-ms-content-crc64` value.
    pub content_crc64: Option<&'a [u8]>,
    /// The `x-ms-request-server-encrypted` value.
    pub server_encrypted: Option<&'a [u8]>,
    /// The `x-ms-encryption-key-sha256` value.
    pub encryption_key_sha256: Option<&'a [u8]>,
    /// The `x-ms-encryption-scope` value.
    pub encryption_scope: Option<&'a [u8]>,
    /// The `x-ms-client-request-id` value.
    pub client_request_id: Option<&'a [u8]>,
    /// The `date` value.
    pub date: Option<&'a [u8]>,
    /// The `x-ms-blob-content-length` value.
    pub blob_content_length: Option<&'a [u8]>,
}

impl<'a> BlockResponseHead<'a> {
    /// The head after one more header.
    pub open spec fn spec_insert(self, name: Seq<u8>, value: &'a [u8]) -> Self {
        if names(name, "content-md5") {
            BlockResponseHead { content_md5: offered(self.content_md5, true, value), ..self }
        } else if names(name, "x-ms-content-crc64") {
            BlockResponseHead { content_crc64: offered(self.content_crc64, true, value), ..self }
        } else if names(name, "x-ms-request-server-encrypted") {
            BlockResponseHead { server_encrypted: offered(self.server_encrypted, true, value), ..self }
        } else if names(name, "x-ms-encryption-key-sha256") {
            BlockResponseHead { encryption_key_sha256: offered(self.encryption_key_sha256, true, value), ..self }
        } else if names(name, "x-ms-encryption-scope") {
            BlockResponseHead { encryption_scope: offered(self.encryption_scope, true, value), ..self }
        } else if names(name, "x-ms-client-request-id") {
            BlockResponseHead { client_request_id: offered(self.client_request_id, true, value), ..self }
        } else if names(name, "date") {
            BlockResponseHead { date: offered(self.date, true, value), ..self }
        } else if names(name, "x-ms-blob-content-length") {
            BlockResponseHead { blob_content_length: offered(self.blob_content_length, true, value), ..self }
        } else {
            BlockResponseHead { common: self.common.spec_insert(name, value), ..self }
        }
    }

    /// The head after every header of `headers`, in order.
    pub open spec fn spec_insert_all(self, headers: Seq<(&'a str, &'a [u8])>) -> Self
        decreases headers.len(),
    {
        if headers.len() == 0 {
            self
        } else {
            self.spec_insert_all(headers.drop_last()).spec_insert(
                headers.last().0.spec_bytes(),
                headers.last().1,
            )
        }
    }

    /// The head of a response with this status and no headers.
    pub open spec fn spec_new(status: u16) -> Self {
        BlockResponseHead {
            common: ResponseHead::spec_new(status),
            content_md5: None,
            content_crc64: None,
            server_encrypted: None,
            encryption_key_sha256: None,
            encryption_scope: None,
            client_request_id: None,
            date: None,
            blob_content_length: None,
        }
    }

    /// Reads shared and native fields in one pass, in the order received.
    pub fn from_headers(status: u16, headers: &[(&'a str, &'a [u8])]) -> (r: Self)
        ensures
            r == Self::spec_new(status).spec_insert_all(headers@),
    {
        let mut head = BlockResponseHead {
            common: ResponseHead::new(status),
            content_md5: None,
            content_crc64: None,
            server_encrypted: None,
            encryption_key_sha256: None,
            encryption_scope: None,
            client_request_id: None,
            date: None,
            blob_content_length: None,
        };
        let mut i: usize = 0;
        while i < headers.len()
            invariant
                i <= headers@.len(),
                head == Self::spec_new(status).spec_insert_all(headers@.subrange(0, i as int)),
            decreases headers@.len() - i,
        {
            let (name, value) = headers[i];
            head.insert(name, value);
            proof {
                let next = headers@.subrange(0, i + 1);
                assert(next.drop_last() =~= headers@.subrange(0, i as int));
            }
            i = i + 1;
        }
        proof {
            assert(headers@.subrange(0, headers@.len() as int) =~= headers@);
        }
        head
    }

    /// Consumes an incremental parser's header without copying its value.
    pub fn insert(&mut self, name: &str, value: &'a [u8])
        ensures
            *final(self) == old(self).spec_insert(name.spec_bytes(), value),
    {
        let bytes = name.as_bytes();
        if eq_ignore_ascii_case(bytes, "content-md5".as_bytes()) {
            if self.content_md5.is_none() {
                self.content_md5 = Some(value);
            }
        } else if eq_ignore_ascii_case(bytes, "x-ms-content-crc64".as_bytes()) {
            if self.content_crc64.is_none() {
                self.content_crc64 = Some(value);
            }
        } else if eq_ignore_ascii_case(bytes, "x-ms-request-server-encrypted".as_bytes()) {
            if self.server_encrypted.is_none() {
                self.server_encrypted = Some(value);
            }
        } else if eq_ignore_ascii_case(bytes, "x-ms-encryption-key-sha256".as_bytes()) {
            if self.encryption_key_sha256.is_none() {
                self.encryption_key_sha256 = Some(value);
            }
        } else if eq_ignore_ascii_case(bytes, "x-ms-encryption-scope".as_bytes()) {
            if self.encryption_scope.is_none() {
                self.encryption_scope = Some(value);
            }
        } else if eq_ignore_ascii_case(bytes, "x-ms-client-request-id".as_bytes()) {
            if self.client_request_id.is_none() {
                self.client_request_id = Some(value);
            }
        } else if eq_ignore_ascii_case(bytes, "date".as_bytes()) {
            if self.date.is_none() {
                self.date = Some(value);
            }
        } else if eq_ignore_ascii_case(bytes, "x-ms-blob-content-length".as_bytes()) {
            if self.blob_content_length.is_none() {
                self.blob_content_length = Some(value);
            }
        } else {
            self.common.insert(name, value);
        }
    }
}

/// A native Put Block plan: stage one block of an object.
#[derive(Debug, Clone, Copy)]
pub struct PhysicalStageBlock<'a> {
    /// Object key.
    pub key: &'a str,
    /// The block ID, as base64 text. See [`BlockRef::id`] for the rules.
    pub id: &'a str,
}

/// A native Put Block List plan: publish an ordered list of blocks as the
/// object.
#[derive(Debug, Clone, Copy)]
pub struct PhysicalCommitBlocks<'a> {
    /// Object key.
    pub key: &'a str,
    /// Object precondition.
    pub condition: ConditionKind,
    /// ETag or wildcard for the precondition.
    pub condition_value: Option<&'a [u8]>,
}

impl<'a> PhysicalCommitBlocks<'a> {
    /// An unconditional block-list write.
    pub fn new(key: &'a str) -> (r: Self)
        ensures
            r.key == key,
            r.condition == ConditionKind::Unconditional,
            r.condition_value is None,
    {
        PhysicalCommitBlocks { key, condition: ConditionKind::Unconditional, condition_value: None }
    }

    /// The part of the plan that reading the response needs.
    pub fn shape(&self) -> (r: CommitBlocksShape)
        ensures
            r.condition == self.condition,
    {
        CommitBlocksShape { condition: self.condition }
    }
}

/// A native Get Block List plan: read which blocks an object holds.
#[derive(Debug, Clone, Copy)]
pub struct PhysicalListBlocks<'a> {
    /// Object key.
    pub key: &'a str,
    /// Committed, staged, or both lists.
    pub kind: BlockListKind,
    /// Optional snapshot target; mutually exclusive with version.
    pub snapshot: Option<&'a str>,
    /// Optional version target.
    pub version: Option<&'a str>,
}

impl<'a> PhysicalListBlocks<'a> {
    /// A read of the current object's blocks of `kind`.
    pub fn new(key: &'a str, kind: BlockListKind) -> (r: Self)
        ensures
            r.key == key,
            r.kind == kind,
            r.snapshot is None,
            r.version is None,
    {
        PhysicalListBlocks { key, kind, snapshot: None, version: None }
    }
}

/// Why a stage cannot be sent, if it cannot.
pub open spec fn stage_refusal(plan: PhysicalStageBlock, len: u64, namespace: AzureNamespace) -> Option<InvalidPlan> {
    match key_refusal(plan.key.spec_bytes(), namespace) {
        Some(reason) => Some(reason),
        None => if !block_id_ok(plan.id.spec_bytes()) {
            Some(InvalidPlan::BlockId)
        } else if len > MAX_STAGE_LEN {
            Some(InvalidPlan::PayloadTooLarge)
        } else {
            None
        },
    }
}

/// The query of a stage.
pub open spec fn stage_query(plan: PhysicalStageBlock) -> Seq<(Seq<u8>, Seq<u8>)> {
    seq![("comp".spec_bytes(), "block".spec_bytes()), ("blockid".spec_bytes(), percent_encoded(plan.id.spec_bytes(), true))]
}

/// Why a block listing cannot be sent, if it cannot: it names both a
/// snapshot and a version, or an empty one.
pub open spec fn list_blocks_refusal(plan: PhysicalListBlocks, namespace: AzureNamespace) -> Option<InvalidPlan> {
    match key_refusal(plan.key.spec_bytes(), namespace) {
        Some(reason) => Some(reason),
        None => if (plan.snapshot is Some && plan.version is Some)
            || (plan.snapshot matches Some(s) && s.spec_bytes().len() == 0)
            || (plan.version matches Some(v) && v.spec_bytes().len() == 0) {
            Some(InvalidPlan::Option)
        } else {
            None
        },
    }
}

/// The query of a block listing.
pub open spec fn list_blocks_query(plan: PhysicalListBlocks) -> Seq<(Seq<u8>, Seq<u8>)> {
    seq![("comp".spec_bytes(), "blocklist".spec_bytes()), ("blocklisttype".spec_bytes(), plan.kind.spec_query().spec_bytes())]
        + match plan.snapshot {
            Some(v) => seq![("snapshot".spec_bytes(), percent_encoded(v.spec_bytes(), true))],
            None => Seq::empty(),
        }
        + match plan.version {
            Some(v) => seq![("versionid".spec_bytes(), percent_encoded(v.spec_bytes(), true))],
            None => Seq::empty(),
        }
}

/// Why a list of blocks cannot be committed, if it cannot: the first of its
/// first 50,000 IDs that breaks the rules on a block ID, or else more
/// entries than that.
pub open spec fn blocks_refusal(blocks: Seq<BlockRef>) -> Option<InvalidPlan> {
    if exists|i: int| 0 <= i < blocks.len() && i < MAX_BLOCKS && !block_id_ok(#[trigger] blocks[i].id.spec_bytes()) {
        Some(InvalidPlan::BlockId)
    } else if blocks.len() > MAX_BLOCKS {
        Some(InvalidPlan::Blocks)
    } else {
        None
    }
}


/// The block references that pairs of an identifier and a list stand for.
pub open spec fn block_refs<'a>(pairs: Seq<(&'a str, BlockSource)>) -> Seq<BlockRef<'a>> {
    pairs.map_values(|p: (&'a str, BlockSource)| BlockRef { id: p.0, source: p.1 })
}

/// Why a commit cannot be sent, if it cannot.
pub open spec fn commit_refusal(plan: PhysicalCommitBlocks, blocks: Seq<BlockRef>, namespace: AzureNamespace) -> Option<InvalidPlan> {
    match key_refusal(plan.key.spec_bytes(), namespace) {
        Some(reason) => Some(reason),
        None => match condition_refusal(plan.condition, plan.condition_value) {
            Some(reason) => Some(reason),
            None => blocks_refusal(blocks),
        },
    }
}

/// One entry of a block list, `<Tag>id</Tag>`.
pub open spec fn block_entry(block: BlockRef) -> Seq<u8> {
    "<".spec_bytes() + block.source.spec_tag().spec_bytes() + ">".spec_bytes() + block.id.spec_bytes()
        + "</".spec_bytes() + block.source.spec_tag().spec_bytes() + ">".spec_bytes()
}

/// The entries of a block list, in order.
pub open spec fn block_entries(blocks: Seq<BlockRef>) -> Seq<u8>
    decreases blocks.len(),
{
    if blocks.len() == 0 {
        Seq::empty()
    } else {
        block_entries(blocks.drop_last()) + block_entry(blocks.last())
    }
}

/// The XML body of a commit.
pub open spec fn commit_body(blocks: Seq<BlockRef>) -> Seq<u8> {
    "<?xml version=\"1.0\" encoding=\"utf-8\"?><BlockList>".spec_bytes() + block_entries(blocks) + "</BlockList>".spec_bytes()
}

fn extend(v: &mut Vec<u8>, s: &[u8])
    ensures
        final(v)@ == old(v)@ + s@,
{
    let mut i: usize = 0;
    while i < s.len()
        invariant
            i <= s@.len(),
            v@ == old(v)@ + s@.subrange(0, i as int),
        decreases s@.len() - i,
    {
        v.push(s[i]);
        proof { assert(old(v)@ + s@.subrange(0, i + 1) =~= old(v)@ + s@.subrange(0, i as int) + seq![s@[i as int]]); }
        i = i + 1;
    }
    proof { assert(s@.subrange(0, s@.len() as int) =~= s@); }
}

fn check_blocks(blocks: &[BlockRef]) -> (r: Result<(), Error>)
    ensures
        r is Err <==> blocks_refusal(blocks@) is Some,
        r matches Err(e) ==> e == Error::InvalidPlan(blocks_refusal(blocks@)->0),
{
    let mut i: usize = 0;
    while i < blocks.len()
        invariant
            i <= blocks@.len(),
            i <= MAX_BLOCKS,
            forall|j: int| 0 <= j < i ==> block_id_ok(#[trigger] blocks@[j].id.spec_bytes()),
        decreases blocks@.len() - i,
    {
        if i >= MAX_BLOCKS {
            proof {
                assert(!(exists|j: int| 0 <= j < blocks@.len() && j < MAX_BLOCKS && !block_id_ok(#[trigger] blocks@[j].id.spec_bytes())));
            }
            return Err(Error::InvalidPlan(InvalidPlan::Blocks));
        }
        if validate_block_id(blocks[i].id).is_err() {
            proof {
                assert(!block_id_ok(blocks@[i as int].id.spec_bytes()));
            }
            return Err(Error::InvalidPlan(InvalidPlan::BlockId));
        }
        i = i + 1;
    }
    Ok(())
}

impl<'a> Blobs<'a> {
    /// Writes the request head for an Azure Put Block into `buf`.
    ///
    /// The head states the length of `content`, which stays where you put it,
    /// as for [`Blobs::encode_put`].
    ///
    /// # Errors
    ///
    /// Returns [`Error::InvalidPlan`] if `plan` cannot become an Azure request,
    /// or if `content` is longer than one block may be. Returns
    /// [`Error::Capacity`] as [`Blobs::encode_put`] does.
    pub fn encode_stage_block<'r>(&self, buf: &'r mut [u8], headers: &'r mut [HeaderSpan], plan: &PhysicalStageBlock, content: Payload<'r>, now: &Timestamps) -> (r: Result<WireRequest<'r>, Error>)
        ensures
            stage_refusal(*plan, content.spec_len() as u64, self.spec_namespace()) matches Some(reason)
                ==> r == Err::<WireRequest<'r>, Error>(Error::InvalidPlan(reason))
                && final(buf)@ == old(buf)@ && final(headers)@ == old(headers)@,
            stage_refusal(*plan, content.spec_len() as u64, self.spec_namespace()) is None ==> encoded_as(r, old(buf)@.len(), old(headers)@.len(),
                spec_url(*self, Some(plan.key), stage_query(*plan)),
                base_headers(*self, RequestedRange::Whole, *now).push(("content-length".spec_bytes(), decimal_digits(content.spec_len()))),
                Method::Put),
            r matches Ok(req) ==> req.spec_payload() == content,
            r matches Ok(req) ==> req.spec_bytes().len() <= final(buf)@.len()
                && final(buf)@.subrange(0, req.spec_bytes().len() as int) == req.spec_bytes(),
    {
        validate_key(plan.key, self.namespace)?;
        validate_block_id(plan.id)?;
        let length = payload_len(&content);
        if length > MAX_STAGE_LEN {
            return Err(Error::InvalidPlan(InvalidPlan::PayloadTooLarge));
        }
        let mut query: Vec<(&str, QueryValue)> = Vec::new();
        let ghost q0 = query@;
        query.push(("comp", QueryValue::Literal("block")));
        let ghost q1 = query@;
        let id = plan.id.as_bytes();
        query.push(("blockid", QueryValue::Encoded(id)));
        proof {
            lemma_rendered_push(q0, ("comp", QueryValue::Literal("block")));
            lemma_rendered_push(q1, ("blockid", QueryValue::Encoded(id)));
            assert(rendered_query(q0) =~= Seq::<(Seq<u8>, Seq<u8>)>::empty());
            assert(rendered_query(query@) =~= stage_query(*plan));
        }
        let available = buf.len();
        let mut head = HeadWriter::new(buf, headers);
        self.write_url(&mut head, Some(plan.key), &query);
        self.write_base_headers(&mut head, RequestedRange::Whole, now);
        header_decimal(&mut head, "content-length", length);
        encoded(head, available, Method::Put, content)
    }

    /// Writes the request head for an Azure Get Block List into `buf`.
    ///
    /// # Errors
    ///
    /// Returns [`Error::InvalidPlan`] if `plan` cannot become an Azure request,
    /// or if it names both a snapshot and a version. Returns
    /// [`Error::Capacity`] as [`Blobs::encode_get`] does.
    pub fn encode_list_blocks<'r>(&self, buf: &'r mut [u8], headers: &'r mut [HeaderSpan], plan: &PhysicalListBlocks, now: &Timestamps) -> (r: Result<WireRequest<'r>, Error>)
        ensures
            list_blocks_refusal(*plan, self.spec_namespace()) matches Some(reason)
                ==> r == Err::<WireRequest<'r>, Error>(Error::InvalidPlan(reason))
                && final(buf)@ == old(buf)@ && final(headers)@ == old(headers)@,
            list_blocks_refusal(*plan, self.spec_namespace()) is None ==> encoded_as(r, old(buf)@.len(), old(headers)@.len(),
                spec_url(*self, Some(plan.key), list_blocks_query(*plan)), base_headers(*self, RequestedRange::Whole, *now), Method::Get),
            r matches Ok(req) ==> req.spec_payload() matches Payload::Slice(b) && b@.len() == 0,
            r matches Ok(req) ==> req.spec_bytes().len() <= final(buf)@.len()
                && final(buf)@.subrange(0, req.spec_bytes().len() as int) == req.spec_bytes(),
    {
        validate_key(plan.key, self.namespace)?;
        let both = plan.snapshot.is_some() && plan.version.is_some();
        let empty_snapshot = match plan.snapshot {
            Some(v) => v.as_bytes().len() == 0,
            None => false,
        };
        let empty_version = match plan.version {
            Some(v) => v.as_bytes().len() == 0,
            None => false,
        };
        if both || empty_snapshot || empty_version {
            return Err(Error::InvalidPlan(InvalidPlan::Option));
        }
        let mut query: Vec<(&str, QueryValue)> = Vec::new();
        let ghost q0 = query@;
        query.push(("comp", QueryValue::Literal("blocklist")));
        let ghost q1 = query@;
        let kind = plan.kind.query();
        query.push(("blocklisttype", QueryValue::Literal(kind)));
        proof {
            lemma_rendered_push(q0, ("comp", QueryValue::Literal("blocklist")));
            lemma_rendered_push(q1, ("blocklisttype", QueryValue::Literal(kind)));
            assert(rendered_query(q0) =~= Seq::<(Seq<u8>, Seq<u8>)>::empty());
        }
        match plan.snapshot {
            Some(v) => {
                let ghost q = query@;
                let bytes = v.as_bytes();
                query.push(("snapshot", QueryValue::Encoded(bytes)));
                proof { lemma_rendered_push(q, ("snapshot", QueryValue::Encoded(bytes))); }
            },
            None => {},
        }
        match plan.version {
            Some(v) => {
                let ghost q = query@;
                let bytes = v.as_bytes();
                query.push(("versionid", QueryValue::Encoded(bytes)));
                proof { lemma_rendered_push(q, ("versionid", QueryValue::Encoded(bytes))); }
            },
            None => {},
        }
        proof {
            assert(rendered_query(query@) =~= list_blocks_query(*plan));
        }
        let available = buf.len();
        let mut head = HeadWriter::new(buf, headers);
        self.write_url(&mut head, Some(plan.key), &query);
        self.write_base_headers(&mut head, RequestedRange::Whole, now);
        proof {
            assert(head.header_bytes() =~= base_headers(*self, RequestedRange::Whole, *now));
        }
        let empty: &[u8] = &[];
        encoded(head, available, Method::Get, Payload::Slice(empty))
    }

    /// Writes an Azure Put Block List into `buf`: the head, then the XML body
    /// after it.
    ///
    /// `blocks` become the object in this order, each looked up where its
    /// [`BlockSource`] says. The body is written into `buf` after the head,
    /// and [`WireRequest::payload`] borrows it; send both before reusing
    /// `buf`.
    ///
    /// # Errors
    ///
    /// Returns [`Error::InvalidPlan`] if `plan` cannot become an Azure request,
    /// if `blocks` holds more than 50,000 entries or an ID that fails the
    /// checks on [`BlockRef::id`]. Returns [`Error::Capacity`] with the bytes
    /// that the head and the body need together.
    pub fn encode_commit_blocks<'r>(&self, buf: &'r mut [u8], headers: &'r mut [HeaderSpan], plan: &PhysicalCommitBlocks, blocks: &[BlockRef], now: &Timestamps) -> (r: Result<WireRequest<'r>, Error>)
        ensures
            commit_refusal(*plan, blocks@, self.spec_namespace()) matches Some(reason)
                ==> r == Err::<WireRequest<'r>, Error>(Error::InvalidPlan(reason))
                && final(buf)@ == old(buf)@ && final(headers)@ == old(headers)@,
            commit_refusal(*plan, blocks@, self.spec_namespace()) is None ==> ({
                let url = spec_url(*self, Some(plan.key), seq![("comp".spec_bytes(), "blocklist".spec_bytes())]);
                let body = commit_body(blocks@);
                let hs = base_headers(*self, RequestedRange::Whole, *now)
                    .push(("content-length".spec_bytes(), decimal_digits(body.len())))
                    + condition_headers(plan.condition, plan.condition_value);
                let text = head_text(url, hs);
                if text.len() + body.len() <= old(buf)@.len() && hs.len() <= old(headers)@.len() {
                    r matches Ok(req) && req.spec_url() == url && req.spec_headers() == hs
                        && req.spec_method() == Method::Put && req.spec_bytes() == text
                        && (req.spec_payload() matches Payload::Slice(b) && b@ == body)
                } else {
                    r == Err::<WireRequest<'r>, Error>(spec_capacity_error(CapacityError {
                        required: saturated(text.len() + body.len()),
                        available: old(buf)@.len() as usize,
                        required_headers: saturated(hs.len()),
                        available_headers: old(headers)@.len() as usize,
                    }))
                }
            }),
            r matches Ok(req) ==> req.spec_bytes().len() <= final(buf)@.len()
                && final(buf)@.subrange(0, req.spec_bytes().len() as int) == req.spec_bytes(),
    {
        validate_key(plan.key, self.namespace)?;
        validate_condition(plan.condition, plan.condition_value)?;
        check_blocks(blocks)?;
        let mut body: Vec<u8> = Vec::new();
        extend(&mut body, "<?xml version=\"1.0\" encoding=\"utf-8\"?><BlockList>".as_bytes());
        let mut i: usize = 0;
        proof {
            assert(blocks@.subrange(0, 0) =~= Seq::<BlockRef>::empty());
        }
        while i < blocks.len()
            invariant
                i <= blocks@.len(),
                body@ == "<?xml version=\"1.0\" encoding=\"utf-8\"?><BlockList>".spec_bytes()
                    + block_entries(blocks@.subrange(0, i as int)),
            decreases blocks@.len() - i,
        {
            let ghost before = body@;
            let block = blocks[i];
            let tag = block.source.tag();
            extend(&mut body, "<".as_bytes());
            extend(&mut body, tag.as_bytes());
            extend(&mut body, ">".as_bytes());
            extend(&mut body, block.id.as_bytes());
            extend(&mut body, "</".as_bytes());
            extend(&mut body, tag.as_bytes());
            extend(&mut body, ">".as_bytes());
            proof {
                let next = blocks@.subrange(0, i + 1);
                assert(next.drop_last() =~= blocks@.subrange(0, i as int));
                assert(next.last() == block);
                assert(body@ =~= before + block_entry(block));
            }
            i = i + 1;
        }
        extend(&mut body, "</BlockList>".as_bytes());
        proof {
            assert(blocks@.subrange(0, blocks@.len() as int) =~= blocks@);
            assert(body@ =~= commit_body(blocks@));
        }
        let length = body.len();
        let mut query: Vec<(&str, QueryValue)> = Vec::new();
        let ghost q0 = query@;
        query.push(("comp", QueryValue::Literal("blocklist")));
        proof {
            lemma_rendered_push(q0, ("comp", QueryValue::Literal("blocklist")));
            assert(rendered_query(q0) =~= Seq::<(Seq<u8>, Seq<u8>)>::empty());
            assert(rendered_query(query@) =~= seq![("comp".spec_bytes(), "blocklist".spec_bytes())]);
        }
        let available = buf.len();
        let mut head = HeadWriter::new(buf, headers);
        self.write_url(&mut head, Some(plan.key), &query);
        self.write_base_headers(&mut head, RequestedRange::Whole, now);
        header_decimal(&mut head, "content-length", length as u64);
        push_condition(&mut head, plan.condition, plan.condition_value);
        match head.finish_with_body(Method::Put, body.as_slice()) {
            Ok(request) => Ok(request),
            Err(capacity) => Err(capacity_error(capacity)),
        }
    }

    /// [`Blobs::encode_commit_blocks`] over block references that are not in
    /// one array: each an identifier and the list to look it up in.
    ///
    /// # Errors
    ///
    /// As [`Blobs::encode_commit_blocks`].
    #[verifier::rlimit(40)]
    pub fn encode_commit_blocks_from_iter<'r>(&self, buf: &'r mut [u8], headers: &'r mut [HeaderSpan], plan: &PhysicalCommitBlocks, blocks: &[(&str, BlockSource)], now: &Timestamps) -> (r: Result<WireRequest<'r>, Error>)
        ensures
            commit_refusal(*plan, block_refs(blocks@), self.spec_namespace()) matches Some(reason)
                ==> r == Err::<WireRequest<'r>, Error>(Error::InvalidPlan(reason))
                && final(buf)@ == old(buf)@ && final(headers)@ == old(headers)@,
            commit_refusal(*plan, block_refs(blocks@), self.spec_namespace()) is None ==> ({
                let url = spec_url(*self, Some(plan.key), seq![("comp".spec_bytes(), "blocklist".spec_bytes())]);
                let body = commit_body(block_refs(blocks@));
                let hs = base_headers(*self, RequestedRange::Whole, *now)
                    .push(("content-length".spec_bytes(), decimal_digits(body.len())))
                    + condition_headers(plan.condition, plan.condition_value);
                let text = head_text(url, hs);
                if text.len() + body.len() <= old(buf)@.len() && hs.len() <= old(headers)@.len() {
                    r matches Ok(req) && req.spec_url() == url && req.spec_headers() == hs
                        && req.spec_method() == Method::Put && req.spec_bytes() == text
                        && (req.spec_payload() matches Payload::Slice(b) && b@ == body)
                } else {
                    r == Err::<WireRequest<'r>, Error>(spec_capacity_error(CapacityError {
                        required: saturated(text.len() + body.len()),
                        available: old(buf)@.len() as usize,
                        required_headers: saturated(hs.len()),
                        available_headers: old(headers)@.len() as usize,
                    }))
                }
            }),
            r matches Ok(req) ==> req.spec_bytes().len() <= final(buf)@.len()
                && final(buf)@.subrange(0, req.spec_bytes().len() as int) == req.spec_bytes(),
    {
        let mut refs: Vec<BlockRef> = Vec::new();
        let mut i: usize = 0;
        while i < blocks.len()
            invariant
                i <= blocks@.len(),
                refs@ == block_refs(blocks@.subrange(0, i as int)),
            decreases blocks@.len() - i,
        {
            let (id, source) = blocks[i];
            refs.push(BlockRef { id, source });
            proof {
                assert(block_refs(blocks@.subrange(0, i + 1)) =~= block_refs(blocks@.subrange(0, i as int)).push(BlockRef { id, source }));
            }
            i = i + 1;
        }
        proof {
            assert(blocks@.subrange(0, blocks@.len() as int) =~= blocks@);
            assert(refs@ == block_refs(blocks@));
        }
        self.encode_commit_blocks(buf, headers, plan, refs.as_slice(), now)
    }
}

} // verus!
