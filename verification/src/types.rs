//! Plans: what one request asks the service for, and the parts of a plan
//! that can be stored while the request is in flight.

use vstd::prelude::*;

verus! {

/// What a plan asks the service to return.
///
/// Azure Blob Storage sends a HEAD request for [`GetKind::Metadata`] and a
/// GET request for [`GetKind::Bytes`].
#[derive(Debug, Clone, Copy, Default, PartialEq, Eq)]
#[non_exhaustive]
pub enum GetKind {
    /// The bytes of the object.
    #[default]
    Bytes,
    /// The metadata of the object, without its bytes.
    Metadata,
}

impl GetKind {
    pub open spec fn spec_discriminant(self) -> u16 {
        match self {
            GetKind::Bytes => 1,
            GetKind::Metadata => 2,
        }
    }

    /// Returns the number that stands for this kind.
    pub fn discriminant(self) -> (r: u16)
        ensures
            r == self.spec_discriminant(),
    {
        match self {
            GetKind::Bytes => 1,
            GetKind::Metadata => 2,
        }
    }

    /// Returns the kind with this discriminant.
    ///
    /// Returns [`None`] for a discriminant that this version does not define.
    /// A caller that carries a plan across a language boundary sends each
    /// value as its number, and refuses a number that names nothing here.
    pub fn from_discriminant(value: u16) -> (r: Option<Self>)
        ensures
            r matches Some(kind) ==> kind.spec_discriminant() == value,
            r is None ==> forall|kind: Self| kind.spec_discriminant() != value,
    {
        match value {
            1 => Some(GetKind::Bytes),
            2 => Some(GetKind::Metadata),
            _ => None,
        }
    }
}

/// Which form of byte range a plan requests, without its offsets.
#[derive(Debug, Clone, Copy, Default, PartialEq, Eq)]
#[non_exhaustive]
pub enum RangeForm {
    /// [`RequestedRange::Whole`].
    #[default]
    Whole,
    /// [`RequestedRange::Bounded`].
    Bounded,
    /// [`RequestedRange::Offset`].
    Offset,
    /// [`RequestedRange::Suffix`].
    Suffix,
}

impl RangeForm {
    pub open spec fn spec_discriminant(self) -> u16 {
        match self {
            RangeForm::Whole => 1,
            RangeForm::Bounded => 2,
            RangeForm::Offset => 3,
            RangeForm::Suffix => 4,
        }
    }

    /// Returns the number that stands for this form.
    pub fn discriminant(self) -> (r: u16)
        ensures
            r == self.spec_discriminant(),
    {
        match self {
            RangeForm::Whole => 1,
            RangeForm::Bounded => 2,
            RangeForm::Offset => 3,
            RangeForm::Suffix => 4,
        }
    }

    /// Returns the form with this discriminant.
    ///
    /// Returns [`None`] for a discriminant that this version does not define.
    pub fn from_discriminant(value: u16) -> (r: Option<Self>)
        ensures
            r matches Some(form) ==> form.spec_discriminant() == value,
            r is None ==> forall|form: Self| form.spec_discriminant() != value,
    {
        match value {
            1 => Some(RangeForm::Whole),
            2 => Some(RangeForm::Bounded),
            3 => Some(RangeForm::Offset),
            4 => Some(RangeForm::Suffix),
            _ => None,
        }
    }
}

/// The byte range that a plan requests.
///
/// The offsets count the stored bytes of the object.
#[derive(Debug, Clone, Copy, Default, PartialEq, Eq)]
#[non_exhaustive]
pub enum RequestedRange {
    /// Every byte of the object.
    #[default]
    Whole,
    /// A half-open interval that excludes its end.
    Bounded {
        /// The first byte that the plan requests.
        start: u64,
        /// The byte after the last byte that the plan requests.
        end: u64,
    },
    /// Every byte from this offset to the end of the object.
    Offset(u64),
    /// The last `n` bytes, written `Range: bytes=-N`.
    ///
    /// Azure Blob Storage does not accept this form, and
    /// [`Blobs::encode_get`](crate::Blobs::encode_get) refuses it.
    Suffix(u64),
}

impl RequestedRange {
    pub open spec fn spec_form(self) -> RangeForm {
        match self {
            RequestedRange::Whole => RangeForm::Whole,
            RequestedRange::Bounded { .. } => RangeForm::Bounded,
            RequestedRange::Offset(_) => RangeForm::Offset,
            RequestedRange::Suffix(_) => RangeForm::Suffix,
        }
    }

    pub open spec fn spec_from_parts(form: RangeForm, start: u64, end: u64) -> Self {
        match form {
            RangeForm::Whole => RequestedRange::Whole,
            RangeForm::Bounded => RequestedRange::Bounded { start, end },
            RangeForm::Offset => RequestedRange::Offset(start),
            RangeForm::Suffix => RequestedRange::Suffix(start),
        }
    }

    /// The first offset the range carries, or 0 if it carries none.
    pub open spec fn spec_start(self) -> u64 {
        match self {
            RequestedRange::Whole => 0,
            RequestedRange::Bounded { start, .. } => start,
            RequestedRange::Offset(start) => start,
            RequestedRange::Suffix(n) => n,
        }
    }

    /// The second offset the range carries, or 0 if it carries none.
    pub open spec fn spec_end(self) -> u64 {
        match self {
            RequestedRange::Bounded { end, .. } => end,
            _ => 0,
        }
    }

    /// Returns which form of range this is, without its offsets.
    pub fn form(self) -> (r: RangeForm)
        ensures
            r == self.spec_form(),
    {
        match self {
            RequestedRange::Whole => RangeForm::Whole,
            RequestedRange::Bounded { .. } => RangeForm::Bounded,
            RequestedRange::Offset(_) => RangeForm::Offset,
            RequestedRange::Suffix(_) => RangeForm::Suffix,
        }
    }

    /// Rebuilds a range from its form and its two offsets.
    ///
    /// `start` and `end` are the fields of [`Self::Bounded`], which is the
    /// only form that reads both. [`RangeForm::Offset`] and
    /// [`RangeForm::Suffix`] read `start` and **ignore `end`**;
    /// [`RangeForm::Whole`] ignores both.
    pub fn from_parts(form: RangeForm, start: u64, end: u64) -> (r: Self)
        ensures
            r == Self::spec_from_parts(form, start, end),
    {
        match form {
            RangeForm::Whole => RequestedRange::Whole,
            RangeForm::Bounded => RequestedRange::Bounded { start, end },
            RangeForm::Offset => RequestedRange::Offset(start),
            RangeForm::Suffix => RequestedRange::Suffix(start),
        }
    }
}

/// [`RequestedRange::form`] and [`RequestedRange::from_parts`] are inverses:
/// a range taken apart into its form and its offsets, and rebuilt from them,
/// is the range it started as; and a form with offsets that form reads is
/// the form of the range it builds.
pub proof fn law_range_parts_round_trip(range: RequestedRange, form: RangeForm, start: u64, end: u64)
    ensures
        RequestedRange::spec_from_parts(range.spec_form(), range.spec_start(), range.spec_end()) == range,
        RequestedRange::spec_from_parts(form, start, end).spec_form() == form,
{
}

/// The ETag precondition that a plan carries.
#[derive(Debug, Clone, Copy, Default, PartialEq, Eq)]
#[non_exhaustive]
pub enum ConditionKind {
    /// The request carries no precondition.
    #[default]
    Unconditional,
    /// The request succeeds only if the current ETag matches.
    IfMatch,
    /// The request succeeds only if the current ETag differs.
    IfNoneMatch,
}

impl ConditionKind {
    pub open spec fn spec_discriminant(self) -> u16 {
        match self {
            ConditionKind::Unconditional => 1,
            ConditionKind::IfMatch => 2,
            ConditionKind::IfNoneMatch => 3,
        }
    }

    /// Returns the number that stands for this precondition.
    pub fn discriminant(self) -> (r: u16)
        ensures
            r == self.spec_discriminant(),
    {
        match self {
            ConditionKind::Unconditional => 1,
            ConditionKind::IfMatch => 2,
            ConditionKind::IfNoneMatch => 3,
        }
    }

    /// Returns the precondition with this discriminant.
    ///
    /// Returns [`None`](Option::None) for a discriminant that this version
    /// does not define.
    pub fn from_discriminant(value: u16) -> (r: Option<Self>)
        ensures
            r matches Some(kind) ==> kind.spec_discriminant() == value,
            r is None ==> forall|kind: Self| kind.spec_discriminant() != value,
    {
        match value {
            1 => Some(ConditionKind::Unconditional),
            2 => Some(ConditionKind::IfMatch),
            3 => Some(ConditionKind::IfNoneMatch),
            _ => None,
        }
    }
}

/// The part of a read plan that holds no borrows.
///
/// [`PhysicalGet::shape`] returns this, and [`PhysicalGet::from_shape`] takes
/// it back. Reading the response needs only this part.
#[derive(Debug, Clone, Copy, Default, PartialEq, Eq)]
pub struct GetShape {
    /// Whether the plan asks for bytes or for metadata.
    pub kind: GetKind,
    /// The byte range that the plan requests.
    pub range: RequestedRange,
    /// The precondition that the plan carries.
    pub condition: ConditionKind,
}

/// A complete plan for one read.
///
/// Because the fields are public and unchecked,
/// [`Blobs::encode_get`](crate::Blobs::encode_get) validates the plan.
#[derive(Debug, Clone, Copy, PartialEq, Eq)]
pub struct PhysicalGet<'h> {
    /// The object key, before percent-encoding.
    pub key: &'h str,
    /// Whether the plan asks for bytes or for metadata.
    pub kind: GetKind,
    /// The byte range that the plan requests.
    pub range: RequestedRange,
    /// The precondition that the plan carries.
    pub condition: ConditionKind,
    /// The ETag that the precondition compares against.
    ///
    /// This must be present if `condition` is not [`ConditionKind::Unconditional`], and
    /// absent if it is.
    pub condition_value: Option<&'h [u8]>,
}

impl<'h> PhysicalGet<'h> {
    /// Creates a plan that reads every byte of `key` with no precondition.
    pub fn new(key: &'h str) -> (r: Self)
        ensures
            r.key == key,
            r.kind == GetKind::Bytes,
            r.range == RequestedRange::Whole,
            r.condition == ConditionKind::Unconditional,
            r.condition_value is None,
    {
        PhysicalGet {
            key,
            kind: GetKind::Bytes,
            range: RequestedRange::Whole,
            condition: ConditionKind::Unconditional,
            condition_value: None,
        }
    }

    /// Rebuilds a plan from a stored [`GetShape`] and the bytes it needs.
    pub fn from_shape(shape: GetShape, key: &'h str, condition_value: Option<&'h [u8]>) -> (r: Self)
        ensures
            r.key == key,
            r.kind == shape.kind,
            r.range == shape.range,
            r.condition == shape.condition,
            r.condition_value == condition_value,
    {
        PhysicalGet {
            key,
            kind: shape.kind,
            range: shape.range,
            condition: shape.condition,
            condition_value,
        }
    }

    pub open spec fn spec_shape(&self) -> GetShape {
        GetShape { kind: self.kind, range: self.range, condition: self.condition }
    }

    /// Returns the part of this plan that you can store.
    pub fn shape(&self) -> (r: GetShape)
        ensures
            r == self.spec_shape(),
    {
        GetShape { kind: self.kind, range: self.range, condition: self.condition }
    }
}

/// The part of a write plan that holds no borrows.
#[derive(Debug, Clone, Copy, Default, PartialEq, Eq)]
pub struct PutShape {
    /// The condition that the write carries.
    pub condition: ConditionKind,
}

/// One write of one object.
///
/// The write sends the whole object in one request.
///
/// # Writing only if the object is absent
///
/// Set `condition` to [`ConditionKind::IfNoneMatch`] and `condition_value` to
/// `*`. Azure then refuses a write that would replace an object.
#[derive(Debug, Clone, Copy, PartialEq, Eq)]
pub struct PhysicalPut<'h> {
    /// The object key, within the container.
    pub key: &'h str,
    /// The condition that the write carries.
    pub condition: ConditionKind,
    /// The entity tag that `condition` compares against, or `*`.
    pub condition_value: Option<&'h [u8]>,
}

impl<'h> PhysicalPut<'h> {
    /// Creates a plan that writes this object with no condition.
    pub fn new(key: &'h str) -> (r: Self)
        ensures
            r.key == key,
            r.condition == ConditionKind::Unconditional,
            r.condition_value is None,
    {
        PhysicalPut { key, condition: ConditionKind::Unconditional, condition_value: None }
    }

    /// Creates a plan from a stored shape and the bytes that it needs.
    pub fn from_shape(shape: PutShape, key: &'h str, condition_value: Option<&'h [u8]>) -> (r: Self)
        ensures
            r.key == key,
            r.condition == shape.condition,
            r.condition_value == condition_value,
    {
        PhysicalPut { key, condition: shape.condition, condition_value }
    }

    pub open spec fn spec_shape(&self) -> PutShape {
        PutShape { condition: self.condition }
    }

    /// Returns the part of this plan that holds no borrows.
    pub fn shape(&self) -> (r: PutShape)
        ensures
            r == self.spec_shape(),
    {
        PutShape { condition: self.condition }
    }
}

/// The content of a write, and where it comes from.
///
/// A write states how long its content is, so this always names a length.
#[derive(Debug, Clone, Copy, PartialEq, Eq)]
#[non_exhaustive]
pub enum Payload<'b> {
    /// Content that you hold. The request lends these bytes and copies none.
    Slice(&'b [u8]),
    /// Content that you send yourself, of the length that you state.
    Streamed {
        /// The number of bytes that you will send.
        len: u64,
    },
}

impl<'b> Payload<'b> {
    pub open spec fn spec_len(&self) -> nat {
        match *self {
            Payload::Slice(bytes) => bytes@.len(),
            Payload::Streamed { len } => len as nat,
        }
    }

    /// Returns the number of bytes of content.
    pub fn len(&self) -> (r: u64)
        requires
            self.spec_len() <= u64::MAX,
        ensures
            r == self.spec_len(),
    {
        match *self {
            Payload::Slice(bytes) => bytes.len() as u64,
            Payload::Streamed { len } => len,
        }
    }

    /// Returns `true` if the content is empty.
    pub fn is_empty(&self) -> (r: bool)
        ensures
            r == (self.spec_len() == 0),
    {
        match *self {
            Payload::Slice(bytes) => bytes.len() == 0,
            Payload::Streamed { len } => len == 0,
        }
    }

    /// Returns the content, if you passed it as [`Self::Slice`].
    ///
    /// Returns [`None`] for [`Self::Streamed`], where you hold the content.
    pub fn bytes(&self) -> (r: Option<&'b [u8]>)
        ensures
            r == (match *self {
                Payload::Slice(bytes) => Some(bytes),
                Payload::Streamed { .. } => None,
            }),
    {
        match *self {
            Payload::Slice(bytes) => Some(bytes),
            Payload::Streamed { .. } => None,
        }
    }
}

/// What a removal takes with it.
///
/// Azure keeps an object's snapshots separately from the object, and refuses
/// to remove an object whose snapshots would be left behind.
#[derive(Debug, Clone, Copy, Default, PartialEq, Eq)]
#[non_exhaustive]
pub enum DeleteKind {
    /// Remove the object alone. Azure refuses this if the object has
    /// snapshots.
    #[default]
    Object,
    /// Remove the object and its snapshots.
    ObjectAndSnapshots,
    /// Remove the snapshots and keep the object.
    SnapshotsOnly,
}

impl DeleteKind {
    pub open spec fn spec_discriminant(self) -> u16 {
        match self {
            DeleteKind::Object => 1,
            DeleteKind::ObjectAndSnapshots => 2,
            DeleteKind::SnapshotsOnly => 3,
        }
    }

    /// Returns the number that stands for this kind.
    pub fn discriminant(self) -> (r: u16)
        ensures
            r == self.spec_discriminant(),
    {
        match self {
            DeleteKind::Object => 1,
            DeleteKind::ObjectAndSnapshots => 2,
            DeleteKind::SnapshotsOnly => 3,
        }
    }

    /// Returns the kind with this discriminant.
    ///
    /// Returns [`None`] for a discriminant that this version does not define.
    pub fn from_discriminant(value: u16) -> (r: Option<Self>)
        ensures
            r matches Some(kind) ==> kind.spec_discriminant() == value,
            r is None ==> forall|kind: Self| kind.spec_discriminant() != value,
    {
        match value {
            1 => Some(DeleteKind::Object),
            2 => Some(DeleteKind::ObjectAndSnapshots),
            3 => Some(DeleteKind::SnapshotsOnly),
            _ => None,
        }
    }
}

/// The part of a removal plan that holds no borrows.
#[derive(Debug, Clone, Copy, Default, PartialEq, Eq)]
pub struct DeleteShape {
    /// What the removal takes with it.
    pub kind: DeleteKind,
    /// The condition that the removal carries.
    pub condition: ConditionKind,
}

/// One removal of one object.
#[derive(Debug, Clone, Copy, PartialEq, Eq)]
pub struct PhysicalDelete<'h> {
    /// The object key, within the container.
    pub key: &'h str,
    /// What the removal takes with it.
    pub kind: DeleteKind,
    /// The condition that the removal carries.
    pub condition: ConditionKind,
    /// The entity tag that `condition` compares against.
    pub condition_value: Option<&'h [u8]>,
}

impl<'h> PhysicalDelete<'h> {
    /// Creates a plan that removes this object alone, with no condition.
    pub fn new(key: &'h str) -> (r: Self)
        ensures
            r.key == key,
            r.kind == DeleteKind::Object,
            r.condition == ConditionKind::Unconditional,
            r.condition_value is None,
    {
        PhysicalDelete { key, kind: DeleteKind::Object, condition: ConditionKind::Unconditional, condition_value: None }
    }

    /// Creates a plan from a stored shape and the bytes that it needs.
    pub fn from_shape(shape: DeleteShape, key: &'h str, condition_value: Option<&'h [u8]>) -> (r: Self)
        ensures
            r.key == key,
            r.kind == shape.kind,
            r.condition == shape.condition,
            r.condition_value == condition_value,
    {
        PhysicalDelete { key, kind: shape.kind, condition: shape.condition, condition_value }
    }

    pub open spec fn spec_shape(&self) -> DeleteShape {
        DeleteShape { kind: self.kind, condition: self.condition }
    }

    /// Returns the part of this plan that holds no borrows.
    pub fn shape(&self) -> (r: DeleteShape)
        ensures
            r == self.spec_shape(),
    {
        DeleteShape { kind: self.kind, condition: self.condition }
    }
}

/// How a listing groups the keys it reports.
#[derive(Debug, Clone, Copy, Default, PartialEq, Eq)]
#[non_exhaustive]
pub enum EntryKind {
    /// One object.
    #[default]
    Object,
    /// A group of keys that a delimited listing did not report one by one.
    Prefix,
    /// A directory that the service keeps as its own entry.
    Directory,
}

impl EntryKind {
    pub open spec fn spec_discriminant(self) -> u16 {
        match self {
            EntryKind::Object => 1,
            EntryKind::Prefix => 2,
            EntryKind::Directory => 3,
        }
    }

    /// Returns the number that stands for this kind.
    pub fn discriminant(self) -> (r: u16)
        ensures
            r == self.spec_discriminant(),
    {
        match self {
            EntryKind::Object => 1,
            EntryKind::Prefix => 2,
            EntryKind::Directory => 3,
        }
    }

    /// Returns the kind with this discriminant.
    ///
    /// Returns [`None`] for a discriminant that this version does not define.
    pub fn from_discriminant(value: u16) -> (r: Option<Self>)
        ensures
            r matches Some(kind) ==> kind.spec_discriminant() == value,
            r is None ==> forall|kind: Self| kind.spec_discriminant() != value,
    {
        match value {
            1 => Some(EntryKind::Object),
            2 => Some(EntryKind::Prefix),
            3 => Some(EntryKind::Directory),
            _ => None,
        }
    }
}

/// The part of a listing plan that holds no borrows.
#[derive(Debug, Clone, Copy, Default, PartialEq, Eq)]
pub struct ListShape {
    /// Whether the listing groups keys at each `/` after the prefix.
    pub delimited: bool,
    /// The most entries that one page reports.
    pub max_results: Option<u32>,
}

/// One page of a listing.
///
/// Because the fields are public and unchecked,
/// [`Blobs::encode_list`](crate::Blobs::encode_list) validates the plan.
#[derive(Debug, Clone, Copy, PartialEq, Eq)]
pub struct PhysicalList<'h> {
    /// The keys to list under. An empty prefix lists the whole container.
    pub prefix: &'h str,
    /// Where the previous page ended: the marker the previous page reported.
    pub marker: Option<&'h str>,
    /// Whether to group the keys at each `/` after the prefix.
    pub delimited: bool,
    /// The most entries that this page reports.
    pub max_results: Option<u32>,
}

impl<'h> PhysicalList<'h> {
    /// Creates a plan for the first page of an undelimited listing.
    pub fn new(prefix: &'h str) -> (r: Self)
        ensures
            r.prefix == prefix,
            r.marker is None,
            !r.delimited,
            r.max_results is None,
    {
        PhysicalList { prefix, marker: None, delimited: false, max_results: None }
    }

    /// Creates a plan from a stored shape and the bytes that it needs.
    pub fn from_shape(shape: ListShape, prefix: &'h str, marker: Option<&'h str>) -> (r: Self)
        ensures
            r.prefix == prefix,
            r.marker == marker,
            r.delimited == shape.delimited,
            r.max_results == shape.max_results,
    {
        PhysicalList { prefix, marker, delimited: shape.delimited, max_results: shape.max_results }
    }

    pub open spec fn spec_shape(&self) -> ListShape {
        ListShape { delimited: self.delimited, max_results: self.max_results }
    }

    /// Returns the part of this plan that holds no borrows.
    pub fn shape(&self) -> (r: ListShape)
        ensures
            r == self.spec_shape(),
    {
        ListShape { delimited: self.delimited, max_results: self.max_results }
    }
}

/// A plan rebuilt from its own shape and its own borrowed bytes is the plan
/// it started as, for each of the four operations.
pub proof fn law_plan_shape_round_trip(
    get: PhysicalGet,
    put: PhysicalPut,
    delete: PhysicalDelete,
    list: PhysicalList,
)
    ensures
        ({
            let s = get.spec_shape();
            PhysicalGet { key: get.key, kind: s.kind, range: s.range, condition: s.condition, condition_value: get.condition_value } == get
        }),
        (PhysicalPut { key: put.key, condition: put.spec_shape().condition, condition_value: put.condition_value }) == put,
        ({
            let s = delete.spec_shape();
            PhysicalDelete { key: delete.key, kind: s.kind, condition: s.condition, condition_value: delete.condition_value } == delete
        }),
        ({
            let s = list.spec_shape();
            PhysicalList { prefix: list.prefix, marker: list.marker, delimited: s.delimited, max_results: s.max_results } == list
        }),
{
}

/// The part of a commit plan that reading the response needs.
#[derive(Debug, Clone, Copy, Default, PartialEq, Eq)]
pub struct CommitBlocksShape {
    /// The condition that the commit carries.
    pub condition: ConditionKind,
}

/// One entry of a listing page.
///
/// Every slice borrows the response body, which reading the page decoded
/// where it stood.
#[derive(Debug, Clone, Copy, Default, PartialEq, Eq)]
pub struct ListEntry<'b> {
    /// Whether this entry is an object, a group of keys, or a directory.
    pub kind: EntryKind,
    /// The object key, the shared start of the group, or the directory path.
    pub key: &'b str,
    /// The size of the object. [`None`] for a group and for a directory.
    pub size: Option<u64>,
    /// The entity tag, as the listing wrote it, without the quotes that the
    /// `ETag` header carries.
    pub e_tag: Option<&'b str>,
    /// The value that the listing gave for the last modification, in the form
    /// that the `Last-Modified` header uses.
    pub last_modified: Option<&'b str>,
}

} // verus!
