//! Reads the listing page that a blob service sends back.
//!
//! The read is one pass over the body with the scanner. It keeps the fields
//! of each entry as spans of the body; the text of those spans is then
//! decoded in place, and the entries are handed out as borrows of the body.

use vstd::prelude::*;
use vstd::string::*;

use vstd::utf8::*;

use crate::error::{CapacityError, Error, ResponseFault};
use crate::outcome::Listing;
use crate::types::{EntryKind, ListEntry};
use crate::text::{
    ascii_space, ascii_space_byte, bytes_equal, decimal, decimal_value, is_u64_decimal, utf8_text,
};
use crate::xml::decode::{decode_text, decoded_text};
use crate::xml::scan::{
    at, attribute, attribute_at, byte_at, child, child_at, close, close_at, lemma_space_end, lit,
    lit_at, misc_at, open, open_at, skip, skip_at, skip_from, skip_misc, skip_space, space_end, tag_value,
    value, value_at, value_of, Child, Misc, Span, Tag,
};

verus! {

broadcast use vstd::string::group_string_axioms;

/// A property of a blob that a listing page may write beside the fields of
/// every entry, named by the element that carries it.
#[derive(Debug, Clone, Copy, PartialEq, Eq, Structural)]
pub enum BlobProperty {
    /// The `AccessTier` element.
    AccessTier,
    /// The `AccessTierInferred` element.
    AccessTierInferred,
    /// The `AccessTierChangeTime` element.
    AccessTierChangeTime,
    /// The `ArchiveStatus` element.
    ArchiveStatus,
    /// The `Acl` element.
    Acl,
    /// The `BlobType` element.
    BlobType,
    /// The `Creation-Time` element.
    CreationTime,
    /// The `Content-Type` element.
    ContentType,
    /// The `Content-Encoding` element.
    ContentEncoding,
    /// The `Content-Language` element.
    ContentLanguage,
    /// The `Content-CRC64` element.
    ContentCrc64,
    /// The `Content-MD5` element.
    ContentMd5,
    /// The `Cache-Control` element.
    CacheControl,
    /// The `Content-Disposition` element.
    ContentDisposition,
    /// The `CopyId` element.
    CopyId,
    /// The `CopyStatus` element.
    CopyStatus,
    /// The `CopySource` element.
    CopySource,
    /// The `CopyProgress` element.
    CopyProgress,
    /// The `CopyCompletionTime` element.
    CopyCompletionTime,
    /// The `CopyStatusDescription` element.
    CopyStatusDescription,
    /// The `DeletedTime` element.
    DeletedTime,
    /// The `Deleted` element.
    Deleted,
    /// The `EncryptionScope` element.
    EncryptionScope,
    /// The `Expiry-Time` element.
    ExpiryTime,
    /// The `Group` element.
    Group,
    /// The `IsCurrentVersion` element.
    IsCurrentVersion,
    /// The `IncrementalCopy` element.
    IncrementalCopy,
    /// The `ImmutabilityPolicyUntilDate` element.
    ImmutabilityPolicyUntilDate,
    /// The `ImmutabilityPolicyMode` element.
    ImmutabilityPolicyMode,
    /// The `LeaseStatus` element.
    LeaseStatus,
    /// The `LeaseState` element.
    LeaseState,
    /// The `LeaseDuration` element.
    LeaseDuration,
    /// The `LegalHold` element.
    LegalHold,
    /// The `Owner` element.
    Owner,
    /// The `Permissions` element.
    Permissions,
    /// The `RemainingRetentionDays` element.
    RemainingRetentionDays,
    /// The `RehydratePriority` element.
    RehydratePriority,
    /// The `ServerEncrypted` element.
    ServerEncrypted,
    /// The `Snapshot` element.
    Snapshot,
    /// The `TagCount` element.
    TagCount,
    /// The `VersionId` element.
    VersionId,
    /// The `x-ms-blob-sequence-number` element.
    BlobSequenceNumber,
}

impl BlobProperty {
    /// The name of the element that carries this property.
    pub open spec fn spec_name(self) -> &'static str {
        match self {
            BlobProperty::AccessTier => "AccessTier",
            BlobProperty::AccessTierInferred => "AccessTierInferred",
            BlobProperty::AccessTierChangeTime => "AccessTierChangeTime",
            BlobProperty::ArchiveStatus => "ArchiveStatus",
            BlobProperty::Acl => "Acl",
            BlobProperty::BlobType => "BlobType",
            BlobProperty::CreationTime => "Creation-Time",
            BlobProperty::ContentType => "Content-Type",
            BlobProperty::ContentEncoding => "Content-Encoding",
            BlobProperty::ContentLanguage => "Content-Language",
            BlobProperty::ContentCrc64 => "Content-CRC64",
            BlobProperty::ContentMd5 => "Content-MD5",
            BlobProperty::CacheControl => "Cache-Control",
            BlobProperty::ContentDisposition => "Content-Disposition",
            BlobProperty::CopyId => "CopyId",
            BlobProperty::CopyStatus => "CopyStatus",
            BlobProperty::CopySource => "CopySource",
            BlobProperty::CopyProgress => "CopyProgress",
            BlobProperty::CopyCompletionTime => "CopyCompletionTime",
            BlobProperty::CopyStatusDescription => "CopyStatusDescription",
            BlobProperty::DeletedTime => "DeletedTime",
            BlobProperty::Deleted => "Deleted",
            BlobProperty::EncryptionScope => "EncryptionScope",
            BlobProperty::ExpiryTime => "Expiry-Time",
            BlobProperty::Group => "Group",
            BlobProperty::IsCurrentVersion => "IsCurrentVersion",
            BlobProperty::IncrementalCopy => "IncrementalCopy",
            BlobProperty::ImmutabilityPolicyUntilDate => "ImmutabilityPolicyUntilDate",
            BlobProperty::ImmutabilityPolicyMode => "ImmutabilityPolicyMode",
            BlobProperty::LeaseStatus => "LeaseStatus",
            BlobProperty::LeaseState => "LeaseState",
            BlobProperty::LeaseDuration => "LeaseDuration",
            BlobProperty::LegalHold => "LegalHold",
            BlobProperty::Owner => "Owner",
            BlobProperty::Permissions => "Permissions",
            BlobProperty::RemainingRetentionDays => "RemainingRetentionDays",
            BlobProperty::RehydratePriority => "RehydratePriority",
            BlobProperty::ServerEncrypted => "ServerEncrypted",
            BlobProperty::Snapshot => "Snapshot",
            BlobProperty::TagCount => "TagCount",
            BlobProperty::VersionId => "VersionId",
            BlobProperty::BlobSequenceNumber => "x-ms-blob-sequence-number",
        }
    }

    /// Returns the name of the element that carries this property.
    pub fn name(self) -> (r: &'static str)
        ensures
            r == self.spec_name(),
    {
        match self {
            BlobProperty::AccessTier => "AccessTier",
            BlobProperty::AccessTierInferred => "AccessTierInferred",
            BlobProperty::AccessTierChangeTime => "AccessTierChangeTime",
            BlobProperty::ArchiveStatus => "ArchiveStatus",
            BlobProperty::Acl => "Acl",
            BlobProperty::BlobType => "BlobType",
            BlobProperty::CreationTime => "Creation-Time",
            BlobProperty::ContentType => "Content-Type",
            BlobProperty::ContentEncoding => "Content-Encoding",
            BlobProperty::ContentLanguage => "Content-Language",
            BlobProperty::ContentCrc64 => "Content-CRC64",
            BlobProperty::ContentMd5 => "Content-MD5",
            BlobProperty::CacheControl => "Cache-Control",
            BlobProperty::ContentDisposition => "Content-Disposition",
            BlobProperty::CopyId => "CopyId",
            BlobProperty::CopyStatus => "CopyStatus",
            BlobProperty::CopySource => "CopySource",
            BlobProperty::CopyProgress => "CopyProgress",
            BlobProperty::CopyCompletionTime => "CopyCompletionTime",
            BlobProperty::CopyStatusDescription => "CopyStatusDescription",
            BlobProperty::DeletedTime => "DeletedTime",
            BlobProperty::Deleted => "Deleted",
            BlobProperty::EncryptionScope => "EncryptionScope",
            BlobProperty::ExpiryTime => "Expiry-Time",
            BlobProperty::Group => "Group",
            BlobProperty::IsCurrentVersion => "IsCurrentVersion",
            BlobProperty::IncrementalCopy => "IncrementalCopy",
            BlobProperty::ImmutabilityPolicyUntilDate => "ImmutabilityPolicyUntilDate",
            BlobProperty::ImmutabilityPolicyMode => "ImmutabilityPolicyMode",
            BlobProperty::LeaseStatus => "LeaseStatus",
            BlobProperty::LeaseState => "LeaseState",
            BlobProperty::LeaseDuration => "LeaseDuration",
            BlobProperty::LegalHold => "LegalHold",
            BlobProperty::Owner => "Owner",
            BlobProperty::Permissions => "Permissions",
            BlobProperty::RemainingRetentionDays => "RemainingRetentionDays",
            BlobProperty::RehydratePriority => "RehydratePriority",
            BlobProperty::ServerEncrypted => "ServerEncrypted",
            BlobProperty::Snapshot => "Snapshot",
            BlobProperty::TagCount => "TagCount",
            BlobProperty::VersionId => "VersionId",
            BlobProperty::BlobSequenceNumber => "x-ms-blob-sequence-number",
        }
    }

    /// The place of this property in the order this enum lists them.
    pub open spec fn spec_index(self) -> usize {
        match self {
            BlobProperty::AccessTier => 0,
            BlobProperty::AccessTierInferred => 1,
            BlobProperty::AccessTierChangeTime => 2,
            BlobProperty::ArchiveStatus => 3,
            BlobProperty::Acl => 4,
            BlobProperty::BlobType => 5,
            BlobProperty::CreationTime => 6,
            BlobProperty::ContentType => 7,
            BlobProperty::ContentEncoding => 8,
            BlobProperty::ContentLanguage => 9,
            BlobProperty::ContentCrc64 => 10,
            BlobProperty::ContentMd5 => 11,
            BlobProperty::CacheControl => 12,
            BlobProperty::ContentDisposition => 13,
            BlobProperty::CopyId => 14,
            BlobProperty::CopyStatus => 15,
            BlobProperty::CopySource => 16,
            BlobProperty::CopyProgress => 17,
            BlobProperty::CopyCompletionTime => 18,
            BlobProperty::CopyStatusDescription => 19,
            BlobProperty::DeletedTime => 20,
            BlobProperty::Deleted => 21,
            BlobProperty::EncryptionScope => 22,
            BlobProperty::ExpiryTime => 23,
            BlobProperty::Group => 24,
            BlobProperty::IsCurrentVersion => 25,
            BlobProperty::IncrementalCopy => 26,
            BlobProperty::ImmutabilityPolicyUntilDate => 27,
            BlobProperty::ImmutabilityPolicyMode => 28,
            BlobProperty::LeaseStatus => 29,
            BlobProperty::LeaseState => 30,
            BlobProperty::LeaseDuration => 31,
            BlobProperty::LegalHold => 32,
            BlobProperty::Owner => 33,
            BlobProperty::Permissions => 34,
            BlobProperty::RemainingRetentionDays => 35,
            BlobProperty::RehydratePriority => 36,
            BlobProperty::ServerEncrypted => 37,
            BlobProperty::Snapshot => 38,
            BlobProperty::TagCount => 39,
            BlobProperty::VersionId => 40,
            BlobProperty::BlobSequenceNumber => 41,
        }
    }

    /// Returns the place of this property in the order this enum lists
    /// them.
    pub fn index(self) -> (r: usize)
        ensures
            r == self.spec_index(),
            r < PROPERTY_COUNT,
    {
        match self {
            BlobProperty::AccessTier => 0,
            BlobProperty::AccessTierInferred => 1,
            BlobProperty::AccessTierChangeTime => 2,
            BlobProperty::ArchiveStatus => 3,
            BlobProperty::Acl => 4,
            BlobProperty::BlobType => 5,
            BlobProperty::CreationTime => 6,
            BlobProperty::ContentType => 7,
            BlobProperty::ContentEncoding => 8,
            BlobProperty::ContentLanguage => 9,
            BlobProperty::ContentCrc64 => 10,
            BlobProperty::ContentMd5 => 11,
            BlobProperty::CacheControl => 12,
            BlobProperty::ContentDisposition => 13,
            BlobProperty::CopyId => 14,
            BlobProperty::CopyStatus => 15,
            BlobProperty::CopySource => 16,
            BlobProperty::CopyProgress => 17,
            BlobProperty::CopyCompletionTime => 18,
            BlobProperty::CopyStatusDescription => 19,
            BlobProperty::DeletedTime => 20,
            BlobProperty::Deleted => 21,
            BlobProperty::EncryptionScope => 22,
            BlobProperty::ExpiryTime => 23,
            BlobProperty::Group => 24,
            BlobProperty::IsCurrentVersion => 25,
            BlobProperty::IncrementalCopy => 26,
            BlobProperty::ImmutabilityPolicyUntilDate => 27,
            BlobProperty::ImmutabilityPolicyMode => 28,
            BlobProperty::LeaseStatus => 29,
            BlobProperty::LeaseState => 30,
            BlobProperty::LeaseDuration => 31,
            BlobProperty::LegalHold => 32,
            BlobProperty::Owner => 33,
            BlobProperty::Permissions => 34,
            BlobProperty::RemainingRetentionDays => 35,
            BlobProperty::RehydratePriority => 36,
            BlobProperty::ServerEncrypted => 37,
            BlobProperty::Snapshot => 38,
            BlobProperty::TagCount => 39,
            BlobProperty::VersionId => 40,
            BlobProperty::BlobSequenceNumber => 41,
        }
    }

    /// The property at place `index`, or [`None`] past the last.
    pub open spec fn spec_from_index(index: usize) -> Option<BlobProperty> {
        match index {
            0 => Some(BlobProperty::AccessTier),
            1 => Some(BlobProperty::AccessTierInferred),
            2 => Some(BlobProperty::AccessTierChangeTime),
            3 => Some(BlobProperty::ArchiveStatus),
            4 => Some(BlobProperty::Acl),
            5 => Some(BlobProperty::BlobType),
            6 => Some(BlobProperty::CreationTime),
            7 => Some(BlobProperty::ContentType),
            8 => Some(BlobProperty::ContentEncoding),
            9 => Some(BlobProperty::ContentLanguage),
            10 => Some(BlobProperty::ContentCrc64),
            11 => Some(BlobProperty::ContentMd5),
            12 => Some(BlobProperty::CacheControl),
            13 => Some(BlobProperty::ContentDisposition),
            14 => Some(BlobProperty::CopyId),
            15 => Some(BlobProperty::CopyStatus),
            16 => Some(BlobProperty::CopySource),
            17 => Some(BlobProperty::CopyProgress),
            18 => Some(BlobProperty::CopyCompletionTime),
            19 => Some(BlobProperty::CopyStatusDescription),
            20 => Some(BlobProperty::DeletedTime),
            21 => Some(BlobProperty::Deleted),
            22 => Some(BlobProperty::EncryptionScope),
            23 => Some(BlobProperty::ExpiryTime),
            24 => Some(BlobProperty::Group),
            25 => Some(BlobProperty::IsCurrentVersion),
            26 => Some(BlobProperty::IncrementalCopy),
            27 => Some(BlobProperty::ImmutabilityPolicyUntilDate),
            28 => Some(BlobProperty::ImmutabilityPolicyMode),
            29 => Some(BlobProperty::LeaseStatus),
            30 => Some(BlobProperty::LeaseState),
            31 => Some(BlobProperty::LeaseDuration),
            32 => Some(BlobProperty::LegalHold),
            33 => Some(BlobProperty::Owner),
            34 => Some(BlobProperty::Permissions),
            35 => Some(BlobProperty::RemainingRetentionDays),
            36 => Some(BlobProperty::RehydratePriority),
            37 => Some(BlobProperty::ServerEncrypted),
            38 => Some(BlobProperty::Snapshot),
            39 => Some(BlobProperty::TagCount),
            40 => Some(BlobProperty::VersionId),
            41 => Some(BlobProperty::BlobSequenceNumber),
            _ => None,
        }
    }

    /// Every place is one of the first [`PROPERTY_COUNT`].
    pub proof fn lemma_index_bound(self)
        ensures
            self.spec_index() < PROPERTY_COUNT,
    {
    }

    /// Returns the property at place `index`, or [`None`] past the last.
    pub fn from_index(index: usize) -> (r: Option<BlobProperty>)
        ensures
            r == BlobProperty::spec_from_index(index),
            r matches Some(p) ==> p.spec_index() == index,
            r is None <==> index >= PROPERTY_COUNT,
    {
        match index {
            0 => Some(BlobProperty::AccessTier),
            1 => Some(BlobProperty::AccessTierInferred),
            2 => Some(BlobProperty::AccessTierChangeTime),
            3 => Some(BlobProperty::ArchiveStatus),
            4 => Some(BlobProperty::Acl),
            5 => Some(BlobProperty::BlobType),
            6 => Some(BlobProperty::CreationTime),
            7 => Some(BlobProperty::ContentType),
            8 => Some(BlobProperty::ContentEncoding),
            9 => Some(BlobProperty::ContentLanguage),
            10 => Some(BlobProperty::ContentCrc64),
            11 => Some(BlobProperty::ContentMd5),
            12 => Some(BlobProperty::CacheControl),
            13 => Some(BlobProperty::ContentDisposition),
            14 => Some(BlobProperty::CopyId),
            15 => Some(BlobProperty::CopyStatus),
            16 => Some(BlobProperty::CopySource),
            17 => Some(BlobProperty::CopyProgress),
            18 => Some(BlobProperty::CopyCompletionTime),
            19 => Some(BlobProperty::CopyStatusDescription),
            20 => Some(BlobProperty::DeletedTime),
            21 => Some(BlobProperty::Deleted),
            22 => Some(BlobProperty::EncryptionScope),
            23 => Some(BlobProperty::ExpiryTime),
            24 => Some(BlobProperty::Group),
            25 => Some(BlobProperty::IsCurrentVersion),
            26 => Some(BlobProperty::IncrementalCopy),
            27 => Some(BlobProperty::ImmutabilityPolicyUntilDate),
            28 => Some(BlobProperty::ImmutabilityPolicyMode),
            29 => Some(BlobProperty::LeaseStatus),
            30 => Some(BlobProperty::LeaseState),
            31 => Some(BlobProperty::LeaseDuration),
            32 => Some(BlobProperty::LegalHold),
            33 => Some(BlobProperty::Owner),
            34 => Some(BlobProperty::Permissions),
            35 => Some(BlobProperty::RemainingRetentionDays),
            36 => Some(BlobProperty::RehydratePriority),
            37 => Some(BlobProperty::ServerEncrypted),
            38 => Some(BlobProperty::Snapshot),
            39 => Some(BlobProperty::TagCount),
            40 => Some(BlobProperty::VersionId),
            41 => Some(BlobProperty::BlobSequenceNumber),
            _ => None,
        }
    }
}

/// The number of properties that [`BlobProperty`] names.
pub const PROPERTY_COUNT: usize = 42;

/// The number of start tags that the reader matches whole.
pub const KNOWN_TAGS: usize = 49;

/// The property that the element named `name` carries, searched from place
/// `k` on.
pub open spec fn identify_from(name: Seq<u8>, k: int) -> Option<BlobProperty>
    decreases PROPERTY_COUNT - k,
{
    if k < 0 || k >= PROPERTY_COUNT {
        None
    } else {
        match BlobProperty::spec_from_index(k as usize) {
            Some(p) => if p.spec_name().spec_bytes() == name {
                Some(p)
            } else {
                identify_from(name, k + 1)
            },
            None => None,
        }
    }
}

impl BlobProperty {
    /// The property that the element named `name` carries, if it is one.
    pub open spec fn spec_identify(name: Seq<u8>) -> Option<BlobProperty> {
        identify_from(name, 0)
    }

    /// Returns the property that the element named `name` carries, or
    /// [`None`] if the name is none of theirs.
    pub fn identify(name: &[u8]) -> (r: Option<BlobProperty>)
        ensures
            r == BlobProperty::spec_identify(name@),
            r matches Some(p) ==> p.spec_name().spec_bytes() == name@,
    {
        let mut k: usize = 0;
        while k < PROPERTY_COUNT
            invariant
                k <= PROPERTY_COUNT,
                identify_from(name@, 0) == identify_from(name@, k as int),
            decreases PROPERTY_COUNT - k,
        {
            match BlobProperty::from_index(k) {
                Some(p) => {
                    if bytes_equal(name, p.name().as_bytes()) {
                        return Some(p);
                    }
                },
                None => {
                    return None;
                },
            }
            k = k + 1;
        }
        None
    }
}

/// A set of properties: those whose values a read of a page keeps.
#[derive(Clone, Copy, PartialEq, Eq, Debug)]
pub struct PropertySet {
    members: [bool; PROPERTY_COUNT],
}

impl PropertySet {
    /// Whether the property at place `i` is in the set.
    pub closed spec fn has(self, i: int) -> bool {
        0 <= i < PROPERTY_COUNT && self.members@[i]
    }

    /// Returns the set of the properties in `properties`.
    pub fn of(properties: &[BlobProperty]) -> (r: PropertySet)
        ensures
            forall|i: int| #[trigger] r.has(i) <==> exists|k: int|
                0 <= k < properties@.len() && properties@[k].spec_index() == i,
    {
        let mut members = [false; PROPERTY_COUNT];
        let mut k: usize = 0;
        while k < properties.len()
            invariant
                k <= properties@.len(),
                members@.len() == PROPERTY_COUNT,
                forall|i: int| 0 <= i < PROPERTY_COUNT ==> (#[trigger] members@[i] <==> exists|j: int|
                    0 <= j < k && properties@[j].spec_index() == i),
            decreases properties@.len() - k,
        {
            let i = properties[k].index();
            members[i] = true;
            proof {
                assert forall|x: int| 0 <= x < PROPERTY_COUNT implies (#[trigger] members@[x] <==> exists|j: int|
                    0 <= j < k + 1 && properties@[j].spec_index() == x) by {
                    if x == i {
                        assert(properties@[k as int].spec_index() == x);
                    }
                    if members@[x] && x != i {
                        let j = choose|j: int| 0 <= j < k && properties@[j].spec_index() == x;
                        assert(0 <= j < k + 1);
                    }
                }
            }
            k = k + 1;
        }
        let r = PropertySet { members };
        proof {
            assert forall|i: int| #[trigger] r.has(i) <==> exists|k: int|
                0 <= k < properties@.len() && properties@[k].spec_index() == i by {
                if exists|k: int| 0 <= k < properties@.len() && properties@[k].spec_index() == i {
                    let k = choose|k: int| 0 <= k < properties@.len() && properties@[k].spec_index() == i;
                    assert(properties@[k].spec_index() < PROPERTY_COUNT) by {
                        properties@[k].lemma_index_bound();
                    }
                }
            }
        }
        r
    }

    /// Returns whether `property` is in the set.
    pub fn contains(&self, property: BlobProperty) -> (r: bool)
        ensures
            r == self.has(property.spec_index() as int),
    {
        self.members[property.index()]
    }
}

impl Default for PropertySet {
    /// The empty set.
    fn default() -> (r: PropertySet)
        ensures
            r == no_properties(),
            forall|i: int| !(#[trigger] r.has(i)),
    {
        PropertySet { members: [false; PROPERTY_COUNT] }
    }
}

/// The empty set of properties.
pub open spec fn no_properties() -> PropertySet {
    PropertySet::spec_empty()
}

impl PropertySet {
    /// The set that holds nothing.
    pub closed spec fn spec_empty() -> PropertySet {
        PropertySet { members: [false; PROPERTY_COUNT] }
    }

    /// The set that holds nothing holds no property.
    pub proof fn lemma_empty()
        ensures
            forall|i: int| !(#[trigger] PropertySet::spec_empty().has(i)),
    {
    }
}

/// The bytes an optional slice holds.
pub open spec fn opt_bytes(o: Option<&[u8]>) -> Option<Seq<u8>> {
    match o {
        Some(s) => Some(s@),
        None => None,
    }
}

/// The values of the properties of a set that one entry of a page wrote,
/// as borrows of the body the page was read from.
#[derive(Clone, Copy, Debug)]
pub struct PropertyValues<'b> {
    wanted: PropertySet,
    values: [Option<&'b [u8]>; PROPERTY_COUNT],
}

impl<'b> PropertyValues<'b> {
    /// The value at the place of each property: the bytes the entry wrote
    /// for it if the property is in the set and the entry wrote it.
    pub closed spec fn spec_values(self) -> Seq<Option<Seq<u8>>> {
        Seq::new(
            PROPERTY_COUNT as nat,
            |i: int| if self.wanted.has(i) { opt_bytes(self.values@[i]) } else { None },
        )
    }

    /// The values of the members of the set, in the order the enum lists
    /// the properties, from place `k` on.
    pub closed spec fn listed_from(self, k: int) -> Seq<Option<Seq<u8>>>
        decreases PROPERTY_COUNT - k,
    {
        if k < 0 || k >= PROPERTY_COUNT {
            Seq::empty()
        } else if self.wanted.has(k) {
            seq![self.spec_values()[k]] + self.listed_from(k + 1)
        } else {
            self.listed_from(k + 1)
        }
    }

    /// Returns the value of `property`, or [`None`] if it is not in the
    /// set or the entry did not write it. An element written empty has an
    /// empty value.
    pub fn get(&self, property: BlobProperty) -> (r: Option<&'b [u8]>)
        ensures
            opt_bytes(r) == self.spec_values()[property.spec_index() as int],
    {
        let i = property.index();
        if self.wanted.members[i] {
            self.values[i]
        } else {
            None
        }
    }

    /// Returns one value per member of the set, in the order the enum
    /// lists the properties, whatever order the set was named in.
    pub fn all(&self) -> (r: Vec<Option<&'b [u8]>>)
        ensures
            r@.map_values(|o: Option<&'b [u8]>| opt_bytes(o)) == self.listed_from(0),
    {
        let mut out: Vec<Option<&'b [u8]>> = Vec::new();
        let mut k: usize = 0;
        while k < PROPERTY_COUNT
            invariant
                k <= PROPERTY_COUNT,
                out@.map_values(|o: Option<&'b [u8]>| opt_bytes(o)) + self.listed_from(k as int) == self.listed_from(0),
            decreases PROPERTY_COUNT - k,
        {
            let ghost before = out@.map_values(|o: Option<&'b [u8]>| opt_bytes(o));
            if self.wanted.members[k] {
                out.push(self.values[k]);
                proof {
                    assert(out@.map_values(|o: Option<&'b [u8]>| opt_bytes(o)) =~= before.push(self.spec_values()[k as int]));
                    assert(before.push(self.spec_values()[k as int]) + self.listed_from(k + 1) =~= before + self.listed_from(k as int));
                }
            }
            k = k + 1;
        }
        assert(out@.map_values(|o: Option<&'b [u8]>| opt_bytes(o)) + self.listed_from(PROPERTY_COUNT as int) =~= out@.map_values(|o: Option<&'b [u8]>| opt_bytes(o)));
        out
    }
}

/// The start tags of the properties as the service spells them, in the order
/// the reader tries them: each with its property, and whether it is the
/// empty spelling `<Name />` that the service writes for a header the blob
/// does not have.
pub open spec fn known_tag(k: usize) -> (&'static str, BlobProperty, bool) {
    match k {
        0 => ("<AccessTier>", BlobProperty::AccessTier, false),
        1 => ("<AccessTierInferred>", BlobProperty::AccessTierInferred, false),
        2 => ("<AccessTierChangeTime>", BlobProperty::AccessTierChangeTime, false),
        3 => ("<ArchiveStatus>", BlobProperty::ArchiveStatus, false),
        4 => ("<Acl>", BlobProperty::Acl, false),
        5 => ("<BlobType>", BlobProperty::BlobType, false),
        6 => ("<Creation-Time>", BlobProperty::CreationTime, false),
        7 => ("<Content-Type />", BlobProperty::ContentType, true),
        8 => ("<Content-Type>", BlobProperty::ContentType, false),
        9 => ("<Content-Encoding />", BlobProperty::ContentEncoding, true),
        10 => ("<Content-Encoding>", BlobProperty::ContentEncoding, false),
        11 => ("<Content-Language />", BlobProperty::ContentLanguage, true),
        12 => ("<Content-Language>", BlobProperty::ContentLanguage, false),
        13 => ("<Content-CRC64 />", BlobProperty::ContentCrc64, true),
        14 => ("<Content-CRC64>", BlobProperty::ContentCrc64, false),
        15 => ("<Content-MD5 />", BlobProperty::ContentMd5, true),
        16 => ("<Content-MD5>", BlobProperty::ContentMd5, false),
        17 => ("<Cache-Control />", BlobProperty::CacheControl, true),
        18 => ("<Cache-Control>", BlobProperty::CacheControl, false),
        19 => ("<Content-Disposition />", BlobProperty::ContentDisposition, true),
        20 => ("<Content-Disposition>", BlobProperty::ContentDisposition, false),
        21 => ("<CopyId>", BlobProperty::CopyId, false),
        22 => ("<CopyStatus>", BlobProperty::CopyStatus, false),
        23 => ("<CopySource>", BlobProperty::CopySource, false),
        24 => ("<CopyProgress>", BlobProperty::CopyProgress, false),
        25 => ("<CopyCompletionTime>", BlobProperty::CopyCompletionTime, false),
        26 => ("<CopyStatusDescription>", BlobProperty::CopyStatusDescription, false),
        27 => ("<DeletedTime>", BlobProperty::DeletedTime, false),
        28 => ("<Deleted>", BlobProperty::Deleted, false),
        29 => ("<EncryptionScope>", BlobProperty::EncryptionScope, false),
        30 => ("<Expiry-Time>", BlobProperty::ExpiryTime, false),
        31 => ("<Group>", BlobProperty::Group, false),
        32 => ("<IsCurrentVersion>", BlobProperty::IsCurrentVersion, false),
        33 => ("<IncrementalCopy>", BlobProperty::IncrementalCopy, false),
        34 => ("<ImmutabilityPolicyUntilDate>", BlobProperty::ImmutabilityPolicyUntilDate, false),
        35 => ("<ImmutabilityPolicyMode>", BlobProperty::ImmutabilityPolicyMode, false),
        36 => ("<LeaseStatus>", BlobProperty::LeaseStatus, false),
        37 => ("<LeaseState>", BlobProperty::LeaseState, false),
        38 => ("<LeaseDuration>", BlobProperty::LeaseDuration, false),
        39 => ("<LegalHold>", BlobProperty::LegalHold, false),
        40 => ("<Owner>", BlobProperty::Owner, false),
        41 => ("<Permissions>", BlobProperty::Permissions, false),
        42 => ("<RemainingRetentionDays>", BlobProperty::RemainingRetentionDays, false),
        43 => ("<RehydratePriority>", BlobProperty::RehydratePriority, false),
        44 => ("<ServerEncrypted>", BlobProperty::ServerEncrypted, false),
        45 => ("<Snapshot>", BlobProperty::Snapshot, false),
        46 => ("<TagCount>", BlobProperty::TagCount, false),
        47 => ("<VersionId>", BlobProperty::VersionId, false),
        48 => ("<x-ms-blob-sequence-number>", BlobProperty::BlobSequenceNumber, false),
        _ => ("", BlobProperty::AccessTier, false),
    }
}

fn known_tag_at(k: usize) -> (r: (&'static str, BlobProperty, bool))
    requires
        k < KNOWN_TAGS,
    ensures
        r == known_tag(k),
{
    match k {
        0 => ("<AccessTier>", BlobProperty::AccessTier, false),
        1 => ("<AccessTierInferred>", BlobProperty::AccessTierInferred, false),
        2 => ("<AccessTierChangeTime>", BlobProperty::AccessTierChangeTime, false),
        3 => ("<ArchiveStatus>", BlobProperty::ArchiveStatus, false),
        4 => ("<Acl>", BlobProperty::Acl, false),
        5 => ("<BlobType>", BlobProperty::BlobType, false),
        6 => ("<Creation-Time>", BlobProperty::CreationTime, false),
        7 => ("<Content-Type />", BlobProperty::ContentType, true),
        8 => ("<Content-Type>", BlobProperty::ContentType, false),
        9 => ("<Content-Encoding />", BlobProperty::ContentEncoding, true),
        10 => ("<Content-Encoding>", BlobProperty::ContentEncoding, false),
        11 => ("<Content-Language />", BlobProperty::ContentLanguage, true),
        12 => ("<Content-Language>", BlobProperty::ContentLanguage, false),
        13 => ("<Content-CRC64 />", BlobProperty::ContentCrc64, true),
        14 => ("<Content-CRC64>", BlobProperty::ContentCrc64, false),
        15 => ("<Content-MD5 />", BlobProperty::ContentMd5, true),
        16 => ("<Content-MD5>", BlobProperty::ContentMd5, false),
        17 => ("<Cache-Control />", BlobProperty::CacheControl, true),
        18 => ("<Cache-Control>", BlobProperty::CacheControl, false),
        19 => ("<Content-Disposition />", BlobProperty::ContentDisposition, true),
        20 => ("<Content-Disposition>", BlobProperty::ContentDisposition, false),
        21 => ("<CopyId>", BlobProperty::CopyId, false),
        22 => ("<CopyStatus>", BlobProperty::CopyStatus, false),
        23 => ("<CopySource>", BlobProperty::CopySource, false),
        24 => ("<CopyProgress>", BlobProperty::CopyProgress, false),
        25 => ("<CopyCompletionTime>", BlobProperty::CopyCompletionTime, false),
        26 => ("<CopyStatusDescription>", BlobProperty::CopyStatusDescription, false),
        27 => ("<DeletedTime>", BlobProperty::DeletedTime, false),
        28 => ("<Deleted>", BlobProperty::Deleted, false),
        29 => ("<EncryptionScope>", BlobProperty::EncryptionScope, false),
        30 => ("<Expiry-Time>", BlobProperty::ExpiryTime, false),
        31 => ("<Group>", BlobProperty::Group, false),
        32 => ("<IsCurrentVersion>", BlobProperty::IsCurrentVersion, false),
        33 => ("<IncrementalCopy>", BlobProperty::IncrementalCopy, false),
        34 => ("<ImmutabilityPolicyUntilDate>", BlobProperty::ImmutabilityPolicyUntilDate, false),
        35 => ("<ImmutabilityPolicyMode>", BlobProperty::ImmutabilityPolicyMode, false),
        36 => ("<LeaseStatus>", BlobProperty::LeaseStatus, false),
        37 => ("<LeaseState>", BlobProperty::LeaseState, false),
        38 => ("<LeaseDuration>", BlobProperty::LeaseDuration, false),
        39 => ("<LegalHold>", BlobProperty::LegalHold, false),
        40 => ("<Owner>", BlobProperty::Owner, false),
        41 => ("<Permissions>", BlobProperty::Permissions, false),
        42 => ("<RemainingRetentionDays>", BlobProperty::RemainingRetentionDays, false),
        43 => ("<RehydratePriority>", BlobProperty::RehydratePriority, false),
        44 => ("<ServerEncrypted>", BlobProperty::ServerEncrypted, false),
        45 => ("<Snapshot>", BlobProperty::Snapshot, false),
        46 => ("<TagCount>", BlobProperty::TagCount, false),
        47 => ("<VersionId>", BlobProperty::VersionId, false),
        48 => ("<x-ms-blob-sequence-number>", BlobProperty::BlobSequenceNumber, false),
        _ => ("", BlobProperty::AccessTier, false),
    }
}

proof fn lemma_known_tag_nonempty(k: usize)
    requires
        k < KNOWN_TAGS,
    ensures
        known_tag(k).0.spec_bytes().len() > 0,
{
    match k {
        0 => {
            reveal_strlit("<AccessTier>");
        },
        1 => {
            reveal_strlit("<AccessTierInferred>");
        },
        2 => {
            reveal_strlit("<AccessTierChangeTime>");
        },
        3 => {
            reveal_strlit("<ArchiveStatus>");
        },
        4 => {
            reveal_strlit("<Acl>");
        },
        5 => {
            reveal_strlit("<BlobType>");
        },
        6 => {
            reveal_strlit("<Creation-Time>");
        },
        7 => {
            reveal_strlit("<Content-Type />");
        },
        8 => {
            reveal_strlit("<Content-Type>");
        },
        9 => {
            reveal_strlit("<Content-Encoding />");
        },
        10 => {
            reveal_strlit("<Content-Encoding>");
        },
        11 => {
            reveal_strlit("<Content-Language />");
        },
        12 => {
            reveal_strlit("<Content-Language>");
        },
        13 => {
            reveal_strlit("<Content-CRC64 />");
        },
        14 => {
            reveal_strlit("<Content-CRC64>");
        },
        15 => {
            reveal_strlit("<Content-MD5 />");
        },
        16 => {
            reveal_strlit("<Content-MD5>");
        },
        17 => {
            reveal_strlit("<Cache-Control />");
        },
        18 => {
            reveal_strlit("<Cache-Control>");
        },
        19 => {
            reveal_strlit("<Content-Disposition />");
        },
        20 => {
            reveal_strlit("<Content-Disposition>");
        },
        21 => {
            reveal_strlit("<CopyId>");
        },
        22 => {
            reveal_strlit("<CopyStatus>");
        },
        23 => {
            reveal_strlit("<CopySource>");
        },
        24 => {
            reveal_strlit("<CopyProgress>");
        },
        25 => {
            reveal_strlit("<CopyCompletionTime>");
        },
        26 => {
            reveal_strlit("<CopyStatusDescription>");
        },
        27 => {
            reveal_strlit("<DeletedTime>");
        },
        28 => {
            reveal_strlit("<Deleted>");
        },
        29 => {
            reveal_strlit("<EncryptionScope>");
        },
        30 => {
            reveal_strlit("<Expiry-Time>");
        },
        31 => {
            reveal_strlit("<Group>");
        },
        32 => {
            reveal_strlit("<IsCurrentVersion>");
        },
        33 => {
            reveal_strlit("<IncrementalCopy>");
        },
        34 => {
            reveal_strlit("<ImmutabilityPolicyUntilDate>");
        },
        35 => {
            reveal_strlit("<ImmutabilityPolicyMode>");
        },
        36 => {
            reveal_strlit("<LeaseStatus>");
        },
        37 => {
            reveal_strlit("<LeaseState>");
        },
        38 => {
            reveal_strlit("<LeaseDuration>");
        },
        39 => {
            reveal_strlit("<LegalHold>");
        },
        40 => {
            reveal_strlit("<Owner>");
        },
        41 => {
            reveal_strlit("<Permissions>");
        },
        42 => {
            reveal_strlit("<RemainingRetentionDays>");
        },
        43 => {
            reveal_strlit("<RehydratePriority>");
        },
        44 => {
            reveal_strlit("<ServerEncrypted>");
        },
        45 => {
            reveal_strlit("<Snapshot>");
        },
        46 => {
            reveal_strlit("<TagCount>");
        },
        47 => {
            reveal_strlit("<VersionId>");
        },
        48 => {
            reveal_strlit("<x-ms-blob-sequence-number>");
        },
        _ => {},
    }
}

/// Where the start tag of a known property matched whole at `i` ends, with
/// the property and whether the empty spelling matched: the first of the
/// tags from `k` on that the bytes at `i` are.
pub open spec fn known_from(b: Seq<u8>, i: int, k: int) -> Option<(BlobProperty, bool, int)>
    decreases KNOWN_TAGS - k,
{
    if k < 0 || k >= KNOWN_TAGS {
        None
    } else {
        let (l, p, empty) = known_tag(k as usize);
        if lit_at(b, i, l.spec_bytes()) {
            Some((p, empty, i + l.spec_bytes().len()))
        } else {
            known_from(b, i, k + 1)
        }
    }
}

/// What reading at a possible known property found.
#[derive(Clone, Copy, PartialEq, Eq, Debug)]
pub enum Known {
    /// No known start tag stands there, and nothing was read.
    Absent,
    /// The property, the span of its value, and the offset after its close
    /// tag. The empty spelling has an empty value, where its tag starts.
    Read(BlobProperty, Span, usize),
}

/// Reads past a known property whose start tag, as the service spells it,
/// stands at `i`.
pub open spec fn known_at(b: Seq<u8>, i: int) -> Option<Known> {
    match known_from(b, i, 0) {
        None => Some(Known::Absent),
        Some((p, true, e)) => Some(Known::Read(p, (i as usize, i as usize), e as usize)),
        Some((p, false, e)) => match value_at(b, e, p.spec_name().spec_bytes()) {
            None => None,
            Some((v, a)) => Some(Known::Read(p, v, a as usize)),
        },
    }
}

/// Where a reading at `i` ended.
pub open spec fn known_end(k: Known, i: int) -> int {
    match k {
        Known::Absent => i,
        Known::Read(_, _, e) => e as int,
    }
}

proof fn lemma_known_from(b: Seq<u8>, i: int, k: int)
    requires
        0 <= i <= b.len(),
    ensures
        known_from(b, i, k) matches Some((_, _, e)) ==> i <= e <= b.len(),
    decreases KNOWN_TAGS - k,
{
    if 0 <= k < KNOWN_TAGS {
        lemma_known_from(b, i, k + 1);
    }
}

/// Reads past a known property whose start tag stands at `from`.
pub fn read_known(b: &[u8], from: usize) -> (r: Option<Known>)
    requires
        b@.len() <= isize::MAX,
        from <= b@.len(),
    ensures
        r == known_at(b@, from as int),
        r matches Some(Known::Read(_, v, e)) ==> from <= v.0 <= v.1 <= e <= b@.len() && from < e,
{
    let mut k: usize = 0;
    while k < KNOWN_TAGS
        invariant
            k <= KNOWN_TAGS,
            from <= b@.len(),
            b@.len() <= isize::MAX,
            known_from(b@, from as int, 0) == known_from(b@, from as int, k as int),
        decreases KNOWN_TAGS - k,
    {
        let (l, p, empty) = known_tag_at(k);
        if lit(b, from, l.as_bytes()) {
            let e = from + l.as_bytes().len();
            proof {
                assert(known_from(b@, from as int, k as int) == Some((p, empty, e as int)));
                lemma_known_tag_nonempty(k);
            }
            if empty {
                return Some(Known::Read(p, (from, from), e));
            }
            return match value_of(b, e, p.name().as_bytes()) {
                None => None,
                Some((v, a)) => Some(Known::Read(p, v, a)),
            };
        }
        k = k + 1;
    }
    Some(Known::Absent)
}

/// The fields of one entry, as spans of the bytes. Spans rather than slices
/// let the text be decoded later, in place.
#[derive(Clone, Copy, PartialEq, Eq, Debug)]
pub struct Fields {
    /// Whether the entry is a group of keys.
    pub prefix: bool,
    /// The key.
    pub key: Option<Span>,
    /// Whether the key is percent-encoded.
    pub percent: bool,
    /// The size.
    pub size: Option<Span>,
    /// The entity tag.
    pub e_tag: Option<Span>,
    /// The time of the last modification.
    pub last_modified: Option<Span>,
    /// The resource type, which names a directory.
    pub resource_type: Option<Span>,
    /// The span of the value of each property that the read keeps, at the
    /// property's place.
    pub caps: [Option<Span>; PROPERTY_COUNT],
}

/// The fields of an entry before any of them was read.
pub open spec fn no_fields(prefix: bool) -> Fields {
    Fields {
        prefix,
        key: None,
        percent: false,
        size: None,
        e_tag: None,
        last_modified: None,
        resource_type: None,
        caps: [None; PROPERTY_COUNT],
    }
}

/// The slot after a value is written into it. A value written twice is a
/// fault: choosing one of them would be a rule of this crate's making.
pub open spec fn put_once(slot: Option<Span>, v: Span) -> Option<Option<Span>> {
    if slot is Some {
        None
    } else {
        Some(Some(v))
    }
}

fn set_once(slot: Option<Span>, v: Span) -> (r: Option<Option<Span>>)
    ensures
        r == put_once(slot, v),
{
    if slot.is_some() {
        None
    } else {
        Some(Some(v))
    }
}


/// Whether a slot, if it holds a span, holds one within `lo..hi`.
pub open spec fn slot_in(o: Option<Span>, lo: int, hi: int) -> bool {
    o matches Some(s) ==> lo <= s.0 <= s.1 <= hi
}

/// Whether every span of `f` lies within `lo..hi`.
pub open spec fn fields_in(f: Fields, lo: int, hi: int) -> bool {
    &&& slot_in(f.key, lo, hi)
    &&& slot_in(f.size, lo, hi)
    &&& slot_in(f.e_tag, lo, hi)
    &&& slot_in(f.last_modified, lo, hi)
    &&& slot_in(f.resource_type, lo, hi)
    &&& caps_in(f, lo, hi)
}

/// Whether every kept value of `f` lies within `lo..hi`.
pub open spec fn caps_in(f: Fields, lo: int, hi: int) -> bool {
    forall|i: int| 0 <= i < PROPERTY_COUNT ==> slot_in(#[trigger] f.caps@[i], lo, hi)
}

/// Whether every kept value of `g` is the one of `f`, or one within
/// `lo..hi`.
pub open spec fn caps_grow(f: Fields, g: Fields, lo: int, hi: int) -> bool {
    forall|i: int| 0 <= i < PROPERTY_COUNT ==> (#[trigger] g.caps@[i] == f.caps@[i] || slot_in(g.caps@[i], lo, hi))
}

/// Whether no kept value of `f` overlaps a field of `g`.
pub open spec fn caps_clear(f: Fields, g: Fields) -> bool {
    forall|i: int| 0 <= i < PROPERTY_COUNT ==> {
        let o = #[trigger] f.caps@[i];
        &&& apart(o, g.key)
        &&& apart(o, g.size)
        &&& apart(o, g.e_tag)
        &&& apart(o, g.last_modified)
        &&& apart(o, g.resource_type)
    }
}

/// Whether the span in slot `o` overlaps no kept value of `g`.
pub open spec fn off_caps(o: Option<Span>, g: Fields) -> bool {
    forall|i: int| 0 <= i < PROPERTY_COUNT ==> apart(o, #[trigger] g.caps@[i])
}

/// Whether a slot kept its span, or was empty and now holds one within
/// `lo..hi`.
pub open spec fn slot_grows(a: Option<Span>, b: Option<Span>, lo: int, hi: int) -> bool {
    b == a || (a is None && b is Some && slot_in(b, lo, hi))
}

/// Whether `g` is `f` with spans read within `lo..hi` added to empty slots.
pub open spec fn grows(f: Fields, g: Fields, lo: int, hi: int) -> bool {
    &&& g.prefix == f.prefix
    &&& slot_grows(f.key, g.key, lo, hi)
    &&& slot_grows(f.size, g.size, lo, hi)
    &&& slot_grows(f.e_tag, g.e_tag, lo, hi)
    &&& slot_grows(f.last_modified, g.last_modified, lo, hi)
    &&& slot_grows(f.resource_type, g.resource_type, lo, hi)
    &&& caps_grow(f, g, lo, hi)
}

/// Whether two slots hold spans that do not overlap.
pub open spec fn apart(a: Option<Span>, b: Option<Span>) -> bool {
    match (a, b) {
        (Some(x), Some(y)) => x.1 <= y.0 || y.1 <= x.0,
        _ => true,
    }
}

/// Whether no two spans of `f` overlap.
pub open spec fn fields_apart(f: Fields) -> bool {
    &&& apart(f.key, f.size)
    &&& apart(f.key, f.e_tag)
    &&& apart(f.key, f.last_modified)
    &&& apart(f.key, f.resource_type)
    &&& apart(f.size, f.e_tag)
    &&& apart(f.size, f.last_modified)
    &&& apart(f.size, f.resource_type)
    &&& apart(f.e_tag, f.last_modified)
    &&& apart(f.e_tag, f.resource_type)
    &&& apart(f.last_modified, f.resource_type)
    &&& caps_clear(f, f)
}

/// What a read from `lo` to `hi` keeps of the fields it was given: it adds
/// spans within its own bytes, and adds no two that overlap.
pub open spec fn kept(f: Fields, g: Fields, lo: int, hi: int) -> bool {
    &&& grows(f, g, lo, hi)
    &&& (fields_in(f, 0, lo) && fields_apart(f)) ==> (fields_in(g, 0, hi) && fields_apart(g))
}

proof fn lemma_kept_trans(f: Fields, g: Fields, h: Fields, lo: int, mid: int, mid2: int, hi: int)
    requires
        0 <= lo <= mid <= mid2 <= hi,
        kept(f, g, lo, mid),
        kept(g, h, mid2, hi),
    ensures
        kept(f, h, lo, hi),
{
}

proof fn lemma_kept_same(f: Fields, lo: int, hi: int)
    requires
        0 <= lo <= hi,
    ensures
        kept(f, f, lo, hi),
{
}

proof fn lemma_kept_put(f: Fields, w: PropertySet, g: Fields, slot: int, v: Span, lo: int, hi: int)
    requires
        0 <= lo <= hi,
        put_field(f, w, slot, v) == Some(g),
        (1 <= slot <= 4 || slot >= 8) ==> lo <= v.0 <= v.1 <= hi,
    ensures
        kept(f, g, lo, hi),
{
}

proof fn lemma_kept_value(f: Fields, w: PropertySet, i: int, v: Span, lo: int, hi: int)
    requires
        0 <= lo <= v.0 <= v.1 <= hi,
    ensures
        kept(f, keep_value(f, w, i, v), lo, hi),
{
    let g = keep_value(f, w, i, v);
    if w.has(i) {
        assert(g.caps@ == f.caps@.update(i, Some(v)));
    }
}

/// The bytes of a span.
pub open spec fn span_text(b: Seq<u8>, s: Span) -> Seq<u8> {
    b.subrange(s.0 as int, s.1 as int)
}

/// The value of the `Encoded` attribute among the attributes that begin at
/// `i`, where `b` ends with the last of them; `enc` is the value found so
/// far. Any other attribute is read and left alone.
pub open spec fn encoded_attr(b: Seq<u8>, i: int, enc: Option<bool>) -> Option<Option<bool>>
    decreases b.len() - i,
{
    let c = space_end(b, i);
    if i < 0 || c >= b.len() {
        Some(enc)
    } else {
        match attribute_at(b, c) {
            None => None,
            Some((n, v, after)) => {
                let next = if span_text(b, n) == "Encoded".spec_bytes() {
                    if span_text(b, v) == "true".spec_bytes() {
                        if enc is Some { None } else { Some(Some(true)) }
                    } else if span_text(b, v) == "false".spec_bytes() {
                        if enc is Some { None } else { Some(Some(false)) }
                    } else {
                        None
                    }
                } else {
                    Some(enc)
                };
                match next {
                    None => None,
                    Some(e2) => if i < after <= b.len() {
                        encoded_attr(b, after, e2)
                    } else {
                        None
                    },
                }
            },
        }
    }
}

/// Reads a `Name` element whose start tag `t` ends at `i`: its `Encoded`
/// attribute, the one attribute this crate reads, and its value.
pub open spec fn name_elem(b: Seq<u8>, i: int, t: Tag, f: Fields) -> Option<(Fields, int)> {
    match encoded_attr(b.subrange(0, t.attributes.1 as int), t.attributes.0 as int, None) {
        None => None,
        Some(enc) => match tag_value(b, i, t) {
            None => None,
            Some((v, e)) => match put_once(f.key, v) {
                None => None,
                Some(k) => Some((Fields { key: k, percent: enc == Some(true), ..f }, e)),
            },
        },
    }
}

/// Reads the `Encoded` attribute of the tag `t`.
fn read_encoded(b: &[u8], t: Tag) -> (r: Option<Option<bool>>)
    requires
        b@.len() <= isize::MAX,
        t.attributes.0 <= t.attributes.1 <= b@.len(),
    ensures
        r == encoded_attr(b@.subrange(0, t.attributes.1 as int), t.attributes.0 as int, None),
{
    let a = vstd::slice::slice_subrange(b, 0, t.attributes.1);
    let mut i = t.attributes.0;
    let mut enc: Option<bool> = None;
    loop
        invariant
            i <= a@.len(),
            a@.len() <= isize::MAX,
            a@ == b@.subrange(0, t.attributes.1 as int),
            encoded_attr(a@, t.attributes.0 as int, None) == encoded_attr(a@, i as int, enc),
        decreases a@.len() - i,
    {
        let c = skip_space(a, i);
        if c >= a.len() {
            return Some(enc);
        }
        match attribute(a, c) {
            None => {
                return None;
            },
            Some((n, v, after)) => {
                proof { lemma_space_end(a@, i as int); }
                let name = vstd::slice::slice_subrange(a, n.0, n.1);
                if bytes_equal(name, "Encoded".as_bytes()) {
                    let value = vstd::slice::slice_subrange(a, v.0, v.1);
                    let flag = if bytes_equal(value, "true".as_bytes()) {
                        true
                    } else if bytes_equal(value, "false".as_bytes()) {
                        false
                    } else {
                        return None;
                    };
                    if enc.is_some() {
                        return None;
                    }
                    enc = Some(flag);
                }
                i = after;
            },
        }
    }
}

/// Reads a `Name` element whose start tag `t` ends at `from`.
fn read_name(b: &[u8], from: usize, t: Tag, f: Fields) -> (r: Option<(Fields, usize)>)
    requires
        b@.len() <= isize::MAX,
        from <= b@.len(),
        t.name.0 <= t.name.1 <= t.attributes.0 <= t.attributes.1 <= b@.len(),
    ensures
        r matches Some((g, e)) ==> name_elem(b@, from as int, t, f) == Some((g, e as int)),
        r is None ==> name_elem(b@, from as int, t, f) is None,
        r matches Some((g, e)) ==> from <= e <= b@.len() && kept(f, g, from as int, e as int),
{
    let enc = match read_encoded(b, t) {
        None => return None,
        Some(enc) => enc,
    };
    let (v, e) = match value(b, from, t) {
        None => return None,
        Some(x) => x,
    };
    match set_once(f.key, v) {
        None => None,
        Some(k) => {
            let percent = match enc {
                Some(p) => p,
                None => false,
            };
            Some((Fields { key: k, percent, ..f }, e))
        },
    }
}

/// One step of the read of `<Properties>` from `j`: which slot the child
/// fills (1 the time of the last modification, 2 the entity tag, 3 the size,
/// 4 the resource type, 5 none, the element has ended, 6 none, the child was
/// read past, 7 none, the close tag was read past, 8 and on the property at
/// that place less 8), with the value's span and where the step ended.
/// `None` is a fault.
pub open spec fn props_step(b: Seq<u8>, j: int, w: PropertySet) -> Option<(int, Span, int)> {
    if lit_at(b, j, "<Last-Modified>".spec_bytes()) {
        lift(1, value_at(b, j + "<Last-Modified>".spec_bytes().len(), "Last-Modified".spec_bytes()))
    } else if lit_at(b, j, "<Etag>".spec_bytes()) {
        lift(2, value_at(b, j + "<Etag>".spec_bytes().len(), "Etag".spec_bytes()))
    } else if lit_at(b, j, "<Content-Length>".spec_bytes()) {
        lift(3, value_at(b, j + "<Content-Length>".spec_bytes().len(), "Content-Length".spec_bytes()))
    } else if lit_at(b, j, "<ResourceType>".spec_bytes()) {
        lift(4, value_at(b, j + "<ResourceType>".spec_bytes().len(), "ResourceType".spec_bytes()))
    } else if lit_at(b, j, "</Properties>".spec_bytes()) {
        Some((5, (0usize, 0usize), j + "</Properties>".spec_bytes().len()))
    } else {
        match known_at(b, j) {
            None => None,
            Some(Known::Read(p, v, e)) => Some((8 + p.spec_index(), v, e as int)),
            Some(Known::Absent) => match child_at(b, j, "Properties".spec_bytes()) {
                None => None,
                Some(Child::Close(e)) => Some((7, (0usize, 0usize), e as int)),
                Some(Child::Open(t, e)) => {
                    let nm = span_text(b, t.name);
                    if nm == "Last-Modified".spec_bytes() {
                        lift(1, tag_value(b, e as int, t))
                    } else if nm == "Etag".spec_bytes() {
                        lift(2, tag_value(b, e as int, t))
                    } else if nm == "Content-Length".spec_bytes() {
                        lift(3, tag_value(b, e as int, t))
                    } else if nm == "ResourceType".spec_bytes() {
                        lift(4, tag_value(b, e as int, t))
                    } else {
                        other_at(b, e as int, t, w)
                    }
                },
            },
        }
    }
}

/// An element read past whole, the step `6`, or a fault.
pub open spec fn skip_past(b: Seq<u8>, e: int, t: Tag) -> Option<(int, Span, int)> {
    match skip_at(b, e, t) {
        None => None,
        Some(x) => Some((6, (0usize, 0usize), x)),
    }
}

/// Reads an element other than the fields, whose start tag `t` ends at `e`:
/// one that carries a property in `w` has its value read as a leaf's, and
/// the step is 8 and the property's place; any other is read past whole.
pub open spec fn other_at(b: Seq<u8>, e: int, t: Tag, w: PropertySet) -> Option<(int, Span, int)> {
    match BlobProperty::spec_identify(span_text(b, t.name)) {
        Some(p) => if w.has(p.spec_index() as int) {
            lift(8 + p.spec_index(), tag_value(b, e, t))
        } else {
            skip_past(b, e, t)
        },
        None => skip_past(b, e, t),
    }
}

/// The fields after the value `v` of the property at place `i` was read:
/// it is kept if the property is in `w`, and a later value of a property
/// replaces an earlier one.
pub open spec fn keep_value(f: Fields, w: PropertySet, i: int, v: Span) -> Fields {
    if w.has(i) {
        Fields { caps: vstd::array::spec_array_update(f.caps, i, Some(v)), ..f }
    } else {
        f
    }
}

/// A value read for `slot`, or a fault.
pub open spec fn lift(slot: int, v: Option<(Span, int)>) -> Option<(int, Span, int)> {
    match v {
        None => None,
        Some((s, e)) => Some((slot, s, e)),
    }
}

/// The fields after the value `v` was written into `slot`.
pub open spec fn put_field(f: Fields, w: PropertySet, slot: int, v: Span) -> Option<Fields> {
    if slot == 1 {
        match put_once(f.last_modified, v) {
            None => None,
            Some(s) => Some(Fields { last_modified: s, ..f }),
        }
    } else if slot == 2 {
        match put_once(f.e_tag, v) {
            None => None,
            Some(s) => Some(Fields { e_tag: s, ..f }),
        }
    } else if slot == 3 {
        match put_once(f.size, v) {
            None => None,
            Some(s) => Some(Fields { size: s, ..f }),
        }
    } else if slot == 4 {
        match put_once(f.resource_type, v) {
            None => None,
            Some(s) => Some(Fields { resource_type: s, ..f }),
        }
    } else if slot >= 8 {
        Some(keep_value(f, w, slot - 8, v))
    } else {
        Some(f)
    }
}

/// Reads the children of `<Properties>`, whose start tag ends at `i`,
/// through its close tag. Four of them are fields of every entry; of the
/// rest, the values of the properties in `w` are kept.
pub open spec fn props_from(b: Seq<u8>, i: int, w: PropertySet, f: Fields) -> Option<(Fields, int)>
    decreases b.len() - i,
{
    if i < 0 || i > b.len() {
        None
    } else {
        match props_step(b, space_end(b, i), w) {
            None => None,
            Some((slot, v, e)) => if slot == 5 || slot == 7 {
                Some((f, e))
            } else {
                match put_field(f, w, slot, v) {
                    None => None,
                    Some(g) => if i < e <= b.len() {
                        props_from(b, e, w, g)
                    } else {
                        None
                    },
                }
            },
        }
    }
}

fn lift_exec(slot: u8, v: Option<(Span, usize)>) -> (r: Option<(u8, Span, usize)>)
    ensures
        r matches Some((k, s, e)) ==> lift(slot as int, match v {
            Some((s1, e1)) => Some((s1, e1 as int)),
            None => None,
        }) == Some((k as int, s, e as int)),
        r is None <==> v is None,
        r matches Some((k, s, e)) ==> k == slot && v == Some((s, e)),
{
    match v {
        None => None,
        Some((s, e)) => Some((slot, s, e)),
    }
}

/// Reads an element other than the fields, whose start tag `t` ends at `e`.
fn read_other(b: &[u8], e: usize, t: Tag, w: PropertySet) -> (r: Option<(u8, Span, usize)>)
    requires
        b@.len() <= isize::MAX,
        e <= b@.len(),
        t.name.0 <= t.name.1 <= b@.len(),
    ensures
        r matches Some((k, s, x)) ==> other_at(b@, e as int, t, w) == Some((k as int, s, x as int)),
        r is None ==> other_at(b@, e as int, t, w) is None,
        r matches Some((k, s, x)) ==> e <= x <= b@.len() && k < 8 + PROPERTY_COUNT
            && (k == 6 || (8 <= k && e <= s.0 <= s.1 <= x)),
{
    let nm = vstd::slice::slice_subrange(b, t.name.0, t.name.1);
    match BlobProperty::identify(nm) {
        Some(p) => {
            if w.contains(p) {
                let i = p.index();
                return match value(b, e, t) {
                    None => None,
                    Some((v, x)) => Some((8 + i as u8, v, x)),
                };
            }
        },
        None => {},
    }
    match skip(b, e, t) {
        None => None,
        Some(x) => Some((6, (0, 0), x)),
    }
}

/// Reads one step of `<Properties>` from `j`.
fn prop_step(b: &[u8], j: usize, w: PropertySet) -> (r: Option<(u8, Span, usize)>)
    requires
        b@.len() <= isize::MAX,
        j <= b@.len(),
    ensures
        r matches Some((k, s, e)) ==> props_step(b@, j as int, w) == Some((k as int, s, e as int)),
        r is None ==> props_step(b@, j as int, w) is None,
        r matches Some((k, s, e)) ==> j < e <= b@.len() && k < 8 + PROPERTY_COUNT
            && ((k <= 4 || k >= 8) ==> j <= s.0 <= s.1 <= e),
{
    let l = "<Last-Modified>".as_bytes();
    if lit(b, j, l) {
        return lift_exec(1, value_of(b, j + l.len(), "Last-Modified".as_bytes()));
    }
    let l = "<Etag>".as_bytes();
    if lit(b, j, l) {
        return lift_exec(2, value_of(b, j + l.len(), "Etag".as_bytes()));
    }
    let l = "<Content-Length>".as_bytes();
    if lit(b, j, l) {
        return lift_exec(3, value_of(b, j + l.len(), "Content-Length".as_bytes()));
    }
    let l = "<ResourceType>".as_bytes();
    if lit(b, j, l) {
        return lift_exec(4, value_of(b, j + l.len(), "ResourceType".as_bytes()));
    }
    let l = "</Properties>".as_bytes();
    if lit(b, j, l) {
        proof { reveal_strlit("</Properties>"); }
        return Some((5, (0, 0), j + l.len()));
    }
    match read_known(b, j) {
        None => None,
        Some(Known::Read(p, v, e)) => Some((8 + p.index() as u8, v, e)),
        Some(Known::Absent) => match child(b, j, "Properties".as_bytes()) {
            None => None,
            Some(Child::Close(e)) => Some((7, (0, 0), e)),
            Some(Child::Open(t, e)) => {
                let nm = vstd::slice::slice_subrange(b, t.name.0, t.name.1);
                if bytes_equal(nm, "Last-Modified".as_bytes()) {
                    lift_exec(1, value(b, e, t))
                } else if bytes_equal(nm, "Etag".as_bytes()) {
                    lift_exec(2, value(b, e, t))
                } else if bytes_equal(nm, "Content-Length".as_bytes()) {
                    lift_exec(3, value(b, e, t))
                } else if bytes_equal(nm, "ResourceType".as_bytes()) {
                    lift_exec(4, value(b, e, t))
                } else {
                    read_other(b, e, t, w)
                }
            },
        },
    }
}

/// Keeps the value `v` of the property at place `i` if it is in `w`.
fn keep_value_exec(f: Fields, w: PropertySet, i: usize, v: Span) -> (r: Fields)
    requires
        i < PROPERTY_COUNT,
    ensures
        r == keep_value(f, w, i as int, v),
{
    let p = match BlobProperty::from_index(i) {
        Some(p) => p,
        None => {
            return f;
        },
    };
    if w.contains(p) {
        let mut g = f;
        g.caps[i] = Some(v);
        assert(g.caps =~= vstd::array::spec_array_update(f.caps, i as int, Some(v)));
        g
    } else {
        f
    }
}

fn put_field_exec(f: Fields, w: PropertySet, slot: u8, v: Span) -> (r: Option<Fields>)
    requires
        slot < 8 + PROPERTY_COUNT,
    ensures
        r == put_field(f, w, slot as int, v),
{
    if slot == 1 {
        match set_once(f.last_modified, v) {
            None => None,
            Some(s) => Some(Fields { last_modified: s, ..f }),
        }
    } else if slot == 2 {
        match set_once(f.e_tag, v) {
            None => None,
            Some(s) => Some(Fields { e_tag: s, ..f }),
        }
    } else if slot == 3 {
        match set_once(f.size, v) {
            None => None,
            Some(s) => Some(Fields { size: s, ..f }),
        }
    } else if slot == 4 {
        match set_once(f.resource_type, v) {
            None => None,
            Some(s) => Some(Fields { resource_type: s, ..f }),
        }
    } else if slot >= 8 {
        Some(keep_value_exec(f, w, (slot - 8) as usize, v))
    } else {
        Some(f)
    }
}

/// Reads the children of `<Properties>`, whose start tag ends at `from`.
fn read_properties(b: &[u8], from: usize, w: PropertySet, start: Fields) -> (r: Option<(Fields, usize)>)
    requires
        b@.len() <= isize::MAX,
        from <= b@.len(),
    ensures
        r matches Some((g, e)) ==> props_from(b@, from as int, w, start) == Some((g, e as int)),
        r is None ==> props_from(b@, from as int, w, start) is None,
        r matches Some((g, e)) ==> from < e <= b@.len() && kept(start, g, from as int, e as int),
{
    let mut i = from;
    let mut f = start;
    proof { lemma_kept_same(start, from as int, from as int); }
    loop
        invariant
            from <= i <= b@.len(),
            b@.len() <= isize::MAX,
            props_from(b@, from as int, w, start) == props_from(b@, i as int, w, f),
            kept(start, f, from as int, i as int),
        decreases b@.len() - i,
    {
        let j = skip_space(b, i);
        match prop_step(b, j, w) {
            None => {
                return None;
            },
            Some((slot, v, e)) => {
                if slot == 5 || slot == 7 {
                    proof {
                        lemma_kept_same(f, e as int, e as int);
                        lemma_kept_trans(start, f, f, from as int, i as int, e as int, e as int);
                    }
                    return Some((f, e));
                }
                match put_field_exec(f, w, slot, v) {
                    None => {
                        return None;
                    },
                    Some(g) => {
                        proof {
                            lemma_kept_put(f, w, g, slot as int, v, j as int, e as int);
                            lemma_kept_trans(start, f, g, from as int, i as int, j as int, e as int);
                        }
                        f = g;
                        i = e;
                    },
                }
            },
        }
    }
}

/// One step of the read of a blob's children from `j`: the fields after it,
/// where it ended, and whether it read the blob's close tag. `None` is a
/// fault.
pub open spec fn blob_step(b: Seq<u8>, j: int, w: PropertySet, f: Fields) -> Option<(Fields, int, bool)> {
    if lit_at(b, j, "<Name>".spec_bytes()) {
        match value_at(b, j + "<Name>".spec_bytes().len(), "Name".spec_bytes()) {
            None => None,
            Some((v, e)) => match put_once(f.key, v) {
                None => None,
                Some(k) => Some((Fields { key: k, ..f }, e, false)),
            },
        }
    } else if lit_at(b, j, "<Properties>".spec_bytes()) {
        match props_from(b, j + "<Properties>".spec_bytes().len(), w, f) {
            None => None,
            Some((g, e)) => Some((g, e, false)),
        }
    } else if lit_at(b, j, "</Blob>".spec_bytes()) {
        Some((f, j + "</Blob>".spec_bytes().len(), true))
    } else if lit_at(b, j, "<OrMetadata />".spec_bytes()) {
        Some((f, j + "<OrMetadata />".spec_bytes().len(), false))
    } else {
        match known_at(b, j) {
            None => None,
            Some(Known::Read(p, v, e)) => Some((keep_value(f, w, p.spec_index() as int, v), e as int, false)),
            Some(Known::Absent) => match child_at(b, j, "Blob".spec_bytes()) {
                None => None,
                Some(Child::Close(e)) => Some((f, e as int, true)),
                Some(Child::Open(t, e)) => {
                    let nm = span_text(b, t.name);
                    if nm == "Name".spec_bytes() {
                        match name_elem(b, e as int, t, f) {
                            None => None,
                            Some((g, x)) => Some((g, x, false)),
                        }
                    } else if nm == "Properties".spec_bytes() && !t.empty {
                        match props_from(b, e as int, w, f) {
                            None => None,
                            Some((g, x)) => Some((g, x, false)),
                        }
                    } else {
                        match other_at(b, e as int, t, w) {
                            None => None,
                            Some((k, v, x)) => Some((if k >= 8 { keep_value(f, w, k - 8, v) } else { f }, x, false)),
                        }
                    }
                },
            },
        }
    }
}

/// Reads the children of a blob, whose start tag ends at `i`, through its
/// close tag, keeping the values of the properties in `w`.
pub open spec fn blob_from(b: Seq<u8>, i: int, w: PropertySet, f: Fields) -> Option<(Fields, int)>
    decreases b.len() - i,
{
    if i < 0 || i > b.len() {
        None
    } else {
        match blob_step(b, space_end(b, i), w, f) {
            None => None,
            Some((g, e, true)) => Some((g, e)),
            Some((g, e, false)) => if i < e <= b.len() {
                blob_from(b, e, w, g)
            } else {
                None
            },
        }
    }
}

/// Reads a blob, whose start tag ends at `i`. A blob without a name is a
/// fault.
pub open spec fn blob_at(b: Seq<u8>, i: int, w: PropertySet) -> Option<(Fields, int)> {
    match blob_from(b, i, w, no_fields(false)) {
        Some((f, e)) => if f.key is None {
            None
        } else {
            Some((f, e))
        },
        None => None,
    }
}

fn blob_step_exec(b: &[u8], j: usize, w: PropertySet, f: Fields) -> (r: Option<(Fields, usize, bool)>)
    requires
        b@.len() <= isize::MAX,
        j <= b@.len(),
    ensures
        r matches Some((g, e, c)) ==> blob_step(b@, j as int, w, f) == Some((g, e as int, c)),
        r is None ==> blob_step(b@, j as int, w, f) is None,
        r matches Some((g, e, c)) ==> j < e <= b@.len() && kept(f, g, j as int, e as int),
{
    let l = "<Name>".as_bytes();
    if lit(b, j, l) {
        proof { reveal_strlit("<Name>"); }
        return match value_of(b, j + l.len(), "Name".as_bytes()) {
            None => None,
            Some((v, e)) => match set_once(f.key, v) {
                None => None,
                Some(k) => Some((Fields { key: k, ..f }, e, false)),
            },
        };
    }
    let l = "<Properties>".as_bytes();
    if lit(b, j, l) {
        proof { reveal_strlit("<Properties>"); }
        return match read_properties(b, j + l.len(), w, f) {
            None => None,
            Some((g, e)) => Some((g, e, false)),
        };
    }
    let l = "</Blob>".as_bytes();
    if lit(b, j, l) {
        proof { reveal_strlit("</Blob>"); }
        return Some((f, j + l.len(), true));
    }
    let l = "<OrMetadata />".as_bytes();
    if lit(b, j, l) {
        proof { reveal_strlit("<OrMetadata />"); }
        return Some((f, j + l.len(), false));
    }
    match read_known(b, j) {
        None => None,
        Some(Known::Read(p, v, e)) => {
            let g = keep_value_exec(f, w, p.index(), v);
            proof { lemma_kept_value(f, w, p.spec_index() as int, v, j as int, e as int); }
            Some((g, e, false))
        },
        Some(Known::Absent) => match child(b, j, "Blob".as_bytes()) {
            None => None,
            Some(Child::Close(e)) => Some((f, e, true)),
            Some(Child::Open(t, e)) => {
                let nm = vstd::slice::slice_subrange(b, t.name.0, t.name.1);
                if bytes_equal(nm, "Name".as_bytes()) {
                    match read_name(b, e, t, f) {
                        None => None,
                        Some((g, x)) => Some((g, x, false)),
                    }
                } else if bytes_equal(nm, "Properties".as_bytes()) && !t.empty {
                    match read_properties(b, e, w, f) {
                        None => None,
                        Some((g, x)) => Some((g, x, false)),
                    }
                } else {
                    match read_other(b, e, t, w) {
                        None => None,
                        Some((k, v, x)) => {
                            if k >= 8 {
                                let g = keep_value_exec(f, w, (k - 8) as usize, v);
                                proof { lemma_kept_value(f, w, k - 8, v, j as int, x as int); }
                                Some((g, x, false))
                            } else {
                                proof { lemma_kept_same(f, j as int, x as int); }
                                Some((f, x, false))
                            }
                        },
                    }
                }
            },
        },
    }
}

/// Reads a blob, whose start tag ends at `from`.
fn read_blob(b: &[u8], from: usize, w: PropertySet) -> (r: Option<(Fields, usize)>)
    requires
        b@.len() <= isize::MAX,
        from <= b@.len(),
    ensures
        r matches Some((g, e)) ==> blob_at(b@, from as int, w) == Some((g, e as int)),
        r is None ==> blob_at(b@, from as int, w) is None,
        r matches Some((g, e)) ==> from < e <= b@.len() && fields_in(g, from as int, e as int)
            && fields_apart(g),
{
    let start = Fields {
        prefix: false,
        key: None,
        percent: false,
        size: None,
        e_tag: None,
        last_modified: None,
        resource_type: None,
        caps: [None; PROPERTY_COUNT],
    };
    let mut i = from;
    let mut f = start;
    proof { lemma_kept_same(start, from as int, from as int); }
    loop
        invariant
            from <= i <= b@.len(),
            b@.len() <= isize::MAX,
            blob_from(b@, from as int, w, no_fields(false)) == blob_from(b@, i as int, w, f),
            kept(no_fields(false), f, from as int, i as int),
        decreases b@.len() - i,
    {
        let j = skip_space(b, i);
        match blob_step_exec(b, j, w, f) {
            None => {
                return None;
            },
            Some((g, e, closed)) => {
                proof {
                    lemma_kept_trans(no_fields(false), f, g, from as int, i as int, j as int, e as int);
                }
                if closed {
                    if g.key.is_none() {
                        return None;
                    }
                    return Some((g, e));
                }
                f = g;
                i = e;
            },
        }
    }
}

/// One step of the read of a group's children from `i`.
pub open spec fn prefix_step(b: Seq<u8>, i: int, f: Fields) -> Option<(Fields, int, bool)> {
    match child_at(b, i, "BlobPrefix".spec_bytes()) {
        None => None,
        Some(Child::Close(e)) => Some((f, e as int, true)),
        Some(Child::Open(t, e)) => if span_text(b, t.name) == "Name".spec_bytes() {
            match name_elem(b, e as int, t, f) {
                None => None,
                Some((g, x)) => Some((g, x, false)),
            }
        } else {
            match skip_at(b, e as int, t) {
                None => None,
                Some(x) => Some((f, x, false)),
            }
        },
    }
}

/// Reads the children of a group of keys, whose start tag ends at `i`,
/// through its close tag. Only the name is kept: a group has no size and no
/// entity tag.
pub open spec fn prefix_from(b: Seq<u8>, i: int, f: Fields) -> Option<(Fields, int)>
    decreases b.len() - i,
{
    if i < 0 || i > b.len() {
        None
    } else {
        match prefix_step(b, i, f) {
            None => None,
            Some((g, e, true)) => Some((g, e)),
            Some((g, e, false)) => if i < e <= b.len() {
                prefix_from(b, e, g)
            } else {
                None
            },
        }
    }
}

/// Reads a group of keys, whose start tag ends at `i`. A group without a
/// name is a fault.
pub open spec fn prefix_at(b: Seq<u8>, i: int) -> Option<(Fields, int)> {
    match prefix_from(b, i, no_fields(true)) {
        Some((f, e)) => if f.key is None {
            None
        } else {
            Some((f, e))
        },
        None => None,
    }
}

/// Reads a group of keys, whose start tag ends at `from`.
fn read_prefix(b: &[u8], from: usize) -> (r: Option<(Fields, usize)>)
    requires
        b@.len() <= isize::MAX,
        from <= b@.len(),
    ensures
        r matches Some((g, e)) ==> prefix_at(b@, from as int) == Some((g, e as int)),
        r is None ==> prefix_at(b@, from as int) is None,
        r matches Some((g, e)) ==> from < e <= b@.len() && fields_in(g, from as int, e as int)
            && fields_apart(g),
{
    let mut i = from;
    let mut f = Fields {
        prefix: true,
        key: None,
        percent: false,
        size: None,
        e_tag: None,
        last_modified: None,
        resource_type: None,
        caps: [None; PROPERTY_COUNT],
    };
    proof { lemma_kept_same(f, from as int, from as int); }
    loop
        invariant
            from <= i <= b@.len(),
            b@.len() <= isize::MAX,
            prefix_from(b@, from as int, no_fields(true)) == prefix_from(b@, i as int, f),
            kept(no_fields(true), f, from as int, i as int),
        decreases b@.len() - i,
    {
        let step = match child(b, i, "BlobPrefix".as_bytes()) {
            None => None,
            Some(Child::Close(e)) => Some((f, e, true)),
            Some(Child::Open(t, e)) => {
                let nm = vstd::slice::slice_subrange(b, t.name.0, t.name.1);
                if bytes_equal(nm, "Name".as_bytes()) {
                    match read_name(b, e, t, f) {
                        None => None,
                        Some((g, x)) => Some((g, x, false)),
                    }
                } else {
                    match skip(b, e, t) {
                        None => None,
                        Some(x) => Some((f, x, false)),
                    }
                }
            },
        };
        assert(step matches Some((g, e, c)) ==> prefix_step(b@, i as int, f) == Some((g, e as int, c)) && i < e <= b@.len());
        assert(step is None ==> prefix_step(b@, i as int, f) is None);
        assert(step matches Some((g, e, c)) ==> kept(f, g, i as int, e as int));
        match step {
            None => {
                return None;
            },
            Some((g, e, closed)) => {
                proof {
                    lemma_kept_trans(no_fields(true), f, g, from as int, i as int, i as int, e as int);
                }
                if closed {
                    if g.key.is_none() {
                        return None;
                    }
                    return Some((g, e));
                }
                f = g;
                i = e;
            },
        }
    }
}



/// Whether the span in slot `o` overlaps no span of `g`.
pub open spec fn slot_apart(o: Option<Span>, g: Fields) -> bool {
    &&& apart(o, g.key)
    &&& apart(o, g.size)
    &&& apart(o, g.e_tag)
    &&& apart(o, g.last_modified)
    &&& apart(o, g.resource_type)
    &&& off_caps(o, g)
}

/// Whether no span of `f` overlaps a span of `g`.
pub open spec fn fields_disjoint(f: Fields, g: Fields) -> bool {
    &&& slot_apart(f.key, g)
    &&& slot_apart(f.size, g)
    &&& slot_apart(f.e_tag, g)
    &&& slot_apart(f.last_modified, g)
    &&& slot_apart(f.resource_type, g)
    &&& caps_clear(f, g)
}

/// Whether the spans of the entries lie within `lo..hi` and no two of them
/// overlap.
pub open spec fn entries_ok(v: Seq<Fields>, lo: int, hi: int) -> bool {
    &&& forall|k: int| 0 <= k < v.len() ==> fields_in(#[trigger] v[k], lo, hi) && fields_apart(v[k])
    &&& forall|k1: int, k2: int|
        0 <= k1 < k2 < v.len() ==> fields_disjoint(#[trigger] v[k1], #[trigger] v[k2])
}

proof fn lemma_entries_widen(v: Seq<Fields>, lo: int, hi: int, lo2: int, hi2: int)
    requires
        entries_ok(v, lo, hi),
        lo2 <= lo,
        hi <= hi2,
    ensures
        entries_ok(v, lo2, hi2),
{
    assert forall|k: int| 0 <= k < v.len() implies fields_in(#[trigger] v[k], lo2, hi2) by {}
}

proof fn lemma_entries_push(v: Seq<Fields>, g: Fields, lo: int, mid: int, mid2: int, hi: int)
    requires
        entries_ok(v, lo, mid),
        mid <= mid2 <= hi,
        lo <= mid2,
        fields_in(g, mid2, hi),
        fields_apart(g),
    ensures
        entries_ok(v.push(g), lo, hi),
{
    let w = v.push(g);
    assert forall|k: int| 0 <= k < w.len() implies fields_in(#[trigger] w[k], lo, hi) && fields_apart(w[k]) by {
        if k < v.len() {
            assert(w[k] == v[k]);
        }
    }
    assert forall|k1: int, k2: int| 0 <= k1 < k2 < w.len() implies fields_disjoint(#[trigger] w[k1], #[trigger] w[k2]) by {
        assert(w[k1] == v[k1]);
        if k2 < v.len() {
            assert(w[k2] == v[k2]);
        } else {
            assert(w[k2] == g);
            assert(fields_in(v[k1], lo, mid));
        }
    }
}

/// Whether the span in slot `m` overlaps no span of the entries.
pub open spec fn marker_apart(m: Option<Span>, v: Seq<Fields>) -> bool {
    forall|k: int| 0 <= k < v.len() ==> slot_apart(m, #[trigger] v[k])
}

proof fn lemma_marker_before(m: Option<Span>, v: Seq<Fields>, mid: int, hi: int)
    requires
        slot_in(m, 0, mid),
        entries_ok(v, mid, hi),
    ensures
        marker_apart(m, v),
{
    assert forall|k: int| 0 <= k < v.len() implies slot_apart(m, #[trigger] v[k]) by {
        assert(fields_in(v[k], mid, hi));
    }
}

proof fn lemma_marker_after(m: Option<Span>, v: Seq<Fields>, mid: int, hi: int)
    requires
        slot_in(m, mid, hi),
        entries_ok(v, 0, mid),
    ensures
        marker_apart(m, v),
{
    assert forall|k: int| 0 <= k < v.len() implies slot_apart(m, #[trigger] v[k]) by {
        assert(fields_in(v[k], 0, mid));
    }
}

/// Reads one entry whose start tag stands at `j`: a blob or a group of keys.
/// An entry written as an empty tag has no name, and any other element
/// where an entry belongs makes the page one this crate cannot read.
pub open spec fn entry_at(b: Seq<u8>, j: int, w: PropertySet) -> Option<(Fields, int)> {
    if lit_at(b, j, "<Blob>".spec_bytes()) {
        blob_at(b, j + "<Blob>".spec_bytes().len(), w)
    } else {
        match open_at(b, j) {
            None => None,
            Some((t, e)) => if t.empty {
                None
            } else if span_text(b, t.name) == "Blob".spec_bytes() {
                blob_at(b, e, w)
            } else if span_text(b, t.name) == "BlobPrefix".spec_bytes() {
                prefix_at(b, e)
            } else {
                None
            },
        }
    }
}

/// Reads the entries of `<Blobs>`, whose start tag ends at `i`, through its
/// close tag; `acc` holds the entries read so far. A comment, a CDATA
/// section and a processing instruction may hold the tags that entries are
/// read by, so all three are faults here.
pub open spec fn entries_from(b: Seq<u8>, i: int, w: PropertySet, acc: Seq<Fields>) -> Option<(Seq<Fields>, int)>
    decreases b.len() - i,
{
    if i < 0 || i > b.len() {
        None
    } else {
        let j = space_end(b, i);
        if byte_at(b, j) != 0x3c {
            None
        } else if byte_at(b, j + 1) == 0x2f {
            match close_at(b, j, "Blobs".spec_bytes()) {
                None => None,
                Some(e) => Some((acc, e)),
            }
        } else if byte_at(b, j + 1) == 0x21 || byte_at(b, j + 1) == 0x3f {
            None
        } else {
            match entry_at(b, j, w) {
                None => None,
                Some((f, e)) => if i < e <= b.len() {
                    entries_from(b, e, w, acc.push(f))
                } else {
                    None
                },
            }
        }
    }
}

fn read_entry(b: &[u8], j: usize, w: PropertySet) -> (r: Option<(Fields, usize)>)
    requires
        b@.len() <= isize::MAX,
        j < b@.len(),
    ensures
        r matches Some((g, e)) ==> entry_at(b@, j as int, w) == Some((g, e as int)),
        r is None ==> entry_at(b@, j as int, w) is None,
        r matches Some((g, e)) ==> j < e <= b@.len() && fields_in(g, j as int, e as int)
            && fields_apart(g),
{
    let l = "<Blob>".as_bytes();
    if lit(b, j, l) {
        return read_blob(b, j + l.len(), w);
    }
    match open(b, j) {
        None => None,
        Some((t, e)) => {
            let nm = vstd::slice::slice_subrange(b, t.name.0, t.name.1);
            if t.empty {
                None
            } else if bytes_equal(nm, "Blob".as_bytes()) {
                read_blob(b, e, w)
            } else if bytes_equal(nm, "BlobPrefix".as_bytes()) {
                read_prefix(b, e)
            } else {
                None
            }
        },
    }
}

/// Reads the entries of `<Blobs>`, whose start tag ends at `from`.
fn read_entries(b: &[u8], from: usize, w: PropertySet) -> (r: Option<(Vec<Fields>, usize)>)
    requires
        b@.len() <= isize::MAX,
        from <= b@.len(),
    ensures
        r matches Some((v, e)) ==> entries_from(b@, from as int, w, seq![]) == Some((v@, e as int)),
        r is None ==> entries_from(b@, from as int, w, seq![]) is None,
        r matches Some((v, e)) ==> from < e <= b@.len() && entries_ok(v@, from as int, e as int),
{
    let mut i = from;
    let mut acc: Vec<Fields> = Vec::new();
    loop
        invariant
            from <= i <= b@.len(),
            b@.len() <= isize::MAX,
            entries_from(b@, from as int, w, seq![]) == entries_from(b@, i as int, w, acc@),
            entries_ok(acc@, from as int, i as int),
        decreases b@.len() - i,
    {
        let j = skip_space(b, i);
        if at(b, j) != 0x3c {
            return None;
        }
        let next = at(b, j + 1);
        if next == 0x2f {
            return match close(b, j, "Blobs".as_bytes()) {
                None => None,
                Some(e) => {
                    proof { lemma_entries_widen(acc@, from as int, i as int, from as int, e as int); }
                    Some((acc, e))
                },
            };
        }
        if next == 0x21 || next == 0x3f {
            return None;
        }
        match read_entry(b, j, w) {
            None => {
                return None;
            },
            Some((f, e)) => {
                proof { lemma_entries_push(acc@, f, from as int, i as int, j as int, e as int); }
                acc.push(f);
                i = e;
            },
        }
    }
}

/// Where the prolog that begins at `i` ends: at the `<` of the first
/// element, past white space, comments and processing instructions.
pub open spec fn prolog_from(b: Seq<u8>, i: int) -> Option<int>
    decreases b.len() - i,
{
    if i < 0 || i > b.len() {
        None
    } else {
        let j = space_end(b, i);
        if byte_at(b, j) != 0x3c {
            None
        } else {
            match misc_at(b, j) {
                None => None,
                Some(Misc::Skipped(e)) => if i < e <= b.len() {
                    prolog_from(b, e as int)
                } else {
                    None
                },
                Some(Misc::Element) => Some(j),
            }
        }
    }
}

/// The UTF-8 byte order mark that Azure writes before a document.
pub open spec fn bom() -> Seq<u8> {
    seq![0xefu8, 0xbbu8, 0xbfu8]
}

/// Where the first child of the root element of a page begins: past the
/// byte order mark, the prolog, and the root's start tag, which must be
/// `<EnumerationResults>` and not empty. A service can answer a listing with
/// an error document under a success status; that is not a page.
pub open spec fn root_open(b: Seq<u8>, root: Seq<u8>) -> Option<(Tag, int)> {
    let i0 = if lit_at(b, 0, bom()) { 3int } else { 0int };
    match prolog_from(b, i0) {
        None => None,
        Some(p) => match open_at(b, p) {
            None => None,
            Some((t, e)) => if span_text(b, t.name) != root {
                None
            } else {
                Some((t, e))
            },
        },
    }
}

/// Reads the prolog and the start tag of the root element named `root`.
pub(crate) fn open_root(b: &[u8], root: &[u8]) -> (r: Option<(Tag, usize)>)
    requires
        b@.len() <= isize::MAX,
    ensures
        r matches Some((t, e)) ==> root_open(b@, root@) == Some((t, e as int)),
        r is None ==> root_open(b@, root@) is None,
        r matches Some((t, e)) ==> {
            &&& t.name.0 < t.name.1 <= t.attributes.0 <= t.attributes.1 < e <= b@.len()
        },
{
    let mark = [0xefu8, 0xbbu8, 0xbfu8];
    let mark = mark.as_slice();
    assert(mark@ =~= bom());
    let mut i: usize = if lit(b, 0, mark) { 3 } else { 0 };
    loop
        invariant
            i <= b@.len(),
            b@.len() <= isize::MAX,
            prolog_from(b@, if lit_at(b@, 0, bom()) { 3int } else { 0int }) == prolog_from(b@, i as int),
        decreases b@.len() - i,
    {
        let j = skip_space(b, i);
        if at(b, j) != 0x3c {
            return None;
        }
        match skip_misc(b, j) {
            None => {
                return None;
            },
            Some(Misc::Skipped(e)) => {
                i = e;
            },
            Some(Misc::Element) => {
                let (t, e) = match open(b, j) {
                    None => return None,
                    Some(x) => x,
                };
                let nm = vstd::slice::slice_subrange(b, t.name.0, t.name.1);
                if !bytes_equal(nm, root) {
                    return None;
                }
                return Some((t, e));
            },
        }
    }
}

/// Reads the children of the root of a page from `i` until the root ends:
/// the entries, which must be written once, the marker of the next page,
/// which may be written at most once, and any other element, which is read
/// past. A page with no entries element is a fault.
pub open spec fn root_from(
    b: Seq<u8>,
    i: int,
    w: PropertySet,
    entries: Option<Seq<Fields>>,
    seen: bool,
    marker: Option<Span>,
) -> Option<(Seq<Fields>, Option<Span>)>
    decreases b.len() - i,
{
    if i < 0 || i > b.len() {
        None
    } else {
        match child_at(b, space_end(b, i), "EnumerationResults".spec_bytes()) {
            None => None,
            Some(Child::Close(_)) => match entries {
                None => None,
                Some(es) => Some((es, marker)),
            },
            Some(Child::Open(t, e)) => {
                let nm = span_text(b, t.name);
                if nm == "Blobs".spec_bytes() {
                    if entries is Some {
                        None
                    } else {
                        let read = if t.empty {
                            Some((Seq::<Fields>::empty(), e as int))
                        } else {
                            entries_from(b, e as int, w, seq![])
                        };
                        match read {
                            None => None,
                            Some((es, x)) => if i < x <= b.len() {
                                root_from(b, x, w, Some(es), seen, marker)
                            } else {
                                None
                            },
                        }
                    }
                } else if nm == "NextMarker".spec_bytes() {
                    if seen {
                        None
                    } else {
                        match tag_value(b, e as int, t) {
                            None => None,
                            Some((v, x)) => if i < x <= b.len() {
                                root_from(b, x, w, entries, true, Some(v))
                            } else {
                                None
                            },
                        }
                    }
                } else {
                    match skip_at(b, e as int, t) {
                        None => None,
                        Some(x) => if i < x <= b.len() {
                            root_from(b, x, w, entries, seen, marker)
                        } else {
                            None
                        },
                    }
                }
            },
        }
    }
}

/// Whether a body can be read at all: it is UTF-8, and it holds no zero
/// byte, which XML forbids in a document and the reader writes over the
/// bytes that decoding no longer needs.
pub open spec fn body_ok(b: Seq<u8>) -> bool {
    valid_utf8(b) && forall|k: int| 0 <= k < b.len() ==> #[trigger] b[k] != 0
}

/// What a listing page holds: the fields of its entries, with the values
/// of the properties in `w`, in the order the service wrote them, and the
/// span of the marker of the next page, if it wrote one. `None` is a body
/// that is not a page.
#[verifier::opaque]
pub open spec fn page_of(b: Seq<u8>, w: PropertySet) -> Option<(Seq<Fields>, Option<Span>)> {
    if !body_ok(b) {
        None
    } else {
        match root_open(b, "EnumerationResults".spec_bytes()) {
            None => None,
            Some((t, i)) => if t.empty {
                None
            } else {
                root_from(b, i, w, None, false, None)
            },
        }
    }
}

/// Checks that a body can be read at all.
pub fn check_body(b: &[u8]) -> (r: bool)
    ensures
        r == body_ok(b@),
{
    if utf8_text(b).is_none() {
        return false;
    }
    let mut k: usize = 0;
    while k < b.len()
        invariant
            k <= b@.len(),
            forall|m: int| 0 <= m < k ==> #[trigger] b@[m] != 0,
        decreases b@.len() - k,
    {
        if b[k] == 0 {
            return false;
        }
        k = k + 1;
    }
    true
}

/// Reads a listing page: the fields of its entries and the span of its
/// marker, as [`page_of`] says.
pub fn read_page(b: &[u8], w: PropertySet) -> (r: Option<(Vec<Fields>, Option<Span>)>)
    requires
        b@.len() <= isize::MAX,
    ensures
        r matches Some((v, m)) ==> page_of(b@, w) == Some((v@, m)),
        r is None ==> page_of(b@, w) is None,
        r matches Some((v, m)) ==> entries_ok(v@, 0, b@.len() as int) && slot_in(m, 0, b@.len() as int)
            && marker_apart(m, v@),
{
    reveal(page_of);
    if !check_body(b) {
        return None;
    }
    let (t, start) = match open_root(b, "EnumerationResults".as_bytes()) {
        None => return None,
        Some(x) => x,
    };
    if t.empty {
        return None;
    }
    let mut i = start;
    let mut entries: Option<Vec<Fields>> = None;
    let mut seen = false;
    let mut marker: Option<Span> = None;
    loop
        invariant
            i <= b@.len(),
            b@.len() <= isize::MAX,
            page_of(b@, w) == root_from(b@, i as int, w, match entries {
                Some(v) => Some(v@),
                None => None,
            }, seen, marker),
            slot_in(marker, 0, i as int),
            entries matches Some(v) ==> entries_ok(v@, 0, i as int) && marker_apart(marker, v@),
        decreases b@.len() - i,
    {
        let j = skip_space(b, i);
        match child(b, j, "EnumerationResults".as_bytes()) {
            None => {
                return None;
            },
            Some(Child::Close(_)) => {
                return match entries {
                    None => None,
                    Some(es) => {
                        proof { lemma_entries_widen(es@, 0, i as int, 0, b@.len() as int); }
                        Some((es, marker))
                    },
                };
            },
            Some(Child::Open(t, e)) => {
                let nm = vstd::slice::slice_subrange(b, t.name.0, t.name.1);
                if bytes_equal(nm, "Blobs".as_bytes()) {
                    if entries.is_some() {
                        return None;
                    }
                    if t.empty {
                        let es: Vec<Fields> = Vec::new();
                        proof {
                            assert(entries_ok(es@, 0, e as int));
                            assert(marker_apart(marker, es@));
                        }
                        entries = Some(es);
                        i = e;
                    } else {
                        match read_entries(b, e, w) {
                            None => {
                                return None;
                            },
                            Some((es, x)) => {
                                proof {
                                    lemma_marker_before(marker, es@, i as int, x as int);
                                    lemma_entries_widen(es@, e as int, x as int, 0, x as int);
                                }
                                entries = Some(es);
                                i = x;
                            },
                        }
                    }
                } else if bytes_equal(nm, "NextMarker".as_bytes()) {
                    if seen {
                        return None;
                    }
                    match value(b, e, t) {
                        None => {
                            return None;
                        },
                        Some((v, x)) => {
                            proof {
                                if entries is Some {
                                    lemma_marker_after(Some(v), entries->0@, i as int, x as int);
                                    lemma_entries_widen(entries->0@, 0, i as int, 0, x as int);
                                }
                            }
                            seen = true;
                            marker = Some(v);
                            i = x;
                        },
                    }
                } else {
                    match skip(b, e, t) {
                        None => {
                            return None;
                        },
                        Some(x) => {
                            proof {
                                if entries is Some {
                                    lemma_entries_widen(entries->0@, 0, i as int, 0, x as int);
                                }
                            }
                            i = x;
                        },
                    }
                }
            },
        }
    }
}


/// Where the text of `a..z` begins once the ASCII white space before it is
/// left out.
pub open spec fn trim_lead(b: Seq<u8>, a: int, z: int) -> int
    decreases z - a,
{
    if a < z && ascii_space(b[a]) {
        trim_lead(b, a + 1, z)
    } else {
        a
    }
}

/// Where the text of `a..z` ends once the ASCII white space after it is
/// left out.
pub open spec fn trim_trail(b: Seq<u8>, a: int, z: int) -> int
    decreases z - a,
{
    if z > a && ascii_space(b[z - 1]) {
        trim_trail(b, a, z - 1)
    } else {
        z
    }
}

/// The span without the ASCII white space at either end. A value the
/// service writes for itself is read this way; a key never is, because a
/// key may begin or end with a space.
pub open spec fn trim_span(b: Seq<u8>, s: Span) -> Span {
    let a = trim_lead(b, s.0 as int, s.1 as int);
    (a as usize, trim_trail(b, a, s.1 as int) as usize)
}

pub(crate) proof fn lemma_trim(b: Seq<u8>, a: int, z: int)
    requires
        a <= z,
    ensures
        a <= trim_lead(b, a, z) <= z,
        trim_lead(b, a, z) <= trim_trail(b, trim_lead(b, a, z), z) <= z,
    decreases z - a,
{
    if a < z && ascii_space(b[a]) {
        lemma_trim(b, a + 1, z);
    } else {
        lemma_trim_trail(b, a, z);
    }
}

pub(crate) proof fn lemma_trim_trail(b: Seq<u8>, a: int, z: int)
    requires
        a <= z,
    ensures
        a <= trim_trail(b, a, z) <= z,
    decreases z - a,
{
    if z > a && ascii_space(b[z - 1]) {
        lemma_trim_trail(b, a, z - 1);
    }
}

/// Returns the span without the ASCII white space at either end.
pub(crate) fn trim_range(b: &[u8], s: Span) -> (r: Span)
    requires
        s.0 <= s.1 <= b@.len(),
    ensures
        r == trim_span(b@, s),
        s.0 <= r.0 <= r.1 <= s.1,
{
    proof {
        lemma_trim(b@, s.0 as int, s.1 as int);
    }
    let mut a = s.0;
    while a < s.1 && ascii_space_byte(b[a])
        invariant
            s.0 <= a <= s.1 <= b@.len(),
            trim_lead(b@, s.0 as int, s.1 as int) == trim_lead(b@, a as int, s.1 as int),
        decreases s.1 - a,
    {
        a = a + 1;
    }
    let mut z = s.1;
    while z > a && ascii_space_byte(b[z - 1])
        invariant
            a <= z <= s.1 <= b@.len(),
            trim_trail(b@, a as int, s.1 as int) == trim_trail(b@, a as int, z as int),
        decreases z - a,
    {
        z = z - 1;
    }
    (a, z)
}

/// Whether `new` holds the bytes of `old` everywhere outside `s`.
pub open spec fn same_outside(old: Seq<u8>, new: Seq<u8>, s: Span) -> bool {
    &&& new.len() == old.len()
    &&& forall|k: int| 0 <= k < old.len() && !(s.0 <= k < s.1) ==> #[trigger] new[k] == old[k]
}

/// Decodes the text of `start..end` of `b` in place: the decoded text is
/// written from `start`, and the bytes it no longer needs are set to zero.
/// Returns the length of the decoded text.
pub fn decode_at(b: &mut [u8], start: usize, end: usize, percent: bool) -> (r: Result<usize, Error>)
    requires
        start <= end <= old(b)@.len(),
    ensures
        same_outside(old(b)@, final(b)@, (start, end)),
        r is Ok <==> decoded_text(old(b)@.subrange(start as int, end as int), percent) is Some,
        r matches Ok(n) ==> {
            &&& start + n <= end
            &&& Some(final(b)@.subrange(start as int, start + n)) == decoded_text(
                old(b)@.subrange(start as int, end as int),
                percent,
            )
            &&& forall|k: int| start + n <= k < end ==> #[trigger] final(b)@[k] == 0
        },
        r matches Err(e) ==> e == Error::Response(ResponseFault::Body),
{
    let ghost before = b@;
    let (left, right) = b.split_at_mut(start);
    let (mid, rest) = right.split_at_mut(end - start);
    assert(mid@ =~= before.subrange(start as int, end as int));
    let n = match decode_text(mid, percent) {
        Ok(n) => n,
        Err(e) => {
            return Err(e);
        },
    };
    let ghost decoded = mid@.subrange(0, n as int);
    let mut k = n;
    while k < mid.len()
        invariant
            n <= k <= mid@.len(),
            mid@.len() == end - start,
            mid@.subrange(0, n as int) == decoded,
            forall|m: int| n <= m < k ==> #[trigger] mid@[m] == 0,
        decreases mid@.len() - k,
    {
        mid[k] = 0;
        k = k + 1;
        assert(mid@.subrange(0, n as int) =~= decoded);
    }
    proof {
        assert(final(left)@ == left@);
        assert(final(rest)@ == rest@);
        assert(final(mid)@ == mid@);
    }
    Ok(n)
}

/// The error that a body that is not a page, or holds a value that does
/// not decode, is refused with.
pub open spec fn body_fault() -> Error {
    Error::Response(ResponseFault::Body)
}

/// One entry of a page, as the text that reading it hands out.
pub struct EntryText {
    /// Whether it is an object, a group of keys, or a directory.
    pub kind: EntryKind,
    /// The decoded key.
    pub key: Seq<u8>,
    /// The size of an object.
    pub size: Option<u64>,
    /// The decoded entity tag of an object or a group.
    pub e_tag: Option<Seq<u8>>,
    /// The decoded time of the last modification.
    pub last_modified: Option<Seq<u8>>,
}

/// The decoded text of an optional value the service writes for itself:
/// `Some(None)` for no value, `None` for one that does not decode.
pub open spec fn value_text(b: Seq<u8>, o: Option<Span>) -> Option<Option<Seq<u8>>> {
    match o {
        None => Some(None),
        Some(s) => match decoded_text(span_text(b, trim_span(b, s)), false) {
            None => None,
            Some(t) => Some(Some(t)),
        },
    }
}

/// Whether an optional text is valid UTF-8.
pub open spec fn text_ok(t: Option<Seq<u8>>) -> bool {
    t matches Some(x) ==> valid_utf8(x)
}

/// Whether the entry is a directory: its resource type is the word
/// `directory`.
pub open spec fn is_directory(b: Seq<u8>, f: Fields) -> bool {
    match f.resource_type {
        Some(s) => span_text(b, trim_span(b, s)) == "directory".spec_bytes(),
        None => false,
    }
}

/// The size an entry states: `Some(None)` for none, `None` for a fault. An
/// object always has a size; a group of keys and a directory may have none.
pub open spec fn size_of(b: Seq<u8>, f: Fields) -> Option<Option<u64>> {
    match f.size {
        Some(s) => {
            let t = span_text(b, trim_span(b, s));
            if is_u64_decimal(t) {
                Some(Some(decimal_value(t) as u64))
            } else {
                None
            }
        },
        None => if !f.prefix && !is_directory(b, f) {
            None
        } else {
            Some(None)
        },
    }
}

/// What an entry holds once its text is decoded, or `None` if it cannot be
/// read: a key that is empty, does not decode, decodes to a zero byte or to
/// bytes that are not UTF-8, a size that is not a decimal `u64`, or another
/// value that does not decode or is not UTF-8. A directory has no size and
/// no entity tag.
pub open spec fn entry_text(b: Seq<u8>, f: Fields) -> Option<EntryText> {
    match f.key {
        None => None,
        Some(ks) => if ks.0 == ks.1 {
            None
        } else {
            let directory = is_directory(b, f);
            match (size_of(b, f), decoded_text(span_text(b, ks), f.percent), value_text(b, f.e_tag), value_text(b, f.last_modified)) {
                (Some(size), Some(key), Some(e_tag), Some(last_modified)) => if key.len() < ks.1 - ks.0 && f.percent && key.contains(0u8) {
                    None
                } else if !valid_utf8(key) || (!directory && !text_ok(e_tag)) || !text_ok(last_modified) {
                    None
                } else {
                    Some(EntryText {
                        kind: if f.prefix {
                            EntryKind::Prefix
                        } else if directory {
                            EntryKind::Directory
                        } else {
                            EntryKind::Object
                        },
                        key,
                        size: if directory { None } else { size },
                        e_tag: if directory { None } else { e_tag },
                        last_modified,
                    })
                },
                _ => None,
            }
        },
    }
}

/// The decoded marker of the next page: `Some(None)` for none, which an
/// empty marker also means, `None` for one that does not decode or is not
/// UTF-8.
pub open spec fn marker_text(b: Seq<u8>, m: Option<Span>) -> Option<Option<Seq<u8>>> {
    match value_text(b, m) {
        None => None,
        Some(None) => Some(None),
        Some(Some(t)) => if t.len() == 0 {
            Some(None)
        } else if valid_utf8(t) {
            Some(Some(t))
        } else {
            None
        },
    }
}

/// What reading a page into an array of `room` entries gives: the entries
/// and the marker of the next page, or the error. Every entry that fits is
/// decoded; a page with more entries than that is refused with the number
/// it holds, after those that fit were read.
pub open spec fn listing_result(b: Seq<u8>, room: int, w: PropertySet) -> Result<(Seq<EntryText>, Option<Seq<u8>>), Error> {
    match page_of(b, w) {
        None => Err(body_fault()),
        Some((es, m)) => {
            let n = if es.len() < room { es.len() as int } else { room };
            if exists|k: int| 0 <= k < n && #[trigger] entry_text(b, es[k]) is None {
                Err(body_fault())
            } else {
                match marker_text(b, m) {
                    None => Err(body_fault()),
                    Some(mt) => if es.len() > room {
                        Err(
                            Error::Capacity(
                                CapacityError {
                                    required: es.len() as usize,
                                    available: room as usize,
                                    required_headers: 0,
                                    available_headers: 0,
                                },
                            ),
                        )
                    } else {
                        Ok((Seq::new(es.len(), |k: int| entry_text(b, es[k])->0), mt))
                    },
                }
            }
        },
    }
}

/// Whether an optional text is the optional `t`.
pub open spec fn same_text(o: Option<&str>, t: Option<Seq<u8>>) -> bool {
    match (o, t) {
        (None, None) => true,
        (Some(s), Some(x)) => s.spec_bytes() == x,
        _ => false,
    }
}

/// Whether a listed entry holds the text `t`.
pub open spec fn entry_is(e: ListEntry, t: EntryText) -> bool {
    &&& e.kind == t.kind
    &&& e.key.spec_bytes() == t.key
    &&& e.size == t.size
    &&& same_text(e.e_tag, t.e_tag)
    &&& same_text(e.last_modified, t.last_modified)
}

/// An entry after its text was decoded in place: the ranges of the body
/// that hold the decoded text.
#[derive(Clone, Copy)]
pub struct Built {
    pub kind: EntryKind,
    pub key: Span,
    pub size: Option<u64>,
    pub e_tag: Option<Span>,
    pub last_modified: Option<Span>,
}

/// Whether the text of an optional range of `b` is the optional `t`.
pub open spec fn range_is(b: Seq<u8>, o: Option<Span>, t: Option<Seq<u8>>) -> bool {
    match (o, t) {
        (None, None) => true,
        (Some(s), Some(x)) => s.0 <= s.1 <= b.len() && span_text(b, s) == x,
        _ => false,
    }
}

/// Whether an optional range lies inside the optional span `s`.
pub open spec fn range_within(o: Option<Span>, s: Option<Span>) -> bool {
    o matches Some(r) ==> (s matches Some(t) && t.0 <= r.0 <= r.1 <= t.1)
}

/// Whether `x` holds the ranges of the text `t` in `b`, each inside the span
/// of the field it came from.
pub open spec fn built_is(b: Seq<u8>, x: Built, t: EntryText, f: Fields) -> bool {
    &&& x.kind == t.kind
    &&& x.size == t.size
    &&& range_is(b, Some(x.key), Some(t.key))
    &&& range_is(b, x.e_tag, t.e_tag)
    &&& range_is(b, x.last_modified, t.last_modified)
    &&& range_within(Some(x.key), f.key)
    &&& range_within(x.e_tag, f.e_tag)
    &&& range_within(x.last_modified, f.last_modified)
}

/// Whether `new` holds the bytes of `old` everywhere outside the spans that
/// decoding the entry `f` writes: its key, entity tag and time.
pub open spec fn same_outside_entry(old: Seq<u8>, new: Seq<u8>, f: Fields) -> bool {
    &&& new.len() == old.len()
    &&& forall|k: int|
        0 <= k < old.len() && !in_slot(k, f.key) && !in_slot(k, f.e_tag) && !in_slot(k, f.last_modified)
            ==> #[trigger] new[k] == old[k]
}

/// Whether offset `k` lies in the span of a slot.
pub open spec fn in_slot(k: int, o: Option<Span>) -> bool {
    o matches Some(s) && s.0 <= k < s.1
}

pub(crate) proof fn lemma_trim_lead_same(b1: Seq<u8>, b2: Seq<u8>, a: int, z: int)
    requires
        0 <= a <= z <= b1.len(),
        z <= b2.len(),
        b1.subrange(a, z) == b2.subrange(a, z),
    ensures
        trim_lead(b1, a, z) == trim_lead(b2, a, z),
    decreases z - a,
{
    if a < z {
        assert(b1[a] == b1.subrange(a, z)[0]);
        assert(b2[a] == b2.subrange(a, z)[0]);
        assert(b1.subrange(a + 1, z) =~= b1.subrange(a, z).subrange(1, z - a));
        assert(b2.subrange(a + 1, z) =~= b2.subrange(a, z).subrange(1, z - a));
        lemma_trim_lead_same(b1, b2, a + 1, z);
    }
}

pub(crate) proof fn lemma_trim_trail_same(b1: Seq<u8>, b2: Seq<u8>, a: int, z: int)
    requires
        0 <= a <= z <= b1.len(),
        z <= b2.len(),
        b1.subrange(a, z) == b2.subrange(a, z),
    ensures
        trim_trail(b1, a, z) == trim_trail(b2, a, z),
    decreases z - a,
{
    if z > a {
        assert(b1[z - 1] == b1.subrange(a, z)[z - 1 - a]);
        assert(b2[z - 1] == b2.subrange(a, z)[z - 1 - a]);
        assert(b1.subrange(a, z - 1) =~= b1.subrange(a, z).subrange(0, z - 1 - a));
        assert(b2.subrange(a, z - 1) =~= b2.subrange(a, z).subrange(0, z - 1 - a));
        lemma_trim_trail_same(b1, b2, a, z - 1);
    }
}

/// Whether the slot's span holds the same bytes in `old` and `new`.
pub open spec fn slot_same(old: Seq<u8>, new: Seq<u8>, o: Option<Span>) -> bool {
    o matches Some(s) ==> span_text(new, s) == span_text(old, s)
}

/// Whether every span of `f` holds the same bytes in `old` and `new`.
pub open spec fn fields_same(old: Seq<u8>, new: Seq<u8>, f: Fields) -> bool {
    &&& slot_same(old, new, f.key)
    &&& slot_same(old, new, f.size)
    &&& slot_same(old, new, f.e_tag)
    &&& slot_same(old, new, f.last_modified)
    &&& slot_same(old, new, f.resource_type)
}

pub(crate) proof fn lemma_trimmed_same(old: Seq<u8>, new: Seq<u8>, s: Span)
    requires
        s.0 <= s.1 <= old.len(),
        new.len() == old.len(),
        span_text(new, s) == span_text(old, s),
    ensures
        trim_span(new, s) == trim_span(old, s),
        span_text(new, trim_span(new, s)) == span_text(old, trim_span(old, s)),
{
    lemma_trim_lead_same(old, new, s.0 as int, s.1 as int);
    let a = trim_lead(old, s.0 as int, s.1 as int);
    lemma_trim(old, s.0 as int, s.1 as int);
    assert(old.subrange(a, s.1 as int) =~= span_text(old, s).subrange(a - s.0, s.1 - s.0));
    assert(new.subrange(a, s.1 as int) =~= span_text(new, s).subrange(a - s.0, s.1 - s.0));
    lemma_trim_trail_same(old, new, a, s.1 as int);
    let z = trim_trail(old, a, s.1 as int);
    assert(old.subrange(a, z) =~= span_text(old, s).subrange(a - s.0, z - s.0));
    assert(new.subrange(a, z) =~= span_text(new, s).subrange(a - s.0, z - s.0));
}

proof fn lemma_entry_text_same(old: Seq<u8>, new: Seq<u8>, f: Fields)
    requires
        new.len() == old.len(),
        fields_in(f, 0, old.len() as int),
        fields_same(old, new, f),
    ensures
        entry_text(new, f) == entry_text(old, f),
{
    if let Some(s) = f.size {
        lemma_trimmed_same(old, new, s);
    }
    if let Some(s) = f.e_tag {
        lemma_trimmed_same(old, new, s);
    }
    if let Some(s) = f.last_modified {
        lemma_trimmed_same(old, new, s);
    }
    if let Some(s) = f.resource_type {
        lemma_trimmed_same(old, new, s);
    }
}

pub(crate) proof fn lemma_span_kept(old: Seq<u8>, new: Seq<u8>, w: Span, r: Span)
    requires
        same_outside(old, new, w),
        r.0 <= r.1 <= old.len(),
        apart(Some(r), Some(w)) || r.0 == r.1,
    ensures
        span_text(new, r) == span_text(old, r),
{
    assert(span_text(new, r) =~= span_text(old, r)) by {
        assert forall|k: int| 0 <= k < r.1 - r.0 implies span_text(new, r)[k] == span_text(old, r)[k] by {
            assert(new[r.0 + k] == old[r.0 + k]);
        }
    }
}

proof fn lemma_span_kept_entry(old: Seq<u8>, new: Seq<u8>, f: Fields, r: Span)
    requires
        same_outside_entry(old, new, f),
        r.0 <= r.1 <= old.len(),
        apart(Some(r), f.key),
        apart(Some(r), f.e_tag),
        apart(Some(r), f.last_modified),
    ensures
        span_text(new, r) == span_text(old, r),
{
    assert(span_text(new, r) =~= span_text(old, r)) by {
        assert forall|k: int| 0 <= k < r.1 - r.0 implies span_text(new, r)[k] == span_text(old, r)[k] by {
            assert(new[r.0 + k] == old[r.0 + k]);
        }
    }
}

/// Returns whether `s` holds a zero byte.
fn has_zero(s: &[u8]) -> (r: bool)
    ensures
        r == s@.contains(0u8),
{
    let mut k: usize = 0;
    while k < s.len()
        invariant
            k <= s@.len(),
            forall|m: int| 0 <= m < k ==> s@[m] != 0,
        decreases s@.len() - k,
    {
        if s[k] == 0 {
            assert(s@[k as int] == 0u8);
            return true;
        }
        k = k + 1;
    }
    false
}

/// Decodes the text of one entry in place and returns where it now stands.
#[verifier::rlimit(60)]
#[verifier::spinoff_prover]
fn build_entry(b: &mut [u8], f: Fields) -> (r: Result<Built, Error>)
    requires
        old(b)@.len() <= isize::MAX,
        fields_in(f, 0, old(b)@.len() as int),
        fields_apart(f),
    ensures
        r is Ok <==> entry_text(old(b)@, f) is Some,
        r matches Err(e) ==> e == body_fault(),
        r matches Ok(x) ==> built_is(final(b)@, x, entry_text(old(b)@, f)->0, f),
        same_outside_entry(old(b)@, final(b)@, f),
{
    let ghost orig = b@;
    let ks = match f.key {
        None => return Err(Error::Response(ResponseFault::Body)),
        Some(k) => k,
    };
    if ks.0 == ks.1 {
        return Err(Error::Response(ResponseFault::Body));
    }
    let directory = match f.resource_type {
        Some(s) => {
            let t = trim_range(b, s);
            bytes_equal(vstd::slice::slice_subrange(b, t.0, t.1), "directory".as_bytes())
        },
        None => false,
    };
    assert(directory == is_directory(orig, f));
    let size = match f.size {
        Some(s) => {
            let t = trim_range(b, s);
            match decimal(vstd::slice::slice_subrange(b, t.0, t.1)) {
                Some(v) => Some(v),
                None => {
                    return Err(Error::Response(ResponseFault::Body));
                },
            }
        },
        None => {
            if !f.prefix && !directory {
                return Err(Error::Response(ResponseFault::Body));
            }
            None
        },
    };
    assert(size_of(orig, f) == Some(size));
    let kind = if f.prefix {
        EntryKind::Prefix
    } else if directory {
        EntryKind::Directory
    } else {
        EntryKind::Object
    };
    let key_len = match decode_at(b, ks.0, ks.1, f.percent) {
        Ok(n) => n,
        Err(e) => {
            return Err(e);
        },
    };
    let ghost after_key = b@;
    if key_len < ks.1 - ks.0 && f.percent {
        if has_zero(vstd::slice::slice_subrange(b, ks.0, ks.0 + key_len)) {
            return Err(Error::Response(ResponseFault::Body));
        }
    }
    let e_tag = match f.e_tag {
        None => None,
        Some(s) => {
            proof {
                lemma_span_kept(orig, b@, (ks.0, ks.1), s);
                lemma_trimmed_same(orig, b@, s);
            }
            let t = trim_range(b, s);
            let n = match decode_at(b, t.0, t.1, false) {
                Ok(n) => n,
                Err(e) => {
                    return Err(e);
                },
            };
            Some((t.0, t.0 + n))
        },
    };
    let ghost after_tag = b@;
    let last_modified = match f.last_modified {
        None => None,
        Some(s) => {
            proof {
                lemma_span_kept(orig, after_key, (ks.0, ks.1), s);
                if let Some(es) = f.e_tag {
                    lemma_span_kept(after_key, b@, trim_span(orig, es), s);
                }
                lemma_trimmed_same(orig, b@, s);
            }
            let t = trim_range(b, s);
            let n = match decode_at(b, t.0, t.1, false) {
                Ok(n) => n,
                Err(e) => {
                    return Err(e);
                },
            };
            Some((t.0, t.0 + n))
        },
    };
    let key_range = (ks.0, ks.0 + key_len);
    proof {
        if let Some(es) = f.e_tag {
            lemma_trim(orig, es.0 as int, es.1 as int);
            lemma_span_kept(after_key, after_tag, trim_span(orig, es), key_range);
        }
        if let Some(ls) = f.last_modified {
            lemma_trim(orig, ls.0 as int, ls.1 as int);
            lemma_span_kept(after_tag, b@, trim_span(orig, ls), key_range);
            if let Some(r) = e_tag {
                lemma_span_kept(after_tag, b@, trim_span(orig, ls), r);
            }
        }
    }
    if utf8_text(vstd::slice::slice_subrange(b, key_range.0, key_range.1)).is_none() {
        return Err(Error::Response(ResponseFault::Body));
    }
    if !directory {
        if let Some(r) = e_tag {
            if utf8_text(vstd::slice::slice_subrange(b, r.0, r.1)).is_none() {
                return Err(Error::Response(ResponseFault::Body));
            }
        }
    }
    if let Some(r) = last_modified {
        if utf8_text(vstd::slice::slice_subrange(b, r.0, r.1)).is_none() {
            return Err(Error::Response(ResponseFault::Body));
        }
    }
    Ok(Built {
        kind,
        key: key_range,
        size: if directory { None } else { size },
        e_tag: if directory { None } else { e_tag },
        last_modified,
    })
}

/// Whether the first `k` entries were built into ranges of `b` that hold
/// their text.
#[verifier::opaque]
pub open spec fn built_so_far(orig: Seq<u8>, b: Seq<u8>, es: Seq<Fields>, built: Seq<Built>, k: int) -> bool {
    &&& built.len() == k
    &&& forall|j: int|
        0 <= j < k ==> #[trigger] entry_text(orig, es[j]) is Some && built_is(
            b,
            built[j],
            entry_text(orig, es[j])->0,
            es[j],
        )
}

/// Whether the entries from `k` on, and the marker, still hold the bytes of
/// `orig`.
#[verifier::opaque]
pub open spec fn rest_same(orig: Seq<u8>, b: Seq<u8>, es: Seq<Fields>, m: Option<Span>, k: int) -> bool {
    &&& forall|j: int| k <= j < es.len() ==> fields_same(orig, b, #[trigger] es[j])
    &&& slot_same(orig, b, m)
}

proof fn lemma_rest_at(orig: Seq<u8>, b: Seq<u8>, es: Seq<Fields>, m: Option<Span>, k: int)
    requires
        rest_same(orig, b, es, m, k),
    ensures
        0 <= k < es.len() ==> fields_same(orig, b, es[k]),
        slot_same(orig, b, m),
{
    reveal(rest_same);
}

proof fn lemma_built_all(orig: Seq<u8>, b: Seq<u8>, es: Seq<Fields>, built: Seq<Built>, k: int)
    requires
        built_so_far(orig, b, es, built, k),
    ensures
        built.len() == k,
        forall|j: int|
            0 <= j < k ==> #[trigger] entry_text(orig, es[j]) is Some && built_is(
                b,
                built[j],
                entry_text(orig, es[j])->0,
                es[j],
            ),
{
    reveal(built_so_far);
}

proof fn lemma_rest_step(
    orig: Seq<u8>,
    before: Seq<u8>,
    after: Seq<u8>,
    es: Seq<Fields>,
    m: Option<Span>,
    k: int,
)
    requires
        0 <= k < es.len(),
        before.len() == orig.len(),
        entries_ok(es, 0, orig.len() as int),
        slot_in(m, 0, orig.len() as int),
        marker_apart(m, es),
        rest_same(orig, before, es, m, k),
        same_outside_entry(before, after, es[k]),
    ensures
        rest_same(orig, after, es, m, k + 1),
{
    reveal(rest_same);
    let f = es[k];
    assert forall|j: int| k + 1 <= j < es.len() implies fields_same(orig, after, #[trigger] es[j]) by {
        assert(fields_disjoint(f, es[j]));
        assert(fields_in(es[j], 0, orig.len() as int));
        assert(fields_same(orig, before, es[j]));
        if let Some(s) = es[j].key {
            lemma_span_kept_entry(before, after, f, s);
        }
        if let Some(s) = es[j].size {
            lemma_span_kept_entry(before, after, f, s);
        }
        if let Some(s) = es[j].e_tag {
            lemma_span_kept_entry(before, after, f, s);
        }
        if let Some(s) = es[j].last_modified {
            lemma_span_kept_entry(before, after, f, s);
        }
        if let Some(s) = es[j].resource_type {
            lemma_span_kept_entry(before, after, f, s);
        }
    }
    if let Some(s) = m {
        assert(slot_apart(m, f));
        lemma_span_kept_entry(before, after, f, s);
    }
}

proof fn lemma_built_step(
    orig: Seq<u8>,
    before: Seq<u8>,
    after: Seq<u8>,
    es: Seq<Fields>,
    built: Seq<Built>,
    x: Built,
    k: int,
)
    requires
        0 <= k < es.len(),
        before.len() == orig.len(),
        entries_ok(es, 0, orig.len() as int),
        built_so_far(orig, before, es, built, k),
        same_outside_entry(before, after, es[k]),
        entry_text(orig, es[k]) is Some,
        built_is(after, x, entry_text(orig, es[k])->0, es[k]),
    ensures
        built_so_far(orig, after, es, built.push(x), k + 1),
{
    reveal(built_so_far);
    let f = es[k];
    let nb = built.push(x);
    assert forall|j: int| 0 <= j < k + 1 implies #[trigger] entry_text(orig, es[j]) is Some && built_is(
        after,
        nb[j],
        entry_text(orig, es[j])->0,
        es[j],
    ) by {
        if j < k {
            let g = es[j];
            let y = built[j];
            assert(nb[j] == y);
            assert(built_is(before, y, entry_text(orig, g)->0, g));
            assert(fields_disjoint(g, f));
            lemma_span_kept_entry(before, after, f, y.key);
            if let Some(r) = y.e_tag {
                lemma_span_kept_entry(before, after, f, r);
            }
            if let Some(r) = y.last_modified {
                lemma_span_kept_entry(before, after, f, r);
            }
        } else {
            assert(nb[j] == x);
        }
    }
}

/// Whether every kept value of every entry holds the same bytes in `orig`
/// and `b`.
#[verifier::opaque]
pub open spec fn caps_same(orig: Seq<u8>, b: Seq<u8>, es: Seq<Fields>) -> bool {
    forall|j: int, i: int|
        0 <= j < es.len() && 0 <= i < PROPERTY_COUNT ==> slot_same(orig, b, #[trigger] es[j].caps@[i])
}

proof fn lemma_caps_at(orig: Seq<u8>, b: Seq<u8>, es: Seq<Fields>, j: int, i: int)
    requires
        caps_same(orig, b, es),
        0 <= j < es.len(),
        0 <= i < PROPERTY_COUNT,
    ensures
        slot_same(orig, b, es[j].caps@[i]),
{
    reveal(caps_same);
}

/// Decoding the entry `k` keeps every kept value of every entry.
proof fn lemma_caps_step(orig: Seq<u8>, before: Seq<u8>, after: Seq<u8>, es: Seq<Fields>, k: int)
    requires
        0 <= k < es.len(),
        before.len() == orig.len(),
        entries_ok(es, 0, orig.len() as int),
        caps_same(orig, before, es),
        same_outside_entry(before, after, es[k]),
    ensures
        caps_same(orig, after, es),
{
    reveal(caps_same);
    let f = es[k];
    assert forall|j: int, i: int| 0 <= j < es.len() && 0 <= i < PROPERTY_COUNT implies slot_same(
        orig,
        after,
        #[trigger] es[j].caps@[i],
    ) by {
        let g = es[j];
        assert(fields_in(g, 0, orig.len() as int));
        assert(slot_in(g.caps@[i], 0, orig.len() as int));
        if let Some(r) = g.caps@[i] {
            if j == k {
                assert(caps_clear(f, f));
            } else if j < k {
                assert(fields_disjoint(g, f));
                assert(caps_clear(g, f));
            } else {
                assert(fields_disjoint(f, g));
                assert(off_caps(f.key, g));
                assert(off_caps(f.e_tag, g));
                assert(off_caps(f.last_modified, g));
            }
            lemma_span_kept_entry(before, after, f, r);
        }
    }
}

/// Decoding inside the marker keeps every kept value of every entry.
proof fn lemma_caps_marker(orig: Seq<u8>, before: Seq<u8>, after: Seq<u8>, es: Seq<Fields>, m: Option<Span>, w: Span)
    requires
        before.len() == orig.len(),
        entries_ok(es, 0, orig.len() as int),
        caps_same(orig, before, es),
        same_outside(before, after, w),
        m matches Some(s) && s.0 <= w.0 <= w.1 <= s.1,
        marker_apart(m, es),
    ensures
        caps_same(orig, after, es),
{
    reveal(caps_same);
    assert forall|j: int, i: int| 0 <= j < es.len() && 0 <= i < PROPERTY_COUNT implies slot_same(
        orig,
        after,
        #[trigger] es[j].caps@[i],
    ) by {
        let g = es[j];
        assert(fields_in(g, 0, orig.len() as int));
        assert(slot_in(g.caps@[i], 0, orig.len() as int));
        if let Some(r) = g.caps@[i] {
            assert(slot_apart(m, g));
            assert(off_caps(m, g));
            lemma_span_kept(before, after, w, r);
        }
    }
}

/// Decodes the first `n` entries in place, in order, and returns where
/// their text now stands. Stops at the first entry that cannot be read.
fn build_entries(
    body: &mut [u8],
    fields: &Vec<Fields>,
    marker: Option<Span>,
    n: usize,
) -> (r: Result<Vec<Built>, Error>)
    requires
        n <= fields@.len(),
        old(body)@.len() <= isize::MAX,
        entries_ok(fields@, 0, old(body)@.len() as int),
        slot_in(marker, 0, old(body)@.len() as int),
        marker_apart(marker, fields@),
    ensures
        final(body)@.len() == old(body)@.len(),
        r matches Err(e) ==> e == body_fault() && exists|k: int| 0 <= k < n && #[trigger] entry_text(old(body)@, fields@[k]) is None,
        r matches Ok(built) ==> built_so_far(old(body)@, final(body)@, fields@, built@, n as int)
            && rest_same(old(body)@, final(body)@, fields@, marker, n as int)
            && caps_same(old(body)@, final(body)@, fields@),
{
    let ghost orig = body@;
    let mut built: Vec<Built> = Vec::new();
    let mut k: usize = 0;
    let mut failed = false;
    let ghost mut bad: int = 0;
    proof {
        reveal(built_so_far);
        reveal(rest_same);
        reveal(caps_same);
        assert forall|j: int| 0 <= j < fields@.len() implies fields_same(orig, body@, #[trigger] fields@[j]) by {}
    }
    while k < n
        invariant_except_break
            built_so_far(orig, body@, fields@, built@, k as int),
            rest_same(orig, body@, fields@, marker, k as int),
            !failed,
        invariant
            k <= n <= fields@.len(),
            body@.len() == orig.len(),
            orig.len() <= isize::MAX,
            entries_ok(fields@, 0, orig.len() as int),
            slot_in(marker, 0, orig.len() as int),
            marker_apart(marker, fields@),
            caps_same(orig, body@, fields@),
        ensures
            failed ==> 0 <= bad < n && entry_text(orig, fields@[bad]) is None,
            !failed ==> k == n && built_so_far(orig, body@, fields@, built@, n as int) && rest_same(
                orig,
                body@,
                fields@,
                marker,
                n as int,
            ),
        decreases n - k,
    {
        let f = fields[k];
        let ghost before = body@;
        proof {
            assert(fields_in(f, 0, orig.len() as int));
            lemma_rest_at(orig, before, fields@, marker, k as int);
            lemma_entry_text_same(orig, before, f);
        }
        match build_entry(body, f) {
            Ok(x) => {
                proof {
                    lemma_caps_step(orig, before, body@, fields@, k as int);
                    lemma_rest_step(orig, before, body@, fields@, marker, k as int);
                    lemma_built_step(orig, before, body@, fields@, built@, x, k as int);
                }
                built.push(x);
                k = k + 1;
            },
            Err(_) => {
                proof {
                    lemma_caps_step(orig, before, body@, fields@, k as int);
                    bad = k as int;
                }
                failed = true;
                break;
            },
        }
    }
    if failed {
        return Err(Error::Response(ResponseFault::Body));
    }
    Ok(built)
}

proof fn lemma_built_kept(
    orig: Seq<u8>,
    before: Seq<u8>,
    after: Seq<u8>,
    es: Seq<Fields>,
    built: Seq<Built>,
    n: int,
    m: Option<Span>,
    w: Span,
)
    requires
        0 <= n <= es.len(),
        built_so_far(orig, before, es, built, n),
        same_outside(before, after, w),
        m matches Some(s) && s.0 <= w.0 <= w.1 <= s.1,
        marker_apart(m, es),
    ensures
        built_so_far(orig, after, es, built, n),
{
    reveal(built_so_far);
    assert forall|j: int| 0 <= j < n implies #[trigger] entry_text(orig, es[j]) is Some && built_is(
        after,
        built[j],
        entry_text(orig, es[j])->0,
        es[j],
    ) by {
        let g = es[j];
        let y = built[j];
        assert(slot_apart(m, g));
        lemma_span_kept(before, after, w, y.key);
        if let Some(r) = y.e_tag {
            lemma_span_kept(before, after, w, r);
        }
        if let Some(r) = y.last_modified {
            lemma_span_kept(before, after, w, r);
        }
    }
}

/// The values that a read keeps for an entry: at the place of each
/// property in `w`, the bytes of its value if the entry wrote one.
pub open spec fn entry_values(b: Seq<u8>, f: Fields, w: PropertySet) -> Seq<Option<Seq<u8>>> {
    Seq::new(
        PROPERTY_COUNT as nat,
        |i: int| if w.has(i) && f.caps@[i] is Some { Some(span_text(b, f.caps@[i]->0)) } else { None },
    )
}

/// The text of the first `n` entries of the page in `b`.
pub open spec fn page_texts(b: Seq<u8>, w: PropertySet, n: nat) -> Seq<EntryText> {
    Seq::new(n, |k: int| entry_text(b, (page_of(b, w)->0).0[k])->0)
}

/// The values kept for the entry at place `k` of the page in `b`.
pub open spec fn page_values(b: Seq<u8>, w: PropertySet, k: int) -> Seq<Option<Seq<u8>>> {
    entry_values(b, (page_of(b, w)->0).0[k], w)
}

/// Whether `out` is what `build` returned for an entry that holds the text
/// `t` and for the values `vals`.
pub open spec fn built_from<'b, E, F: Fn(ListEntry<'b>, PropertyValues<'b>) -> E>(
    build: F,
    out: E,
    t: EntryText,
    vals: Seq<Option<Seq<u8>>>,
) -> bool {
    exists|e: ListEntry<'b>, v: PropertyValues<'b>|
        #![trigger call_ensures(build, (e, v), out)]
        entry_is(e, t) && v.spec_values() == vals && call_ensures(build, (e, v), out)
}

/// Returns the values of `wanted` that the entry `f` wrote, as borrows of
/// `frozen`.
fn values_of<'b>(frozen: &'b [u8], f: &Fields, wanted: PropertySet, Ghost(orig): Ghost<Seq<u8>>) -> (r: PropertyValues<'b>)
    requires
        caps_in(*f, 0, frozen@.len() as int),
        forall|i: int| 0 <= i < PROPERTY_COUNT ==> slot_same(orig, frozen@, #[trigger] f.caps@[i]),
    ensures
        r.spec_values() == entry_values(orig, *f, wanted),
{
    let mut values: [Option<&'b [u8]>; PROPERTY_COUNT] = [None; PROPERTY_COUNT];
    let mut i: usize = 0;
    while i < PROPERTY_COUNT
        invariant
            i <= PROPERTY_COUNT,
            caps_in(*f, 0, frozen@.len() as int),
            forall|x: int| 0 <= x < PROPERTY_COUNT ==> slot_same(orig, frozen@, #[trigger] f.caps@[x]),
            forall|x: int| 0 <= x < i ==> opt_bytes(#[trigger] values@[x]) == match f.caps@[x] {
                Some(s) => Some(span_text(orig, s)),
                None => None,
            },
        decreases PROPERTY_COUNT - i,
    {
        match f.caps[i] {
            Some(s) => {
                assert(slot_in(f.caps@[i as int], 0, frozen@.len() as int));
                assert(slot_same(orig, frozen@, f.caps@[i as int]));
                let v = vstd::slice::slice_subrange(frozen, s.0, s.1);
                values[i] = Some(v);
            },
            None => {
                values[i] = None;
            },
        }
        i = i + 1;
    }
    let r = PropertyValues { wanted, values };
    assert(r.spec_values() =~= entry_values(orig, *f, wanted));
    r
}

/// Writes what `build` makes of each of the first `n` entries, whose text
/// stands in `frozen` where `built` says, into `into`.
fn write_entries<'b, E, F: Fn(ListEntry<'b>, PropertyValues<'b>) -> E>(
    frozen: &'b [u8],
    built: &Vec<Built>,
    fields: &Vec<Fields>,
    into: &mut [E],
    n: usize,
    wanted: PropertySet,
    build: F,
    Ghost(orig): Ghost<Seq<u8>>,
)
    requires
        n <= old(into)@.len(),
        n <= fields@.len(),
        frozen@.len() == orig.len(),
        entries_ok(fields@, 0, orig.len() as int),
        built_so_far(orig, frozen@, fields@, built@, n as int),
        caps_same(orig, frozen@, fields@),
        forall|e: ListEntry<'b>, v: PropertyValues<'b>| call_requires(build, (e, v)),
    ensures
        final(into)@.len() == old(into)@.len(),
        forall|j: int| 0 <= j < n ==> built_from(
            build,
            #[trigger] final(into)@[j],
            entry_text(orig, fields@[j])->0,
            entry_values(orig, fields@[j], wanted),
        ),
        forall|j: int| n <= j < old(into)@.len() ==> #[trigger] final(into)@[j] == old(into)@[j],
{
    proof { lemma_built_all(orig, frozen@, fields@, built@, n as int); }
    let ghost into0 = into@;
    let mut k: usize = 0;
    while k < n
        invariant
            k <= n <= into@.len(),
            n <= fields@.len(),
            into@.len() == into0.len(),
            built@.len() == n,
            frozen@.len() == orig.len(),
            entries_ok(fields@, 0, orig.len() as int),
            caps_same(orig, frozen@, fields@),
            forall|e: ListEntry<'b>, v: PropertyValues<'b>| call_requires(build, (e, v)),
            forall|j: int| 0 <= j < n ==> #[trigger] entry_text(orig, fields@[j]) is Some && built_is(
                frozen@,
                built@[j],
                entry_text(orig, fields@[j])->0,
                fields@[j],
            ),
            forall|j: int| 0 <= j < k ==> built_from(
                build,
                #[trigger] into@[j],
                entry_text(orig, fields@[j])->0,
                entry_values(orig, fields@[j], wanted),
            ),
            forall|j: int| k <= j < into@.len() ==> #[trigger] into@[j] == into0[j],
        decreases n - k,
    {
        let x = built[k];
        let ghost t = entry_text(orig, fields@[k as int])->0;
        assert(built_is(frozen@, x, t, fields@[k as int]));
        assert(valid_utf8(t.key)) by {
            assert(entry_text(orig, fields@[k as int]) is Some);
        }
        let key = match utf8_text(vstd::slice::slice_subrange(frozen, x.key.0, x.key.1)) {
            Some(s) => s,
            None => {
                assert(false);
                ""
            },
        };
        let e_tag = match x.e_tag {
            None => None,
            Some(r) => utf8_text(vstd::slice::slice_subrange(frozen, r.0, r.1)),
        };
        let last_modified = match x.last_modified {
            None => None,
            Some(r) => utf8_text(vstd::slice::slice_subrange(frozen, r.0, r.1)),
        };
        let entry = ListEntry { kind: x.kind, key, size: x.size, e_tag, last_modified };
        assert(entry_is(entry, t));
        let f = &fields[k];
        proof {
            assert(fields_in(*f, 0, orig.len() as int));
            assert forall|i: int| 0 <= i < PROPERTY_COUNT implies slot_same(orig, frozen@, #[trigger] f.caps@[i]) by {
                lemma_caps_at(orig, frozen@, fields@, k as int, i);
            }
        }
        let values = values_of(frozen, f, wanted, Ghost(orig));
        let out = build(entry, values);
        proof {
            assert(call_ensures(build, (entry, values), out));
        }
        into[k] = out;
        k = k + 1;
    }
}

/// What reading a page into `into` states of it, given the page the read
/// found: each entry that fits is what `build` made of its text and its
/// values, and the rest of the array is as it was.
pub open spec fn filled_as<'b, E, F: Fn(ListEntry<'b>, PropertyValues<'b>) -> E>(
    orig: Seq<u8>,
    w: PropertySet,
    build: F,
    before: Seq<E>,
    after: Seq<E>,
    es: Seq<EntryText>,
) -> bool {
    &&& forall|k: int| 0 <= k < es.len() ==> built_from(build, #[trigger] after[k], es[k], page_values(orig, w, k))
    &&& forall|k: int| es.len() <= k < after.len() ==> #[trigger] after[k] == before[k]
}

/// Reads a listing page out of `body` into `into`, keeping the values of
/// the properties in `wanted`: each entry that fits is written as what
/// `build` makes of it and of its values.
///
/// The text of each entry that fits is decoded where it stands, so the
/// entries and the values borrow the body, and the body is no longer a
/// document. A group of keys gives no values. A page with more entries than
/// the array is refused once every entry that fits was written.
pub fn fill_listing_with<'b, E, F: Fn(ListEntry<'b>, PropertyValues<'b>) -> E>(
    body: &'b mut [u8],
    into: &mut [E],
    wanted: PropertySet,
    build: F,
) -> (r: Result<Listing<'b>, Error>)
    requires
        old(body)@.len() <= isize::MAX,
        forall|e: ListEntry<'b>, v: PropertyValues<'b>| call_requires(build, (e, v)),
    ensures
        final(into)@.len() == old(into)@.len(),
        r matches Err(e) ==> listing_result(old(body)@, old(into)@.len() as int, wanted) == Err::<(Seq<EntryText>, Option<Seq<u8>>), Error>(e),
        r matches Ok(l) ==> (listing_result(old(body)@, old(into)@.len() as int, wanted) matches Ok((es, m)) && {
            &&& l.filled == es.len()
            &&& same_text(l.next_marker, m)
            &&& filled_as(old(body)@, wanted, build, old(into)@, final(into)@, es)
        }),
        r matches Err(Error::Capacity(_)) ==> filled_as(
            old(body)@,
            wanted,
            build,
            old(into)@,
            final(into)@,
            page_texts(old(body)@, wanted, old(into)@.len()),
        ),
{
    let ghost orig = body@;
    let (fields, marker) = match read_page(body, wanted) {
        None => {
            return Err(Error::Response(ResponseFault::Body));
        },
        Some(p) => p,
    };
    let room = into.len();
    let n = if fields.len() < room { fields.len() } else { room };
    let built = match build_entries(body, &fields, marker, n) {
        Ok(b) => b,
        Err(e) => {
            return Err(e);
        },
    };
    proof {
        lemma_built_all(orig, body@, fields@, built@, n as int);
        lemma_rest_at(orig, body@, fields@, marker, n as int);
    }
    let ghost before_marker = body@;
    let marker_range = match marker {
        None => None,
        Some(s) => {
            proof {
                lemma_trimmed_same(orig, body@, s);
            }
            let t = trim_range(body, s);
            let len = match decode_at(body, t.0, t.1, false) {
                Ok(len) => len,
                Err(e) => {
                    return Err(e);
                },
            };
            proof {
                lemma_built_kept(orig, before_marker, body@, fields@, built@, n as int, marker, (t.0, t.1));
                lemma_caps_marker(orig, before_marker, body@, fields@, marker, (t.0, t.1));
            }
            if len == 0 {
                None
            } else {
                Some((t.0, t.0 + len))
            }
        },
    };
    let frozen: &'b [u8] = body;
    let next_marker = match marker_range {
        None => None,
        Some(r) => match utf8_text(vstd::slice::slice_subrange(frozen, r.0, r.1)) {
            None => {
                return Err(Error::Response(ResponseFault::Body));
            },
            Some(text) => Some(text),
        },
    };
    let ghost into0 = into@;
    write_entries(frozen, &built, &fields, into, n, wanted, build, Ghost(orig));
    if fields.len() > room {
        proof {
            let es = page_texts(orig, wanted, room as nat);
            assert forall|k: int| 0 <= k < es.len() implies built_from(build, #[trigger] into@[k], es[k], page_values(orig, wanted, k)) by {
                assert(es[k] == entry_text(orig, fields@[k])->0);
                assert(page_values(orig, wanted, k) == entry_values(orig, fields@[k], wanted));
            }
        }
        return Err(
            Error::Capacity(
                CapacityError {
                    required: fields.len(),
                    available: room,
                    required_headers: 0,
                    available_headers: 0,
                },
            ),
        );
    }
    proof {
        let es = (listing_result(orig, room as int, wanted)->Ok_0).0;
        assert forall|k: int| 0 <= k < es.len() implies built_from(build, #[trigger] into@[k], es[k], page_values(orig, wanted, k)) by {
            assert(es[k] == entry_text(orig, fields@[k])->0);
            assert(page_values(orig, wanted, k) == entry_values(orig, fields@[k], wanted));
        }
    }
    Ok(Listing { filled: n, next_marker })
}

/// Reads a listing page out of `body` into `into`.
///
/// The text of each entry that fits is decoded where it stands, so the
/// entries borrow the body, and the body is no longer a document.
pub fn fill_listing<'b>(body: &'b mut [u8], into: &mut [ListEntry<'b>]) -> (r: Result<Listing<'b>, Error>)
    requires
        old(body)@.len() <= isize::MAX,
    ensures
        final(into)@.len() == old(into)@.len(),
        r matches Err(e) ==> listing_result(old(body)@, old(into)@.len() as int, no_properties()) == Err::<(Seq<EntryText>, Option<Seq<u8>>), Error>(e),
        r matches Ok(l) ==> (listing_result(old(body)@, old(into)@.len() as int, no_properties()) matches Ok((es, m)) && {
            &&& l.filled == es.len()
            &&& same_text(l.next_marker, m)
            &&& forall|k: int| 0 <= k < es.len() ==> entry_is(#[trigger] final(into)@[k], es[k])
            &&& forall|k: int| es.len() <= k < final(into)@.len() ==> #[trigger] final(into)@[k] == old(into)@[k]
        }),
        r matches Err(Error::Capacity(_)) ==> forall|k: int| 0 <= k < final(into)@.len() ==> entry_is(
            #[trigger] final(into)@[k],
            page_texts(old(body)@, no_properties(), old(into)@.len())[k],
        ),
{
    let keep = |e: ListEntry<'b>, v: PropertyValues<'b>| -> (r: ListEntry<'b>)
        ensures
            r == e,
    { e };
    let r = fill_listing_with(body, into, PropertySet::default(), keep);
    proof {
        if r is Ok {
            let es = (listing_result(old(body)@, old(into)@.len() as int, no_properties())->Ok_0).0;
            assert forall|k: int| 0 <= k < es.len() implies entry_is(#[trigger] into@[k], es[k]) by {
                assert(built_from(keep, into@[k], es[k], page_values(old(body)@, no_properties(), k)));
                let (e, v) = choose|e: ListEntry<'b>, v: PropertyValues<'b>|
                    #![trigger call_ensures(keep, (e, v), into@[k])]
                    entry_is(e, es[k]) && v.spec_values() == page_values(old(body)@, no_properties(), k)
                        && call_ensures(keep, (e, v), into@[k]);
                assert(into@[k] == e);
            }
        }
        if r matches Err(Error::Capacity(_)) {
            let es = page_texts(old(body)@, no_properties(), old(into)@.len());
            assert forall|k: int| 0 <= k < into@.len() implies entry_is(#[trigger] into@[k], es[k]) by {
                assert(built_from(keep, into@[k], es[k], page_values(old(body)@, no_properties(), k)));
                let (e, v) = choose|e: ListEntry<'b>, v: PropertyValues<'b>|
                    #![trigger call_ensures(keep, (e, v), into@[k])]
                    entry_is(e, es[k]) && v.spec_values() == page_values(old(body)@, no_properties(), k)
                        && call_ensures(keep, (e, v), into@[k]);
                assert(into@[k] == e);
            }
        }
    }
    r
}


/// The fields of `f` without the values it kept.
pub open spec fn plain(f: Fields) -> Fields {
    Fields { caps: [None; PROPERTY_COUNT], ..f }
}

/// The fields of each entry of `es` without the values it kept.
pub open spec fn plain_all(es: Seq<Fields>) -> Seq<Fields> {
    es.map_values(|f: Fields| plain(f))
}

/// The value of a leaf element ends where a skip of it ends.
proof fn lemma_value_is_skip(b: Seq<u8>, e: int, t: Tag)
    ensures
        tag_value(b, e, t) matches Some((_, x)) ==> skip_at(b, e, t) == Some(x),
{
    if !t.empty {
        reveal_with_fuel(skip_from, 2);
    }
}

proof fn lemma_keep_nothing(f: Fields, i: int, v: Span)
    ensures
        keep_value(f, no_properties(), i, v) == f,
{
    PropertySet::lemma_empty();
}

/// Reading a child of `<Properties>` that keeps values ends where one that
/// keeps none does, and fills the same field.
proof fn lemma_props_step_plain(b: Seq<u8>, j: int, w: PropertySet)
    ensures
        props_step(b, j, w) matches Some((k, v, e)) ==> (props_step(b, j, no_properties()) matches Some((k2, v2, e2)) && {
            &&& e2 == e
            &&& (k <= 5 || k == 7) ==> k2 == k && v2 == v
            &&& (k == 6 || k >= 8) ==> (k2 == 6 || k2 >= 8)
        }),
{
    PropertySet::lemma_empty();
    if let Some(Child::Open(t, e)) = child_at(b, j, "Properties".spec_bytes()) {
        lemma_value_is_skip(b, e as int, t);
    }
}

proof fn lemma_put_field_plain(f: Fields, w: PropertySet, k: int, v: Span, k2: int, v2: Span)
    requires
        (k <= 5 || k == 7) ==> k2 == k && v2 == v,
        (k == 6 || k >= 8) ==> (k2 == 6 || k2 >= 8),
    ensures
        put_field(f, w, k, v) matches Some(g) ==> put_field(plain(f), no_properties(), k2, v2) == Some(plain(g)),
        put_field(f, w, k, v) is None ==> put_field(plain(f), no_properties(), k2, v2) is None,
{
    PropertySet::lemma_empty();
    if k >= 8 {
        lemma_keep_nothing(plain(f), k2 - 8, v2);
    }
    if k2 >= 8 {
        lemma_keep_nothing(plain(f), k2 - 8, v2);
    }
}

proof fn lemma_props_plain(b: Seq<u8>, i: int, w: PropertySet, f: Fields)
    ensures
        props_from(b, i, w, f) matches Some((g, e)) ==> props_from(b, i, no_properties(), plain(f)) == Some((plain(g), e)),
    decreases b.len() - i,
{
    if 0 <= i <= b.len() {
        let j = space_end(b, i);
        lemma_props_step_plain(b, j, w);
        if let Some((k, v, e)) = props_step(b, j, w) {
            let (k2, v2, e2) = props_step(b, j, no_properties())->0;
            if !(k == 5 || k == 7) {
                lemma_put_field_plain(f, w, k, v, k2, v2);
                if let Some(g) = put_field(f, w, k, v) {
                    if i < e <= b.len() {
                        lemma_props_plain(b, e, w, g);
                    }
                }
            }
        }
    }
}

proof fn lemma_blob_step_plain(b: Seq<u8>, j: int, w: PropertySet, f: Fields)
    ensures
        blob_step(b, j, w, f) matches Some((g, e, c)) ==> blob_step(b, j, no_properties(), plain(f)) == Some((plain(g), e, c)),
{
    PropertySet::lemma_empty();
    if lit_at(b, j, "<Properties>".spec_bytes()) {
        lemma_props_plain(b, j + "<Properties>".spec_bytes().len(), w, f);
    }
    if let Some(Known::Read(p, v, e)) = known_at(b, j) {
        lemma_keep_nothing(plain(f), p.spec_index() as int, v);
    }
    if let Some(Child::Open(t, e)) = child_at(b, j, "Blob".spec_bytes()) {
        lemma_props_plain(b, e as int, w, f);
        lemma_value_is_skip(b, e as int, t);
        if let Some((k, v, x)) = other_at(b, e as int, t, w) {
            lemma_keep_nothing(plain(f), k - 8, v);
            if let Some((k2, v2, x2)) = other_at(b, e as int, t, no_properties()) {
                lemma_keep_nothing(plain(f), k2 - 8, v2);
            }
        }
    }
}

proof fn lemma_blob_plain(b: Seq<u8>, i: int, w: PropertySet, f: Fields)
    ensures
        blob_from(b, i, w, f) matches Some((g, e)) ==> blob_from(b, i, no_properties(), plain(f)) == Some((plain(g), e)),
    decreases b.len() - i,
{
    if 0 <= i <= b.len() {
        let j = space_end(b, i);
        lemma_blob_step_plain(b, j, w, f);
        if let Some((g, e, false)) = blob_step(b, j, w, f) {
            if i < e <= b.len() {
                lemma_blob_plain(b, e, w, g);
            }
        }
    }
}

proof fn lemma_prefix_keeps_nothing(b: Seq<u8>, i: int, f: Fields)
    ensures
        prefix_from(b, i, f) matches Some((g, e)) ==> g.caps == f.caps,
    decreases b.len() - i,
{
    if 0 <= i <= b.len() {
        if let Some((g, e, false)) = prefix_step(b, i, f) {
            if i < e <= b.len() {
                lemma_prefix_keeps_nothing(b, e, g);
            }
        }
    }
}

proof fn lemma_entry_plain(b: Seq<u8>, j: int, w: PropertySet)
    ensures
        entry_at(b, j, w) matches Some((f, e)) ==> entry_at(b, j, no_properties()) == Some((plain(f), e)),
{
    assert(plain(no_fields(false)) == no_fields(false));
    lemma_blob_plain(b, j + "<Blob>".spec_bytes().len(), w, no_fields(false));
    if let Some((t, e)) = open_at(b, j) {
        lemma_blob_plain(b, e as int, w, no_fields(false));
        lemma_prefix_keeps_nothing(b, e as int, no_fields(true));
        if let Some((f, x)) = prefix_from(b, e as int, no_fields(true)) {
            assert(plain(f) == f);
        }
    }
}

proof fn lemma_entries_plain(b: Seq<u8>, i: int, w: PropertySet, acc: Seq<Fields>)
    ensures
        entries_from(b, i, w, acc) matches Some((es, e)) ==> entries_from(b, i, no_properties(), plain_all(acc)) == Some((plain_all(es), e)),
    decreases b.len() - i,
{
    if 0 <= i <= b.len() {
        let j = space_end(b, i);
        lemma_entry_plain(b, j, w);
        if let Some((f, e)) = entry_at(b, j, w) {
            if i < e <= b.len() {
                assert(plain_all(acc.push(f)) =~= plain_all(acc).push(plain(f)));
                lemma_entries_plain(b, e, w, acc.push(f));
            }
        }
    }
}

proof fn lemma_root_plain(
    b: Seq<u8>,
    i: int,
    w: PropertySet,
    entries: Option<Seq<Fields>>,
    seen: bool,
    marker: Option<Span>,
)
    ensures
        root_from(b, i, w, entries, seen, marker) matches Some((es, m)) ==> root_from(
            b,
            i,
            no_properties(),
            match entries {
                Some(x) => Some(plain_all(x)),
                None => None,
            },
            seen,
            marker,
        ) == Some((plain_all(es), m)),
    decreases b.len() - i,
{
    if 0 <= i <= b.len() {
        if let Some(Child::Open(t, e)) = child_at(b, space_end(b, i), "EnumerationResults".spec_bytes()) {
            let nm = span_text(b, t.name);
            if nm == "Blobs".spec_bytes() && entries is None {
                assert(plain_all(Seq::<Fields>::empty()) =~= Seq::<Fields>::empty());
                lemma_entries_plain(b, e as int, w, seq![]);
                let read = if t.empty {
                    Some((Seq::<Fields>::empty(), e as int))
                } else {
                    entries_from(b, e as int, w, seq![])
                };
                if let Some((es, x)) = read {
                    if i < x <= b.len() {
                        lemma_root_plain(b, x, w, Some(es), seen, marker);
                    }
                }
            } else if nm == "NextMarker".spec_bytes() {
                if let Some((v, x)) = tag_value(b, e as int, t) {
                    if i < x <= b.len() {
                        lemma_root_plain(b, x, w, entries, true, Some(v));
                    }
                }
            } else {
                if let Some(x) = skip_at(b, e as int, t) {
                    if i < x <= b.len() {
                        lemma_root_plain(b, x, w, entries, seen, marker);
                    }
                }
            }
        }
    }
}

proof fn lemma_entry_text_plain(b: Seq<u8>, f: Fields)
    ensures
        entry_text(b, plain(f)) == entry_text(b, f),
{
    let g = plain(f);
    assert(is_directory(b, g) == is_directory(b, f));
    assert(size_of(b, g) == size_of(b, f));
}

proof fn lemma_page_plain(b: Seq<u8>, w: PropertySet)
    requires
        page_of(b, w) is Some,
    ensures
        page_of(b, no_properties()) == Some((plain_all((page_of(b, w)->0).0), (page_of(b, w)->0).1)),
{
    reveal(page_of);
    let (t, i) = root_open(b, "EnumerationResults".spec_bytes())->0;
    lemma_root_plain(b, i, w, None, false, None);
}

/// Keeping the values of some properties reads the same page: where a read
/// that keeps the values of `w` finds a page, a read that keeps none finds
/// the same entries and the same marker, and so gives the same result, into
/// an array of any size.
#[verifier::spinoff_prover]
pub proof fn law_keeping_values_reads_the_same_entries(b: Seq<u8>, room: int, w: PropertySet)
    requires
        page_of(b, w) is Some,
    ensures
        listing_result(b, room, w) == listing_result(b, room, no_properties()),
{
    lemma_page_plain(b, w);
    let (es, m) = page_of(b, w)->0;
    let ps = plain_all(es);
    assert forall|k: int| 0 <= k < es.len() implies #[trigger] entry_text(b, ps[k]) == entry_text(b, es[k]) by {
        assert(ps[k] == plain(es[k]));
        lemma_entry_text_plain(b, es[k]);
    }
    let n = if es.len() < room { es.len() as int } else { room };
    if exists|k: int| 0 <= k < n && #[trigger] entry_text(b, ps[k]) is None {
        let k = choose|k: int| 0 <= k < n && #[trigger] entry_text(b, ps[k]) is None;
        assert(entry_text(b, es[k]) is None);
    }
    if exists|k: int| 0 <= k < n && #[trigger] entry_text(b, es[k]) is None {
        let k = choose|k: int| 0 <= k < n && #[trigger] entry_text(b, es[k]) is None;
        assert(entry_text(b, ps[k]) is None);
    }
    assert(Seq::new(ps.len(), |k: int| entry_text(b, ps[k])->0) =~= Seq::new(es.len(), |k: int| entry_text(b, es[k])->0));
}

/// Reading a page into a larger array reads the same page: an array that
/// holds the whole page always does, whatever room is left over.
pub proof fn law_a_larger_array_reads_the_same_page(b: Seq<u8>, room: int, more: int, w: PropertySet)
    requires
        0 <= room <= more,
        listing_result(b, room, w) is Ok,
    ensures
        listing_result(b, more, w) == listing_result(b, room, w),
{
    let (es, m) = page_of(b, w)->0;
    assert(es.len() <= room);
}

} // verus!
