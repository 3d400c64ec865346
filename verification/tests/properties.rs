use borink_object_storage_proto::xml::listing::{read_known, Known, PROPERTY_COUNT};
use borink_object_storage_proto::{
    BlobProperty, Blobs, CapacityError, Container, EntryKind, Error, ListEntry, PropertySet,
    PropertyValues, ResponseFault,
};

fn blobs() -> Blobs<'static> {
    Blobs::new(
        Container::new("https://account.blob.core.windows.net", "container").unwrap(),
        "token",
    )
    .unwrap()
}

// One page, with everything a flat account writes into it.
fn page(entries: &str, next_marker: &str) -> Vec<u8> {
    format!(
        "<?xml version=\"1.0\" encoding=\"utf-8\"?>\
         <EnumerationResults ServiceEndpoint=\"https://account.blob.core.windows.net/\" \
         ContainerName=\"container\">\
         <Prefix></Prefix><MaxResults>2</MaxResults>\
         <Blobs>{entries}</Blobs><NextMarker>{next_marker}</NextMarker>\
         </EnumerationResults>"
    )
    .into_bytes()
}

fn object(name: &str, size: u64) -> String {
    format!(
        "<Blob><Name>{name}</Name><Properties>\
         <Last-Modified>Sat, 22 Aug 2026 12:00:00 GMT</Last-Modified>\
         <Etag>0x8DF0046E8E555AF</Etag><Content-Length>{size}</Content-Length>\
         <BlobType>BlockBlob</BlobType></Properties></Blob>"
    )
}

fn every_property() -> Vec<BlobProperty> {
    (0..PROPERTY_COUNT)
        .map(|i| BlobProperty::from_index(i).unwrap())
        .collect()
}

// An entry of a caller's own, holding what it asked for.
#[derive(Debug, Clone, Copy, Default, PartialEq, Eq)]
struct Picked<'b> {
    key: &'b str,
    kind: EntryKind,
    tier: Option<&'b [u8]>,
    created: Option<&'b [u8]>,
    encoding: Option<&'b [u8]>,
    // Never in the set, so never given.
    blob_type: Option<&'b [u8]>,
}

impl<'b> Picked<'b> {
    fn build(entry: ListEntry<'b>, values: PropertyValues<'b>) -> Self {
        Self {
            key: entry.key,
            kind: entry.kind,
            tier: values.get(BlobProperty::AccessTier),
            created: values.get(BlobProperty::CreationTime),
            encoding: values.get(BlobProperty::ContentEncoding),
            blob_type: values.get(BlobProperty::BlobType),
        }
    }
}

fn wanted() -> PropertySet {
    PropertySet::of(&[
        BlobProperty::ContentEncoding,
        BlobProperty::AccessTier,
        BlobProperty::CreationTime,
    ])
}

/// The values of the wanted properties are read in the same pass as the
/// entry, one per member of the set, as the service wrote them.
#[test]
fn the_properties_a_caller_asks_for_are_read_with_the_page() {
    let mut body = page(
        "<Blob><Name>a.txt</Name><Properties>\
         <Creation-Time>Sat, 22 Aug 2026 11:00:00 GMT</Creation-Time>\
         <Last-Modified>Sat, 22 Aug 2026 12:00:00 GMT</Last-Modified>\
         <Etag>0x8DF</Etag><Content-Length>4</Content-Length>\
         <Content-Type>text/plain</Content-Type><Content-Encoding>gzip</Content-Encoding>\
         <BlobType>BlockBlob</BlobType><AccessTier>Cool</AccessTier>\
         </Properties><OrMetadata /></Blob>\
         <Blob><Name>b.txt</Name><Properties>\
         <Last-Modified>Sat, 22 Aug 2026 12:00:00 GMT</Last-Modified>\
         <Etag>0x8E0</Etag><Content-Length>0</Content-Length>\
         <Content-Encoding /><BlobType>BlockBlob</BlobType>\
         </Properties></Blob>\
         <BlobPrefix><Name>c/</Name></BlobPrefix>",
        "",
    );
    let mut entries = [Picked::default(); 3];
    let listing = blobs()
        .fill_listing_with(&mut body, &mut entries, wanted(), Picked::build)
        .unwrap();

    assert_eq!(listing.filled, 3);
    assert_eq!(
        entries[0],
        Picked {
            key: "a.txt",
            kind: EntryKind::Object,
            tier: Some(b"Cool"),
            created: Some(b"Sat, 22 Aug 2026 11:00:00 GMT"),
            encoding: Some(b"gzip"),
            blob_type: None,
        }
    );
    // An element written empty is an empty value. One not written is none.
    assert_eq!(
        entries[1],
        Picked {
            key: "b.txt",
            kind: EntryKind::Object,
            tier: None,
            created: None,
            encoding: Some(b""),
            blob_type: None,
        }
    );
    // A group of keys gives no values.
    assert_eq!(
        entries[2],
        Picked {
            key: "c/",
            kind: EntryKind::Prefix,
            ..Picked::default()
        }
    );
}

/// The whole-tag match reads the spellings the service uses. Any other legal
/// spelling reaches the general path, which still keeps the value.
#[test]
fn a_spelling_the_service_does_not_use_is_still_read() {
    let mut body = page(
        "<Blob><Name>a.txt</Name><Properties>\
         <Last-Modified>Sat, 22 Aug 2026 12:00:00 GMT</Last-Modified>\
         <Etag>0x8DF</Etag><Content-Length>4</Content-Length>\
         <Content-Encoding/>\
         <AccessTier >Hot</AccessTier>\
         <Creation-Time\n>Sat, 22 Aug 2026 11:00:00 GMT</Creation-Time >\
         </Properties></Blob>",
        "",
    );
    let mut entries = [Picked::default(); 1];
    blobs()
        .fill_listing_with(&mut body, &mut entries, wanted(), Picked::build)
        .unwrap();
    assert_eq!(entries[0].encoding, Some(b"".as_slice()));
    assert_eq!(entries[0].tier, Some(b"Hot".as_slice()));
    assert_eq!(
        entries[0].created,
        Some(b"Sat, 22 Aug 2026 11:00:00 GMT".as_slice())
    );
}

/// The elements an account that keeps versions writes beside the properties
/// element are properties too.
#[test]
fn an_element_beside_the_properties_element_is_read_the_same_way() {
    let mut body = page(
        "<Blob><Name>a.txt</Name>\
         <VersionId>2026-09-05T06:22:39.3212012Z</VersionId>\
         <IsCurrentVersion>true</IsCurrentVersion>\
         <Properties><Last-Modified>Sat, 22 Aug 2026 12:00:00 GMT</Last-Modified>\
         <Etag>0x8DF</Etag><Content-Length>4</Content-Length></Properties>\
         <OrMetadata /></Blob>",
        "",
    );
    let set = PropertySet::of(&[BlobProperty::VersionId, BlobProperty::IsCurrentVersion]);
    let mut entries = [[None; 2]; 1];
    blobs()
        .fill_listing_with(&mut body, &mut entries, set, |_, values| {
            [
                values.get(BlobProperty::VersionId),
                values.get(BlobProperty::IsCurrentVersion),
            ]
        })
        .unwrap();
    assert_eq!(
        entries[0],
        [
            Some(b"2026-09-05T06:22:39.3212012Z".as_slice()),
            Some(b"true".as_slice())
        ]
    );
}

/// The values come in the order the enum lists the properties, whatever
/// order the set named them in, and `all` has one per member.
#[test]
fn the_values_of_a_set_stand_in_the_order_the_enum_lists_them() {
    let mut body = page(&object("a.txt", 4), "");
    let set = PropertySet::of(&[BlobProperty::BlobType, BlobProperty::AccessTier]);
    let mut all = [[None; 2]; 1];
    blobs()
        .fill_listing_with(&mut body, &mut all, set, |_, values| {
            <[_; 2]>::try_from(values.all()).unwrap()
        })
        .unwrap();
    // `AccessTier` is numbered before `BlobType`.
    assert_eq!(all[0], [None, Some(b"BlockBlob".as_slice())]);
}

/// A value read with the page is the bytes the service wrote between the
/// tags.
#[test]
fn a_value_read_with_the_page_is_what_the_walk_reports() {
    let mut body = page(&object("a.txt", 4), "");
    let set = PropertySet::of(&[BlobProperty::BlobType]);
    let mut entries = [(ListEntry::default(), None); 1];
    blobs()
        .fill_listing_with(&mut body, &mut entries, set, |entry, values| {
            (entry, values.get(BlobProperty::BlobType))
        })
        .unwrap();
    let (entry, blob_type) = entries[0];
    assert_eq!(entry.key, "a.txt");
    assert_eq!(blob_type, Some(b"BlockBlob".as_slice()));
}

// Feeds one start tag to the whole-tag match and returns whether it was
// taken, with the span it recorded for `property`.
fn matched(document: &str, property: BlobProperty) -> (bool, Option<(usize, usize)>) {
    match read_known(document.as_bytes(), 0) {
        Some(Known::Read(read, span, _)) => (true, (read == property).then_some(span)),
        Some(Known::Absent) => (false, None),
        None => panic!("{document} is not a known element"),
    }
}

/// Every property is matched whole as the service spells it, and its value
/// is the text between the tags.
#[test]
fn every_property_is_matched_whole_as_the_service_spells_it() {
    for property in every_property() {
        let name = property.name();
        let document = format!("<{name}>x</{name}>");
        let start = name.len() + 2;
        assert_eq!(
            matched(&document, property),
            (true, Some((start, start + 1))),
            "{name}"
        );
    }
}

/// The empty spelling is matched for the properties the service writes
/// that way, and recorded as an empty value.
#[test]
fn the_empty_spelling_is_matched_where_the_service_writes_it() {
    for property in [
        BlobProperty::ContentType,
        BlobProperty::ContentEncoding,
        BlobProperty::ContentLanguage,
        BlobProperty::ContentCrc64,
        BlobProperty::ContentMd5,
        BlobProperty::CacheControl,
        BlobProperty::ContentDisposition,
    ] {
        let document = format!("<{} />", property.name());
        assert_eq!(matched(&document, property), (true, Some((0, 0))));
    }
    // Any other tag is left for the general path.
    assert_eq!(
        matched("<Metadata>", BlobProperty::AccessTier),
        (false, None)
    );
    assert_eq!(
        matched("<AccessTier >", BlobProperty::AccessTier),
        (false, None)
    );
}

#[test]
fn every_property_is_identified_by_its_name_and_nothing_else() {
    for (place, property) in every_property().into_iter().enumerate() {
        assert_eq!(property.index(), place);
        assert_eq!(BlobProperty::identify(property.name().as_bytes()), Some(property));
    }
    assert_eq!(BlobProperty::from_index(PROPERTY_COUNT), None);
    assert_eq!(BlobProperty::identify(b"Content-Length"), None);
    assert_eq!(BlobProperty::identify(b"accesstier"), None);
    assert_eq!(BlobProperty::identify(b""), None);
}

#[test]
fn a_set_holds_what_it_was_made_of() {
    let set = PropertySet::of(&[BlobProperty::Snapshot, BlobProperty::Acl, BlobProperty::Acl]);
    for property in every_property() {
        assert_eq!(
            set.contains(property),
            property == BlobProperty::Snapshot || property == BlobProperty::Acl,
        );
    }
    let none = PropertySet::default();
    assert!(every_property().into_iter().all(|p| !none.contains(p)));
    assert_eq!(none, PropertySet::of(&[]));
}

/// A property that is not wanted is read past, whatever it holds; one that
/// is wanted is read as a value, and a value cannot hold an element.
#[test]
fn a_wanted_property_that_holds_an_element_is_a_fault() {
    let entries = "<Blob><Name>a.txt</Name><Properties>\
                   <Last-Modified>Sat, 22 Aug 2026 12:00:00 GMT</Last-Modified>\
                   <Etag>0x8DF</Etag><Content-Length>4</Content-Length>\
                   <AccessTier ><b>Hot</b></AccessTier>\
                   </Properties></Blob>";

    let mut body = page(entries, "");
    let mut picked = [Picked::default(); 1];
    let listing = blobs()
        .fill_listing_with(&mut body, &mut picked, PropertySet::default(), Picked::build)
        .unwrap();
    assert_eq!(listing.filled, 1);
    assert_eq!(picked[0].tier, None);

    let mut body = page(entries, "");
    assert_eq!(
        blobs().fill_listing_with(&mut body, &mut picked, wanted(), Picked::build),
        Err(Error::Response(ResponseFault::Body))
    );
}

/// The last value the entry wrote for a property is the one kept.
#[test]
fn a_property_written_twice_keeps_its_last_value() {
    let mut body = page(
        "<Blob><Name>a.txt</Name><AccessTier>Hot</AccessTier><Properties>\
         <Last-Modified>Sat, 22 Aug 2026 12:00:00 GMT</Last-Modified>\
         <Etag>0x8DF</Etag><Content-Length>4</Content-Length>\
         <AccessTier>Cool</AccessTier></Properties></Blob>",
        "",
    );
    let mut picked = [Picked::default(); 1];
    blobs()
        .fill_listing_with(&mut body, &mut picked, wanted(), Picked::build)
        .unwrap();
    assert_eq!(picked[0].tier, Some(b"Cool".as_slice()));
}

#[test]
fn a_page_larger_than_the_array_is_refused_with_values_too() {
    let mut body = page(&format!("{}{}", object("a", 1), object("b", 2)), "");
    let mut picked = [Picked::default(); 1];
    assert_eq!(
        blobs().fill_listing_with(&mut body, &mut picked, wanted(), Picked::build),
        Err(Error::Capacity(CapacityError {
            required: 2,
            available: 1,
            required_headers: 0,
            available_headers: 0,
        }))
    );
    assert_eq!(picked[0].key, "a");
}

#[test]
fn keeping_values_reads_the_same_entries_and_marker() {
    let text = page(
        &format!(
            "{}<Blob><Name Encoded=\"true\">b%2Fc</Name><AccessTier>Hot</AccessTier>\
             <Properties><Content-Length>2</Content-Length><Etag>0x1</Etag>\
             <Creation-Time >today</Creation-Time></Properties></Blob>\
             <BlobPrefix><Name>d/</Name></BlobPrefix>",
            object("a", 1)
        ),
        "next",
    );
    let mut plain_body = text.clone();
    let mut plain = [ListEntry::default(); 4];
    let plain_listing = blobs().fill_listing(&mut plain_body, &mut plain).unwrap();

    let mut kept_body = text.clone();
    let mut kept = [ListEntry::default(); 4];
    let kept_listing = blobs()
        .fill_listing_with(&mut kept_body, &mut kept, wanted(), |entry, _| entry)
        .unwrap();

    assert_eq!(plain_listing, kept_listing);
    assert_eq!(plain_listing.next_marker, Some("next"));
    assert_eq!(plain, kept);
    assert_eq!(kept[1].key, "b/c");
    assert_eq!(kept[2].kind, EntryKind::Prefix);
}

/// A key that holds XML syntax once decoded is read back whole, and what it
/// spells is not taken for a property of the entry.
#[test]
fn a_key_that_holds_xml_syntax_is_not_read_as_a_property() {
    let mut body = page(
        "<Blob><Name>k&lt;/Name&gt;&lt;AccessTier&gt;Hot&lt;/AccessTier&gt;</Name>\
         <Properties><Content-Length>1</Content-Length></Properties></Blob>",
        "",
    );
    let mut picked = [Picked::default(); 1];
    blobs()
        .fill_listing_with(&mut body, &mut picked, wanted(), Picked::build)
        .unwrap();
    assert_eq!(picked[0].key, "k</Name><AccessTier>Hot</AccessTier>");
    assert_eq!(picked[0].tier, None);
}
