use borink_object_storage_proto::layered;
use borink_object_storage_proto::{
    Blobs, CapacityError, Container, EntryKind, Error, ListEntry, Listing, ResponseFault,
};

fn blobs() -> Blobs<'static> {
    Blobs::new(
        Container::new("https://account.blob.core.windows.net", "container").unwrap(),
        "token",
    )
    .unwrap()
}

// One page, with everything a flat account writes into it.
fn page(entries: &str, next_marker: &str) -> Vec<u8> {
    document(entries, &format!("<NextMarker>{next_marker}</NextMarker>"))
}

fn document(entries: &str, next_marker: &str) -> Vec<u8> {
    format!(
        "<?xml version=\"1.0\" encoding=\"utf-8\"?>\
         <EnumerationResults ServiceEndpoint=\"https://account.blob.core.windows.net/\" \
         ContainerName=\"container\">\
         <Prefix></Prefix><MaxResults>2</MaxResults>\
         <Blobs>{entries}</Blobs>{next_marker}\
         </EnumerationResults>"
    )
    .into_bytes()
}

fn object(name: &str, size: u64) -> String {
    format!(
        "<Blob><Name>{name}</Name><Properties>\
         <Last-Modified>Sat, 22 Aug 2026 12:00:00 GMT</Last-Modified>\
         <Etag>0x8DF0046E8E555AF</Etag><Content-Length>{size}</Content-Length>\
         <BlobType>BlockBlob</BlobType></Properties></Blob>"
    )
}

fn fill<'b>(body: &'b mut [u8], into: &mut [ListEntry<'b>]) -> Listing<'b> {
    blobs().fill_listing(body, into).unwrap()
}

#[test]
fn the_values_the_service_writes_are_read_without_the_space_around_them() {
    let mut body = page(
        "<Blob><Name> a.txt </Name>\n  <Properties>\n    \
         <Last-Modified>\n Sat, 22 Aug 2026 12:00:00 GMT \n</Last-Modified>\n    \
         <Etag>\n      0x8DF0046E8E555AF\n    </Etag>\n    \
         <Content-Length>  8  </Content-Length>\n  </Properties>\n</Blob>\
         <Blob><Name>d</Name><Properties><Content-Length>0</Content-Length>\
         <ResourceType>  directory  </ResourceType></Properties></Blob>",
        "",
    );
    let mut entries = [ListEntry::default(); 2];
    fill(&mut body, &mut entries);

    assert_eq!(entries[0].key, " a.txt ");
    assert_eq!(entries[0].size, Some(8));
    assert_eq!(entries[0].e_tag, Some("0x8DF0046E8E555AF"));
    assert_eq!(
        entries[0]
            .last_modified
            .map(str::as_bytes)
            .and_then(layered::http_date_ms),
        Some(1_787_400_000_000)
    );
    assert_eq!(entries[1].kind, EntryKind::Directory);
}

#[test]
fn a_body_that_is_not_a_page_is_a_fault() {
    let blobs = blobs();
    let fault = Err(Error::Response(ResponseFault::Body));

    for mut body in [
        b"<Error><Code>ContainerNotFound</Code></Error>".to_vec(),
        b"<EnumerationResults><Blobs><Blob><Name>a</Name>".to_vec(),
        b"<EnumerationResults><Blobs><Blob><Name>\xff</Name></Blob></Blobs></EnumerationResults>"
            .to_vec(),
        page(
            "<Blob><Name>a.txt</Name><Properties></Properties></Blob>",
            "",
        ),
        page(
            "<Blob><Name>a.txt</Name><Properties><Content-Length>ten</Content-Length></Properties></Blob>",
            "",
        ),
        page(
            "<Blob><Properties><Content-Length>1</Content-Length></Properties></Blob>",
            "",
        ),
        page("<Snapshot><Name>a.txt</Name></Snapshot>", ""),
        page(
            "<Blob><Name>a</Name><Properties><Content-Length>1</Properties>\
             </Content-Length></Blob>",
            "",
        ),
        b"<EnumerationResults><Blobs></EnumerationResults></Blobs>".to_vec(),
        page("<Blob><Name>a<!-- x -->b</Name></Blob>", ""),
        page(
            "<Blob><Name>a</Name><Name>b</Name><Properties>\
             <Content-Length>1</Content-Length></Properties></Blob>",
            "",
        ),
        page(
            "<Blob><Name>a</Name><Properties><Content-Length>1</Content-Length>\
             <Content-Length>2</Content-Length></Properties></Blob>",
            "",
        ),
        page("<!-- </Blobs> --><Blob><Name>a</Name></Blob>", ""),
        page(
            "<Blob><Name>a</Name><Properties><Content-Length>1</Content-Length>\
             </Properties><![CDATA[</Blob>]]></Blob>",
            "",
        ),
        document(
            &object("a.txt", 1),
            "<NextMarker>ab<!-- x -->cd</NextMarker>",
        ),
        b"<EnumerationResults><Blobs><Blob><Name>a</Name></Blob>".to_vec(),
        b"<a:EnumerationResults><Blobs/><NextMarker/></a:EnumerationResults>".to_vec(),
        b"<EnumerationResults><Blobs/><NextMarker/></b:EnumerationResults>".to_vec(),
        page("<Blob><ns:Name>a.txt</ns:Name></Blob>", ""),
        page(&object("a&nbsp;b", 1), ""),
        page(&object("a&b", 1), ""),
        document(&object("a.txt", 1), "<NextMarker>a&nbsp;b</NextMarker>"),
        page(&object("a&#0;b", 1), ""),
        page(&object("a&#xFFFE;b", 1), ""),
        page(&object("a&#xD800;b", 1), ""),
        document(
            &object("a.txt", 1),
            "<NextMarker><Unexpected/>next</NextMarker>",
        ),
        document(
            &object("a.txt", 1),
            "<NextMarker>ne<Unexpected/>xt</NextMarker>",
        ),
        page(
            "<Blob><Name Encoded=\"true\" Encoded=\"false\">a</Name><Properties>\
             <Content-Length>1</Content-Length></Properties></Blob>",
            "",
        ),
        page(
            "<Blob><Name Encoded=\"yes\">a</Name><Properties>\
             <Content-Length>1</Content-Length></Properties></Blob>",
            "",
        ),
    ] {
        let document = String::from_utf8_lossy(&body).into_owned();
        assert_eq!(
            blobs.fill_listing(&mut body, &mut [ListEntry::default(); 4]),
            fault,
            "{document}"
        );
    }
}

#[test]
fn a_body_that_was_read_stops_being_a_document() {
    let two = object("a&amp;b", 1) + &object("c&amp;d", 2);
    let mut body = page(&two, "");

    let mut entries = [ListEntry::default(); 1];
    assert!(matches!(
        blobs().fill_listing(&mut body, &mut entries),
        Err(Error::Capacity(_))
    ));
    assert_eq!(entries[0].key, "a&b");

    let read = String::from_utf8_lossy(&body).into_owned();
    assert!(!read.contains("<Name>a&amp;b</Name>"), "{read}");
    assert!(read.contains("<Name>c&amp;d</Name>"), "{read}");

    let mut entries = [ListEntry::default(); 2];
    assert_eq!(
        blobs().fill_listing(&mut body, &mut entries),
        Err(Error::Response(ResponseFault::Body))
    );
}

#[test]
fn whitespace_between_the_entries_is_not_an_entry() {
    let mut body = format!(
        "<?xml version=\"1.0\" encoding=\"utf-8\"?>\n\
         <EnumerationResults ContainerName=\"container\">\n  \
         <Blobs>\n    {}\n    {}\n  </Blobs>\n  \
         <NextMarker>next</NextMarker>\n\
         </EnumerationResults>\n",
        object("a.txt", 1),
        object("b.txt", 2)
    )
    .into_bytes();
    let mut entries = [ListEntry::default(); 2];
    let listing = fill(&mut body, &mut entries);

    assert_eq!(listing.filled, 2);
    assert_eq!(entries[1].key, "b.txt");
    assert_eq!(listing.next_marker, Some("next"));
}

#[test]
fn an_array_smaller_than_a_written_page_is_refused_with_the_count_it_holds() {
    let three = object("a", 1) + &object("b", 2) + &object("c", 3);
    let mut body = page(&three, "");
    let mut entries = [ListEntry::default(); 2];
    assert_eq!(
        blobs().fill_listing(&mut body, &mut entries),
        Err(Error::Capacity(CapacityError {
            required: 3,
            available: 2,
            ..CapacityError::default()
        }))
    );
    let mut body = page(&three, "");
    let mut none: [ListEntry; 0] = [];
    assert_eq!(
        blobs().fill_listing(&mut body, &mut none),
        Err(Error::Capacity(CapacityError {
            required: 3,
            available: 0,
            ..CapacityError::default()
        }))
    );
    let mut body = page(&three, "");
    let listing = fill(&mut body, &mut [ListEntry::default(); 3]);
    assert_eq!((listing.filled, listing.next_marker), (3, None));
}

#[test]
fn an_empty_written_page_holds_nothing_and_may_still_name_a_next() {
    let mut body = page("", "next");
    let listing = fill(&mut body, &mut []);
    assert_eq!(listing.filled, 0);
    assert_eq!(listing.next_marker, Some("next"));

    let mut body = b"<?xml version=\"1.0\" encoding=\"utf-8\"?>\
        <EnumerationResults ContainerName=\"container\">\
        <Blobs/><NextMarker/></EnumerationResults>"
        .to_vec();
    let listing = fill(&mut body, &mut [ListEntry::default(); 2]);
    assert_eq!(listing.filled, 0);
    assert_eq!(listing.next_marker, None);

    let mut body = b"<EnumerationResults><Blobs /><NextMarker /></EnumerationResults>".to_vec();
    let listing = fill(&mut body, &mut [ListEntry::default(); 2]);
    assert_eq!((listing.filled, listing.next_marker), (0, None));
}

const HEAD: &str = "<?xml version=\"1.0\" encoding=\"utf-8\"?>\
     <EnumerationResults ServiceEndpoint=\"https://account.blob.core.windows.net/\" \
     ContainerName=\"container\"><Prefix>p/</Prefix><Delimiter>/</Delimiter>";

fn read(document: &str) -> (Vec<ListEntry<'static>>, Option<String>) {
    let body: &'static mut [u8] = Vec::leak(document.as_bytes().to_vec());
    let mut into = vec![ListEntry::default(); 32];
    let listing: Listing<'static> = blobs().fill_listing(body, &mut into).unwrap();
    into.truncate(listing.filled);
    (into, listing.next_marker.map(str::to_owned))
}

fn refused(document: &str) -> bool {
    let mut body = document.as_bytes().to_vec();
    let fault = Err(Error::Response(ResponseFault::Body));
    blobs().fill_listing(&mut body, &mut [ListEntry::default(); 16]) == fault
}

#[test]
fn every_field_of_an_entry_is_read_wherever_the_document_puts_it() {
    let (entries, marker) = read(&format!(
        "{HEAD}<Blobs>\
         <Blob><Name Encoded=\"true\">a%20b%2F%26c</Name>\
         <Properties><Creation-Time>x</Creation-Time>\
         <Last-Modified>Mon, 01 Sep 2026 10:12:31 GMT</Last-Modified>\
         <Etag>0x8DC</Etag><Content-Length>12</Content-Length><Content-Type/>\
         <ResourceType>file</ResourceType></Properties>\
         <Metadata><k>v</k></Metadata></Blob>\
         <Blob><Name>dir</Name><Properties><Content-Length>0</Content-Length>\
         <ResourceType>directory</ResourceType></Properties></Blob>\
         <BlobPrefix><Name>p/q/</Name></BlobPrefix>\
         </Blobs><NextMarker>m1</NextMarker></EnumerationResults>"
    ));

    assert_eq!(marker.as_deref(), Some("m1"));
    assert_eq!(entries.len(), 3);
    assert_eq!(entries[0].key, "a b/&c");
    assert_eq!(entries[0].size, Some(12));
    assert_eq!(entries[0].e_tag, Some("0x8DC"));
    assert_eq!(
        entries[0].last_modified,
        Some("Mon, 01 Sep 2026 10:12:31 GMT")
    );
    assert_eq!(entries[1].kind, EntryKind::Directory);
    assert_eq!(entries[1].key, "dir");
    assert_eq!(entries[2].kind, EntryKind::Prefix);
    assert_eq!(entries[2].key, "p/q/");
}

#[test]
fn a_document_written_for_a_person_to_read_is_still_a_page() {
    let (entries, marker) = read(&format!(
        "{HEAD}\n  <!-- a comment -->\n  <?instruction here?>\n  \
         <Blobs>\n    <Blob>\n      <Name>k</Name>\n      \
         <Properties>\n        <Content-Length>7</Content-Length>\n      \
         </Properties>\n    </Blob>\n  </Blobs>\n  \
         <NextMarker />\n</EnumerationResults>\n"
    ));
    assert_eq!(entries.len(), 1);
    assert_eq!((entries[0].key, entries[0].size), ("k", Some(7)));
    assert_eq!(marker, None);
}

#[test]
fn an_unusual_but_legal_spelling_takes_the_general_path() {
    let (entries, _) = read(&format!(
        "{HEAD}<Blobs><Blob ><Name >k</Name ><Properties >\
         <Content-Length >7</Content-Length ><Empty/><Also /></Properties >\
         </Blob ></Blobs ><NextMarker /></EnumerationResults >"
    ));
    assert_eq!((entries[0].key, entries[0].size), ("k", Some(7)));
}

#[test]
fn a_reference_that_spells_a_percent_sign_is_then_percent_decoded() {
    let (entries, _) = read(&format!(
        "{HEAD}<Blobs><Blob><Name Encoded=\"true\">a&#37;20b</Name>\
         <Properties><Content-Length>1</Content-Length></Properties></Blob>\
         <Blob><Name>&#65;&#x42;&#x1F600;</Name><Properties>\
         <Content-Length>2</Content-Length></Properties></Blob>\
         </Blobs><NextMarker /></EnumerationResults>"
    ));
    assert_eq!(entries[0].key, "a b");
    assert_eq!(entries[1].key, "AB\u{1f600}");
}

#[test]
fn the_shapes_this_reader_does_not_model_are_refused() {
    for document in [
        format!(
            "{HEAD}<Blobs><Blob><Name>a</Name><Properties><Content-Length>1</Content-Length>\
             <X>{}{}</X></Properties></Blob></Blobs></EnumerationResults>",
            "<d>".repeat(17),
            "</d>".repeat(17)
        ),
        format!("<!DOCTYPE x>{HEAD}<Blobs /></EnumerationResults>"),
        format!("{HEAD}<Blobs>text<Blob><Name>a</Name></Blob></Blobs></EnumerationResults>"),
        format!("{HEAD}<NextMarker>m</NextMarker></EnumerationResults>"),
        format!(
            "{HEAD}<Blobs><Blob><Name/><Properties><Content-Length>1</Content-Length></Properties></Blob></Blobs></EnumerationResults>"
        ),
        format!("{HEAD}<Blobs><BlobPrefix><Name></Name></BlobPrefix></Blobs></EnumerationResults>"),
        format!(
            "{HEAD}<Blobs /><NextMarker>a</NextMarker><NextMarker>b</NextMarker></EnumerationResults>"
        ),
        format!("{HEAD}<Blobs /><Blobs /></EnumerationResults>"),
        format!(
            "{HEAD}<Blobs><Blob><Name>a</Name><Name>b</Name><Properties><Content-Length>1</Content-Length></Properties></Blob></Blobs></EnumerationResults>"
        ),
        format!(
            "{HEAD}<Blobs><Blob><Name>a\0</Name><Properties><Content-Length>1</Content-Length></Properties></Blob></Blobs></EnumerationResults>"
        ),
        format!(
            "{HEAD}<Blobs><Blob><Name Encoded=\"true\">a%00</Name><Properties><Content-Length>1</Content-Length></Properties></Blob></Blobs></EnumerationResults>"
        ),
        HEAD.replace("\">", "\" />"),
    ] {
        assert!(refused(&document), "{document}");
    }
}

fn sweep_page() -> Vec<u8> {
    let mut document = String::from(HEAD);
    document.push_str("<Blobs>");
    for index in 0..8 {
        document.push_str(&format!(
            "<Blob><Name>k&amp;{index}</Name><Properties>\
             <Last-Modified>t</Last-Modified><Etag>0x8DF</Etag>\
             <Content-Length>{index}</Content-Length></Properties></Blob>"
        ));
    }
    document.push_str(
        "<BlobPrefix><Name Encoded=\"true\">p%2F</Name></BlobPrefix></Blobs>\
         <NextMarker>2!72!MDAwMDI4</NextMarker></EnumerationResults>",
    );
    document.into_bytes()
}

#[test]
fn a_page_cut_short_at_any_byte_is_refused() {
    let page = sweep_page();
    for cut in 0..page.len() {
        let mut body = page[..cut].to_vec();
        assert_eq!(
            blobs().fill_listing(&mut body, &mut [ListEntry::default(); 16]),
            Err(Error::Response(ResponseFault::Body)),
            "a page cut at {cut} was read as one"
        );
    }
}

#[test]
fn a_page_with_one_byte_changed_is_refused_or_read_but_never_misread() {
    let page = sweep_page();
    let mut read = 0;
    for at in 0..page.len() {
        for byte in [b'<', b'>', b'&', b'/', b'%', b'"', b'=', 0, 0xFF, b' '] {
            let mut body = page.clone();
            body[at] = byte;
            let mut entries = [ListEntry::default(); 16];
            if let Ok(page) = blobs().fill_listing(&mut body, &mut entries) {
                read += 1;
                assert!(page.filled <= 9, "{} entries at {at}", page.filled);
            }
        }
    }
    assert!(read > 0);
}

#[test]
fn a_whole_sweep_page_is_read_with_its_marker_and_its_groups() {
    let mut body = sweep_page();
    let mut entries = [ListEntry::default(); 9];
    let listing = fill(&mut body, &mut entries);
    assert_eq!(listing.filled, 9);
    assert_eq!(listing.next_marker, Some("2!72!MDAwMDI4"));
    assert_eq!(entries[3].key, "k&3");
    assert_eq!(entries[3].size, Some(3));
    assert_eq!(entries[3].last_modified, Some("t"));
    assert_eq!(entries[8].kind, EntryKind::Prefix);
    assert_eq!(entries[8].key, "p/");
    assert_eq!(entries[8].size, None);
}
