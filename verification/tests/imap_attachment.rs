//! Attachments: how they are listed, and how they are transferred.
use mailctl::config;
use mailctl::digest::digest;
use mailctl::imap::attachment::decoder::{Decoder, TransferEncoding};
use mailctl::imap::attachment::{
    attachment_definition, attachment_definitions, attachment_list, attachments, parse_part,
    safe_filename, AttachmentData, AttachmentDecoder, AttachmentListRequest,
};
use mailctl::imap::endpoint::AuthenticatedConnection;
use mailctl::imap::fetch::Fetch;
use mailctl::imap::types::{Body, BodyKind, Disposition, Item, Section, Structure};
use mailctl::imap::{Error, Limits, Metrics};

fn body(kind: BodyKind, encoding: &str, size: u32) -> Body {
    Body {
        kind,
        parameters: Vec::new(),
        id: None,
        transfer_encoding: encoding.as_bytes().to_vec(),
        size,
    }
}

fn basic(kind: &str, subtype: &str) -> BodyKind {
    BodyKind::Basic { kind: kind.as_bytes().to_vec(), subtype: subtype.as_bytes().to_vec() }
}

fn attached(name: &str) -> Option<Disposition> {
    Some(Disposition {
        kind: b"attachment".to_vec(),
        parameters: vec![(b"FileName".to_vec(), name.as_bytes().to_vec())],
    })
}

fn single(kind: BodyKind, encoding: &str, size: u32, disposition: Option<Disposition>) -> Structure {
    Structure::Single { body: body(kind, encoding, size), disposition }
}

fn multi(bodies: Vec<Structure>) -> Structure {
    Structure::Multi {
        bodies,
        subtype: b"mixed".to_vec(),
        parameters: Vec::new(),
        disposition: None,
    }
}

fn decoded(encoding: TransferEncoding, wire: &[u8], piece: usize) -> Result<Vec<u8>, Error> {
    let limits = Limits::default();
    let mut decoder = Decoder::new(encoding);
    for part in wire.chunks(piece) {
        decoder.push(part, &limits)?;
    }
    decoder.finish(&limits)?;
    let all = decoder.take_chunk(usize::MAX);
    assert_eq!(decoder.decoded_offset(), all.len());
    assert_eq!(decoder.integrity(), (all.len() as u64, digest(&all)));
    Ok(all)
}

#[test]
fn parts_are_named_by_their_path() {
    let limits = Limits::default();
    assert_eq!(parse_part("1.20.3", &limits), Ok(vec![1, 20, 3]));
    for wrong in ["", "0", "1.", ".1", "00000000001", "1..2", "a", "4294967296", "1.-2"] {
        assert_eq!(parse_part(wrong, &limits), Err(Error::InvalidInput), "{wrong}");
    }
    let mut narrow = Limits::default();
    narrow.max_nesting = 2;
    assert_eq!(parse_part("1.2.3", &narrow), Err(Error::Limit));
    assert_eq!(parse_part("01.2", &narrow), Ok(vec![1, 2]));
}

#[test]
fn file_names_can_be_shown() {
    assert_eq!(safe_filename("  a b.txt "), Some("a b.txt".to_string()));
    assert_eq!(safe_filename(" "), None);
    assert_eq!(safe_filename("a\u{7}b"), None);
    assert_eq!(safe_filename("a\u{202e}b"), None);
    assert_eq!(safe_filename(&"x".repeat(256)).map(|name| name.len()), Some(256));
    assert_eq!(safe_filename(&"x".repeat(257)), None);
}

#[test]
fn attachments_are_listed_with_their_paths() {
    let limits = Limits::default();
    let message = BodyKind::Message {
        structure: Box::new(single(basic("image", "png"), "base64", 1, attached("inner.png"))),
    };
    let structure = multi(vec![
        single(BodyKind::Text { subtype: b"plain".to_vec() }, "7bit", 5, None),
        multi(vec![single(basic("Image", "PNG"), "BASE64", 12, attached("a.png"))]),
        single(message, "7bit", 40, attached("mail.eml")),
        single(basic("application", "x"), "x-odd", 3, attached("\u{1}")),
    ]);
    let found = attachments(&structure, &limits).unwrap();
    assert_eq!(found.len(), 3);
    assert_eq!(found[0].part, vec![2, 1]);
    assert_eq!(found[0].encoding, Some(TransferEncoding::Base64));
    let shown: Vec<_> = found.into_iter().map(|one| one.into_metadata()).collect();
    assert_eq!(shown[0].part, "2.1");
    assert_eq!(shown[0].filename.as_deref(), Some("a.png"));
    assert_eq!(shown[0].media_type, "image/png");
    assert_eq!(shown[0].declared_size, Some(12));
    assert!(shown[0].available);
    assert_eq!(shown[1].media_type, "message/rfc822");
    assert_eq!(shown[2].filename, None);
    assert!(!shown[2].available);
    let sole = single(basic("image", "png"), "base64", 1, attached("a.png"));
    assert_eq!(attachments(&sole, &limits).unwrap()[0].part, vec![1]);
    let mut narrow = Limits::default();
    narrow.max_mime_parts = 2;
    assert_eq!(attachments(&structure, &narrow).err(), Some(Error::Limit));
    let unreadable = body(BodyKind::Basic { kind: vec![0xff], subtype: Vec::new() }, "7bit", 1);
    assert!(attachment_definition(vec![1], &unreadable, &None).is_err());
}

#[test]
fn lists_belong_to_one_message_of_one_mailbox() {
    let limits = Limits::default();
    let request = AttachmentListRequest::new(5, 7);
    assert_eq!(request.check("INBOX", &limits), Ok(()));
    assert_eq!(request.check("", &limits), Err(Error::InvalidInput));
    assert_eq!(AttachmentListRequest::new(0, 7).check("INBOX", &limits), Err(Error::InvalidInput));
    assert_eq!(AttachmentListRequest::new(5, 0).check("INBOX", &limits), Err(Error::InvalidInput));
    let mut broken = Limits::default();
    broken.max_nesting = 0;
    assert_eq!(request.check("INBOX", &broken), Err(Error::InvalidInput));
    assert!(matches!(request.selected(7), Ok(Fetch::Metadata { uid: 5 })));
    assert_eq!(request.selected(8).err(), Some(Error::StaleReference));
}

#[test]
fn lists_tell_what_the_structure_offers() {
    let limits = Limits::default();
    let items = vec![
        Item::Uid(5),
        Item::Rfc822Size(500),
        Item::BodyStructure(multi(vec![
            single(BodyKind::Text { subtype: b"plain".to_vec() }, "7bit", 3, None),
            single(basic("application", "pdf"), "base64", 40, attached("a.pdf")),
            single(basic("image", "png"), "x-none", 9, attached("b.png")),
        ])),
    ];
    let list = attachment_list(attachment_definitions(&items, &limits).unwrap());
    let told: Vec<(&str, Option<&str>, &str, bool)> = list
        .iter()
        .map(|one| {
            (one.part.as_str(), one.filename.as_deref(), one.media_type.as_str(), one.available)
        })
        .collect();
    assert_eq!(
        told,
        vec![
            ("2", Some("a.pdf"), "application/pdf", true),
            ("3", Some("b.png"), "image/png", false),
        ]
    );
    assert_eq!(list[0].declared_size, Some(40));
    assert_eq!(
        attachment_definitions(&vec![Item::Uid(5)], &limits).err(),
        Some(Error::Protocol)
    );
}

#[test]
fn pieces_of_base64_give_the_same_octets() {
    for piece in [1, 2, 3, 5, 100] {
        let wire = b"aGVs\r\nbG8=\r\n";
        assert_eq!(decoded(TransferEncoding::Base64, wire, piece), Ok(b"hello".to_vec()));
        assert_eq!(decoded(TransferEncoding::Base64, b"aGV", piece), Err(Error::Protocol));
        assert_eq!(decoded(TransferEncoding::Base64, b"aG=s", piece), Err(Error::Protocol));
        assert_eq!(decoded(TransferEncoding::Base64, b"aG8=aG8=", piece), Err(Error::Protocol));
        assert_eq!(decoded(TransferEncoding::Base64, b"aG-_", piece), Err(Error::Protocol));
    }
}

#[test]
fn pieces_of_quoted_printable_give_the_same_octets() {
    for piece in [1, 2, 3, 100] {
        let qp = |wire: &[u8]| decoded(TransferEncoding::QuotedPrintable, wire, piece);
        assert_eq!(qp(b"a=3Db=\r\nc"), Ok(b"a=bc".to_vec()));
        assert_eq!(qp(b"a  \r\nb \t"), Ok(b"a\r\nb".to_vec()));
        assert_eq!(qp(b"a b\rc"), Ok(b"a b\rc".to_vec()));
        assert_eq!(qp(b"=e9"), Ok(vec![0xe9]));
        assert_eq!(qp(b"a=4"), Err(Error::Protocol));
        assert_eq!(qp(b"a=zz"), Err(Error::Protocol));
        assert_eq!(decoded(TransferEncoding::Identity, b"a=4", piece), Ok(b"a=4".to_vec()));
    }
}

#[test]
fn decoding_is_bounded() {
    let mut limits = Limits::default();
    limits.max_attachment_decoded_bytes = 4;
    let mut decoder = Decoder::new(TransferEncoding::Identity);
    assert_eq!(decoder.push(b"abcd", &limits), Ok(()));
    assert_eq!(decoder.push(b"e", &limits), Err(Error::Limit));
    let mut limits = Limits::default();
    limits.max_decode_steps = 3;
    let mut decoder = Decoder::new(TransferEncoding::Identity);
    assert_eq!(decoder.push(b"abcd", &limits), Err(Error::Limit));
    let mut decoder = Decoder::new(TransferEncoding::Identity);
    assert_eq!(decoder.push(b"abc", &limits), Ok(()));
    assert_eq!(decoder.pending_len(), 3);
    let snapshot = decoder.snapshot();
    assert_eq!((snapshot.decoded_bytes, snapshot.decode_steps), (3, 3));
    assert_eq!(decoder.take_chunk(2), b"ab");
    assert_eq!(decoder.decoded_offset(), 2);
}

fn connection(port: u16) -> AuthenticatedConnection {
    AuthenticatedConnection::authenticated("imap.example.org", "someone", port)
}

fn transfer(
    wire: &[u8],
    encoding: &str,
    limits: &Limits,
) -> Result<(Vec<AttachmentData>, Metrics), Error> {
    let mut transfer = AttachmentDecoder::new("INBOX", 7, 3, "2", limits)?;
    let structure = multi(vec![
        single(BodyKind::Text { subtype: b"plain".to_vec() }, "7bit", 5, None),
        single(basic("image", "png"), encoding, wire.len() as u32, attached("a.png")),
    ]);
    let mut metrics = Metrics::default();
    let mut pages = Vec::new();
    loop {
        let mut state = transfer.begin(&connection(9), limits)?;
        state.selected(3)?;
        if state.needs_definition() {
            state.define(&attachments(&structure, limits)?)?;
        }
        let mut fetched = false;
        while let Some(fetch) = state.next(fetched, 0, limits)? {
            match fetch {
                Fetch::Bytes { uid: 7, section: Some(Section::Part(path)), offset, count } => {
                    assert_eq!(path, vec![2]);
                    let start = (offset as usize).min(wire.len());
                    let end = (start + count as usize).min(wire.len());
                    state.accept(&wire[start..end].to_vec(), count, limits, &mut metrics)?;
                },
                other => panic!("{other:?}"),
            }
            fetched = true;
        }
        let page = state.finish(&mut transfer, limits, &mut metrics);
        let done = page.integrity.is_some();
        pages.push(page);
        if done {
            assert!(!transfer.goes_on());
            return Ok((pages, metrics));
        }
    }
}

#[test]
fn transfers_give_the_whole_attachment_in_pages() {
    let mut limits = Limits::default();
    limits.max_attachment_chunk_bytes = 3;
    limits.max_literal_bytes = 5;
    let (pages, metrics) = transfer(b"aGVsbG8gd29ybGQ=", "base64", &limits).unwrap();
    let mut all = Vec::new();
    for page in &pages {
        assert_eq!(page.decoded_offset as usize, all.len());
        assert!(page.bytes.len() <= 3);
        all.extend_from_slice(&page.bytes);
    }
    assert_eq!(all, b"hello world");
    let integrity = pages.last().unwrap().integrity.as_ref().unwrap();
    assert_eq!(integrity.total_decoded_bytes, 11);
    assert_eq!(integrity.sha256, digest(b"hello world"));
    assert_eq!(metrics.transfer_wire_bytes, 16);
    assert_eq!(metrics.transfer_decoded_bytes, 11);
    assert_eq!(metrics.transfer_decode_steps, 16);
}

#[test]
fn transfers_refuse_what_they_cannot_decode_or_hold() {
    let limits = Limits::default();
    assert_eq!(transfer(b"abc", "x-odd", &limits).err(), Some(Error::Unsupported));
    assert_eq!(transfer(b"aGV", "base64", &limits).err(), Some(Error::Protocol));
    let mut narrow = Limits::default();
    narrow.max_attachment_wire_bytes = 2;
    assert_eq!(transfer(b"abc", "7bit", &narrow).err(), Some(Error::Limit));
}

#[test]
fn transfers_belong_to_one_connection_and_one_mailbox() {
    let limits = Limits::default();
    let new = |uid: u32, validity: u32, part: &str| {
        AttachmentDecoder::new("INBOX", uid, validity, part, &limits)
    };
    assert_eq!(new(0, 3, "1").err(), Some(Error::InvalidInput));
    assert_eq!(new(7, 0, "1").err(), Some(Error::InvalidInput));
    assert_eq!(new(7, 3, "x").err(), Some(Error::InvalidInput));
    assert!(AttachmentDecoder::new("", 7, 3, "1", &limits).is_err());
    let mut transfer = new(7, 3, "1").unwrap();
    let state = transfer.begin(&connection(1), &limits).unwrap();
    assert_eq!(state.selected(4), Err(Error::StaleReference));
    assert_eq!(transfer.begin(&connection(1), &limits).err(), Some(Error::TransferExpired));
    let mut metrics = Metrics::default();
    let page = state.finish(&mut transfer, &limits, &mut metrics);
    assert!(page.bytes.is_empty() && page.integrity.is_none());
    assert_eq!(transfer.begin(&connection(2), &limits).err(), Some(Error::TransferExpired));
    let mut gone = new(7, 3, "5").unwrap();
    let mut state = gone.begin(&connection(1), &limits).unwrap();
    assert_eq!(state.define(&Vec::new()), Err(Error::StaleReference));
    let request = AttachmentListRequest::new(7, 3);
    assert_eq!((request.uid, request.uid_validity), (7, 3));
}

#[test]
fn a_read_stops_before_it_exceeds_its_budget() {
    let limits = Limits::default();
    let mut transfer = AttachmentDecoder::new("INBOX", 7, 3, "1", &limits).unwrap();
    let state = transfer.begin(&connection(1), &limits).unwrap();
    let used = limits.max_operation_bytes - limits.max_response_bytes * 2 + 1;
    assert!(state.next(false, used, &limits).unwrap().is_some());
    assert!(state.next(true, used, &limits).unwrap().is_none());
    assert!(state.next(true, used - 1, &limits).unwrap().is_some());
}

#[test]
fn configured_limits_bound_the_protocol() {
    let mut configured = config::Limits::default();
    let limits = Limits::attachment(&configured);
    assert!(limits.validate().is_ok());
    configured.attachment_wire_bytes = 1000;
    let limits = Limits::attachment(&configured);
    assert_eq!(limits.max_attachment_wire_bytes, 1000);
}

#[test]
fn failed_transfers_tell_what_they_used() {
    let limits = Limits::default();
    let mut transfer = AttachmentDecoder::new("INBOX", 7, 3, "2", &limits).unwrap();
    let structure = multi(vec![
        single(BodyKind::Text { subtype: b"plain".to_vec() }, "7bit", 5, None),
        single(basic("image", "png"), "base64", 12, attached("a.png")),
    ]);
    let mut metrics = Metrics::default();
    let mut state = transfer.begin(&connection(9), &limits).unwrap();
    state.define(&attachments(&structure, &limits).unwrap()).unwrap();
    assert_eq!(
        state.accept(&b"AAECAw==AAEC".to_vec(), 64, &limits, &mut metrics),
        Err(Error::Protocol)
    );
    assert_eq!(metrics.transfer_wire_bytes, 12);
    assert_eq!(metrics.transfer_decode_steps, 12);
    assert_eq!(metrics.transfer_decoded_bytes, 4);
    assert_eq!(metrics.max_transfer_state_bytes, 4 + 4 + 128);
}

#[test]
fn where_the_wire_is_cut_makes_no_difference() {
    let limits = Limits::default();
    for (encoding, wire) in [
        (TransferEncoding::Identity, &b"plain bytes"[..]),
        (TransferEncoding::Base64, b"aGVs\r\nbG8gd29ybGQ="),
        (TransferEncoding::QuotedPrintable, b"a =3D b  \r\nsoft=\r\n end \r"),
    ] {
        let mut whole = Decoder::new(encoding);
        whole.push(wire, &limits).unwrap();
        for cut in 0..=wire.len() {
            let mut pieces = Decoder::new(encoding);
            pieces.push(&wire[..cut], &limits).unwrap();
            pieces.push(&wire[cut..], &limits).unwrap();
            let (a, b) = (whole.snapshot(), pieces.snapshot());
            assert_eq!(a.decoded_bytes, b.decoded_bytes);
            assert_eq!(a.decode_steps, b.decode_steps);
            assert_eq!(a.max_state_bytes, b.max_state_bytes);
            assert_eq!(whole.pending, pieces.pending);
        }
    }
}

#[test]
fn the_peak_is_the_most_that_was_held() {
    let limits = Limits::default();
    let mut decoder = Decoder::new(TransferEncoding::Identity);
    assert_eq!(decoder.snapshot().max_state_bytes, 0);
    decoder.push(b"abc", &limits).unwrap();
    assert_eq!(decoder.snapshot().max_state_bytes, 3 + 128);
    decoder.take_chunk(3);
    decoder.push(b"d", &limits).unwrap();
    assert_eq!(decoder.snapshot().max_state_bytes, 3 + 128);
    let mut decoder = Decoder::new(TransferEncoding::Base64);
    decoder.push(b"aGVs", &limits).unwrap();
    assert_eq!(decoder.snapshot().max_state_bytes, 4 + 3 + 128);
    let mut decoder = Decoder::new(TransferEncoding::QuotedPrintable);
    decoder.push(b"=3D", &limits).unwrap();
    assert_eq!(decoder.snapshot().max_state_bytes, 2 + 128);
}
