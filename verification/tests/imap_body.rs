//! Body reads from the structure of a message to the pages of its text.
use mailctl::config;
use mailctl::imap::body::chunks::Chunks;
use mailctl::imap::body::html::{preflight_html, render_html};
use mailctl::imap::body::page::cut_page;
use mailctl::imap::body::representation::{
    complete_headers, decode_charset, decode_transfer, judge_headers, render, validate_headers,
    HeaderFacts, Media,
};
use mailctl::imap::body::selection::{
    imap_text, leaf, normalize_content_id, parameter, select, structure_content_id, Selected,
};
use mailctl::imap::body::transfer::{
    base64_alphabet, base64_value, complete_base64_quanta, decode_base64, decode_quoted_printable,
    quoted_printable_prefix_len, settle, valid_base64_quartet, well_formed_base64,
    well_formed_quoted_printable,
};
use mailctl::imap::body::{
    body_of, close_headers, cut, read_context, BodyCursor, BodyPage, BodyReader, BodyRequest, Step,
    REPRESENTATION,
};
use mailctl::imap::fetch::Fetch;
use mailctl::imap::types::{Body, BodyKind, Disposition, Item, Section, Structure};
use mailctl::imap::{Error, Limits, Metrics};

fn pair(name: &str, value: &str) -> (Vec<u8>, Vec<u8>) {
    (name.as_bytes().to_vec(), value.as_bytes().to_vec())
}

fn text_part(subtype: &str, charset: Option<&str>, encoding: &str, size: usize) -> Structure {
    Structure::Single {
        body: Body {
            kind: BodyKind::Text { subtype: subtype.as_bytes().to_vec() },
            parameters: charset.map(|name| pair("charset", name)).into_iter().collect(),
            id: None,
            transfer_encoding: encoding.as_bytes().to_vec(),
            size: size as u32,
        },
        disposition: None,
    }
}

fn multi(subtype: &str, parameters: &[(&str, &str)], bodies: Vec<Structure>) -> Structure {
    Structure::Multi {
        bodies,
        subtype: subtype.as_bytes().to_vec(),
        parameters: parameters.iter().map(|(name, value)| pair(name, value)).collect(),
        disposition: None,
    }
}

fn selected(media_type: &str, charset: &str, encoding: &str, wire_size: usize) -> Selected {
    Selected {
        part: vec![1],
        media_type: media_type.to_string(),
        charset: charset.to_string(),
        transfer_encoding: encoding.to_string(),
        wire_size,
    }
}

fn slice(whole: &[u8], offset: u32, count: u32) -> Vec<u8> {
    let start = (offset as usize).min(whole.len());
    let end = (start + count as usize).min(whole.len());
    whole[start..end].to_vec()
}

fn same_section(section: &Option<Section>) -> Option<Section> {
    match section {
        None => None,
        Some(Section::Header) => Some(Section::Header),
        Some(Section::Mime(path)) => Some(Section::Mime(path.clone())),
        Some(Section::Part(path)) => Some(Section::Part(path.clone())),
        Some(Section::Other) => Some(Section::Other),
    }
}

/// A message as a server keeps it: each section with its bytes.
struct Stored {
    structure: fn() -> Structure,
    whole: &'static [u8],
    header: &'static [u8],
    sections: &'static [(&'static str, &'static [u8])],
}

fn answer(stored: &Stored, fetch: &Fetch) -> Vec<Item> {
    match fetch {
        Fetch::Metadata { uid } => vec![
            Item::Uid(*uid),
            Item::Rfc822Size(stored.whole.len() as u32),
            Item::BodyStructure((stored.structure)()),
        ],
        Fetch::Bytes { uid, section, offset, count } => {
            let named = |name: String| {
                stored.sections.iter().find(|known| known.0 == name).expect("known section").1
            };
            let bytes = match section {
                None => stored.whole,
                Some(Section::Header) => stored.header,
                Some(Section::Mime(path)) => named(format!("{path:?}.MIME")),
                Some(Section::Part(path)) => named(format!("{path:?}")),
                Some(Section::Other) => unreachable!(),
            };
            vec![
                Item::BodyExt {
                    section: same_section(section),
                    origin: Some(*offset),
                    data: Some(slice(bytes, *offset, *count)),
                },
                Item::Uid(*uid),
            ]
        },
    }
}

fn read(
    stored: &Stored,
    limits: Limits,
    continuation: Option<BodyCursor>,
) -> Result<BodyPage, Error> {
    let mut request = BodyRequest::new(7, 3);
    request.continuation = continuation;
    let mut reader = BodyReader::new("INBOX", request, limits)?;
    let fetch = reader.selected_mailbox(3)?;
    let mut fetch = reader.described(answer(stored, &fetch))?;
    loop {
        match reader.received(&answer(stored, &fetch))? {
            Step::Fetch(next) => fetch = next,
            Step::Close => return reader.finish(b"context", Metrics::default()),
        }
    }
}

const PLAIN: &[u8] = b"Subject: x\r\n\r\nHello,\r\nworld";

fn plain() -> Stored {
    Stored {
        structure: || text_part("plain", Some("us-ascii"), "7bit", 13),
        whole: PLAIN,
        header: b"Subject: x\r\n\r\n",
        sections: &[],
    }
}

#[test]
fn a_plain_message_is_read_whole() {
    let page = read(&plain(), Limits::default(), None).unwrap();
    assert_eq!(page.text, "Hello,\r\nworld");
    assert_eq!(page.selected_part.as_deref(), Some("1"));
    assert_eq!(page.source_media_type.as_deref(), Some("text/plain"));
    assert_eq!(page.representation_version, REPRESENTATION);
    assert!(!page.converted && !page.replacements && !page.truncated);
    assert!(page.continuation.is_none());
    assert_eq!(page.metrics.decoded_bytes, 13);
}

#[test]
fn pages_continue_where_they_ended() {
    let mut limits = Limits::default();
    limits.max_text_bytes = 5;
    let mut text = String::new();
    let mut continuation = None;
    loop {
        let page = read(&plain(), limits, continuation).unwrap();
        assert!(page.text.len() <= 5 && !page.text.is_empty());
        text.push_str(&page.text);
        assert_eq!(page.truncated, page.continuation.is_some());
        continuation = page.continuation;
        if continuation.is_none() {
            assert_eq!(text, "Hello,\r\nworld");
            return;
        }
    }
}

#[test]
fn small_pieces_make_the_same_text() {
    let mut limits = Limits::default();
    limits.max_literal_bytes = 3;
    assert_eq!(read(&plain(), limits, None).unwrap().text, "Hello,\r\nworld");
}

#[test]
fn continuations_are_bound_to_their_message() {
    let mut limits = Limits::default();
    limits.max_text_bytes = 5;
    let first = read(&plain(), limits, None).unwrap();
    let cursor = first.continuation.unwrap();
    assert_eq!(read(&plain(), limits, Some(cursor)).unwrap().text, ",\r\nwo");
    let changed = Stored {
        structure: || text_part("plain", Some("us-ascii"), "7bit", 13),
        whole: b"Subject: x\r\n\r\nHello,\r\nWORLD",
        header: b"Subject: x\r\n\r\n",
        sections: &[],
    };
    assert_eq!(read(&changed, limits, Some(cursor)).err(), Some(Error::StaleCursor));
}

#[test]
fn readers_check_their_request_and_their_mailbox() {
    let request = BodyRequest::new(7, 3);
    assert_eq!(
        BodyReader::new("", request, Limits::default()).err(),
        Some(Error::InvalidInput)
    );
    assert_eq!(
        BodyReader::new("INBOX", BodyRequest::new(0, 3), Limits::default()).err(),
        Some(Error::InvalidInput)
    );
    assert_eq!(
        BodyReader::new("INBOX", BodyRequest::new(7, 0), Limits::default()).err(),
        Some(Error::InvalidInput)
    );
    let mut reader = BodyReader::new("INBOX", request, Limits::default()).unwrap();
    assert_eq!(reader.selected_mailbox(4).err(), Some(Error::StaleReference));
    assert!(matches!(reader.selected_mailbox(3), Ok(Fetch::Metadata { uid: 7 })));
    assert_eq!(reader.described(vec![Item::Uid(7)]).err(), Some(Error::Protocol));
}

#[test]
fn an_alternative_shows_its_plain_text() {
    let stored = Stored {
        structure: || {
            multi("alternative", &[], vec![
                text_part("html", Some("utf-8"), "7bit", 13),
                text_part("plain", Some("utf-8"), "quoted-printable", 9),
            ])
        },
        whole: b"Subject: x\r\n\r\n...",
        header: b"Subject: x\r\n\r\n",
        sections: &[("[2]", b"caf=C3=A9")],
    };
    let page = read(&stored, Limits::default(), None).unwrap();
    assert_eq!(page.text, "caf\u{e9}");
    assert_eq!(page.selected_part.as_deref(), Some("2"));
    assert!(!page.converted && !page.replacements);
}

#[test]
fn a_related_message_shows_the_part_that_it_starts_with() {
    let stored = Stored {
        structure: || {
            multi("related", &[("start", "<second>")], vec![
                text_part("plain", Some("utf-8"), "7bit", 5),
                multi("alternative", &[], vec![
                    text_part("plain", Some("utf-8"), "base64", 8),
                ]),
            ])
        },
        whole: b"Subject: x\r\n\r\n...",
        header: b"Subject: x\r\n\r\n",
        sections: &[
            ("[2].MIME", b"Content-Type: multipart/alternative; boundary=b\r\nContent-ID: <second>\r\n"),
            ("[2, 1]", b"aGVsbG8="),
        ],
    };
    let page = read(&stored, Limits::default(), None).unwrap();
    assert_eq!(page.text, "hello");
    assert_eq!(page.selected_part.as_deref(), Some("2.1"));
}

#[test]
fn a_message_without_text_has_an_empty_page() {
    let stored = Stored {
        structure: || Structure::Single {
            body: Body {
                kind: BodyKind::Basic { kind: b"image".to_vec(), subtype: b"png".to_vec() },
                parameters: Vec::new(),
                id: None,
                transfer_encoding: b"base64".to_vec(),
                size: 4,
            },
            disposition: None,
        },
        whole: b"Subject: x\r\n\r\nAAAA",
        header: b"Subject: x\r\n\r\n",
        sections: &[],
    };
    let page = read(&stored, Limits::default(), None).unwrap();
    assert_eq!(page.text, "");
    assert_eq!(page.selected_part, None);
    assert_eq!(page.source_media_type, None);
    assert!(!page.truncated);
}

#[test]
fn headers_that_contradict_the_structure_are_refused() {
    let stored = Stored {
        structure: || text_part("plain", Some("us-ascii"), "7bit", 4),
        whole: b"Content-Type: text/html\r\n\r\nbody",
        header: b"Content-Type: text/html\r\n\r\n",
        sections: &[],
    };
    assert_eq!(read(&stored, Limits::default(), None).err(), Some(Error::Protocol));
    let mut limits = Limits::default();
    limits.max_body_wire_bytes = 12;
    assert_eq!(read(&plain(), limits, None).err(), Some(Error::Limit));
}

#[test]
fn header_blocks_are_closed_within_their_budget() {
    let mut limits = Limits::default();
    let closed = |bytes: &[u8], used: usize, limits: &Limits| {
        close_headers(bytes.to_vec(), used, limits)
    };
    assert_eq!(closed(b"A: b\r\n\r\n", 0, &limits), Ok(b"A: b\r\n\r\n".to_vec()));
    assert_eq!(closed(b"\r\n", 0, &limits), Ok(b"\r\n".to_vec()));
    assert_eq!(closed(b"A: b\r\n", 0, &limits), Ok(b"A: b\r\n\r\n".to_vec()));
    assert_eq!(closed(b"A: b", 0, &limits), Err(Error::Protocol));
    limits.max_header_bytes = 7;
    assert_eq!(closed(b"A: b\r\n", 1, &limits), Err(Error::Limit));
}

#[test]
fn bodies_follow_their_headers() {
    let whole = PLAIN.to_vec();
    let headers = b"Subject: x\r\n\r\n".to_vec();
    assert_eq!(body_of(&whole, &headers, 13), Ok(b"Hello,\r\nworld".to_vec()));
    assert_eq!(body_of(&whole, &headers, 12), Err(Error::Protocol));
    assert_eq!(body_of(&whole, &b"Subject: y\r\n\r\n".to_vec(), 13), Err(Error::Protocol));
}

#[test]
fn pages_end_between_characters() {
    let mut limits = Limits::default();
    limits.max_text_bytes = 4;
    let text = "a\u{20ac}\u{20ac}";
    let page = cut(text, [1; 32], None, &limits).unwrap();
    assert_eq!(page.text, "a\u{20ac}");
    let cursor = page.continuation.unwrap();
    let page = cut(text, [1; 32], Some(cursor), &limits).unwrap();
    assert_eq!(page.text, "\u{20ac}");
    assert!(page.continuation.is_none());
    assert_eq!(cut(text, [2; 32], Some(cursor), &limits).err(), Some(Error::StaleCursor));
    let inside = "abc\u{20ac}";
    assert_eq!(cut(inside, [1; 32], Some(cursor), &limits).err(), Some(Error::StaleCursor));
    assert_eq!(cut("abcd", [1; 32], Some(cursor), &limits).err(), Some(Error::StaleCursor));
    assert_eq!(cut_page(text, 1, 5), ("\u{20ac}".to_string(), 4));
}

#[test]
fn pieces_follow_each_other_up_to_their_budget() {
    let limits = Limits::default();
    let mut chunks = Chunks::new(Some(5), 20000, &limits).unwrap();
    assert_eq!(chunks.next(), (0, 6));
    assert_eq!(chunks.accept(&b"abcde".to_vec()), Ok(true));
    assert_eq!(chunks.received, b"abcde");
    let mut chunks = Chunks::new(None, 20000, &limits).unwrap();
    assert_eq!(chunks.next(), (0, 16384));
    assert_eq!(chunks.accept(&vec![0; 16384]), Ok(false));
    assert_eq!(chunks.next(), (16384, 3617));
    assert_eq!(chunks.accept(&vec![0; 3617]), Err(Error::Limit));
    let mut chunks = Chunks::new(Some(5), 20000, &limits).unwrap();
    assert_eq!(chunks.accept(&b"abcdef".to_vec()), Err(Error::Protocol));
    let mut narrow = Limits::default();
    narrow.max_response_bytes = 1;
    narrow.max_literal_bytes = 1;
    assert_eq!(Chunks::new(None, 10, &narrow).err(), Some(Error::InvalidInput));
}

#[test]
fn attachments_and_foreign_parts_are_not_selected() {
    let limits = Limits::default();
    let attached = || match text_part("plain", None, "7bit", 3) {
        Structure::Single { body, .. } => Structure::Single {
            body,
            disposition: Some(Disposition {
                kind: b"attachment".to_vec(),
                parameters: Vec::new(),
            }),
        },
        other => other,
    };
    assert!(select(&attached(), &limits, &Vec::new()).unwrap().is_none());
    let mixed = multi("mixed", &[], vec![attached(), text_part("html", None, "7bit", 3)]);
    let chosen = select(&mixed, &limits, &Vec::new()).unwrap().unwrap();
    assert_eq!(chosen.part, vec![2]);
    assert_eq!(chosen.media_type, "text/html");
    assert_eq!(chosen.charset, "us-ascii");
    let message = Structure::Single {
        body: Body {
            kind: BodyKind::Message { structure: Box::new(text_part("plain", None, "7bit", 3)) },
            parameters: Vec::new(),
            id: None,
            transfer_encoding: b"7bit".to_vec(),
            size: 3,
        },
        disposition: None,
    };
    assert!(select(&message, &limits, &Vec::new()).unwrap().is_none());
    let mut narrow = Limits::default();
    narrow.max_mime_parts = 1;
    assert_eq!(select(&mixed, &narrow, &Vec::new()).err(), Some(Error::Limit));
}

#[test]
fn a_leaf_is_described_by_its_structure() {
    match text_part("HTML", Some("ISO-8859-1"), "BASE64", 12) {
        Structure::Single { body, .. } => {
            let found = leaf(&body, vec![3]).unwrap().unwrap();
            assert_eq!(found.part, vec![3]);
            assert_eq!(found.media_type, "text/html");
            assert_eq!(found.charset, "ISO-8859-1");
            assert_eq!(found.transfer_encoding, "base64");
            assert_eq!(found.wire_size, 12);
        },
        Structure::Multi { .. } => unreachable!(),
    }
    match text_part("calendar", None, "7bit", 12) {
        Structure::Single { body, .. } => assert!(leaf(&body, vec![3]).unwrap().is_none()),
        Structure::Multi { .. } => unreachable!(),
    }
}

#[test]
fn parameters_and_identifiers_are_text() {
    let parameters = vec![pair("Charset", "utf-8"), pair("other", "x")];
    assert_eq!(parameter(&parameters, "charset"), Ok(Some("utf-8".to_string())));
    assert_eq!(parameter(&parameters, "start"), Ok(None));
    assert!(imap_text(&vec![0xff]).is_err());
    assert_eq!(imap_text(&b"abc".to_vec()), Ok("abc".to_string()));
    assert_eq!(normalize_content_id(" <a@b> "), Ok("a@b".to_string()));
    assert_eq!(normalize_content_id("a@b"), Ok("a@b".to_string()));
    assert!(normalize_content_id("").is_err());
    assert_eq!(normalize_content_id("<a b>"), Ok("a b".to_string()));
    assert!(normalize_content_id("<a\tb>").is_err());
    assert!(normalize_content_id(&"x".repeat(999)).is_err());
    let mut part = text_part("plain", None, "7bit", 3);
    if let Structure::Single { body, .. } = &mut part {
        body.id = Some(b"<id@host>".to_vec());
    }
    assert_eq!(structure_content_id(&part), Ok(Some("id@host".to_string())));
    assert_eq!(structure_content_id(&multi("mixed", &[], Vec::new())), Ok(None));
}

#[test]
fn base64_is_decoded_or_recovered() {
    assert!(base64_alphabet(b'+') && !base64_alphabet(b'-'));
    assert_eq!(base64_value(b'/'), Some(63));
    assert_eq!(base64_value(b'='), None);
    assert!(valid_base64_quartet(&b"QQ==".to_vec()));
    assert!(!valid_base64_quartet(&b"Q=Q=".to_vec()));
    assert!(well_formed_base64(b"aGVs\r\nbG8="));
    assert!(!well_formed_base64(b"aGVsbG8"));
    assert_eq!(complete_base64_quanta(b"aGVsbG8"), 4);
    assert_eq!(decode_base64(b"aGVs\r\nbG8="), (b"hello".to_vec(), false));
    assert_eq!(decode_base64(b"aGVsbG8"), (b"hel".to_vec(), true));
    assert_eq!(decode_base64(b""), (Vec::new(), false));
    let lost = settle(None, false, Some(b"ab".to_vec()));
    assert_eq!(lost, (b"ab".to_vec(), true));
    let kept = settle(Some(b"abc".to_vec()), true, None);
    assert_eq!(kept, (b"abc".to_vec(), false));
    assert_eq!(settle(None, true, None), (Vec::new(), true));
}

#[test]
fn quoted_printable_is_decoded_or_recovered() {
    assert!(well_formed_quoted_printable(b"a=3D=\r\nb"));
    assert!(!well_formed_quoted_printable(b"a=3"));
    assert_eq!(quoted_printable_prefix_len(b"a=3Db=zz"), 5);
    assert_eq!(decode_quoted_printable(b"a=3D=\r\nb"), (b"a=b".to_vec(), false));
    let (recovered, lost) = decode_quoted_printable(b"a=3Db=zz");
    assert_eq!(recovered, b"a=b");
    assert!(lost);
}

#[test]
fn transfer_encodings_have_names() {
    assert_eq!(decode_transfer(b"x=41", " 8BIT "), (b"x=41".to_vec(), false));
    assert_eq!(decode_transfer(b"x=41", "Quoted-Printable"), (b"xA".to_vec(), false));
    assert_eq!(decode_transfer(b"eA==", "base64"), (b"x".to_vec(), false));
    assert_eq!(decode_transfer(b"x", "x-unknown"), (b"x".to_vec(), true));
}

#[test]
fn charsets_are_decoded_or_replaced() {
    assert_eq!(decode_charset(b"caf\xe9", " latin1 "), ("caf\u{e9}".to_string(), false));
    assert_eq!(decode_charset(b"caf\xc3\xa9", "utf-8"), ("caf\u{e9}".to_string(), false));
    assert_eq!(decode_charset(b"caf\xe9", "utf-8"), ("caf\u{fffd}".to_string(), true));
    assert_eq!(decode_charset(b"plain", "x-none"), ("plain".to_string(), true));
    assert_eq!(decode_charset(b"caf\xe9", "x-none"), ("caf\u{fffd}".to_string(), true));
}

#[test]
fn header_blocks_are_judged() {
    let limits = Limits::default();
    assert!(complete_headers(b"A: b\n\n"));
    assert!(!complete_headers(b"A: b\r\n"));
    let raw = b"Content-Type: text/plain; charset=utf-8\r\nContent-ID: <x@y>\r\n\r\n";
    assert_eq!(validate_headers(raw, None, &limits), Ok(Some("x@y".to_string())));
    let fits = selected("text/plain", "UTF-8", "7bit", 3);
    assert_eq!(validate_headers(raw, Some(&fits), &limits), Ok(Some("x@y".to_string())));
    let other = selected("text/plain", "us-ascii", "7bit", 3);
    assert_eq!(validate_headers(raw, Some(&other), &limits), Err(Error::Protocol));
    let encoded = b"Content-Type: text/plain; charset=utf-8\r\nContent-Transfer-Encoding: base64\r\n\r\n";
    assert_eq!(validate_headers(encoded, Some(&fits), &limits), Err(Error::Protocol));
    let attached = b"Content-Type: text/plain; charset=utf-8\r\nContent-Disposition: attachment\r\n\r\n";
    assert_eq!(validate_headers(attached, Some(&fits), &limits), Err(Error::Protocol));
    assert_eq!(validate_headers(b"\r\n", Some(&other), &limits), Ok(None));
    assert_eq!(validate_headers(b"\r\n", Some(&fits), &limits), Err(Error::Protocol));
    assert_eq!(validate_headers(b"", None, &limits), Err(Error::Limit));
    assert_eq!(validate_headers(b"A: b\r\n", None, &limits), Err(Error::Limit));
    let facts = |id: Option<&str>| Some(HeaderFacts {
        content_id: id.map(str::to_string),
        media: Some(Media {
            kind: "Text".to_string(),
            subtype: Some("Plain".to_string()),
            charset: Some("utf-8".to_string()),
        }),
        transfer_encoding: None,
        disposition: None,
    });
    assert_eq!(judge_headers(raw, facts(None), Some(&fits), &limits), Ok(None));
    assert_eq!(judge_headers(raw, facts(Some("a\tb")), None, &limits), Err(Error::Protocol));
    assert_eq!(judge_headers(raw, None, None, &limits), Err(Error::Protocol));
}

fn document(text: &str) -> html2text::RcDom {
    html2text::config::plain().raw_mode(true).parse_html(text.as_bytes()).unwrap()
}

fn attribute_values(node: &html2text::Handle, values: &mut Vec<String>) {
    if let html2text::Element { attrs, .. } = &node.data {
        values.extend(attrs.borrow().iter().map(|attribute| attribute.value.to_string()));
    }
    for child in node.children.borrow().iter() {
        attribute_values(child, values);
    }
}

#[test]
fn documents_are_bounded_before_they_are_rendered() {
    let limits = Limits::default();
    let mut dom = document(
        "<table><tr><td colspan=99999 class=99999>a</td><th rowspan=x colspan=+3></th></tr></table>\
         <div colspan=9></div><ol start=9223372036854775807><li>a</ol><ol start=-7><li>b</ol>\
         <ol start=many></ol>",
    );
    assert_eq!(preflight_html(&mut dom, &limits, 10), Ok(18));
    let mut values = Vec::new();
    attribute_values(&dom.document, &mut values);
    assert_eq!(values, ["8", "99999", "1", "3", "9", "1", "-7", "1"]);
    let deep = "<div>".repeat(limits.max_nesting);
    assert_eq!(preflight_html(&mut document(&deep), &limits, 0), Err(Error::Limit));
    let shallow = "<div>".repeat(limits.max_nesting - 3);
    assert_eq!(preflight_html(&mut document(&shallow), &limits, 0), Ok(limits.max_nesting + 1));
    let full = format!("{shallow}text");
    assert_eq!(preflight_html(&mut document(&full), &limits, 0), Err(Error::Limit));
    let cells = |count: usize| document(&format!("<table><tr>{}", "<td>".repeat(count)));
    assert!(preflight_html(&mut cells(128), &limits, 0).is_ok());
    assert_eq!(preflight_html(&mut cells(129), &limits, 0), Err(Error::Limit));
    let many = "<br>".repeat(4097);
    assert_eq!(preflight_html(&mut document(&many), &limits, 0), Err(Error::Limit));
    let attributes = (0..4 * 4096 + 1).map(|n| format!(" a{n}=x")).collect::<String>();
    let wide = format!("<p{attributes}>");
    assert_eq!(preflight_html(&mut document(&wide), &limits, 0), Err(Error::Limit));
    let mut small = document("<p>one</p>");
    assert_eq!(preflight_html(&mut small, &limits, limits.max_decode_steps - 6), Ok(6));
    assert_eq!(
        preflight_html(&mut small, &limits, limits.max_decode_steps - 5),
        Err(Error::Limit)
    );
}

#[test]
fn documents_are_rendered_as_plain_text() {
    let limits = Limits::default();
    let (text, work) = render_html("<p>one</p><p>two &amp; three</p>", &limits, 0).unwrap();
    assert_eq!(text, "one\n\ntwo & three\n");
    assert!(work > 0);
    let (text, _) = render_html(
        "<table><tr><td colspan=\"1000000\">wide</td></tr></table>",
        &limits,
        0,
    )
    .unwrap();
    assert_eq!(text.trim(), "wide");
    let long = "x".repeat(65537);
    assert_eq!(render_html(&long, &limits, 0).err(), Some(Error::Limit));
    let (text, _) = render_html("<ol start=9><li>a<li>b</ol>", &limits, 0).unwrap();
    assert_eq!(text, "9.  a\n10. b\n");
    let (text, _) = render_html(
        "<ol start=\"9223372036854775807\"><li>x</li></ol>",
        &limits,
        0,
    )
    .unwrap();
    assert_eq!(text, "1. x\n");
}

#[test]
fn documents_set_in_beyond_the_page_are_refused() {
    let mut limits = Limits::default();
    limits.max_nesting = 40;
    let nested = |count: usize, inner: &str| {
        format!("{}{inner}", "<h6><div>".repeat(count))
    };
    let (text, _) = render_html(&nested(10, "<pre>a\tb</pre>"), &limits, 0).unwrap();
    assert!(text.trim_end().ends_with("a       b"), "{text:?}");
    let hollow = nested(11, "<h2><pre>\t</pre></h2>");
    assert_eq!(render_html(&hollow, &limits, 0).err(), Some(Error::Protocol));
    assert_eq!(render_html(&nested(12, "text"), &limits, 0).err(), Some(Error::Protocol));
    let lists = "<ol start=1000000000000000000><li>".repeat(4);
    assert_eq!(render_html(&lists, &limits, 0).err(), Some(Error::Protocol));
}

#[test]
fn joined_characters_are_counted_one_by_one() {
    let limits = Limits::default();
    let rendered = |text: &str| render_html(text, &limits, 0).unwrap().0;
    let filler = "a".repeat(78);
    assert_eq!(
        rendered(&format!("<p>{filler} \u{2764}\u{fe0f} b c</p>")),
        format!("{filler} \u{2764}\u{fe0f}\nb c\n")
    );
    assert_eq!(
        rendered(&format!("<p>{filler} &#x2764;&#xFE0F; b c</p>")),
        format!("{filler} \u{2764}\u{fe0f}\nb c\n")
    );
    let hearts = "\u{2764}\u{fe0f}".repeat(50);
    assert_eq!(rendered(&format!("<p>{hearts}</p>")), format!("{hearts}\n"));
    let ligatures = "\u{644}\u{627}".repeat(41);
    let (first, rest) = ligatures.split_at(80 * 2);
    assert_eq!(rendered(&format!("<p>{ligatures}</p>")), format!("{first}\n{rest}\n"));
    let family = "\u{1f468}&zwj;\u{1f469}&#8205;\u{1f467}";
    assert_eq!(
        rendered(&format!("<p title='\u{fe0f}'>{family}</p>")),
        "\u{1f468}\u{200d}\u{1f469}\u{200d}\u{1f467}\n"
    );
    assert_eq!(
        rendered("<p><a href='https://host/\u{2d6f}?a=1&amp;b=2'>l\u{e9}</a> &rsquo;</p>"),
        "[l\u{e9}][1] \u{2019}\n\n[1]: https://host/\u{2d6f}?a=1&b=2\n"
    );
}

#[test]
fn selected_parts_are_rendered_in_bounded_steps() {
    let limits = Limits::default();
    let part = selected("text/html", "iso-8859-1", "quoted-printable", 40);
    let shown = render(&part, b"<p>caf=E9</p>", &limits).unwrap();
    assert_eq!(shown.text, "caf\u{e9}\n");
    assert!(shown.converted && !shown.replacements);
    let part = selected("text/plain", "x-none", "7bit", 40);
    let shown = render(&part, b"plain", &limits).unwrap();
    assert_eq!(shown.text, "\u{fffd}plain");
    assert!(!shown.converted && shown.replacements);
    let mut narrow = Limits::default();
    narrow.max_decode_steps = 3;
    assert_eq!(render(&part, b"plain", &narrow).err(), Some(Error::Limit));
    let mut narrow = Limits::default();
    narrow.max_decoded_bytes = 4;
    assert_eq!(render(&part, b"plain", &narrow).err(), Some(Error::Limit));
}

#[test]
fn configured_limits_bound_body_reads() {
    let mut configured = config::Limits::default();
    configured.text_page_bytes = 4096;
    configured.mime_parts = 17;
    let limits = Limits::body(&configured);
    assert!(limits.validate().is_ok());
    assert_eq!((limits.max_text_bytes, limits.max_mime_parts), (4096, 17));
    assert_eq!(limits.max_body_wire_bytes, configured.wire_fetch_bytes);
    assert_eq!(limits.max_header_bytes, configured.header_bytes);
    assert_eq!(limits.max_nesting, configured.mime_depth);
    assert_eq!(limits.max_operation_bytes, 16 * 1024 * 1024);
    assert_eq!((limits.max_response_bytes, limits.max_literal_bytes), (256 * 1024, 64 * 1024));
}

#[test]
fn continuations_are_bound_to_their_circumstances() {
    let request = BodyRequest::new(0x0102_0304, 0x0506_0708);
    let context = read_context("h", "us", "INBOX", 993, &request, "limits");
    let mut expected = vec![0, 0, 0, 0, 0, 0, 0, 1, b'h', 0, 0, 0, 0, 0, 0, 0, 2, b'u', b's'];
    expected.extend([0, 0, 0, 0, 0, 0, 0, 5]);
    expected.extend(b"INBOX");
    expected.extend([0, 0, 0, 0, 0, 0, 0, REPRESENTATION.len() as u8]);
    expected.extend(REPRESENTATION.as_bytes());
    expected.extend([3, 225, 1, 2, 3, 4, 5, 6, 7, 8]);
    expected.extend(b"limits");
    assert_eq!(context, expected);
    for (host, user) in [("hu", "s"), ("", "hus"), ("h", "US")] {
        assert_ne!(read_context(host, user, "INBOX", 993, &request, "limits"), context);
    }
}
