//! Frames and commands on the wire: what the exchange makes of their bytes.
use io_imap::types::fetch::MessageDataItem;
use mailctl::imap::decode::{read_command, read_item, read_response};
use mailctl::imap::fetch::Fetch;
use mailctl::imap::types::{Code, Item, Response, Section, StatusKind};
use mailctl::imap::wire::{CommandKind, Exchange};
use mailctl::imap::{Error, Limits};
use std::num::NonZeroU32;

fn response(frame: &[u8]) -> Response {
    read_response(frame).unwrap()
}

fn row(frame: &[u8]) -> Vec<Item<()>> {
    match response(frame) {
        Response::Fetch { sequence: 3, items } => items,
        other => panic!("{other:?}"),
    }
}

fn asking(fetch: Fetch) -> Exchange {
    let mut exchange = Exchange::new();
    exchange.send("a1".to_string(), CommandKind::Other, Some(fetch));
    exchange
}

#[test]
fn status_responses_are_decoded_with_their_codes() {
    match response(b"a1 OK [READ-ONLY] done\r\n") {
        Response::Tagged { tag, kind: StatusKind::Success, code: Some(Code::ReadOnly) } => {
            assert_eq!(tag, "a1")
        }
        other => panic!("{other:?}"),
    }
    assert!(matches!(
        response(b"a2 NO refused\r\n"),
        Response::Tagged { kind: StatusKind::Refusal, code: None, .. }
    ));
    assert!(matches!(
        response(b"* BAD [READ-WRITE] what\r\n"),
        Response::Untagged { kind: StatusKind::Failure, code: Some(Code::ReadWrite) }
    ));
    assert!(matches!(
        response(b"* OK [UIDVALIDITY 3857529045] stable\r\n"),
        Response::Untagged {
            kind: StatusKind::Success,
            code: Some(Code::UidValidity(3857529045))
        }
    ));
    assert!(matches!(
        response(b"* OK [UIDNEXT 7] next\r\n"),
        Response::Untagged { code: Some(Code::Unlisted), .. }
    ));
    match response(b"* BYE [XAWAY later] gone\r\n") {
        Response::Bye { code: Some(Code::Other(text)) } => assert_eq!(text, b"XAWAY later".to_vec()),
        other => panic!("{other:?}"),
    }
}

#[test]
fn data_responses_are_told_apart() {
    for ordinary in [
        &b"* CAPABILITY IMAP4rev1\r\n"[..],
        b"* LIST (\\Noselect) \"/\" INBOX\r\n",
        b"* FLAGS (\\Seen)\r\n",
        b"* 4 EXISTS\r\n",
        b"* 0 RECENT\r\n",
        b"* 2 EXPUNGE\r\n",
    ] {
        assert!(matches!(response(ordinary), Response::Ordinary));
    }
    assert!(matches!(response(b"* SEARCH 2 5\r\n"), Response::Search));
    assert!(matches!(response(b"* STATUS INBOX (MESSAGES 1)\r\n"), Response::OtherData));
    assert!(matches!(response(b"+ go on\r\n"), Response::Continuation));
}

#[test]
fn rows_are_decoded_field_by_field() {
    let items = row(b"* 3 FETCH (UID 9 RFC822.SIZE 77 FLAGS (\\Seen \\Recent $Later) INTERNALDATE \"06-May-2024 08:11:12 +0200\")\r\n");
    assert_eq!(items.len(), 4);
    assert!(matches!(items[0], Item::Uid(9)));
    assert!(matches!(items[1], Item::Rfc822Size(77)));
    match &items[2] {
        Item::Flags(flags) => assert_eq!(flags, &["\\Seen", "\\Recent", "$Later"]),
        other => panic!("{other:?}"),
    }
    match &items[3] {
        Item::InternalDate(date) => assert_eq!(date, "2024-05-06T08:11:12+02:00"),
        other => panic!("{other:?}"),
    }
}

#[test]
fn envelopes_are_decoded_with_their_addresses() {
    let items = row(b"* 3 FETCH (ENVELOPE (\"date\" \"subject\" ((\"A\" NIL \"a\" \"x.org\")) ((NIL NIL \"s\" \"x.org\")) ((NIL NIL \"r\" \"x.org\")) ((NIL NIL \"t\" \"x.org\")(NIL NIL \"u\" \"x.org\")) NIL NIL \"<parent>\" \"<id>\"))\r\n");
    let Item::Envelope(envelope) = &items[0] else { panic!("{items:?}") };
    assert_eq!(envelope.date.as_deref(), Some(&b"date"[..]));
    assert_eq!(envelope.subject.as_deref(), Some(&b"subject"[..]));
    assert_eq!(envelope.from.len(), 1);
    assert_eq!(envelope.from[0].name.as_deref(), Some(&b"A"[..]));
    assert_eq!(envelope.from[0].route, None);
    assert_eq!(envelope.from[0].mailbox.as_deref(), Some(&b"a"[..]));
    assert_eq!(envelope.from[0].host.as_deref(), Some(&b"x.org"[..]));
    assert_eq!(envelope.sender[0].mailbox.as_deref(), Some(&b"s"[..]));
    assert_eq!(envelope.reply_to[0].mailbox.as_deref(), Some(&b"r"[..]));
    assert_eq!(envelope.to.len(), 2);
    assert_eq!(envelope.to[1].mailbox.as_deref(), Some(&b"u"[..]));
    assert!(envelope.cc.is_empty() && envelope.bcc.is_empty());
    assert_eq!(envelope.in_reply_to.as_deref(), Some(&b"<parent>"[..]));
    assert_eq!(envelope.message_id.as_deref(), Some(&b"<id>"[..]));
}

#[test]
fn sections_are_decoded_with_their_bytes() {
    let items = row(b"* 3 FETCH (BODY[1.2]<16> {4}\r\nabcd BODY[2.MIME] \"m\" BODY[HEADER] NIL BODY[TEXT] \"t\" BODY[] \"w\" BODYSTRUCTURE (\"text\" \"plain\" NIL NIL NIL \"7bit\" 3 1))\r\n");
    match &items[0] {
        Item::BodyExt { section: Some(Section::Part(path)), origin: Some(16), data: Some(data) } => {
            assert_eq!(path, &[1, 2]);
            assert_eq!(data, b"abcd");
        }
        other => panic!("{other:?}"),
    }
    match &items[1] {
        Item::BodyExt { section: Some(Section::Mime(path)), origin: None, data: Some(data) } => {
            assert_eq!(path, &[2]);
            assert_eq!(data, b"m");
        }
        other => panic!("{other:?}"),
    }
    assert!(matches!(
        items[2],
        Item::BodyExt { section: Some(Section::Header), origin: None, data: None }
    ));
    assert!(matches!(items[3], Item::BodyExt { section: Some(Section::Other), .. }));
    assert!(matches!(items[4], Item::BodyExt { section: None, .. }));
    assert!(matches!(items[5], Item::BodyStructure(())));
}

#[test]
fn a_structure_is_supplied_by_the_caller() {
    let uid = MessageDataItem::Uid(NonZeroU32::new(4).unwrap());
    assert!(matches!(read_item::<u8>(&uid, None), Item::Uid(4)));
    assert!(matches!(read_item(&uid, Some(6u8)), Item::Uid(4)));
    let size = MessageDataItem::Rfc822Size(12);
    assert!(matches!(read_item::<u8>(&size, None), Item::Rfc822Size(12)));
}

#[test]
fn what_is_no_single_response_is_refused() {
    for frame in [
        &b""[..],
        b"hello\r\n",
        b"* OK\r",
        b"* 1 EXISTS\r\n* 2 EXISTS\r\n",
        b"* 1 FETCH (UID 0)\r\n",
    ] {
        assert!(read_response(frame).is_none());
        let mut exchange = Exchange::new();
        let verdict = exchange.received(frame.to_vec(), &Limits::default(), false);
        assert_eq!(verdict, Err(Error::Protocol));
    }
}

#[test]
fn frames_are_repaired_decoded_and_judged() {
    let fetch = || Fetch::Bytes {
        uid: 5,
        section: Some(Section::Part(vec![1, 2])),
        offset: 16,
        count: 4,
    };
    let mut exchange = asking(fetch());
    let frame = b"* 1 FETCH (UID 5 BODY[1.2]<16>{4}\r\nabcd)\r\n".to_vec();
    let limits = Limits::default();
    assert_eq!(
        exchange.received(frame.clone(), &limits, false),
        Ok(b"* 1 FETCH (UID 5 BODY[1.2]<16> {4}\r\nabcd)\r\n".to_vec())
    );
    assert_eq!(exchange.received(frame.clone(), &limits, false), Err(Error::Protocol));
    let mut exchange = asking(fetch());
    let tight = Limits { max_response_bytes: frame.len(), ..Limits::default() };
    assert_eq!(exchange.received(frame, &tight, false), Err(Error::Limit));
    let other = b"* 2 FETCH (UID 6 BODY[1.2]<16> \"abcd\")\r\n".to_vec();
    assert_eq!(exchange.received(other, &limits, false), Err(Error::Protocol));
    let long = b"* 3 FETCH (UID 5 BODY[1.2]<16> \"abcde\")\r\n".to_vec();
    assert_eq!(exchange.received(long, &limits, false), Err(Error::Limit));
    let done = b"a1 OK done\r\n".to_vec();
    assert_eq!(exchange.received(done.clone(), &limits, false), Ok(done));
}

#[test]
fn a_draft_that_goes_out_is_waved_on() {
    let limits = Limits::default();
    let mut exchange = Exchange::new();
    let more = b"+ ready\r\n".to_vec();
    assert_eq!(exchange.received(more.clone(), &limits, true), Ok(more.clone()));
    assert_eq!(exchange.received(more, &limits, false), Err(Error::Protocol));
    let bye = b"* BYE gone\r\n".to_vec();
    assert_eq!(exchange.received(bye, &limits, true), Err(Error::Eof));
}

#[test]
fn commands_are_read_back_before_they_are_written() {
    let out = read_command(b"a7 LOGOUT\r\n").unwrap();
    assert_eq!(out.tag, "a7");
    assert_eq!(out.kind, CommandKind::Logout);
    assert!(out.fetch.is_none());
    assert_eq!(read_command(b"a8 UID SEARCH UNSEEN\r\n").unwrap().kind, CommandKind::Search);
    let out = read_command(b"a9 UID FETCH 5 (UID RFC822.SIZE BODYSTRUCTURE)\r\n").unwrap();
    assert_eq!(out.kind, CommandKind::Other);
    assert!(matches!(out.fetch, Some(Fetch::Metadata { uid: 5 })));
    let out = read_command(b"b1 UID FETCH 5 (UID BODY.PEEK[1.2]<16.4>)\r\n").unwrap();
    match out.fetch {
        Some(Fetch::Bytes { uid: 5, section: Some(Section::Part(path)), offset: 16, count: 4 }) => {
            assert_eq!(path, vec![1, 2])
        }
        other => panic!("{other:?}"),
    }
    for other in [
        &b"b2 FETCH 5 (UID RFC822.SIZE BODYSTRUCTURE)\r\n"[..],
        b"b3 UID FETCH 5:6 (UID RFC822.SIZE BODYSTRUCTURE)\r\n",
        b"b4 UID FETCH * (UID RFC822.SIZE BODYSTRUCTURE)\r\n",
        b"b5 UID FETCH 5 FULL\r\n",
        b"b6 UID FETCH 5 (UID BODY[1.2]<16.4>)\r\n",
        b"b7 UID FETCH 5 (UID BODY.PEEK[TEXT]<16.4>)\r\n",
        b"b8 NOOP\r\n",
    ] {
        let out = read_command(other).unwrap();
        assert_eq!(out.kind, CommandKind::Other);
        assert!(out.fetch.is_none());
    }
    assert!(read_command(b"LOGOUT").is_none());
}

#[test]
fn sending_notes_the_command_or_changes_nothing() {
    let mut exchange = Exchange::new();
    assert_eq!(exchange.sending(b"nonsense"), Err(Error::Protocol));
    assert!(exchange.tag.is_none());
    assert_eq!(exchange.sending(b"c1 LOGOUT\r\n"), Ok(()));
    assert_eq!(exchange.tag.as_deref(), Some("c1"));
    assert!(exchange.logging_out);
    assert_eq!(exchange.sending(b"c2 UID SEARCH ALL\r\n"), Ok(()));
    assert!(exchange.searching && !exchange.logging_out);
    exchange.sending_start(b"c3 APPEND Drafts (\\Draft) {5}\r\n");
    assert_eq!(exchange.tag.as_deref(), Some("c3"));
    assert!(!exchange.searching && exchange.fetch.is_none());
    exchange.sending_start(b"c4");
    assert_eq!(exchange.tag.as_deref(), Some("c4"));
}
