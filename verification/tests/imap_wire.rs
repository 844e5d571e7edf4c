//! One exchange with a server: what is admitted, and what each response means.
use mailctl::imap::fetch::{Fetch, FetchCommand, Name};
use mailctl::imap::mime::{attachment, child_path, part_name, validate_structure};
use mailctl::imap::types::{
    same_path, Body, BodyKind, Code, Disposition, Item, Response, Section, StatusKind, Structure,
};
use io_imap::codec::fragmentizer::Fragmentizer;
use mailctl::imap::wire::{check_code, join, step, CommandKind, Exchange, Frame};
use mailctl::imap::{Error, Limits, Metrics};

fn limits() -> Limits {
    Limits::default()
}

fn bytes(uid: u32, section: Option<Section>, offset: u32, count: u32) -> Fetch {
    Fetch::Bytes { uid, section, offset, count }
}

fn single(size: u32) -> Structure {
    Structure::Single {
        body: Body {
            kind: BodyKind::Text { subtype: b"plain".to_vec() },
            parameters: Vec::new(),
            id: None,
            transfer_encoding: b"7bit".to_vec(),
            size,
        },
        disposition: None,
    }
}

fn multi(bodies: Vec<Structure>) -> Structure {
    Structure::Multi {
        bodies,
        subtype: b"mixed".to_vec(),
        parameters: Vec::new(),
        disposition: None,
    }
}

fn data<S>(uid: u32, section: Option<Section>, origin: u32, data: &[u8]) -> Vec<Item<S>> {
    vec![Item::Uid(uid), Item::BodyExt { section, origin: Some(origin), data: Some(data.to_vec()) }]
}

fn tagged(tag: &str, kind: StatusKind, code: Option<Code>) -> Response {
    Response::Tagged { tag: tag.to_string(), kind, code }
}

fn selecting() -> Exchange {
    let mut exchange = Exchange::new();
    exchange.examining = true;
    exchange.send("a1".to_string(), CommandKind::Other, None);
    exchange
}

#[test]
fn steps_are_charged_up_to_their_ceiling() {
    let mut limits = limits();
    limits.max_parser_steps = 10;
    let mut metrics = Metrics::default();
    assert_eq!(step(&mut metrics, &limits, 7), Ok(()));
    assert_eq!(metrics.parser_steps, 7);
    assert_eq!(step(&mut metrics, &limits, 4), Err(Error::Limit));
    assert_eq!(metrics.parser_steps, 7);
    assert_eq!(step(&mut metrics, &limits, 3), Ok(()));
    assert_eq!(step(&mut metrics, &limits, 0), Ok(()));
    assert_eq!(step(&mut metrics, &limits, 1), Err(Error::Limit));
}

#[test]
fn frames_admit_bytes_within_their_ceilings() {
    let mut limits = limits();
    limits.max_responses = 1;
    limits.max_response_bytes = 3;
    limits.max_operation_bytes = 100;
    limits.max_literal_bytes = 3;
    let mut metrics = Metrics::default();
    let mut frame = Frame::begin(&limits, &mut metrics).unwrap();
    assert_eq!((frame.bytes, frame.nesting), (0, 0));
    assert_eq!(Frame::begin(&limits, &mut metrics).err(), Some(Error::Limit));
    assert_eq!(metrics.responses, 1);
    for count in 1..=3usize {
        assert_eq!(frame.ready(&limits, &metrics), Ok(()));
        assert_eq!(frame.byte(&limits, &mut metrics), Ok(()));
        assert_eq!(frame.bytes, count);
        assert_eq!(metrics.wire_bytes, count);
        assert_eq!(metrics.max_response_bytes, count);
        assert_eq!(metrics.max_buffered_bytes, count * 2 + 4096);
    }
    assert_eq!(frame.ready(&limits, &metrics), Err(Error::Limit));
    assert_eq!(frame.complete(&limits, &mut metrics), Ok(()));
    assert_eq!(metrics.parser_steps, 9);
    limits.max_operation_bytes = 3;
    let empty = Frame { guard: Fragmentizer::new(3), bytes: 0, nesting: 0 };
    assert_eq!(empty.ready(&limits, &metrics), Err(Error::Limit));
}

#[test]
fn lines_are_measured_outside_of_quotes() {
    let mut limits = limits();
    limits.max_nesting = 2;
    let mut metrics = Metrics::default();
    let mut frame = Frame { guard: Fragmentizer::new(100), bytes: 20, nesting: 0 };
    assert_eq!(frame.line(b"* 1 (\"((( \\\" (\" (", true, None, 10, &limits, &mut metrics), Ok(()));
    assert_eq!(frame.nesting, 2);
    assert_eq!(frame.line(b"(", true, None, 10, &limits, &mut metrics), Err(Error::Limit));
    assert_eq!(frame.nesting, 2);
    assert_eq!(frame.line(b"))))", true, None, 10, &limits, &mut metrics), Ok(()));
    assert_eq!(frame.nesting, 0);
    assert_eq!(frame.line(b"", false, None, 10, &limits, &mut metrics), Err(Error::Protocol));
    assert_eq!(frame.line(b"", true, Some(10), 10, &limits, &mut metrics), Ok(()));
    assert_eq!(metrics.max_literal_bytes, 10);
    assert_eq!(frame.line(b"", true, Some(11), 10, &limits, &mut metrics), Err(Error::Limit));
    limits.max_response_bytes = 29;
    assert_eq!(frame.line(b"", true, Some(10), 10, &limits, &mut metrics), Err(Error::Limit));
}

/// Reads responses off a text until one is complete or refused.
fn receive(text: &[u8], literal: usize, limits: &Limits) -> Result<(Vec<u8>, Metrics), Error> {
    let mut metrics = Metrics::default();
    let mut frame = Frame::begin(limits, &mut metrics)?;
    for byte in text {
        frame.ready(limits, &metrics)?;
        if let Some(whole) = frame.receive(*byte, literal, limits, &mut metrics)? {
            return Ok((whole, metrics));
        }
    }
    Err(Error::Eof)
}

#[test]
fn responses_end_with_a_line_that_announces_nothing() {
    let limits = limits();
    let whole = |text: &[u8]| receive(text, 10, &limits).map(|(whole, _)| whole);
    assert_eq!(whole(b"* OK ready\r\n* BYE\r\n"), Ok(b"* OK ready\r\n".to_vec()));
    let text = b"* 1 FETCH (BODY[] {3}\r\n(((\n \"x\")\r\n";
    assert_eq!(whole(text), Err(Error::Protocol));
    let text = b"* 1 FETCH (BODY[] {3}\r\n((( \"x\")\r\n";
    assert_eq!(whole(text), Ok(text.to_vec()));
    let text = b"* X {0}\r\n {2+}\r\n\r\n{1}\r\na\r\n";
    assert_eq!(whole(text), Ok(text.to_vec()));
    for text in [&b"* X {3\r\n"[..], b"* X {}\r\n", b"* X {99999999999}\r\n", b"* X {3}x\r\n"] {
        assert_eq!(whole(text), Ok(text.to_vec()));
    }
    let (_, metrics) = receive(b"* {2}\r\nab\r\n", 10, &limits).unwrap();
    assert_eq!((metrics.wire_bytes, metrics.parser_steps), (11, 33));
    assert_eq!((metrics.responses, metrics.max_literal_bytes), (1, 2));
}

#[test]
fn responses_are_refused_before_they_are_read() {
    let mut narrow = limits();
    assert_eq!(receive(b"* OK\n", 10, &narrow).err(), Some(Error::Protocol));
    assert_eq!(receive(b"* {11}\r\n", 10, &narrow).err(), Some(Error::Limit));
    assert_eq!(receive(b"* {11}\r\n", 11, &narrow).err(), Some(Error::Eof));
    narrow.max_nesting = 2;
    assert_eq!(receive(b"* ((\"(\"\r\n", 10, &narrow).map(|_| ()), Ok(()));
    assert_eq!(receive(b"* (( {1}\r\n( (\r\n", 10, &narrow).err(), Some(Error::Limit));
    narrow.max_literal_bytes = 1;
    narrow.max_response_bytes = 8;
    assert_eq!(receive(b"* {2}\r\n", 10, &narrow).err(), Some(Error::Limit));
    assert_eq!(receive(b"* {1}\r\n", 10, &narrow).err(), Some(Error::Eof));
    assert_eq!(receive(b"* 345678\r\n", 10, &narrow).err(), Some(Error::Limit));
    narrow.max_parser_steps = 17;
    assert_eq!(receive(b"* OK\r\n", 10, &narrow).err(), Some(Error::Limit));
    narrow.max_parser_steps = 18;
    assert!(receive(b"* OK\r\n", 10, &narrow).is_ok());
}

#[test]
fn responses_are_joined_within_one_buffer() {
    let mut limits = limits();
    limits.max_response_bytes = 6;
    let mut metrics = Metrics::default();
    let mut received = b"abc".to_vec();
    assert_eq!(join(&mut received, &b"def".to_vec(), &limits, &mut metrics), Ok(()));
    assert_eq!(received, b"abcdef");
    assert_eq!(metrics.max_buffered_bytes, 4108);
    assert_eq!(join(&mut received, &b"g".to_vec(), &limits, &mut metrics), Err(Error::Limit));
    assert_eq!(received, b"abcdef");
}

#[test]
fn codes_never_redirect_or_grant_writing() {
    assert_eq!(check_code(&None), Ok(()));
    assert_eq!(check_code(&Some(Code::ReadOnly)), Ok(()));
    assert_eq!(check_code(&Some(Code::Referral)), Err(Error::Unsupported));
    assert_eq!(check_code(&Some(Code::ReadWrite)), Err(Error::UnsafeSelection));
    let other = |text: &[u8]| check_code(&Some(Code::Other(text.to_vec())));
    assert_eq!(other(b"referral imap://elsewhere/"), Err(Error::Unsupported));
    assert_eq!(other(b"REFERRAL"), Err(Error::Unsupported));
    assert_eq!(other(b"REFERRALS"), Ok(()));
    assert_eq!(other(b"X-REFERRAL"), Ok(()));
}

#[test]
fn mailboxes_are_selected_read_only_or_not_at_all() {
    let mut exchange = selecting();
    let validity =
        Response::Untagged { kind: StatusKind::Success, code: Some(Code::UidValidity(9)) };
    assert_eq!(exchange.inspect(&validity), Ok(()));
    assert_eq!(exchange.inspect(&validity), Err(Error::Protocol));
    let mut exchange = selecting();
    assert_eq!(exchange.inspect(&validity), Ok(()));
    let done = tagged("a1", StatusKind::Success, Some(Code::ReadOnly));
    assert_eq!(exchange.inspect(&done), Ok(()));
    assert!(exchange.read_only);
    assert_eq!(exchange.uid_validity, Some(9));
    assert_eq!(exchange.complete(), Ok(()));
    assert_eq!(exchange.inspect(&done), Err(Error::Protocol));
    exchange.examining = false;
    assert_eq!(exchange.inspect(&validity), Ok(()));
    let changed =
        Response::Untagged { kind: StatusKind::Success, code: Some(Code::UidValidity(10)) };
    assert_eq!(exchange.inspect(&changed), Err(Error::UnsafeSelection));
    assert_eq!(exchange.uid_validity, Some(9));
    for (kind, code) in [
        (StatusKind::Success, None),
        (StatusKind::Success, Some(Code::ReadWrite)),
        (StatusKind::Refusal, Some(Code::ReadOnly)),
        (StatusKind::Failure, None),
    ] {
        let mut exchange = selecting();
        assert_eq!(exchange.inspect(&tagged("a1", kind, code)), Err(Error::UnsafeSelection));
        assert!(!exchange.read_only);
    }
}

#[test]
fn searches_have_one_answer() {
    let mut exchange = Exchange::new();
    exchange.send("a2".to_string(), CommandKind::Search, None);
    assert_eq!(exchange.complete(), Err(Error::Protocol));
    assert_eq!(exchange.inspect(&Response::Search), Ok(()));
    assert_eq!(exchange.inspect(&Response::Search), Err(Error::Protocol));
    assert_eq!(exchange.inspect(&tagged("a1", StatusKind::Success, None)), Err(Error::Protocol));
    assert_eq!(exchange.inspect(&tagged("a2", StatusKind::Success, None)), Ok(()));
    assert_eq!(exchange.complete(), Ok(()));
    exchange.send("a3".to_string(), CommandKind::Other, None);
    assert_eq!(exchange.inspect(&Response::Search), Err(Error::Protocol));
}

#[test]
fn rows_are_accepted_once_and_only_as_requested() {
    let mut exchange = Exchange::new();
    exchange.send("a1".to_string(), CommandKind::Other, Some(bytes(5, None, 0, 4)));
    let row = |sequence: u32, items: Vec<Item<()>>| Response::Fetch { sequence, items };
    assert_eq!(exchange.inspect(&row(1, data(5, None, 0, b"abcd"))), Ok(()));
    assert_eq!(exchange.inspect(&row(1, data(5, None, 0, b"abcd"))), Err(Error::Protocol));
    assert_eq!(exchange.inspect(&row(2, data(5, None, 0, b"abcde"))), Err(Error::Limit));
    assert_eq!(exchange.inspect(&row(3, data(6, None, 0, b"abcd"))), Err(Error::Protocol));
    assert_eq!(exchange.inspect(&row(4, data(5, None, 1, b"abcd"))), Err(Error::Protocol));
    let mut exchange = Exchange::new();
    exchange.send("a1".to_string(), CommandKind::Other, None);
    assert_eq!(exchange.inspect(&row(1, vec![Item::Uid(5), Item::Rfc822Size(3)])), Ok(()));
    assert_eq!(exchange.inspect(&row(2, vec![Item::Uid(5), Item::Other])), Err(Error::Unsupported));
    let mut exchange = selecting();
    assert_eq!(exchange.inspect(&row(1, vec![Item::Uid(5)])), Err(Error::Protocol));
}

#[test]
fn unasked_responses_are_refused() {
    let mut exchange = Exchange::new();
    exchange.send("a1".to_string(), CommandKind::Other, None);
    assert_eq!(exchange.inspect(&Response::Ordinary), Ok(()));
    assert_eq!(exchange.inspect(&Response::OtherData), Err(Error::Unsupported));
    assert_eq!(exchange.inspect(&Response::Continuation), Err(Error::Protocol));
    assert_eq!(exchange.inspect(&Response::Bye { code: None }), Err(Error::Eof));
    assert_eq!(exchange.inspect(&Response::Bye { code: None }), Err(Error::Protocol));
    exchange.send("a2".to_string(), CommandKind::Logout, None);
    assert!(!exchange.awaits_logout());
    assert_eq!(exchange.inspect(&Response::Bye { code: None }), Ok(()));
    assert!(exchange.awaits_logout());
    assert_eq!(exchange.inspect(&tagged("a2", StatusKind::Success, None)), Ok(()));
    assert!(!exchange.awaits_logout());
    assert_eq!(exchange.failure(), Error::Protocol);
    exchange.authenticating = true;
    assert_eq!(exchange.failure(), Error::Authentication);
}

#[test]
fn literals_are_as_long_as_the_requested_slice() {
    let mut exchange = Exchange::new();
    assert_eq!(exchange.literal_limit(&limits()), 65536);
    exchange.send("a1".to_string(), CommandKind::Other, Some(bytes(5, None, 0, 100)));
    assert_eq!(exchange.literal_limit(&limits()), 100);
    exchange.send("a1".to_string(), CommandKind::Other, Some(bytes(5, None, 0, 100000)));
    assert_eq!(exchange.literal_limit(&limits()), 65536);
    exchange.send("a1".to_string(), CommandKind::Other, Some(Fetch::Metadata { uid: 5 }));
    assert_eq!(exchange.literal_limit(&limits()), 65536);
}

#[test]
fn a_missing_separator_is_put_in_before_the_first_literal() {
    let fetch = bytes(5, Some(Section::Part(vec![1, 2])), 16, 4);
    let frame = b"* 1 FETCH (UID 5 body[1.2]<16>{4}\r\nabcd)\r\n";
    let repaired = fetch.repair_partial_separator(frame, 100).unwrap().unwrap();
    assert_eq!(repaired, b"* 1 FETCH (UID 5 body[1.2]<16> {4}\r\nabcd)\r\n".to_vec());
    assert_eq!(fetch.repair_partial_separator(frame, frame.len()), Err(Error::Limit));
    for untouched in [
        &b"* 1 FETCH (UID 5 BODY[1.2]<16> {4}\r\nabcd)\r\n"[..],
        b"* 1 FETCH (UID 5 BODY[1.2]<17>{4}\r\nabcd)\r\n",
        b"* 1 FETCH (UID 5 \" BODY[1.2]<16>{4}\r\nabcd)\r\n",
        b"* 1 FETCH (UID 5 BODY[1.2]<16>{4x}\r\nabcd)\r\n",
        b"* 1 FETCH (UID 5 BODY[1.2]<16>{4}",
        b"* 1 FETCH (UID 5\r\n BODY[1.2]<16>{4}\r\nabcd)\r\n",
    ] {
        assert_eq!(fetch.repair_partial_separator(untouched, 100), Ok(None));
    }
    let header = bytes(5, Some(Section::Header), 0, 4);
    let repaired = header.repair_partial_separator(b"* 1 FETCH (BODY[HEADER]<0>{4}\r\n", 100);
    assert_eq!(repaired, Ok(Some(b"* 1 FETCH (BODY[HEADER]<0> {4}\r\n".to_vec())));
    let mime = bytes(5, Some(Section::Mime(vec![2])), 0, 4);
    let repaired = mime.repair_partial_separator(b"* 1 FETCH (BODY[2.MIME]<0>{4}\r\n", 100);
    assert_eq!(repaired, Ok(Some(b"* 1 FETCH (BODY[2.MIME]<0> {4}\r\n".to_vec())));
    let metadata = Fetch::Metadata { uid: 5 };
    assert_eq!(metadata.repair_partial_separator(frame, 100), Ok(None));
}

#[test]
fn commands_and_reads_belong_together() {
    let fetch = bytes(5, Some(Section::Part(vec![1])), 3, 4);
    let command = fetch.request();
    assert_eq!(command.numbers, vec![5]);
    assert!(command.by_uid && !command.modified);
    assert_eq!(command.names.len(), 2);
    assert!(command.names.iter().any(|name| matches!(name, Name::Uid)));
    assert!(command.names.iter().any(|name| {
        matches!(name, Name::BodyExt { partial: Some((3, 4)), peek: true, .. })
    }));
    let again = Fetch::from_command(&command).unwrap();
    assert!(matches!(again, Fetch::Bytes { uid: 5, offset: 3, count: 4, .. }));
    assert_eq!(again.uid(), 5);
    assert_eq!(again.literal_limit(), Some(4));
    let metadata = Fetch::Metadata { uid: 7 };
    assert!(matches!(
        Fetch::from_command(&metadata.request()),
        Some(Fetch::Metadata { uid: 7 })
    ));
    assert_eq!(metadata.literal_limit(), None);
    let not_by_uid = FetchCommand { by_uid: false, ..fetch.request() };
    assert!(Fetch::from_command(&not_by_uid).is_none());
    let many = FetchCommand { numbers: vec![5, 6], ..fetch.request() };
    assert!(Fetch::from_command(&many).is_none());
    let seen = FetchCommand {
        numbers: vec![5],
        by_uid: true,
        modified: false,
        names: vec![
            Name::Uid,
            Name::BodyExt { section: None, partial: Some((0, 4)), peek: false },
        ],
    };
    assert!(Fetch::from_command(&seen).is_none());
}

#[test]
fn metadata_rows_hold_size_structure_and_identifier() {
    let fetch = Fetch::Metadata { uid: 5 };
    let rows = vec![Item::BodyStructure(single(3)), Item::Uid(5), Item::Rfc822Size(90)];
    assert_eq!(fetch.validate(&rows), Ok(()));
    let (size, structure) = fetch.metadata(&rows).unwrap();
    assert_eq!(size, 90);
    assert!(matches!(structure, Structure::Single { body, .. } if body.size == 3));
    assert_eq!(fetch.validate(&vec![Item::<()>::Uid(5), Item::Rfc822Size(90)]), Err(Error::Protocol));
    let twice = vec![Item::<()>::Uid(5), Item::Rfc822Size(90), Item::Rfc822Size(90)];
    assert_eq!(fetch.metadata(&twice).err(), Some(Error::Protocol));
    let other = vec![Item::BodyStructure(single(3)), Item::Uid(6), Item::Rfc822Size(90)];
    assert_eq!(fetch.validate(&other), Err(Error::Protocol));
}

#[test]
fn data_rows_hold_the_requested_bytes() {
    let fetch = bytes(5, Some(Section::Part(vec![1, 2])), 7, 3);
    let part = || Some(Section::Part(vec![1, 2]));
    assert_eq!(fetch.data(&data::<Structure>(5, part(), 7, b"abc")).unwrap(), &b"abc".to_vec());
    assert_eq!(fetch.validate(&data::<Structure>(5, part(), 7, b"")), Ok(()));
    assert_eq!(fetch.validate(&data::<Structure>(5, part(), 7, b"abcd")), Err(Error::Limit));
    assert_eq!(fetch.validate(&data::<Structure>(5, part(), 8, b"abc")), Err(Error::Protocol));
    assert_eq!(fetch.validate(&data::<Structure>(5, None, 7, b"abc")), Err(Error::Protocol));
    let mime = Some(Section::Mime(vec![1, 2]));
    assert_eq!(fetch.validate(&data::<Structure>(5, mime, 7, b"abc")), Err(Error::Protocol));
    let sole = fetch.sole_row(vec![data::<Structure>(5, part(), 7, b"abc")]).unwrap();
    assert_eq!(sole.len(), 2);
    assert_eq!(fetch.sole_row(Vec::new()).err(), Some(Error::MessageNotFound));
    let two = vec![data::<Structure>(5, part(), 7, b"abc"), data::<Structure>(5, part(), 7, b"abc")];
    assert_eq!(fetch.sole_row(two).err(), Some(Error::Protocol));
}

#[test]
fn structures_are_counted_with_everything_in_them() {
    let mut limits = limits();
    limits.max_mime_parts = 4;
    limits.max_nesting = 3;
    let nested = multi(vec![single(1), multi(vec![single(1)])]);
    assert_eq!(validate_structure(&nested, &limits), Ok(()));
    limits.max_mime_parts = 3;
    assert_eq!(validate_structure(&nested, &limits), Err(Error::Limit));
    limits.max_mime_parts = 4;
    limits.max_nesting = 1;
    assert_eq!(validate_structure(&nested, &limits), Err(Error::Limit));
}

#[test]
fn parts_have_paths() {
    assert_eq!(child_path(&vec![1], 2), Ok(vec![1, 2]));
    assert!(child_path(&vec![1], 0).is_err());
    assert_eq!(part_name(&vec![1, 20, 3]), "1.20.3");
    assert_eq!(part_name(&Vec::new()), "");
    assert!(same_path(&vec![1, 2], &vec![1, 2]));
    assert!(!same_path(&vec![1, 2], &vec![1]));
    let shown = |kind: &[u8]| {
        attachment(&Some(Disposition { kind: kind.to_vec(), parameters: Vec::new() }))
    };
    assert!(shown(b"ATTACHMENT"));
    assert!(!shown(b"inline"));
    assert!(!attachment(&None));
}
