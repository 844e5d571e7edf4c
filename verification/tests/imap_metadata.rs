//! What is made of envelopes, mailboxes and endpoints.
use mailctl::config;
use mailctl::domain::search::Metadata;
use mailctl::domain::ErrorCode;
use mailctl::imap::append::{
    check_draft, note, prepare, settle, AppendEvent, AppendOutcome, AppendUid,
};
use mailctl::imap::discovery::{
    listed_mailbox, mailbox_identity, mailbox_pattern, plan, ListRow,
};
use mailctl::imap::endpoint::{
    endpoint, next_step, push_number, Advance, AuthenticatedConnection, Offered, Stage,
};
use mailctl::imap::projection::{
    domain, header_text, header_value, message_id, parsed_addresses, sent_date, settle_date,
    settle_header, skip_comments, Projection, SentDate,
};
use mailctl::imap::search::row;
use mailctl::imap::types::{Address, Envelope, Item};
use mailctl::imap::{credentials, mailbox, Error, Limits, Metrics, TlsMode};

fn strings(list: &[&str]) -> Vec<String> {
    list.iter().map(|text| text.to_string()).collect()
}

fn envelope() -> Envelope {
    Envelope {
        date: Some(b"Mon, 06 May 2024 10:11:12 +0200".to_vec()),
        subject: Some(b"=?utf-8?q?caf=C3=A9?=".to_vec()),
        from: vec![address(Some("Someone"), Some("someone"), Some("example.org"))],
        sender: Vec::new(),
        reply_to: Vec::new(),
        to: Vec::new(),
        cc: Vec::new(),
        bcc: Vec::new(),
        in_reply_to: None,
        message_id: Some(b"<a.b@example.org>".to_vec()),
    }
}

fn address(name: Option<&str>, mailbox: Option<&str>, host: Option<&str>) -> Address {
    let bytes = |text: Option<&str>| text.map(|text| text.as_bytes().to_vec());
    Address { name: bytes(name), route: None, mailbox: bytes(mailbox), host: bytes(host) }
}

fn items() -> Vec<Item> {
    vec![
        Item::Uid(5),
        Item::Envelope(envelope()),
        Item::Flags(strings(&["\\Seen"])),
        Item::InternalDate("2024-05-06T08:11:12Z".to_string()),
        Item::Rfc822Size(77),
    ]
}

#[test]
fn rows_have_every_field_once() {
    let parsed = Projection::parse(items()).unwrap();
    assert_eq!((parsed.uid, parsed.size), (5, 77));
    for i in 0..5 {
        let mut missing = items();
        missing.remove(i);
        assert_eq!(Projection::parse(missing).err().unwrap(), Error::Protocol);
    }
    let mut twice = items();
    twice.push(Item::Uid(5));
    assert_eq!(Projection::parse(twice).err().unwrap(), Error::Protocol);
    let mut unknown = items();
    unknown.push(Item::Other);
    assert!(Projection::parse(unknown).is_err());
}

#[test]
fn rows_tell_of_their_message() {
    let message = row(items()).unwrap();
    assert_eq!(message.uid, 5);
    assert_eq!(message.metadata.subject.value().map(String::as_str), Some("caf\u{e9}"));
    assert_eq!(
        message.metadata.sent_date.value().map(String::as_str),
        Some("2024-05-06T10:11:12+02:00")
    );
    assert_eq!(
        message.metadata.message_id.value().map(String::as_str),
        Some("<a.b@example.org>")
    );
    let from = message.metadata.from.value().unwrap();
    assert_eq!(from[0].address, "someone@example.org");
    assert_eq!(from[0].name.as_deref(), Some("Someone"));
    assert!(matches!(message.metadata.to, Metadata::Missing));
    assert_eq!(message.metadata.flags, strings(&["\\Seen"]));
    assert_eq!(message.metadata.size, 77);
    let mut twice = items();
    twice.push(Item::Uid(5));
    assert_eq!(row(twice).unwrap_err().code, ErrorCode::ProviderUnavailable);
    let mut unknown = items();
    unknown.push(Item::Other);
    assert_eq!(row(unknown).unwrap_err().code, ErrorCode::UnsupportedCapability);
}

#[test]
fn headers_are_decoded_or_refused() {
    assert_eq!(header_text(b"plain").as_deref(), Some("plain"));
    assert_eq!(header_text(b"=?iso-8859-1?q?caf=E9?=").as_deref(), Some("caf\u{e9}"));
    assert!(header_value(b"folded\r\n line"));
    assert!(!header_value(b"not\r\nfolded"));
    assert_eq!(header_text(b"bell\x07"), None);
    assert_eq!(settle_header(b"value", Some("read".to_string())).as_deref(), Some("read"));
    assert_eq!(settle_header(b"bell\x07", Some("read".to_string())), None);
    assert_eq!(settle_header(b" \t", None).as_deref(), Some(""));
    assert_eq!(settle_header(b"value", None), None);
}

#[test]
fn dates_are_written_in_one_form() {
    assert_eq!(
        sent_date(b"Fri, 29 Feb 2008 23:59:58 -0330").as_deref(),
        Some("2008-02-29T23:59:58-03:30")
    );
    assert_eq!(sent_date(b"not a date"), None);
    let date = SentDate {
        year: 2024,
        month: 1,
        day: 2,
        hour: 3,
        minute: 4,
        second: 5,
        before_gmt: false,
        zone_hour: 0,
        zone_minute: 0,
    };
    assert!(date.is_valid());
    assert!(date.to_rfc3339().starts_with("2024-01-02T03:04:05"));
    assert_eq!(settle_date(Some(date)), Some(date.to_rfc3339()));
    assert_eq!(settle_date(Some(SentDate { month: 13, ..date })), None);
    assert_eq!(settle_date(None), None);
}

#[test]
fn message_identifiers_are_read_between_comments() {
    assert_eq!(message_id(b" (note) <a.b@c.d> ").as_deref(), Some("<a.b@c.d>"));
    assert_eq!(message_id(b"<a.b@[10.0.0.1]>").as_deref(), Some("<a.b@[10.0.0.1]>"));
    for refused in [b"a.b@c.d".as_slice(), b"<a.b>", b"<a..b@c>", b"<a@b> c", b"<a@b"] {
        assert_eq!(message_id(refused), None, "{refused:?}");
    }
    assert!(domain("example.org") && domain("[literal]") && !domain(".x") && !domain(""));
    let chars: Vec<char> = "(a (b) \\) c) x".chars().collect();
    assert_eq!(skip_comments(&chars, 0), Some(13));
    let open: Vec<char> = "(a".chars().collect();
    assert_eq!(skip_comments(&open, 0), None);
}

#[test]
fn address_lists_are_present_missing_or_malformed() {
    assert!(matches!(parsed_addresses(&Vec::new()), Metadata::Missing));
    let list = vec![
        address(Some("=?utf-8?q?J=C3=B6?="), Some("jo"), Some("example.org")),
        address(None, Some("odd name"), Some("example.org")),
    ];
    match parsed_addresses(&list) {
        Metadata::Present(found) => {
            assert_eq!(found.len(), 2);
            assert_eq!(found[0].name.as_deref(), Some("J\u{f6}"));
            assert_eq!(found[0].address, "jo@example.org");
            assert_eq!(found[1].address, "\"odd name\"@example.org");
        }
        other => panic!("{other:?}"),
    }
    let broken = vec![address(None, Some("a"), Some("bad host"))];
    assert!(matches!(parsed_addresses(&broken), Metadata::Malformed));
}

#[test]
fn mailboxes_are_planned_once_and_in_order() {
    assert_eq!(mailbox_identity("inBox"), "INBOX");
    assert_eq!(mailbox_identity("Inbox/a"), "Inbox/a");
    let list = plan(&strings(&["b", "inbox", "a", "INBOX"]), &Limits::default()).unwrap();
    let names: Vec<(&str, &str)> =
        list.iter().map(|one| (one.identity.as_str(), one.name.as_str())).collect();
    assert_eq!(names, vec![("INBOX", "INBOX"), ("a", "a"), ("b", "b")]);
    assert_eq!(plan(&strings(&["a", "*"]), &Limits::default()).unwrap_err(), Error::Unsupported);
    let few = Limits { max_mailboxes: 1, ..Limits::default() };
    assert_eq!(plan(&strings(&["a", "b"]), &few).unwrap_err(), Error::Limit);
    let none = Limits { max_mailboxes: 0, ..Limits::default() };
    assert_eq!(plan(&strings(&["a"]), &none).unwrap_err(), Error::InvalidInput);
}

#[test]
fn listings_agree_on_a_mailbox() {
    let line = |name: &str, attributes: &[&str]| ListRow {
        name: name.as_bytes().to_vec(),
        attributes: strings(attributes),
    };
    let (count, found) =
        listed_mailbox("a", &vec![line("a", &["\\B", "\\A"]), line("a", &["\\A", "\\B"])], 3, 9).unwrap();
    assert_eq!(count, 5);
    let found = found.unwrap();
    assert!(found.selectable);
    assert_eq!(found.attributes, strings(&["\\A", "\\B"]));
    let (_, closed) = listed_mailbox("a", &vec![line("a", &["\\NOSELECT"])], 0, 9).unwrap();
    assert!(!closed.unwrap().selectable);
    assert!(listed_mailbox("a", &Vec::new(), 0, 9).unwrap().1.is_none());
    assert_eq!(
        listed_mailbox("a", &vec![line("b", &[])], 0, 9).unwrap_err(),
        Error::Protocol
    );
    assert_eq!(
        listed_mailbox("a", &vec![line("a", &["\\A"]), line("a", &[])], 0, 9).unwrap_err(),
        Error::Protocol
    );
    assert_eq!(
        listed_mailbox("a", &vec![line("a", &[])], 9, 9).unwrap_err(),
        Error::Limit
    );
}

#[test]
fn patterns_are_modified_utf7() {
    assert_eq!(mailbox_pattern("Archive/2024"), "Archive/2024");
    assert_eq!(mailbox_pattern("A&B"), "A&-B");
    assert_eq!(mailbox_pattern("caf\u{e9}"), "caf&AOk-");
    assert_eq!(mailbox_pattern("\u{53f0}\u{5317}"), "&U,BTFw-");
}

#[test]
fn endpoints_are_reached_over_tls() {
    let all = Offered { imap4rev1: true, start_tls: true, login_disabled: false };
    assert_eq!(next_step(TlsMode::StartTls, Stage::Greeted, all), Ok(Advance::UpgradeToTls));
    assert_eq!(next_step(TlsMode::Implicit, Stage::Greeted, all), Ok(Advance::SendLogin));
    assert_eq!(next_step(TlsMode::StartTls, Stage::Upgraded, all), Ok(Advance::SendLogin));
    assert_eq!(next_step(TlsMode::StartTls, Stage::LoggedIn, all), Ok(Advance::HandOver));
    let none = Offered { imap4rev1: false, start_tls: false, login_disabled: true };
    for stage in [Stage::Greeted, Stage::Upgraded, Stage::LoggedIn] {
        assert_eq!(next_step(TlsMode::StartTls, stage, none), Err(Error::Unsupported));
        assert_eq!(next_step(TlsMode::Implicit, stage, none), Err(Error::Unsupported));
    }
    assert!(endpoint("imap.example.org", 993, &Limits::default()).is_ok());
    assert_eq!(endpoint("", 993, &Limits::default()), Err(Error::InvalidInput));
    assert_eq!(endpoint("host", 0, &Limits::default()), Err(Error::InvalidInput));
}

#[test]
fn connections_are_told_apart_by_host_user_and_port() {
    let one = AuthenticatedConnection::authenticated("ab", "c", 1).identity();
    assert_eq!(one, AuthenticatedConnection::authenticated("ab", "c", 1).identity());
    for (host, user, port) in [("a", "bc", 1), ("ab", "d", 1), ("ab", "c", 2)] {
        assert_ne!(one, AuthenticatedConnection::authenticated(host, user, port).identity());
    }
    let mut bytes = Vec::new();
    push_number(&mut bytes, 0x0102_0304_0506_0708);
    assert_eq!(bytes, vec![1, 2, 3, 4, 5, 6, 7, 8]);
    let mut expected = Vec::new();
    expected.extend(2u64.to_be_bytes());
    expected.extend(b"ab");
    expected.extend(1u64.to_be_bytes());
    expected.extend(b"c");
    expected.extend(1u16.to_be_bytes());
    assert_eq!(one, mailctl::digest::digest(&expected));
}

#[test]
fn names_and_passwords_are_checked_before_they_are_sent() {
    assert_eq!(credentials("user", "pass word"), Ok(()));
    assert_eq!(credentials("", "p"), Err(Error::InvalidInput));
    assert_eq!(credentials("u", ""), Err(Error::InvalidInput));
    assert_eq!(credentials("us\u{e9}r", "p"), Err(Error::Unsupported));
    assert_eq!(credentials("u", "p\n"), Err(Error::Unsupported));
    assert_eq!(mailbox("INBOX"), Ok(()));
    assert_eq!(mailbox(""), Err(Error::InvalidInput));
    assert_eq!(mailbox("a%"), Err(Error::Unsupported));
    assert_eq!(mailbox(&"a".repeat(4097)), Err(Error::InvalidInput));
}

#[test]
fn drafts_are_checked_before_they_are_sent() {
    let limits = Limits::default();
    assert_eq!(check_draft("Drafts", 100, 1000, &limits), Ok(()));
    assert_eq!(check_draft("Dra*", 100, 1000, &limits), Err(Error::Unsupported));
    assert_eq!(
        check_draft("Drafts", limits.max_header_bytes + 1, 1000, &limits),
        Err(Error::Limit)
    );
    assert_eq!(
        check_draft("Drafts", 100, limits.max_operation_bytes - 6 - 128, &limits),
        Ok(())
    );
    assert_eq!(
        check_draft("Drafts", 100, limits.max_operation_bytes - 6 - 127, &limits),
        Err(Error::Limit)
    );
    let created = AppendOutcome::Created { uid: Some(AppendUid { uid_validity: 1, uid: 2 }) };
    assert_eq!(settle(Some(created), Some(Error::Eof)), Ok(created));
    assert_eq!(settle(None, Some(Error::Eof)), Err(Error::Eof));
    assert_eq!(settle(None, None), Err(Error::Protocol));
}

#[test]
fn protocol_errors_are_reported_without_their_cause() {
    assert_eq!(Error::Tls.report().code, ErrorCode::TlsFailed);
    assert_eq!(Error::Limit.report().code, ErrorCode::ResponseTooLarge);
    assert_eq!(Error::Eof.report().code, ErrorCode::ProviderUnavailable);
    assert_eq!(Error::StaleReference.report().code, ErrorCode::StaleReference);
    assert_eq!(Error::Timeout.text(), "IMAP operation timed out");
}

#[test]
fn configured_limits_bound_connections() {
    let mut configured = config::Limits::default();
    configured.operation_seconds = 12;
    configured.connection_seconds = 7;
    assert!(configured.validate().is_ok());
    let limits = Limits::connection(&configured);
    assert_eq!((limits.operation_timeout_millis, limits.connect_timeout_millis), (12000, 7000));
    assert!(limits.validate().is_ok());
}

#[test]
fn rows_are_shown_as_they_were_sent() {
    let shown = Projection::parse(items()).unwrap().normalize();
    assert_eq!((shown.uid, shown.size), (5, Some(77)));
    assert_eq!(shown.subject.as_deref(), Some("=?utf-8?q?caf=C3=A9?="));
    assert_eq!(shown.from.len(), 1);
    assert_eq!(shown.from[0].name.as_deref(), Some("Someone"));
    assert_eq!(shown.from[0].mailbox.as_deref(), Some("someone"));
    assert_eq!(shown.from[0].host.as_deref(), Some("example.org"));
    assert!(shown.to.is_empty() && shown.cc.is_empty());
    assert_eq!(shown.received_date.as_deref(), Some("2024-05-06T08:11:12Z"));
    assert_eq!(shown.sent_date.as_deref(), Some("Mon, 06 May 2024 10:11:12 +0200"));
    assert_eq!(shown.flags, strings(&["\\Seen"]));
    assert_eq!(shown.message_id.as_deref(), Some("<a.b@example.org>"));
    let mut broken = items();
    broken[1] = Item::Envelope(Envelope { subject: Some(vec![b'a', 0xff]), date: None, ..envelope() });
    let shown = Projection::parse(broken).unwrap().normalize();
    assert_eq!(shown.subject.as_deref(), Some("a\u{fffd}"));
    assert_eq!(shown.sent_date, None);
}

#[test]
fn appended_drafts_keep_their_outcome() {
    let limits = Limits::default();
    let mut metrics = Metrics::default();
    metrics.append_outcome = Some(AppendOutcome::Rejected);
    metrics.append_wire_bytes = 9;
    metrics.wire_bytes = 3;
    assert_eq!(
        prepare("Dra*", 10, 100, &limits, &mut metrics),
        Err(Error::Unsupported)
    );
    assert_eq!((metrics.append_outcome, metrics.mime_bytes), (None, 0));
    assert_eq!(prepare("Drafts", 10, 100, &limits, &mut metrics), Ok(()));
    assert_eq!((metrics.mime_bytes, metrics.append_wire_bytes, metrics.wire_bytes), (100, 0, 3));
    assert_eq!(settle(metrics.append_outcome, Some(Error::Eof)), Err(Error::Eof));
    note(&mut metrics, AppendEvent::Sending { bytes: 40 });
    assert_eq!(
        settle(metrics.append_outcome, Some(Error::Eof)),
        Ok(AppendOutcome::Unknown)
    );
    note(&mut metrics, AppendEvent::Sending { bytes: 60 });
    assert_eq!(metrics.append_wire_bytes, 100);
    let uid = Some(AppendUid { uid_validity: 7, uid: 11 });
    note(&mut metrics, AppendEvent::Accepted { uid });
    assert_eq!(
        settle(metrics.append_outcome, None),
        Ok(AppendOutcome::Created { uid })
    );
    note(&mut metrics, AppendEvent::Refused);
    assert_eq!(metrics.append_outcome, Some(AppendOutcome::Rejected));
}

#[test]
fn source_fields_are_bounded_before_they_are_read() {
    let row = Projection::parse(items()).unwrap();
    let octets = 31 + 21 + 17 + (7 + 7 + 11);
    assert_eq!(row.check_header_bytes(octets), Ok(()));
    assert_eq!(row.check_header_bytes(octets - 1), Err(Error::Limit));
}
