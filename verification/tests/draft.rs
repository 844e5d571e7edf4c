//! Drafts: how they are composed, and how the journal remembers them.
use mailctl::digest::digest;
use mailctl::domain::draft::{
    dot_atom, DraftAddress, DraftContent, DraftStatusInput, SaveDraftInput,
};
use mailctl::domain::ErrorCode;
use mailctl::draft::{address, identifier, normalize_body, DraftInput, Error, PreparedDraft};
use mailctl::draft_journal::{
    check_changed, check_durability, check_schema, decode_row, encode_row, opening,
    schema_is_current, sqlite_generation, validate_operation, AppendedMessageIdentity, Column,
    DatabaseRow, DraftJournal, DraftJournalError, DraftOperationIdentity, DraftOperationState,
    Opening, PersistedDraftOperation, PreparedDraftOperation,
};

fn input() -> DraftInput {
    DraftInput {
        from: "me@example.org".to_string(),
        to: vec![DraftAddress {
            address: "you@example.org".to_string(),
            name: Some("You".to_string()),
        }],
        subject: "Greetings".to_string(),
        body: "one\r\ntwo\rthree\n".to_string(),
        message_id: "id.1@example.org".to_string(),
        date_unix: 0,
        in_reply_to: Some("before@example.org".to_string()),
        references: vec!["first@example.org".to_string(), "before@example.org".to_string()],
        ..DraftInput::default()
    }
}

fn refused(change: fn(&mut DraftInput)) -> Option<Error> {
    let mut input = input();
    change(&mut input);
    PreparedDraft::compose(input, 100_000).err()
}

#[test]
fn drafts_are_composed_as_mime() {
    let draft = PreparedDraft::compose(input(), 100_000).unwrap();
    let text = String::from_utf8(draft.bytes().to_vec()).unwrap();
    let (headers, body) = text.split_at(draft.header_bytes());
    assert!(headers.ends_with("\r\n\r\n"));
    assert_eq!(headers.find("\r\n\r\n"), Some(headers.len() - 4));
    assert!(headers.contains("From: <me@example.org>\r\n"));
    assert!(headers.contains("To: \"You\" <you@example.org>\r\n"));
    assert!(headers.contains("Subject: Greetings\r\n"));
    assert!(headers.contains("Message-ID: <id.1@example.org>\r\n"));
    assert!(headers.contains("Date: Thu, 1 Jan 1970 00:00:00 +0000\r\n"));
    assert!(headers.contains("In-Reply-To: <before@example.org>\r\n"));
    assert!(headers.contains("<first@example.org>"));
    assert!(!headers.contains("Cc:") && !headers.contains("Bcc:"));
    assert_eq!(body.replace("\r\n", "\n").trim_end(), "one\ntwo\nthree");
    assert_eq!(draft.sha256(), digest(draft.bytes()));
}

#[test]
fn equal_drafts_have_equal_bytes() {
    let first = PreparedDraft::compose(input(), 100_000).unwrap();
    let second = PreparedDraft::compose(input(), 50_000).unwrap();
    assert_eq!(first.bytes(), second.bytes());
    assert_eq!(first.sha256(), second.sha256());
}

#[test]
fn drafts_are_refused_for_their_first_fault() {
    let room = |maximum: usize| PreparedDraft::compose(input(), maximum).err();
    assert_eq!(room(0), Some(Error::InvalidInput));
    assert_eq!(room(8_388_609), Some(Error::InvalidInput));
    assert_eq!(room(20), Some(Error::Limit));
    assert_eq!(refused(|draft| draft.body = "x".repeat(100_001)), Some(Error::Limit));
    assert_eq!(refused(|draft| draft.subject = "x".repeat(8193)), Some(Error::Limit));
    assert_eq!(
        refused(|draft| draft.references = vec!["a@b".to_string(); 51]),
        Some(Error::Limit)
    );
    assert_eq!(
        refused(|draft| draft.cc = vec![DraftAddress::bare("a@b.c".to_string()); 100]),
        Some(Error::Limit)
    );
    assert_eq!(refused(|draft| draft.from = "me".to_string()), Some(Error::InvalidInput));
    assert_eq!(
        refused(|draft| draft.bcc = vec![DraftAddress::bare("a b@c".to_string())]),
        Some(Error::InvalidInput)
    );
    assert_eq!(
        refused(|draft| draft.to[0].name = Some("a\r\nBcc: b".to_string())),
        Some(Error::InvalidInput)
    );
    assert_eq!(refused(|draft| draft.subject = "a\nb".to_string()), Some(Error::InvalidInput));
    assert_eq!(refused(|draft| draft.date_unix = -1), Some(Error::InvalidInput));
    assert_eq!(refused(|draft| draft.date_unix = 253_402_300_800), Some(Error::InvalidInput));
    assert_eq!(refused(|draft| draft.body = "a\0b".to_string()), Some(Error::InvalidInput));
    assert_eq!(refused(|draft| draft.message_id = "<a@b>".to_string()), Some(Error::InvalidInput));
    assert_eq!(
        refused(|draft| draft.in_reply_to = Some("a".to_string())),
        Some(Error::InvalidInput)
    );
    assert_eq!(refused(|draft| draft.date_unix = 253_402_300_799), None);
    assert_eq!(Error::Limit.text(), "Draft composition exceeds its limit");
    assert_eq!(Error::InvalidInput.text(), "Invalid draft composition");
    assert_eq!(Error::Limit.report().code, ErrorCode::ResponseTooLarge);
    assert_eq!(Error::InvalidInput.report().code, ErrorCode::InvalidRequest);
}

#[test]
fn addresses_and_identifiers_have_their_syntax() {
    assert_eq!(address("a.b+c@ex-ample.org"), Ok(()));
    assert_eq!(address(&format!("{}@b.c", "x".repeat(64))), Ok(()));
    assert_eq!(address(&format!("{}@b.c", "x".repeat(65))), Err(Error::InvalidInput));
    assert_eq!(address(&format!("a@{}.c", "x".repeat(63))), Ok(()));
    assert_eq!(address(&format!("a@{}.c", "x".repeat(64))), Err(Error::InvalidInput));
    assert_eq!(address(&format!("a@{}", "x".repeat(254))), Err(Error::Limit));
    for wrong in ["", "a", "@b", "a@", "a..b@c", "a@b..c", "a@-b", "a@b-", "a@b-.c", "a@b@c"] {
        assert_eq!(address(wrong), Err(Error::InvalidInput), "{wrong}");
    }
    assert_eq!(identifier("a.b@c-d_e"), Ok(()));
    assert_eq!(identifier("a@b@c"), Err(Error::InvalidInput));
    assert_eq!(identifier(&"x".repeat(999)), Err(Error::Limit));
    assert!(dot_atom("a.b") && !dot_atom(".a") && !dot_atom("a.") && !dot_atom(""));
}

#[test]
fn line_ends_become_single_line_feeds() {
    assert_eq!(normalize_body("a\r\nb\rc\nd\r\r\n"), "a\nb\nc\nd\n\n");
    let once = normalize_body("\r\n\r");
    assert_eq!(once, "\n\n");
    assert_eq!(normalize_body(&once), once);
}

#[test]
fn messages_are_frozen_with_their_digest() {
    let message = b"A: b\r\n\r\nbody\r\n\r\n".to_vec();
    let draft = PreparedDraft::freeze(message.clone(), 100).unwrap();
    assert_eq!(draft.header_bytes(), 8);
    assert_eq!(draft.bytes(), message);
    assert_eq!(draft.sha256(), digest(&message));
    assert_eq!(PreparedDraft::freeze(message, 10).err(), Some(Error::Limit));
    assert!(PreparedDraft::freeze(b"no header".to_vec(), 100).is_err());
    let mut long = vec![b'x'; 262_141];
    long.extend_from_slice(b"\r\n\r\n");
    assert_eq!(PreparedDraft::freeze(long, 1_000_000).err(), Some(Error::Limit));
}

#[test]
fn draft_requests_are_bounded() {
    let mut save = SaveDraftInput {
        mailbox: "Drafts".to_string(),
        account_id: 1,
        account_generation: 2,
        operation_id: 3,
        draft: Box::new(DraftContent::default()),
    };
    assert!(save.is_bounded());
    let identity = save.identity();
    assert_eq!(
        (identity.account_id, identity.account_generation, identity.operation_id),
        (1, 2, 3)
    );
    save.draft.to = vec![DraftAddress::bare("a@b.c".to_string()); 1000];
    assert!(!save.is_bounded());
    let status = DraftStatusInput {
        mailbox: "Drafts".to_string(),
        account_id: 1,
        account_generation: 2,
        operation_id: 3,
        reconcile: true,
    };
    assert!(status.is_bounded());
    assert_eq!(status.identity().operation_id, 3);
}

fn identity(operation_id: u128) -> DraftOperationIdentity {
    DraftOperationIdentity { account_id: 7, account_generation: 1, operation_id }
}

fn operation(operation_id: u128) -> PreparedDraftOperation {
    PreparedDraftOperation {
        identity: identity(operation_id),
        mailbox_identity: "mailbox-1".to_string(),
        content_sha256: [5; 32],
    }
}

fn journal() -> DraftJournal {
    DraftJournal::load(&Vec::new()).unwrap()
}

#[test]
fn operations_are_prepared_dispatched_and_ended_once() {
    let mut journal = journal();
    assert_eq!(
        journal.begin_dispatch(&operation(1)).err(),
        Some(DraftJournalError::OperationNotPrepared)
    );
    assert_eq!(journal.prepare(operation(1)).unwrap().state, DraftOperationState::Prepared);
    assert_eq!(
        journal.record_rejected(&identity(1)).err(),
        Some(DraftJournalError::NotDispatchable(DraftOperationState::Prepared))
    );
    assert_eq!(
        journal.begin_dispatch(&operation(1)).unwrap().state,
        DraftOperationState::InFlight
    );
    assert_eq!(
        journal.begin_dispatch(&operation(1)).err(),
        Some(DraftJournalError::NotDispatchable(DraftOperationState::InFlight))
    );
    let message = AppendedMessageIdentity { uid_validity: 3, uid: 9 };
    let created = DraftOperationState::Created { appended_message: Some(message) };
    assert_eq!(journal.record_created(&identity(1), Some(message)).unwrap().state, created);
    assert_eq!(
        journal.record_outcome_unknown(&identity(1)).err(),
        Some(DraftJournalError::NotDispatchable(created))
    );
    assert_eq!(journal.prepare(operation(1)).unwrap().state, created);
    assert_eq!(
        journal.begin_dispatch(&operation(1)).err(),
        Some(DraftJournalError::NotDispatchable(created))
    );
    assert_eq!(journal.inspect(&identity(1)).unwrap().unwrap().state, created);
    assert!(journal.inspect(&identity(2)).unwrap().is_none());
}

#[test]
fn every_outcome_ends_an_operation() {
    let mut journal = journal();
    for number in [1, 2, 3] {
        journal.prepare(operation(number)).unwrap();
        journal.begin_dispatch(&operation(number)).unwrap();
    }
    assert_eq!(
        journal.record_rejected(&identity(1)).unwrap().state,
        DraftOperationState::Rejected
    );
    assert_eq!(
        journal.record_outcome_unknown(&identity(2)).unwrap().state,
        DraftOperationState::OutcomeUnknown
    );
    let zero = AppendedMessageIdentity { uid_validity: 0, uid: 9 };
    assert_eq!(
        journal.record_created(&identity(3), Some(zero)).err(),
        Some(DraftJournalError::InvalidOperation)
    );
    assert_eq!(
        journal.record_created(&identity(3), None).unwrap().state,
        DraftOperationState::Created { appended_message: None }
    );
    assert_eq!(
        journal.record_rejected(&identity(4)).err(),
        Some(DraftJournalError::OperationNotPrepared)
    );
}

#[test]
fn frozen_facts_never_change() {
    let mut journal = journal();
    journal.prepare(operation(1)).unwrap();
    let mut other = operation(1);
    other.content_sha256 = [6; 32];
    assert_eq!(journal.prepare(other.clone()).err(), Some(DraftJournalError::OperationConflict));
    assert_eq!(journal.begin_dispatch(&other).err(), Some(DraftJournalError::OperationConflict));
    let mut other = operation(1);
    other.mailbox_identity = "mailbox-2".to_string();
    assert_eq!(journal.prepare(other).err(), Some(DraftJournalError::OperationConflict));
    let mut unnamed = operation(2);
    unnamed.mailbox_identity = String::new();
    assert_eq!(validate_operation(&unnamed), Err(DraftJournalError::InvalidOperation));
    let mut late = operation(2);
    late.identity.account_generation = u64::MAX;
    assert_eq!(validate_operation(&late), Err(DraftJournalError::InvalidDatabase));
    assert_eq!(journal.inspect(&late.identity).err(), Some(DraftJournalError::InvalidDatabase));
    assert_eq!(sqlite_generation(5), Ok(5));
}

#[test]
fn rows_read_back_as_they_were_written() {
    for state in [
        DraftOperationState::Prepared,
        DraftOperationState::InFlight,
        DraftOperationState::Created { appended_message: None },
        DraftOperationState::Created {
            appended_message: Some(AppendedMessageIdentity { uid_validity: 3, uid: 9 }),
        },
        DraftOperationState::Rejected,
        DraftOperationState::OutcomeUnknown,
    ] {
        let record = PersistedDraftOperation { operation: operation(0x0102), state };
        let row = encode_row(&record).unwrap();
        assert_eq!(row.operation_id, [0, 0, 0, 0, 0, 0, 0, 0, 0, 0, 0, 0, 0, 0, 1, 2]);
        let again = decode_row(&row).unwrap();
        assert_eq!(again.state, state);
        assert_eq!(again.operation.identity, record.operation.identity);
        assert_eq!(again.operation.mailbox_identity, record.operation.mailbox_identity);
        assert_eq!(again.operation.content_sha256, record.operation.content_sha256);
        let mut journal = DraftJournal::load(&vec![row]).unwrap();
        let same = journal.prepare(operation(0x0102)).unwrap();
        assert_eq!(same.state, state);
    }
}

fn row() -> DatabaseRow {
    encode_row(&PersistedDraftOperation {
        operation: operation(1),
        state: DraftOperationState::Prepared,
    })
    .unwrap()
}

#[test]
fn broken_rows_are_refused() {
    let changes: [fn(&mut DatabaseRow); 9] = [
        |row| row.operation_id.truncate(15),
        |row| row.account_id.push(0),
        |row| row.account_generation = -1,
        |row| row.mailbox_identity = String::new(),
        |row| row.content_sha256.truncate(31),
        |row| row.state = "other".to_string(),
        |row| row.appended_uid = Some(1),
        |row| {
            row.appended_uid = Some(1);
            row.appended_uid_validity = Some(1);
        },
        |row| {
            row.state = "created".to_string();
            row.appended_uid = Some(0);
            row.appended_uid_validity = Some(1);
        },
    ];
    for change in changes {
        let mut row = row();
        change(&mut row);
        assert_eq!(decode_row(&row).err(), Some(DraftJournalError::InvalidDatabase));
    }
    let twice = vec![row(), row()];
    assert_eq!(DraftJournal::load(&twice).err(), Some(DraftJournalError::InvalidDatabase));
}

fn columns() -> Vec<Column> {
    [
        ("operation_id", "BLOB", 1, 3),
        ("account_id", "blob", 1, 1),
        ("account_generation", "INTEGER", 1, 2),
        ("mailbox_identity", "TEXT", 1, 0),
        ("content_sha256", "BLOB", 1, 0),
        ("state", "TEXT", 1, 0),
        ("appended_uid_validity", "INTEGER", 0, 0),
        ("appended_uid", "INTEGER", 0, 0),
    ]
    .iter()
    .map(|(name, kind, not_null, primary_key)| Column {
        name: name.to_string(),
        kind: kind.to_string(),
        not_null: *not_null,
        primary_key: *primary_key,
    })
    .collect()
}

#[test]
fn databases_are_checked_before_they_are_used() {
    assert_eq!(opening(0, 0), Ok(Opening::Initialize));
    assert_eq!(opening(1, 3), Ok(Opening::Compare));
    assert_eq!(opening(0, 1), Err(DraftJournalError::InvalidDatabase));
    assert_eq!(opening(2, 1), Err(DraftJournalError::InvalidDatabase));
    assert!(schema_is_current(&columns()));
    assert_eq!(check_schema(&columns()), Ok(()));
    let mut nullable = columns();
    nullable[3].not_null = 0;
    assert_eq!(check_schema(&nullable), Err(DraftJournalError::InvalidDatabase));
    let mut short = columns();
    short.pop();
    assert!(!schema_is_current(&short));
    assert_eq!(check_durability("WAL", 2), Ok(()));
    assert_eq!(check_durability("delete", 2), Err(DraftJournalError::Unavailable));
    assert_eq!(check_durability("wal", 1), Err(DraftJournalError::Unavailable));
    assert_eq!(check_changed(1), Ok(()));
    assert_eq!(
        check_changed(0),
        Err(DraftJournalError::NotDispatchable(DraftOperationState::InFlight))
    );
    assert_eq!(DraftJournalError::Unavailable.text(), "The draft journal is unavailable");
    assert_eq!(
        DraftJournalError::NotDispatchable(DraftOperationState::Rejected).text(),
        "The draft operation was rejected"
    );
}
