//! Credential sources, private files and exports.
use mailctl::backend::InMemoryBackend;
use mailctl::config::CredentialSource;
use mailctl::credentials::{
    parse_default_keychain, platform_code, prepare_native_access, service_name, source_error,
    source_for, Availability, HelperOutput, Secret, SourceError, SourceRoute, StoreFailure,
    HELPER_OUTPUT_BYTES, MAX_SECRET_BYTES,
};
use mailctl::domain::attachment::{AttachmentChunk, AttachmentProgress};
use mailctl::domain::{Error, ErrorCode};
use mailctl::export::{
    abort_outcome, after_naming, candidate, check_published, check_root, check_unmoved,
    cleanup_failed, failed, removal, root_components, safe_name, ExportWriter, FileIdentity, Naming, PartialFile, Published,
};
use mailctl::file_storage::{next_step, private_file, reading, within, FileFacts, Opened, Reading, Step};
use mailctl::frontends::arguments::Credential;
use mailctl::frontends::credentials::{plan, provisioning, Provisioning, Work};
use mailctl::host::NativeEnvironment;

#[test]
fn default_keychain_output_preserves_a_quoted_raw_path() {
    assert_eq!(
        parse_default_keychain(
            b"    \"/Users/fixture/Library/Keychains/with\\slash-and\"quote.keychain-db\"\n",
        )
        .unwrap(),
        b"/Users/fixture/Library/Keychains/with\\slash-and\"quote.keychain-db".to_vec()
    );
    for output in [
        br#""relative.keychain-db""#.as_slice(),
        b"    \"/Users/fixture/one\"\n    \"/Users/fixture/two\"\n".as_slice(),
        br#"["/Users/fixture/one"]"#.as_slice(),
        b"\"/Users/fixture/one\n\"".as_slice(),
    ] {
        assert!(parse_default_keychain(output).is_err());
    }
}

#[test]
fn secrets_are_bounded_text() {
    let secret = Secret::new("p\u{e9}".as_bytes().to_vec()).unwrap();
    assert_eq!(secret.expose(), "p\u{e9}");
    assert_eq!(secret.len(), 3);
    assert!(!secret.is_empty());
    assert_eq!(secret.into_text(), "p\u{e9}");
    assert!(Secret::new(vec![b'a'; MAX_SECRET_BYTES]).is_ok());
    for bytes in [Vec::new(), vec![0xff], vec![b'a'; MAX_SECRET_BYTES + 1]] {
        assert_eq!(Secret::new(bytes).err(), Some(SourceError::InvalidSecret));
    }
    assert_eq!(service_name(), "mailctl");
    assert_eq!(prepare_native_access(), Ok(()));
}

#[test]
fn failures_show_what_is_known_of_a_source() {
    for (error, shown) in [
        (SourceError::Missing, Availability::Missing),
        (SourceError::Locked, Availability::Locked),
        (SourceError::AccessDenied, Availability::AccessDenied),
        (SourceError::Unavailable, Availability::Unavailable),
        (SourceError::InteractionRequired, Availability::InteractionRequired),
        (SourceError::InvalidSecret, Availability::Unknown),
        (SourceError::Internal, Availability::Unknown),
    ] {
        assert_eq!(error.availability(), shown);
    }
    for (code, error) in [
        (-25300, SourceError::Missing),
        (-25308, SourceError::InteractionRequired),
        (-128, SourceError::AccessDenied),
        (-25291, SourceError::Unavailable),
        (7, SourceError::Internal),
    ] {
        assert_eq!(platform_code(code), error);
    }
}

#[test]
fn sources_are_routed_without_being_read() {
    let native = CredentialSource::Native {};
    assert_eq!(source_for(&native, true), SourceRoute::NativeStore);
    assert_eq!(
        source_for(&native, false),
        SourceRoute::Deferred {
            failure: SourceError::Unavailable,
            prerequisite: "Native credential resolution in this build requires macOS",
        }
    );
    assert!(matches!(
        source_for(&CredentialSource::Session {}, true),
        SourceRoute::Deferred { failure: SourceError::InteractionRequired, .. }
    ));
    assert_eq!(
        NativeEnvironment.credential_source(&native, true),
        source_for(&native, true)
    );
    assert_eq!(InMemoryBackend.availability(), mailctl::domain::Availability::Unknown);
}

#[test]
fn helper_output_is_kept_up_to_its_ceiling() {
    let mut output = HelperOutput::new();
    output.take(b"abc");
    assert_eq!(output.bytes, b"abc");
    output.take(&vec![b'x'; HELPER_OUTPUT_BYTES - 3]);
    assert!(!output.exceeded && output.bytes.len() == HELPER_OUTPUT_BYTES);
    output.take(b"y");
    assert!(output.exceeded && output.bytes.len() == HELPER_OUTPUT_BYTES);
}

#[test]
fn credential_commands_ask_only_where_somebody_answers() {
    assert_eq!(plan(Credential::Store, true, false), Ok(Work::PromptAndStore));
    assert_eq!(plan(Credential::Store, true, true), Err(SourceError::InteractionRequired));
    assert_eq!(plan(Credential::Store, false, false), Err(SourceError::Unavailable));
    assert_eq!(plan(Credential::Delete, true, true), Ok(Work::Remove));
    assert_eq!(plan(Credential::Delete, false, true), Err(SourceError::Unavailable));
    assert_eq!(plan(Credential::Status, false, true), Ok(Work::Inspect));
    assert_eq!(provisioning(true), Provisioning::Operator);
    assert_eq!(provisioning(false), Provisioning::External);
}

fn facts() -> FileFacts {
    FileFacts { regular: true, redirected: false, owner: 501, mode: 0o600, links: 1, length: 10 }
}

#[test]
fn files_are_read_when_they_are_private_and_small() {
    assert!(private_file(facts(), 501));
    for broken in [
        FileFacts { regular: false, ..facts() },
        FileFacts { redirected: true, ..facts() },
        FileFacts { owner: 0, ..facts() },
        FileFacts { mode: 0o640, ..facts() },
        FileFacts { links: 2, ..facts() },
    ] {
        assert!(!private_file(broken, 501));
        assert_eq!(reading(Opened::File(broken), 501, 10), Reading::Refuse);
    }
    assert_eq!(reading(Opened::File(facts()), 501, 10), Reading::Proceed);
    assert_eq!(reading(Opened::File(facts()), 501, 9), Reading::Refuse);
    assert_eq!(reading(Opened::NotFound, 501, 9), Reading::Absent);
    assert_eq!(reading(Opened::Failed, 501, 9), Reading::Refuse);
    assert_eq!(within(vec![1, 2], 2), Some(vec![1, 2]));
    assert_eq!(within(vec![1, 2, 3], 2), None);
}

#[test]
fn replacements_are_durable_before_they_count() {
    let mut step = Step::Create;
    let mut taken = Vec::new();
    while step != Step::Done {
        taken.push(step);
        step = next_step(step, true);
    }
    assert_eq!(
        taken,
        vec![Step::Create, Step::Write, Step::SyncFile, Step::Rename, Step::SyncDirectory]
    );
    for step in taken {
        assert_eq!(next_step(step, false), Step::Remove);
    }
}

#[test]
fn export_names_are_safe_everywhere() {
    for name in ["report.pdf", "caf\u{e9} 2024_v1-2.txt", "COM", "console"] {
        assert!(safe_name(name), "{name}");
    }
    for name in [
        "", ".hidden", "trailing.", "trailing ", "a/b", "a\\b", "nul", "Aux.txt", "COM1", "lpt9.log",
        "a\u{202e}b",
    ] {
        assert!(!safe_name(name), "{name}");
    }
    assert!(safe_name(&"a".repeat(200)));
    assert!(!safe_name(&"a".repeat(201)));
}

fn chunk(text: &str, offset: u64, progress: AttachmentProgress) -> AttachmentChunk {
    AttachmentChunk {
        account_id: "account".to_string(),
        generation: 1,
        attachment_reference: "reference".to_string(),
        bytes_base64: text.to_string(),
        decoded_offset: offset,
        progress,
    }
}

fn more() -> AttachmentProgress {
    AttachmentProgress::Continue { next_token: "next".to_string() }
}

fn writer(maximum: usize) -> ExportWriter {
    ExportWriter::create(&vec!["/exports".to_string()], "/exports", "a.txt", maximum)
        .ok()
        .unwrap()
}

#[test]
fn exports_start_under_approved_roots() {
    let approved = vec!["/exports".to_string()];
    let refused = |root: &str, name: &str, maximum: usize| {
        ExportWriter::create(&approved, root, name, maximum).err().unwrap().code
    };
    assert_eq!(refused("/other", "a.txt", 10), ErrorCode::PermissionDenied);
    assert_eq!(refused("/exports", ".a", 10), ErrorCode::InvalidRequest);
    assert_eq!(refused("/exports", "a.txt", 0), ErrorCode::InvalidRequest);
    assert_eq!(refused("/exports", "a.txt", usize::MAX), ErrorCode::InvalidRequest);
    assert_eq!(refused("/exports/..", "a.txt", 10), ErrorCode::PermissionDenied);
    for root in ["/exports/", "//exports", "/./exports/."] {
        assert!(ExportWriter::create(&approved, root, "a.txt", 10).is_ok(), "{root}");
    }
}

#[test]
fn exports_are_checked_from_end_to_end() {
    let mut writer = writer(3);
    let first = chunk("YWI=", 0, more());
    let bytes = writer.decode(&first).unwrap();
    assert_eq!(bytes, b"ab");
    assert_eq!(writer.advance(&first, &bytes).unwrap(), None);
    let digest = "ba7816bf8f01cfea414140de5dae2223b00361a396177a9cb410ff61f20015ad";
    let last = chunk(
        "Yw==",
        2,
        AttachmentProgress::Complete { total_decoded_bytes: 3, sha256: digest.to_string() },
    );
    let bytes = writer.decode(&last).unwrap();
    assert_eq!(writer.advance(&last, &bytes).unwrap().as_deref(), Some(digest));
    let receipt = writer.complete("/exports/a.txt".to_string(), "local".to_string(), digest.to_string());
    assert_eq!(receipt.total_decoded_bytes, 3);
    assert_eq!(receipt.sha256, digest);
    assert!(!writer.active);
    assert_eq!(writer.decode(&last).unwrap_err().code, ErrorCode::ExportFailed);
}

#[test]
fn broken_chunks_end_an_export() {
    let writer = writer(3);
    assert_eq!(writer.decode(&chunk("YWI=", 1, more())).unwrap_err().code, ErrorCode::ExportFailed);
    assert_eq!(writer.decode(&chunk("!!!!", 0, more())).unwrap_err().code, ErrorCode::ExportFailed);
    assert_eq!(writer.decode(&chunk("", 0, more())).unwrap_err().code, ErrorCode::ExportFailed);
    assert_eq!(
        writer.decode(&chunk("YWJjZA==", 0, more())).unwrap_err().code,
        ErrorCode::ExportFailed
    );
    assert_eq!(
        writer.judge(&chunk("YWI=", 0, more()), Some(vec![1, 2, 3, 4])).unwrap_err().code,
        ErrorCode::AttachmentTooLarge
    );
    assert_eq!(
        writer.judge(&chunk("YWI=", 0, more()), None).unwrap_err().code,
        ErrorCode::ExportFailed
    );
    let mut other = self::writer(3);
    other.advance(&chunk("YQ==", 0, more()), &vec![b'a']).unwrap();
    let mut elsewhere = chunk("YQ==", 1, more());
    elsewhere.attachment_reference = "another".to_string();
    assert_eq!(other.decode(&elsewhere).unwrap_err().code, ErrorCode::ExportFailed);
    let wrong = chunk(
        "Yg==",
        1,
        AttachmentProgress::Complete { total_decoded_bytes: 2, sha256: "00".to_string() },
    );
    assert_eq!(other.advance(&wrong, &vec![b'b']).unwrap_err().code, ErrorCode::ExportFailed);
    other.abort();
    assert!(!other.active);
}

#[test]
fn exported_files_are_named_once_and_never_replaced() {
    assert_eq!(candidate("a.txt", 0), "a.txt");
    assert_eq!(candidate("a.txt", 12), "a.txt-12");
    assert_ne!(candidate("a.txt-1", 0), candidate("a.txt-1", 1));
    assert_eq!(after_naming(0, Naming::Named).unwrap(), None);
    assert_eq!(after_naming(0, Naming::Taken).unwrap(), Some(1));
    assert!(after_naming(999, Naming::Taken).is_err());
    assert!(after_naming(0, Naming::Failed).is_err());
    let here = FileIdentity { device: 1, inode: 2 };
    let there = FileIdentity { device: 1, inode: 3 };
    assert!(check_unmoved(here, here, there, there, 1).is_ok());
    assert!(check_unmoved(here, there, there, there, 1).is_err());
    assert!(check_unmoved(here, here, here, there, 1).is_err());
    assert!(check_unmoved(here, here, there, there, 2).is_err());
    let published = Published { mode: 0o100600, owner: 501, links: 1, size: 9 };
    assert!(check_published(published, 501, 9).is_ok());
    assert!(check_published(published, 501, 8).is_err());
    assert!(check_published(Published { mode: 0o100644, ..published }, 501, 9).is_err());
    assert!(!removal(PartialFile::Gone, None).unwrap());
    assert!(removal(PartialFile::Found(here), Some(here)).unwrap());
    for (found, held) in [
        (PartialFile::Found(here), Some(there)),
        (PartialFile::Found(here), None),
        (PartialFile::Unreadable, Some(here)),
    ] {
        assert_eq!(removal(found, held).unwrap_err().code, ErrorCode::ExportCleanupFailed);
    }
    assert!(abort_outcome(Ok(()), false).is_ok());
    assert_eq!(
        abort_outcome(Ok(()), true).unwrap_err().code,
        ErrorCode::ExportFinalizationFailed
    );
    assert_eq!(
        abort_outcome(Err(Error::new(ErrorCode::Timeout)), false).unwrap_err().code,
        ErrorCode::Timeout
    );
    assert_eq!(failed().code, ErrorCode::ExportFailed);
    assert_eq!(cleanup_failed().code, ErrorCode::ExportCleanupFailed);
}

#[test]
fn export_roots_are_absolute_and_private() {
    assert_eq!(
        root_components("/home//someone/./exports/").unwrap(),
        vec!["home".to_string(), "someone".to_string(), "exports".to_string()]
    );
    assert_eq!(root_components("/").unwrap(), Vec::<String>::new());
    for path in ["", "exports", "/home/../exports"] {
        assert_eq!(root_components(path).unwrap_err().code, ErrorCode::ExportFailed);
    }
    assert!(root_components(&format!("/{}", "a".repeat(4095))).is_ok());
    assert!(root_components(&format!("/{}", "a".repeat(4096))).is_err());
    assert!(check_root(501, 0o040700, 501).is_ok());
    assert_eq!(check_root(502, 0o040700, 501).unwrap_err().code, ErrorCode::ExportFailed);
    assert_eq!(check_root(501, 0o040750, 501).unwrap_err().code, ErrorCode::ExportFailed);
}

#[test]
fn store_failures_become_source_errors() {
    assert_eq!(source_error(StoreFailure::NoEntry), SourceError::Missing);
    assert_eq!(source_error(StoreFailure::Platform { code: None }), SourceError::Unavailable);
    assert_eq!(
        source_error(StoreFailure::Platform { code: Some(-25308) }),
        platform_code(-25308)
    );
    assert_eq!(source_error(StoreFailure::BadData), SourceError::InvalidSecret);
    assert_eq!(source_error(StoreFailure::Refused), SourceError::InvalidSecret);
    assert_eq!(source_error(StoreFailure::NoStore), SourceError::Unavailable);
    assert_eq!(source_error(StoreFailure::Other), SourceError::Internal);
}
