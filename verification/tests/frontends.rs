//! Command lines, setup, diagnostics and tools.
use mailctl::config::Limits;
use mailctl::domain::attachment::{AttachmentChunk, AttachmentProgress, GetAttachmentInput};
use mailctl::domain::draft::DraftContent;
use mailctl::domain::search::SearchCriteria;
use mailctl::domain::{Error, ErrorCode, Operation};
use mailctl::file_storage::FileFacts;
use mailctl::frontends::application::{next_input, Download, Taken};
use mailctl::frontends::arguments::{
    check_composition, check_input_file, search_criteria, Action, Administration, Command,
    Credential, DraftIdentity, Email, InputFile, Invocation, Options, Setup,
};
use mailctl::frontends::configuration::{
    begin, check_file, check_text, confirm_unchanged, edit, initial, prompt_answer, writes, Start,
};
use mailctl::frontends::diagnostics::{
    self, location_suffix, panic_location, request_identity, reviewed_message, told_request, Color, LogFormat, LogLevel, Plan, Request,
};
use mailctl::frontends::mcp::{carries_input, definitions, ends_session, fit, operation_of};
use mailctl::frontends::mcp_transport::{validate_frame, Bounds, Incoming, Intake, RequestId};
use mailctl::frontends::{
    conclude, exit_status, invocation_narrowing, route, selected_grant, startup, Conclusion,
    Executable, Route, Written,
};

fn text(value: &str) -> String {
    value.to_string()
}

fn options() -> Options {
    Options {
        isolated: false,
        config: text("/etc/mailctl.toml"),
        grant: None,
        read_only: false,
        accounts: Vec::new(),
        json: false,
        diagnostics: diagnostics::Options::default(),
    }
}

fn setup(alias: Option<&str>, server: Option<&str>, username: Option<&str>) -> Setup {
    Setup { alias: alias.map(text), server: server.map(text), username: username.map(text) }
}

#[test]
fn tool_servers_write_no_json_of_their_own() {
    assert!(Executable::Mcp.is_mcp() && !Executable::Cli.is_mcp());
    let serving = startup(Executable::Mcp, None, true);
    assert!(serving.serving && !serving.json);
    for name in ["setup", "credential", "doctor"] {
        let started = startup(Executable::Mcp, Some(name), true);
        assert!(!started.serving && started.json);
    }
    assert!(startup(Executable::Mcp, Some("other"), false).serving);
    assert!(!startup(Executable::Cli, None, false).serving);
}

#[test]
fn invocations_only_give_up() {
    let mut options = options();
    let serve = |use_configured_grant: bool| Action::Mcp { use_configured_grant };
    let narrowing = invocation_narrowing(&options, &serve(false)).unwrap();
    assert!(narrowing.read_only && narrowing.accounts.is_none());
    assert!(!invocation_narrowing(&options, &serve(true)).unwrap().read_only);
    options.accounts = vec![text("work")];
    options.read_only = true;
    let narrowing = invocation_narrowing(&options, &serve(true)).unwrap();
    assert!(narrowing.read_only);
    assert_eq!(narrowing.accounts, Some(vec![text("work")]));
    options.json = true;
    assert_eq!(
        invocation_narrowing(&options, &serve(true)).unwrap_err().code,
        ErrorCode::InvalidRequest
    );
    assert!(invocation_narrowing(&options, &Action::Doctor { check_account: true }).is_ok());
}

#[test]
fn actions_have_their_routes() {
    let export = Action::Export { attachment: text("a"), root: text("r"), name: text("n") };
    let doctor = Action::Doctor { check_account: false };
    assert_eq!(route(false, &export).unwrap(), Route::Embedded);
    assert_eq!(route(true, &export).unwrap_err().code, ErrorCode::UnsupportedCapability);
    assert_eq!(route(true, &doctor).unwrap(), Route::Isolated);
    assert_eq!(route(false, &Action::Setup(setup(None, None, None))).unwrap(), Route::Configure);
    assert_eq!(route(false, &Action::Credential(Credential::Status)).unwrap(), Route::Provision);
    assert_eq!(
        route(true, &Action::Credential(Credential::Status)).unwrap_err().code,
        ErrorCode::InvalidRequest
    );
    assert_eq!(selected_grant(&None, "default"), "default");
    assert_eq!(selected_grant(&Some(text("writer")), "default"), "writer");
}

#[test]
fn operations_end_in_a_result_and_a_status() {
    assert_eq!(conclude::<u8>(Conclusion::Interrupted, Ok(())).unwrap_err().code, ErrorCode::Cancelled);
    assert_eq!(conclude::<u8>(Conclusion::Expired, Ok(())).unwrap_err().code, ErrorCode::Timeout);
    assert_eq!(conclude(Conclusion::Finished(Ok(1)), Ok(())).unwrap(), 1);
    let unclean = Err(Error::new(ErrorCode::ExportCleanupFailed));
    assert_eq!(
        conclude(Conclusion::Finished(Ok(1)), unclean).unwrap_err().code,
        ErrorCode::ExportCleanupFailed
    );
    let error = Error::new(ErrorCode::PermissionDenied);
    assert_eq!(exit_status(None, Written::Complete), 0);
    assert_eq!(exit_status(Some(&error), Written::Nothing), 3);
    assert_eq!(exit_status(Some(&error), Written::Expired), 5);
    assert_eq!(exit_status(None, Written::Failed), 8);
}

#[test]
fn commands_mean_one_action() {
    let action = |command: Command| Invocation::from_command(options(), command).action;
    let identity = || DraftIdentity {
        mailbox: text("Drafts"),
        account_id: 1,
        account_generation: 2,
        operation_id: 3,
    };
    assert!(matches!(
        action(Command::Mcp { use_configured_grant: true, administration: None }),
        Action::Mcp { use_configured_grant: true }
    ));
    assert!(matches!(
        action(Command::Mcp {
            use_configured_grant: true,
            administration: Some(Administration::Doctor { check_account: true }),
        }),
        Action::Doctor { check_account: true }
    ));
    assert!(matches!(
        action(Command::Cli(Email::Administration(Administration::Credential(Credential::Store)))),
        Action::Credential(Credential::Store)
    ));
    match action(Command::Cli(Email::MessageSearch {
        mailbox: text("INBOX"),
        criteria: SearchCriteria::default(),
        limit: Some(7),
        cursor: None,
    })) {
        Action::Email(Operation::SearchMessages(input)) => assert_eq!(input.limit, Some(7)),
        other => panic!("{other:?}"),
    }
    match action(Command::Cli(Email::DraftStatus { identity: identity(), reconcile: true })) {
        Action::Email(Operation::DraftStatus(input)) => {
            assert_eq!((input.account_id, input.operation_id, input.reconcile), (1, 3, true));
            assert_eq!(input.identity().account_generation, 2);
        }
        other => panic!("{other:?}"),
    }
    match action(Command::Cli(Email::AttachmentGet { attachment: text("ref") })) {
        Action::Email(Operation::GetAttachment(GetAttachmentInput::Start(start))) => {
            assert_eq!(start.attachment, "ref")
        }
        other => panic!("{other:?}"),
    }
    match identity().save(DraftContent::default()) {
        Operation::SaveDraft(input) => assert_eq!(input.mailbox, "Drafts"),
        other => panic!("{other:?}"),
    }
}

#[test]
fn inputs_are_bounded_before_they_are_decoded() {
    assert!(search_criteria("[]").is_ok());
    assert_eq!(
        search_criteria(&" ".repeat(1_048_577)).unwrap_err(),
        "Search criteria exceed the input limit"
    );
    assert_eq!(search_criteria(&"[".repeat(33)).unwrap_err(), "Invalid search criteria");
    let file = InputFile { regular: true, length: 10 };
    assert!(check_input_file(Some(file), 10).is_ok());
    assert_eq!(check_input_file(Some(file), 9).unwrap_err().code, ErrorCode::ResponseTooLarge);
    assert_eq!(check_input_file(None, 9).unwrap_err().code, ErrorCode::InvalidRequest);
    let directory = InputFile { regular: false, length: 0 };
    assert_eq!(check_input_file(Some(directory), 9).unwrap_err().code, ErrorCode::InvalidRequest);
    assert!(check_composition(b"{}", 2, 1).is_ok());
    assert_eq!(check_composition(b"{}", 1, 1).unwrap_err().code, ErrorCode::ResponseTooLarge);
    assert_eq!(check_composition(b"{}", 2, 0).unwrap_err().code, ErrorCode::InvalidRequest);
}

#[test]
fn configuration_files_are_private() {
    let facts = FileFacts {
        regular: true,
        redirected: false,
        owner: 501,
        mode: 0o600,
        links: 1,
        length: 4_194_304,
    };
    assert!(check_file(Some(facts), 501).is_ok());
    assert!(check_file(Some(FileFacts { length: 4_194_305, ..facts }), 501).is_err());
    assert!(check_file(Some(facts), 502).is_err());
    assert!(check_file(None, 501).is_err());
    assert!(check_text("version = 1").is_ok());
    assert!(check_text(&"#".repeat(4_194_305)).is_err());
}

#[test]
fn prompts_are_answered_with_something() {
    assert_eq!(prompt_answer("  name \n").unwrap(), "name");
    assert_eq!(prompt_answer(" \n").unwrap_err().code, ErrorCode::InvalidRequest);
    assert_eq!(prompt_answer(&"a".repeat(1025)).unwrap_err().code, ErrorCode::InvalidRequest);
}

#[test]
fn setup_asks_only_a_person() {
    assert_eq!(begin(true, &setup(None, None, None), true, false).unwrap(), Start::Proceed);
    assert_eq!(begin(false, &setup(Some("a"), None, None), true, false).unwrap(), Start::Proceed);
    assert_eq!(begin(false, &setup(None, None, None), false, true).unwrap(), Start::Ask);
    assert!(begin(false, &setup(None, None, None), true, true).is_err());
    assert!(begin(false, &setup(None, None, None), false, false).is_err());
}

#[test]
fn first_configurations_stand_on_their_own() {
    let config = initial(text("/var/lib/mailctl"));
    config.validate().unwrap();
    assert!(config.accounts.is_empty());
    assert_eq!(config.grants[0].mailboxes, vec![text("INBOX")]);
    assert_eq!(config.limits, Limits::default());
}

#[test]
fn setup_adds_and_updates_one_account() {
    let config = initial(text("/var/lib/mailctl"));
    let added = edit(
        config,
        setup(Some("work"), Some("imap.example.org"), Some("someone")),
        &Vec::new(),
        text("key1"),
    )
    .unwrap();
    added.validate().unwrap();
    assert_eq!(added.accounts[0].key, "key1");
    assert_eq!(added.accounts[0].port, 993);
    assert_eq!(added.accounts[0].from_identities, vec![text("work")]);
    assert_eq!(added.grants[0].accounts, vec![text("key1")]);

    let added = edit(
        added,
        setup(Some("home"), Some("imap.example.net"), Some("other")),
        &Vec::new(),
        text("key2"),
    )
    .unwrap();
    let updated = edit(
        added,
        setup(Some("office"), None, Some("renamed")),
        &vec![text("work")],
        text("unused"),
    )
    .unwrap();
    assert_eq!(updated.accounts.len(), 2);
    assert_eq!(updated.accounts[0].alias, "office");
    assert_eq!(updated.accounts[0].server, "imap.example.org");
    assert_eq!(updated.accounts[0].username, "renamed");
    assert_eq!(updated.accounts[1].alias, "home");
    let same = edit(updated, setup(None, None, None), &Vec::new(), text("unused")).unwrap();
    assert_eq!(same.accounts.len(), 2);
}

#[test]
fn setup_refuses_what_it_cannot_place() {
    let refused = |args: Setup, selected: &[&str]| {
        let selected: Vec<String> = selected.iter().map(|name| name.to_string()).collect();
        edit(initial(text("/s")), args, &selected, text("key")).unwrap_err()
    };
    assert_eq!(
        refused(setup(None, None, None), &["a"]).code,
        ErrorCode::InvalidRequest
    );
    assert_eq!(
        refused(setup(Some("a"), None, None), &["a", "b"]).code,
        ErrorCode::InvalidRequest
    );
    assert_eq!(
        refused(setup(Some("a"), None, None), &["b"]).code,
        ErrorCode::AccountNotAllowed
    );
    assert_eq!(
        refused(setup(Some("a"), Some("host"), None), &[]).message,
        Error::setup_required().message
    );
    assert!(writes(false, false) && writes(true, true) && !writes(true, false));
    assert!(confirm_unchanged(&None, &None).is_ok());
    assert!(confirm_unchanged(&Some(text("a")), &Some(text("a"))).is_ok());
    for (before, now) in [(None, Some(text("a"))), (Some(text("a")), Some(text("b")))] {
        assert_eq!(
            confirm_unchanged(&before, &now).unwrap_err().code,
            ErrorCode::OperationConflict
        );
    }
}

#[test]
fn diagnostics_are_planned() {
    let options = |log_format: LogFormat| diagnostics::Options {
        log_format,
        ..diagnostics::Options::default()
    };
    assert_eq!(options(LogFormat::Auto).plan(true).unwrap().format, LogFormat::Json);
    assert_eq!(options(LogFormat::Auto).plan(false).unwrap().format, LogFormat::Compact);
    assert_eq!(options(LogFormat::Off).plan(true).unwrap().format, LogFormat::Off);
    assert_eq!(
        options(LogFormat::Compact).plan(true).unwrap_err().code,
        ErrorCode::InvalidRequest
    );
    let plan = Plan { format: LogFormat::Json, level: LogLevel::Warn };
    assert!(plan.allows("mailctl::diagnostic", false, LogLevel::Error));
    assert!(!plan.allows("mailctl::diagnostic", false, LogLevel::Info));
    assert!(plan.allows("mailctl::diagnostic", true, LogLevel::Trace));
    for level in [LogLevel::Error, LogLevel::Trace] {
        assert!(!plan.allows("dependency", false, level));
        assert!(!plan.allows("dependency", true, level));
    }
    assert!(Color::Auto.enabled(true, None));
    assert!(Color::Auto.enabled(true, Some("")));
    assert!(!Color::Always.enabled(true, Some("1")));
    assert!(!Color::Always.enabled(false, None));
    assert!(!Color::Never.enabled(true, None));
}

#[test]
fn diagnostics_carry_reviewed_text_only() {
    let hostile = Error {
        code: ErrorCode::ProviderUnavailable,
        message: text("secret from a server"),
        retryable: true,
    };
    assert_eq!(reviewed_message(&hostile), Error::new(ErrorCode::ProviderUnavailable).message);
    assert_eq!(reviewed_message(&Error::setup_required()), Error::setup_required().message);
    assert_eq!(reviewed_message(&Error::draft_conflict()), Error::draft_conflict().message);
    assert_eq!(location_suffix("src/a.rs:1"), "src/a.rs:1");
    assert_eq!(location_suffix(&format!("{}end", "x".repeat(200))).len(), 128);
    assert!(location_suffix(&format!("{}end", "x".repeat(200))).ends_with("end"));
    for location in ["src/a.rs:1", "a\tb\r\n'\"\\", "\u{e9}\u{202e}\u{10ffff}\0~ "] {
        assert_eq!(panic_location(location), location.escape_default().to_string());
    }
    let long = "\u{1b}".repeat(200);
    assert_eq!(panic_location(&long), "\\u{1b}".repeat(43)[..256]);
    let request = Request::new(text("id"));
    assert_eq!(request.span(), "id");
    assert_eq!(request.envelope::<u8>(Ok(1)).request_id, "id");
}

#[test]
fn failures_are_told_by_their_code() {
    let hostile = |message: &str, retryable: bool| Error {
        code: ErrorCode::ProviderUnavailable,
        message: text(message),
        retryable,
    };
    let first = diagnostics::result("untrusted-request-secret", Some(&hostile("secret", true)));
    let second = diagnostics::result("\u{1b}]52;c;private", Some(&hostile("private", false)));
    assert_eq!(first, second);
    assert_eq!(first.event, "operation_failed");
    assert_eq!(first.request_id, "");
    let failure = first.failure.unwrap();
    assert_eq!(failure.code, "provider_unavailable");
    assert_eq!(failure.message, Error::new(ErrorCode::ProviderUnavailable).message);
    let id = "67E55044-10B1-426F-9247-BB680E5FE0C8";
    let known = diagnostics::result(id, Some(&Error::draft_conflict()));
    assert_eq!(known.request_id, id.to_lowercase());
    let failure = known.failure.unwrap();
    assert_eq!(failure.code, "operation_conflict");
    assert_eq!(failure.message, Error::draft_conflict().message);
    let done = diagnostics::result(id, None);
    assert_eq!(done.event, "operation_completed");
    assert_eq!(done.request_id, id.to_lowercase());
    assert_eq!(done.failure, None);
    assert_eq!(ErrorCode::TlsFailed.name(), "tls_failed");
}

#[test]
fn tools_are_offered_for_permitted_operations() {
    let tools = definitions(&vec![text("get_message"), text("health")]);
    let names: Vec<&str> = tools.iter().map(|tool| tool.operation.as_str()).collect();
    assert_eq!(names, vec!["list_accounts", "capabilities", "get_message"]);
    assert_eq!(
        tools[1].description,
        "Show effective permissions and implemented operations."
    );
    assert_eq!(operation_of(&tools, "email_get_message").as_deref(), Some("get_message"));
    assert_eq!(operation_of(&tools, "email_search_messages"), None);
    assert_eq!(operation_of(&tools, "get_message"), None);
    assert!(!carries_input("capabilities", true));
    assert!(carries_input("capabilities", false) && carries_input("get_message", true));
    assert!(ends_session(Some(&Error::new(ErrorCode::OperationConflict))));
    assert!(!ends_session(Some(&Error::new(ErrorCode::Timeout))) && !ends_session(None));
    assert_eq!(fit(Ok(5), 10, 10).unwrap(), 5);
    assert_eq!(fit(Ok(5), 11, 10).unwrap_err().code, ErrorCode::ResponseTooLarge);
}

#[test]
fn sessions_are_sized_within_the_buffer() {
    let limits = Limits::default();
    let bounds = Bounds::new(&limits, limits.envelope_bytes).unwrap();
    assert!(bounds.envelope >= 1024 && bounds.requests >= 1);
    let (output, control, request) =
        Bounds::reservations(bounds.input, bounds.envelope, limits.accounts);
    assert_eq!(bounds.output, output);
    assert!(65_536 + control + bounds.requests * request <= limits.buffered_bytes);
    assert!(bounds.envelope <= limits.envelope_bytes);
    assert_eq!(
        Bounds::reservations(1024, 1024, 1),
        (
            32_768,
            272 * 1024 + 4 * 32_768,
            128 * 1024 + 3 * 1024 + 65_536 + 64 * 100 + 4096 + 1024 * 6,
        )
    );
    let tiny = Limits { buffered_bytes: 65_535, ..limits };
    assert!(Bounds::new(&tiny, 4096).is_err());
    assert!(Bounds::new(&limits, 1023).is_err());
}

#[test]
fn frames_are_bounded_before_they_are_parsed() {
    assert!(validate_frame(b"{\"a\":[1]}", 2).is_ok());
    assert_eq!(validate_frame(b"{\"a\":[1]}", 1).unwrap_err().code, ErrorCode::InvalidRequest);
    let many = format!("[{}1]", "1,".repeat(5000));
    assert!(validate_frame(many.as_bytes(), 2).is_err());
}

#[test]
fn sessions_are_initialized_before_they_are_used() {
    let mut intake = Intake::new();
    assert!(!intake.receive(Incoming::Request { id: RequestId::Number(1) }));
    assert!(intake.receive(Incoming::Ping { id: RequestId::Number(1) }));
    assert!(intake.receive(Incoming::Initialize { id: RequestId::Text(text("1")) }));
    assert!(!intake.receive(Incoming::Request { id: RequestId::Number(1) }));
    intake.answered(&RequestId::Number(1));
    assert!(intake.receive(Incoming::Request { id: RequestId::Number(1) }));
    assert!(intake.receive(Incoming::Other));
    assert!(!intake.receive(Incoming::Ping { id: RequestId::Text(text("1")) }));
    assert_eq!(intake.pending.len(), 2);
}

fn chunk(bytes: &str, offset: u64, progress: AttachmentProgress) -> AttachmentChunk {
    AttachmentChunk {
        account_id: text("account"),
        generation: 1,
        attachment_reference: text("reference"),
        bytes_base64: text(bytes),
        decoded_offset: offset,
        progress,
    }
}

fn more() -> AttachmentProgress {
    AttachmentProgress::Continue { next_token: text("next") }
}

fn complete() -> AttachmentProgress {
    AttachmentProgress::Complete { total_decoded_bytes: 3, sha256: text("digest") }
}

#[test]
fn downloads_put_chunks_together() {
    let limits = Limits::default();
    let mut download = Download::new();
    match download.accept(chunk("YWI=", 0, more()), &limits).unwrap() {
        Taken::More(chunk) => match next_input(&chunk.progress).unwrap() {
            GetAttachmentInput::Continue(next) => assert_eq!(next.token, "next"),
            other => panic!("{other:?}"),
        },
        other => panic!("{other:?}"),
    }
    match download.accept(chunk("Yw==", 2, complete()), &limits).unwrap() {
        Taken::Whole(whole) => {
            assert_eq!(whole.bytes_base64, "YWJj");
            assert_eq!(whole.decoded_offset, 0);
            assert_eq!(next_input(&whole.progress).unwrap_err().code, ErrorCode::InternalError);
        }
        other => panic!("{other:?}"),
    }
}

#[test]
fn downloads_refuse_gaps_and_excess() {
    let limits = Limits::default();
    let mut download = Download::new();
    assert_eq!(
        download.accept(chunk("YWI=", 1, more()), &limits).unwrap_err().code,
        ErrorCode::InternalError
    );
    assert_eq!(
        download.accept(chunk("!!!!", 0, more()), &limits).unwrap_err().code,
        ErrorCode::InternalError
    );
    let small = Limits { attachment_decoded_bytes: 1, ..limits };
    assert_eq!(
        download.accept(chunk("YWI=", 0, more()), &small).unwrap_err().code,
        ErrorCode::ResponseTooLarge
    );
    let narrow = Limits { envelope_bytes: 4096, ..limits };
    assert_eq!(
        download.check(&chunk("YWI=", 0, more()), &narrow).unwrap_err().code,
        ErrorCode::ResponseTooLarge
    );
    assert_eq!(
        download.take(chunk("", 0, more()), None).unwrap_err().code,
        ErrorCode::InternalError
    );
    assert!(download.bytes.is_empty());
}

#[test]
fn request_identities_are_uuids_or_nothing() {
    let id = "67e55044-10b1-426f-9247-bb680e5fe0c8";
    assert_eq!(request_identity(id), id);
    assert_eq!(request_identity(&id.to_uppercase()), id);
    assert_eq!(request_identity(&id.replace('-', "")), id);
    assert_eq!(request_identity("untrusted-request-secret"), "");
    assert_eq!(request_identity(""), "");
    assert_eq!(told_request(Some("x".to_string())), "x");
    assert_eq!(told_request(None), "");
}
