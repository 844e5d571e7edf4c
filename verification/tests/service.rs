//! Requests under a grant, and what the service answers by itself.
use mailctl::config::{
    AccessGrant, AccountConfig, Config, CredentialSource, Limits, TlsMode, Topology,
};
use mailctl::domain::{
    Availability, Envelope, Error, ErrorCode, Health, ListAccountsInput, ListMailboxesInput, Operation,
    OperationResult,
};
use mailctl::isolation::narrow_context;
use mailctl::policy::{Narrowing, Permission, Profile, RequestContext};
use mailctl::service::{operations, Dispatch, Identity, Service};

fn account(key: &str, alias: &str) -> AccountConfig {
    AccountConfig {
        key: key.to_string(),
        alias: alias.to_string(),
        server: "imap.example.org".to_string(),
        port: 993,
        tls: TlsMode::Implicit,
        username: "someone".to_string(),
        mailboxes: vec!["INBOX".to_string(), "Drafts".to_string()],
        from_identities: vec!["someone@example.org".to_string()],
        drafts_mailbox: Some("Drafts".to_string()),
        credential: CredentialSource::Native {},
        retain_history: false,
    }
}

fn grant(name: &str, profile: Profile, accounts: &[&str]) -> AccessGrant {
    AccessGrant {
        name: name.to_string(),
        profile,
        accounts: accounts.iter().map(|key| key.to_string()).collect(),
        mailboxes: vec!["INBOX".to_string(), "Drafts".to_string()],
        limits: Limits::default(),
    }
}

fn config() -> Config {
    Config {
        version: 1,
        default_grant: "default".to_string(),
        topology: Topology::Native,
        state_dir: "/var/lib/mailctl".to_string(),
        limits: Limits::default(),
        accounts: vec![account("first", "work"), account("second", "home"), account("third", "club")],
        grants: vec![
            grant("default", Profile::ReadOnly, &["first", "third"]),
            grant("writer", Profile::DraftsOnly, &["first"]),
        ],
    }
}

fn identities() -> Vec<Identity> {
    vec![
        Identity { account_id: "c".to_string(), generation: 1 },
        Identity { account_id: "b".to_string(), generation: 2 },
        Identity { account_id: "a".to_string(), generation: 3 },
    ]
}

fn service() -> Service {
    Service::open(config(), identities(), 42).unwrap()
}

fn health_of(service: &Service, context: &RequestContext) -> Result<Health, Error> {
    match service.dispatch(context, &Operation::Health, None)? {
        Dispatch::Answer(OperationResult::Health(health)) => Ok(health),
        _ => unreachable!(),
    }
}

#[test]
fn invalid_configurations_open_no_service() {
    let mut broken = config();
    broken.version = 9;
    assert_eq!(
        Service::open(broken, identities(), 42).unwrap_err().message,
        Error::setup_required().message
    );
}

#[test]
fn contexts_reach_the_accounts_of_their_grant() {
    let service = service();
    let context = service.context("default", &Narrowing::default()).unwrap();
    assert_eq!(context.account_indices(), &vec![0, 2]);
    assert_eq!(context.grant_name(), "default");
    assert_eq!(context.response_limit(), Limits::default().envelope_bytes);
    assert!(!context.holds(Permission::AppendDraft));

    let narrowed = Narrowing {
        read_only: true,
        accounts: Some(vec!["club".to_string(), "home".to_string()]),
    };
    let context = service.context("default", &narrowed).unwrap();
    assert_eq!(context.account_indices(), &vec![2]);

    let writer = service.context("writer", &Narrowing::default()).unwrap();
    assert!(writer.holds(Permission::AppendDraft));
    let reader = service
        .context("writer", &Narrowing { read_only: true, accounts: None })
        .unwrap();
    assert!(!reader.holds(Permission::AppendDraft));
}

#[test]
fn unknown_grants_and_excessive_narrowings_are_refused() {
    let service = service();
    assert_eq!(
        service.context("other", &Narrowing::default()).unwrap_err().code,
        ErrorCode::PermissionDenied
    );
    let many = vec!["a".to_string(); Limits::default().accounts + 1];
    let narrowing = Narrowing { read_only: false, accounts: Some(many) };
    assert_eq!(
        service.context("default", &narrowing).unwrap_err().code,
        ErrorCode::InvalidRequest
    );
    let long = Narrowing { read_only: false, accounts: Some(vec!["a".repeat(1025)]) };
    assert_eq!(service.context("default", &long).unwrap_err().code, ErrorCode::InvalidRequest);
}

#[test]
fn contexts_of_another_service_are_refused() {
    let first = service();
    let other = Service::open(config(), identities(), 43).unwrap();
    let context = other.context("default", &Narrowing::default()).unwrap();
    assert_eq!(first.grant(&context).unwrap_err().code, ErrorCode::PermissionDenied);
    assert_eq!(first.limits(&context).unwrap_err().code, ErrorCode::PermissionDenied);
    assert_eq!(first.response_bound(&context).unwrap_err().code, ErrorCode::PermissionDenied);
    assert_eq!(health_of(&first, &context).unwrap_err().code, ErrorCode::PermissionDenied);
    let input = ListAccountsInput { limit: None };
    assert_eq!(first.list_accounts(&context, input).unwrap_err().code, ErrorCode::PermissionDenied);
    assert_eq!(first.capabilities(&context).unwrap_err().code, ErrorCode::PermissionDenied);
    assert_eq!(other.grant(&context).unwrap(), 0);
}

#[test]
fn accounts_are_listed_in_the_order_of_their_identities() {
    let service = service();
    let context = service.context("default", &Narrowing::default()).unwrap();
    let all = service.list_accounts(&context, ListAccountsInput { limit: None }).unwrap();
    assert!(all.complete);
    let ids: Vec<&str> = all.accounts.iter().map(|one| one.account_id.as_str()).collect();
    assert_eq!(ids, vec!["a", "c"]);
    assert_eq!(all.accounts[0].alias, "club");
    assert_eq!(all.accounts[0].generation, 3);
    assert_eq!(all.accounts[0].availability, Availability::Unknown);

    let one = service.list_accounts(&context, ListAccountsInput { limit: Some(1) }).unwrap();
    assert!(!one.complete);
    assert_eq!(one.accounts.len(), 1);
    for limit in [0, Limits::default().accounts + 1] {
        assert_eq!(
            service
                .list_accounts(&context, ListAccountsInput { limit: Some(limit) })
                .unwrap_err()
                .code,
            ErrorCode::InvalidRequest
        );
    }
    let tight = context.with_response_limit(700);
    assert_eq!(
        service.list_accounts(&tight, ListAccountsInput { limit: None }).unwrap_err().code,
        ErrorCode::ResponseTooLarge
    );
}

#[test]
fn health_tells_what_was_observed() {
    let mut service = service();
    let context = service.context("default", &Narrowing::default()).unwrap();
    assert_eq!(health_of(&service, &context).unwrap().status, "ready");
    service.observe("a", Some(ErrorCode::TlsFailed));
    let health = health_of(&service, &context).unwrap();
    assert_eq!(health.status, "degraded");
    assert_eq!(health.listener, "default");
    assert_eq!(health.accounts[0].availability, Availability::Unavailable);
    service.observe("c", Some(ErrorCode::ProviderUnavailable));
    assert_eq!(health_of(&service, &context).unwrap().status, "unavailable");
    service.observe("c", Some(ErrorCode::InvalidRequest));
    assert_eq!(service.availability("c"), Availability::Unavailable);
    service.observe("c", None);
    assert_eq!(service.availability("c"), Availability::Available);
    let tight = context.with_response_limit(512 + 256 + 320 - 1);
    assert_eq!(health_of(&service, &tight).unwrap_err().code, ErrorCode::ResponseTooLarge);
    let enough = service
        .context("default", &Narrowing::default())
        .unwrap()
        .with_response_limit(512 + 256 + 320);
    assert!(health_of(&service, &enough).is_ok());
}

#[test]
fn capabilities_name_the_operations_of_a_context() {
    let service = service();
    let context = service.context("writer", &Narrowing::default()).unwrap();
    assert_eq!(operations(&context), vec!["list_accounts", "capabilities", "health"]);
    let reader = service.context("default", &Narrowing::default()).unwrap();
    let found = service.capabilities(&reader).unwrap();
    assert_eq!(
        found.operations,
        vec![
            "list_accounts",
            "capabilities",
            "health",
            "list_mailboxes",
            "search_messages",
            "get_message",
            "list_attachments",
            "get_attachment",
        ]
    );
    assert_eq!(&found.permissions, reader.permissions());
    assert!(found.capacity.isolation.is_none());
    assert_eq!(
        found.capacity.per_process.active_requests,
        Limits::default().active_requests as u64
    );
}

#[test]
fn the_service_answers_what_needs_no_provider() {
    let service = service();
    let context = service.context("default", &Narrowing::default()).unwrap();
    assert!(matches!(
        service.dispatch(&context, &Operation::Health, None),
        Ok(Dispatch::Answer(OperationResult::Health(_)))
    ));
    assert!(matches!(
        service.dispatch(&context, &Operation::Capabilities, None),
        Ok(Dispatch::Answer(OperationResult::Capabilities(_)))
    ));
    assert!(matches!(
        service.dispatch(&context, &Operation::ListAccounts(ListAccountsInput { limit: None }), None),
        Ok(Dispatch::Answer(OperationResult::Accounts(_)))
    ));
    let mailboxes = Operation::ListMailboxes(ListMailboxesInput {
        account: None,
        limit: None,
        cursor: None,
        reference: None,
    });
    assert!(matches!(service.dispatch(&context, &mailboxes, None), Ok(Dispatch::Provider)));
    let stale = Error::incompatible_schema();
    assert_eq!(
        service.dispatch(&context, &Operation::Health, Some(stale)).unwrap_err().message,
        Error::incompatible_schema().message
    );
}

#[test]
fn answers_leave_room_for_their_envelope() {
    let context = service().context("default", &Narrowing::default()).unwrap();
    let context = context.with_response_limit(2000);
    assert!(Service::check_result(&context, 1488).is_ok());
    assert_eq!(
        Service::check_result(&context, 1489).unwrap_err().code,
        ErrorCode::ResponseTooLarge
    );
}

#[test]
fn responses_are_bounded_by_what_a_context_may_ask() {
    let service = service();
    let reader = service.context("default", &Narrowing::default()).unwrap();
    assert_eq!(service.response_bound(&reader).unwrap(), Limits::default().envelope_bytes);
    let writer = service.context("writer", &Narrowing::default()).unwrap();
    let alias = "\"work\"".len();
    let identities = "[\"someone@example.org\"]".len();
    assert_eq!(service.response_bound(&writer).unwrap(), 2048 + 512 + alias + identities);
    let tight = writer.with_response_limit(1500);
    assert_eq!(service.response_bound(&tight).unwrap(), 1500);
}

#[test]
fn envelopes_carry_a_result_or_an_error() {
    let good: Envelope<u32> = Envelope::from_result("r".to_string(), Ok(7));
    assert!(good.success && good.result == Some(7) && good.error.is_none());
    assert_eq!(good.schema_version, 1);
    assert_eq!(good.request_id, "r");
    let bad: Envelope<u32> =
        Envelope::from_result("r".to_string(), Err(Error::new(ErrorCode::Timeout)));
    assert!(!bad.success && bad.result.is_none());
    assert_eq!(bad.error.unwrap().code, ErrorCode::Timeout);
}

#[test]
fn errors_have_reviewed_texts_and_exit_codes() {
    let cases = [
        (ErrorCode::InvalidRequest, 2, false),
        (ErrorCode::ProtocolMismatch, 2, false),
        (ErrorCode::PermissionDenied, 3, false),
        (ErrorCode::AuthenticationFailed, 4, false),
        (ErrorCode::RateLimited, 5, true),
        (ErrorCode::Timeout, 5, true),
        (ErrorCode::BrokerUnavailable, 5, true),
        (ErrorCode::ProviderUnavailable, 5, true),
        (ErrorCode::StaleReference, 6, false),
        (ErrorCode::OutcomeUnknown, 7, false),
        (ErrorCode::ExportFailed, 8, false),
        (ErrorCode::Cancelled, 130, false),
    ];
    for (code, status, retryable) in cases {
        let error = Error::new(code);
        assert_eq!(error.exit_code(), status, "{code:?}");
        assert_eq!(error.retryable, retryable, "{code:?}");
    }
    assert_eq!(Error::new(ErrorCode::MailboxNotAllowed).text(), "Access denied");
    assert_eq!(Error::new(ErrorCode::Timeout).text(), "Request deadline exceeded");
    assert_eq!(Error::new(ErrorCode::InternalError).text(), "Operation could not be completed");
    assert_eq!(Error::draft_conflict().code, ErrorCode::OperationConflict);
}

#[test]
fn setups_count_accounts_and_grants() {
    let setup = Service::setup(&config(), "install".to_string(), "revision".to_string()).unwrap();
    assert_eq!(setup.installation_id, "install");
    assert_eq!(setup.configuration_revision, "revision");
    assert_eq!((setup.accounts, setup.grants), (3, 2));
    let mut broken = config();
    broken.default_grant = "nobody".to_string();
    let refused = Service::setup(&broken, "install".to_string(), "revision".to_string()).err();
    assert_eq!(refused.unwrap().code, ErrorCode::InvalidRequest);
}

#[test]
fn contexts_belong_to_one_service_and_only_lower_their_limit() {
    let context = service().context("default", &Narrowing::default()).unwrap();
    assert!(context.belongs_to(42));
    assert!(!context.belongs_to(43));
    assert_eq!(context.permissions(), &Profile::ReadOnly.permissions(false));
    assert!(context.holds(Permission::ReadMessage));
    assert!(!context.holds(Permission::AppendDraft));
    let context = context.with_response_limit(1000);
    let context = context.with_response_limit(2000);
    assert_eq!(context.response_limit(), 1000);
    let context = context.with_response_limit(10);
    assert_eq!(context.response_limit(), 10);
}

#[test]
fn answers_leave_room_for_their_frame() {
    let context = service().context("default", &Narrowing::default()).unwrap();
    let context = narrow_context(context.with_response_limit(5000), 2048);
    assert_eq!(context.response_limit(), 2048 - 256);
    assert_eq!(narrow_context(context, 100).response_limit(), 0);
}
