//! Configuration rules and limits.
use mailctl::config::{
    contains_obsolete, default_grant, default_port, identifier, label, obsolete_key,
    obsolete_runtime_capacity, safe_path, server_name, unique_labels, AccountConfig, Config, CredentialSource,
    LimitOverrides, Limits, RawConfig, RawGrant, TlsMode, Topology, MAX_BYTES,
};
use mailctl::domain::ErrorCode;
use mailctl::policy::Profile;

fn account(key: &str, alias: &str) -> AccountConfig {
    AccountConfig {
        key: key.to_string(),
        alias: alias.to_string(),
        server: "imap.example.org".to_string(),
        port: 993,
        tls: TlsMode::Implicit,
        username: "someone".to_string(),
        mailboxes: vec!["INBOX".to_string(), "Drafts".to_string()],
        from_identities: vec!["someone@example.org".to_string()],
        drafts_mailbox: Some("Drafts".to_string()),
        credential: CredentialSource::Native {},
        retain_history: false,
    }
}

fn grant(name: &str, profile: Profile, mailboxes: &[&str]) -> RawGrant {
    RawGrant {
        name: name.to_string(),
        profile,
        accounts: vec!["first".to_string()],
        mailboxes: mailboxes.iter().map(|name| name.to_string()).collect(),
        limits: LimitOverrides::default(),
    }
}

fn raw() -> RawConfig {
    RawConfig {
        version: 1,
        default_grant: "default".to_string(),
        topology: Topology::Native,
        state_dir: "/var/lib/mailctl".to_string(),
        limits: Limits::default(),
        accounts: vec![account("first", "work"), account("second", "home")],
        grants: vec![
            grant("default", Profile::ReadOnly, &["INBOX"]),
            grant("writer", Profile::ReadAndDrafts, &["INBOX", "Drafts"]),
        ],
    }
}

#[test]
fn paths_must_be_absolute_and_must_not_climb() {
    assert!(safe_path("/etc/mailctl/a..b"));
    assert!(!safe_path("etc"));
    assert!(!safe_path(""));
    assert!(!safe_path("/etc/../root"));
    assert!(!safe_path("/etc/.."));
    assert!(!safe_path("/etc/\0"));
}

#[test]
fn names_have_their_alphabets_and_lengths() {
    assert!(identifier("a-Z_0.9"));
    assert!(!identifier("a b"));
    assert!(!identifier(""));
    assert!(identifier(&"a".repeat(128)));
    assert!(!identifier(&"a".repeat(129)));
    assert!(label("Caf\u{e9} account"));
    assert!(!label("bell\u{7}"));
    assert!(!label(&"a".repeat(1025)));
    assert!(server_name("imap.example.org:993"));
    assert!(!server_name("imap_example"));
    assert!(!server_name(&"a".repeat(254)));
    let two = vec!["a".to_string(), "b".to_string()];
    assert!(unique_labels(&two, 2));
    assert!(!unique_labels(&two, 1));
    assert!(!unique_labels(&vec!["a".to_string(), "a".to_string()], 2));
    assert!(!unique_labels(&Vec::new(), 2));
}

#[test]
fn defaults_are_what_a_short_configuration_means() {
    assert_eq!(default_port(), 993);
    assert_eq!(default_grant(), "default");
    assert_eq!(Topology::default(), Topology::Native);
    assert_eq!(TlsMode::default(), TlsMode::Implicit);
    assert_eq!(Profile::default(), Profile::ReadOnly);
}

#[test]
fn credential_sources_name_safe_programs() {
    assert!(CredentialSource::Native {}.is_valid());
    assert!(CredentialSource::Session {}.is_valid());
    assert!(CredentialSource::Systemd { path: "/run/secret".to_string() }.is_valid());
    assert!(!CredentialSource::Systemd { path: "secret".to_string() }.is_valid());
    let command = |args: Vec<String>| CredentialSource::Command {
        executable: "/usr/bin/pass".to_string(),
        args,
        working_dir: "/".to_string(),
    };
    assert!(command(vec!["show".to_string(); 64]).is_valid());
    assert!(!command(vec!["show".to_string(); 65]).is_valid());
    assert!(!command(vec!["a\0".to_string()]).is_valid());
    assert!(!command(vec!["a".repeat(4097)]).is_valid());
}

#[test]
fn a_complete_configuration_resolves() {
    let config = Config::resolve(raw()).unwrap();
    config.validate().unwrap();
    assert_eq!(config.grants.len(), 2);
    assert_eq!(config.grants[1].name, "writer");
    assert_eq!(config.grants[1].limits, Limits::default());
}

#[test]
fn grants_lower_limits_and_never_raise_them() {
    let mut lowered = raw();
    lowered.grants[0].limits.search_page = Some(1);
    let config = Config::resolve(lowered).unwrap();
    assert_eq!(config.grants[0].limits.search_page, 1);
    assert_eq!(config.limits.search_page, Limits::default().search_page);
    assert!(config.grants[0].limits.fits_within(&config.limits));

    let mut raised = raw();
    raised.grants[0].limits.search_page = Some(Limits::default().search_page + 1);
    assert!(Config::resolve(raised).is_err());

    let mut zero = raw();
    zero.grants[0].limits.search_page = Some(0);
    assert!(Config::resolve(zero).is_err());
}

#[test]
fn incomplete_configurations_ask_for_setup() {
    let broken: Vec<fn(&mut RawConfig)> = vec![
        |config| config.version = 2,
        |config| config.state_dir = "relative".to_string(),
        |config| config.grants.clear(),
        |config| config.default_grant = "missing".to_string(),
        |config| config.default_grant = "writer".to_string(),
        |config| config.default_grant = "not an identifier".to_string(),
        |config| config.accounts[1].key = "first".to_string(),
        |config| config.accounts[1].alias = "work".to_string(),
        |config| config.accounts[0].port = 0,
        |config| config.accounts[0].drafts_mailbox = Some("Elsewhere".to_string()),
        |config| config.accounts[0].mailboxes.clear(),
        |config| config.accounts[0].from_identities.clear(),
        |config| config.grants[1].name = "default".to_string(),
        |config| config.grants[0].accounts[0] = "unknown".to_string(),
        |config| config.grants[1].mailboxes.truncate(1),
        |config| config.accounts[0].drafts_mailbox = None,
        |config| config.limits.accounts = 1,
        |config| config.limits.envelope_bytes = 0,
    ];
    for (index, change) in broken.into_iter().enumerate() {
        let mut config = raw();
        change(&mut config);
        let error = Config::resolve(config).unwrap_err();
        assert_eq!(error.exit_code(), mailctl::domain::Error::setup_required().exit_code());
        assert_eq!(error.message, mailctl::domain::Error::setup_required().message, "{index}");
    }
}

#[test]
fn texts_in_the_retired_layout_are_named() {
    assert!(obsolete_runtime_capacity("[limits]\nruntime_slots = 4\n"));
    assert!(obsolete_runtime_capacity("[[grants]]\nname = 'a'\n[grants.limits]\nshared_permit = 1\n"));
    assert!(!obsolete_runtime_capacity("[limits]\nsearch_page = 4\n"));
    assert!(!obsolete_runtime_capacity("note = 'runtime_slots'\n"));
    assert!(!obsolete_runtime_capacity("runtime_slots = ["));
    assert!(obsolete_runtime_capacity("a = [[1, 2], [{ b = 1 }, { c = { shared_permits = 2 } }]]\n"));
    assert!(!obsolete_runtime_capacity("a = [[1, 2], ['runtimes'], [{ b = 1 }]]\n"));
    assert!(obsolete_key("runtime_slot"));
    assert!(!obsolete_key("runtime"));
    let nested = toml::from_str::<toml::Value>("[a.b]\nruntimes = 1\n").unwrap();
    assert!(contains_obsolete(&nested));
    assert!(!contains_obsolete(&toml::Value::String("runtimes".to_string())));
    assert!(!contains_obsolete(&toml::Value::Array(vec![])));
}

#[test]
fn the_order_of_accounts_and_grants_does_not_matter() {
    let mut config = Config::resolve(raw()).unwrap();
    assert!(config.accounts.len() > 1 && config.grants.len() > 1);
    assert!(config.validate().is_ok());
    config.accounts.reverse();
    assert!(config.validate().is_ok());
    config.grants.reverse();
    assert!(config.validate().is_ok());
    config.accounts[0].alias = config.accounts[1].alias.clone();
    assert!(config.validate().is_err());
    config.accounts.reverse();
    assert!(config.validate().is_err());
}

#[test]
fn texts_are_read_within_their_size() {
    let error = Config::parse("runtimes = 1", None).unwrap_err();
    assert_eq!(error.message, mailctl::domain::Error::obsolete_runtime_capacity().message);
    let error = Config::parse("version = 1", None).unwrap_err();
    assert_eq!(error.message, mailctl::domain::Error::setup_required().message);
    assert!(Config::parse("version = 1", Some(raw())).is_ok());
    let long = "#".repeat(MAX_BYTES + 1);
    assert!(Config::parse(&long, Some(raw())).is_err());
    let longest = "#".repeat(MAX_BYTES);
    assert!(Config::parse(&longest, Some(raw())).is_ok());
}

#[test]
fn limits_have_ceilings_and_relations() {
    Limits::default().validate().unwrap();
    let tight: Vec<fn(&mut Limits)> = vec![
        |limits| limits.envelope_bytes = 1023,
        |limits| limits.search_page = 0,
        |limits| limits.connection_seconds = limits.operation_seconds + 1,
        |limits| limits.initialization_seconds = limits.operation_seconds + 1,
        |limits| limits.mailbox_page = limits.mailbox_inventory + 1,
        |limits| limits.accounts = 257,
        |limits| limits.doctor_checks_per_minute = 13,
        |limits| limits.buffered_bytes = limits.envelope_bytes,
    ];
    for change in tight {
        let mut limits = Limits::default();
        change(&mut limits);
        assert_eq!(limits.validate().unwrap_err().code, ErrorCode::InvalidRequest);
    }
}

#[test]
fn overrides_apply_on_their_own() {
    let overrides = LimitOverrides { accounts: Some(3), ..LimitOverrides::default() };
    let limits = overrides.resolve(&Limits::default()).unwrap();
    assert_eq!(limits.accounts, 3);
    assert_eq!(limits.grants, Limits::default().grants);
}
