//! Configuration lookup and explicit operator initialization.
use vstd::prelude::*;

use super::arguments;
use crate::config::{
    are_unique_labels, is_identifier, is_label, is_safe_path, AccessGrant, AccountConfig, Config, CredentialSource, Limits, TlsMode, Topology,
    MAX_BYTES,
};
use crate::domain::{Error, ErrorCode};
use crate::file_storage::{is_private_file, private_file, FileFacts};
use crate::policy::Profile;
use crate::text::{byte_len, same, trim, trimmed, utf8_len};

verus! {

/// A configuration file is private to the user and of bounded size.
pub fn check_file(facts: Option<FileFacts>, uid: u32) -> (r: Result<(), Error>)
    ensures
        match r {
            Ok(()) => facts matches Some(facts) && is_private_file(facts, uid) && facts.length
                <= MAX_BYTES,
            Err(error) => error.asks_for_setup() && !(facts matches Some(facts) && is_private_file(
                facts,
                uid,
            ) && facts.length <= MAX_BYTES),
        },
{
    match facts {
        Some(facts) => if private_file(facts, uid) && facts.length <= MAX_BYTES as u64 {
            Ok(())
        } else {
            Err(Error::setup_required())
        },
        None => Err(Error::setup_required()),
    }
}

/// The text that was read is of bounded size: the file may have grown since it was examined.
pub fn check_text(text: &str) -> (r: Result<(), Error>)
    ensures
        match r {
            Ok(()) => utf8_len(text@) <= MAX_BYTES,
            Err(error) => error.asks_for_setup() && utf8_len(text@) > MAX_BYTES,
        },
{
    if byte_len(text) > MAX_BYTES {
        Err(Error::setup_required())
    } else {
        Ok(())
    }
}

/// What a user typed at a prompt.
pub fn prompt_answer(line: &str) -> (r: Result<String, Error>)
    ensures
        match r {
            Ok(answer) => utf8_len(line@) <= 1024 && answer@ == trimmed(line@) && answer@.len() > 0,
            Err(error) => error.reports(ErrorCode::InvalidRequest) && (utf8_len(line@) > 1024
                || trimmed(line@).len() == 0),
        },
{
    if byte_len(line) > 1024 {
        return Err(Error::new(ErrorCode::InvalidRequest));
    }
    let answer = trim(line);
    if answer.as_str().is_empty() {
        return Err(Error::new(ErrorCode::InvalidRequest));
    }
    Ok(answer)
}

/// How setup starts.
#[derive(Clone, Copy, Debug, PartialEq, Eq, Structural)]
pub enum Start {
    /// The arguments, or the existing configuration, say all there is to say.
    Proceed,
    /// Ask the user for an account.
    Ask,
}

/// A first setup without an account asks for one, where there is somebody to ask.
pub fn begin(present: bool, args: &arguments::Setup, json: bool, terminal: bool) -> (r: Result<
    Start,
    Error,
>)
    ensures
        if present || args.alias is Some {
            r == Ok::<Start, Error>(Start::Proceed)
        } else if json || !terminal {
            r matches Err(error) && error.asks_for_setup()
        } else {
            r == Ok::<Start, Error>(Start::Ask)
        },
{
    if present || args.alias.is_some() {
        return Ok(Start::Proceed);
    }
    if json || !terminal {
        return Err(Error::setup_required());
    }
    Ok(Start::Ask)
}

/// The configuration of a first setup: no accounts, and one read-only grant for the inbox.
pub fn initial(state_dir: String) -> (r: Config)
    ensures
        r.version == 1,
        r.topology == Topology::Native,
        r.state_dir == state_dir,
        r.default_grant@ == "default"@,
        r.limits == Limits::standard(),
        r.accounts@.len() == 0,
        r.grants@.len() == 1,
        r.grants@[0].name@ == "default"@,
        r.grants@[0].profile == Profile::ReadOnly,
        r.grants@[0].accounts@.len() == 0,
        r.grants@[0].mailboxes@.len() == 1,
        r.grants@[0].mailboxes@[0]@ == "INBOX"@,
        r.grants@[0].limits == Limits::standard(),
{
    let mut mailboxes: Vec<String> = Vec::new();
    mailboxes.push("INBOX".to_owned());
    let mut grants: Vec<AccessGrant> = Vec::new();
    grants.push(
        AccessGrant {
            name: "default".to_owned(),
            profile: Profile::ReadOnly,
            accounts: Vec::new(),
            mailboxes,
            limits: Limits::default(),
        },
    );
    Config {
        version: 1,
        topology: Topology::Native,
        state_dir,
        default_grant: "default".to_owned(),
        limits: Limits::default(),
        accounts: Vec::new(),
        grants,
    }
}

/// The configuration of a first setup is valid wherever its state directory is.
pub proof fn first_configurations_are_valid(config: Config)
    requires
        config.version == 1,
        is_safe_path(config.state_dir@),
        config.default_grant@ == "default"@,
        config.limits == Limits::standard(),
        config.accounts@.len() == 0,
        config.grants@.len() == 1,
        config.grants@[0].name@ == "default"@,
        config.grants@[0].profile == Profile::ReadOnly,
        config.grants@[0].accounts@.len() == 0,
        config.grants@[0].mailboxes@.len() == 1,
        config.grants@[0].mailboxes@[0]@ == "INBOX"@,
        config.grants@[0].limits == Limits::standard(),
    ensures
        config.valid(),
{
    reveal_strlit("default");
    reveal_strlit("INBOX");
    vstd::utf8::is_ascii_chars_encode_utf8("default"@);
    vstd::utf8::is_ascii_chars_encode_utf8("INBOX"@);
    let grant = config.grants@[0];
    crate::encoding::request_buffer_bound(config.limits.envelope_bytes as nat);
    assert(is_label("INBOX"@));
    assert(are_unique_labels(grant.mailboxes@, 1000));
    assert(is_identifier("default"@));
    assert(grant.valid(config.limits, config.accounts@));
}

/// The first account with this alias, from `i` on.
pub open spec fn account_named(accounts: Seq<AccountConfig>, alias: Seq<char>, i: int) -> Option<int>
    decreases accounts.len() - i,
{
    if !(0 <= i < accounts.len()) {
        None
    } else if accounts[i].alias@ == alias {
        Some(i)
    } else {
        account_named(accounts, alias, i + 1)
    }
}

fn find_account(accounts: &Vec<AccountConfig>, alias: &str) -> (r: Option<usize>)
    ensures
        match r {
            Some(i) => account_named(accounts@, alias@, 0) == Some(i as int) && i < accounts@.len(),
            None => account_named(accounts@, alias@, 0) is None,
        },
{
    let mut i: usize = 0;
    while i < accounts.len()
        invariant
            i <= accounts@.len(),
            account_named(accounts@, alias@, i as int) == account_named(accounts@, alias@, 0),
        decreases accounts@.len() - i,
    {
        if same(accounts[i].alias.as_str(), alias) {
            return Some(i);
        }
        i = i + 1;
    }
    None
}

/// The alias of the account that setup is about: the selected one, or the one that is to be.
pub open spec fn target_of(args: arguments::Setup, selected: Seq<String>) -> Seq<char> {
    if selected.len() > 0 {
        selected[0]@
    } else {
        args.alias->0@
    }
}

/// Why setup refuses its arguments, if it does.
pub enum Refusal {
    Code(ErrorCode),
    Setup,
}

pub open spec fn refusal(config: Config, args: arguments::Setup, selected: Seq<String>) -> Option<
    Refusal,
> {
    if selected.len() > 1 {
        Some(Refusal::Code(ErrorCode::InvalidRequest))
    } else if args.alias is None {
        if selected.len() > 0 {
            Some(Refusal::Code(ErrorCode::InvalidRequest))
        } else {
            None
        }
    } else if account_named(config.accounts@, target_of(args, selected), 0) is Some {
        None
    } else if selected.len() > 0 {
        Some(Refusal::Code(ErrorCode::AccountNotAllowed))
    } else if args.server is None || args.username is None || crate::service::first_grant(
        config.grants@,
        config.default_grant@,
        0,
    ) is None {
        Some(Refusal::Setup)
    } else {
        None
    }
}

/// An account after an update: what the arguments state is new, and the rest is kept.
pub open spec fn is_updated(before: AccountConfig, after: AccountConfig, args: arguments::Setup) -> bool {
    after == (AccountConfig {
        alias: args.alias->0,
        server: match args.server {
            Some(server) => server,
            None => before.server,
        },
        username: match args.username {
            Some(username) => username,
            None => before.username,
        },
        ..before
    })
}

/// A new account: implicit TLS on the usual port, the inbox, and the native credential store.
pub open spec fn is_new(account: AccountConfig, args: arguments::Setup, key: Seq<char>) -> bool {
    &&& account.key@ == key
    &&& account.alias@ == args.alias->0@
    &&& account.server == args.server->0
    &&& account.username == args.username->0
    &&& account.port == 993
    &&& account.tls == TlsMode::Implicit
    &&& account.mailboxes@.len() == 1 && account.mailboxes@[0]@ == "INBOX"@
    &&& account.from_identities@.len() == 1 && account.from_identities@[0]@ == args.alias->0@
    &&& account.drafts_mailbox is None
    &&& account.credential is Native
    &&& !account.retain_history
}

/// The grant that a new account joins, before and after.
pub open spec fn is_joined(before: AccessGrant, after: AccessGrant, key: Seq<char>) -> bool {
    &&& after == (AccessGrant { accounts: after.accounts, ..before })
    &&& after.accounts@.len() == before.accounts@.len() + 1
    &&& forall|i: int| 0 <= i < before.accounts@.len() ==> after.accounts@[i] == before.accounts@[i]
    &&& after.accounts@.last()@ == key
}

/// The configuration after setup: at most one account is updated or added, and no other is touched.
pub open spec fn is_edited(
    before: Config,
    after: Config,
    args: arguments::Setup,
    selected: Seq<String>,
    key: Seq<char>,
) -> bool {
    &&& after == (Config { accounts: after.accounts, grants: after.grants, ..before })
    &&& if args.alias is None {
        after.accounts@ == before.accounts@ && after.grants@ == before.grants@
    } else {
        match account_named(before.accounts@, target_of(args, selected), 0) {
            Some(at) => {
                &&& after.grants@ == before.grants@
                &&& is_updated(before.accounts@[at], after.accounts@[at], args)
                &&& after.accounts@ == before.accounts@.update(at, after.accounts@[at])
            },
            None => {
                let at = crate::service::first_grant(before.grants@, before.default_grant@, 0)->0;
                &&& after.accounts@.len() == before.accounts@.len() + 1
                &&& after.accounts@.drop_last() == before.accounts@
                &&& is_new(after.accounts@.last(), args, key)
                &&& is_joined(before.grants@[at], after.grants@[at], key)
                &&& after.grants@ == before.grants@.update(at, after.grants@[at])
            },
        }
    }
}

fn find_grant(config: &Config) -> (r: Option<usize>)
    ensures
        match r {
            Some(i) => crate::service::first_grant(config.grants@, config.default_grant@, 0) == Some(
                i as int,
            ) && i < config.grants@.len(),
            None => crate::service::first_grant(config.grants@, config.default_grant@, 0) is None,
        },
{
    let mut i: usize = 0;
    while i < config.grants.len()
        invariant
            i <= config.grants@.len(),
            crate::service::first_grant(config.grants@, config.default_grant@, i as int)
                == crate::service::first_grant(config.grants@, config.default_grant@, 0),
        decreases config.grants@.len() - i,
    {
        if same(config.grants[i].name.as_str(), config.default_grant.as_str()) {
            return Some(i);
        }
        i = i + 1;
    }
    None
}

fn update_account(config: Config, at: usize, args: arguments::Setup, alias: String) -> (r: Config)
    requires
        at < config.accounts@.len(),
        args.alias == Some(alias),
    ensures
        r == (Config { accounts: r.accounts, ..config }),
        is_updated(config.accounts@[at as int], r.accounts@[at as int], args),
        r.accounts@ == config.accounts@.update(at as int, r.accounts@[at as int]),
{
    let mut accounts = config.accounts;
    let ghost before = accounts@;
    let account = accounts.remove(at);
    let ghost old_account = account;
    let mut account = account;
    account.alias = alias;
    if let Some(server) = args.server {
        account.server = server;
    }
    if let Some(username) = args.username {
        account.username = username;
    }
    accounts.insert(at, account);
    assert(accounts@ =~= before.update(at as int, accounts@[at as int]));
    Config { accounts, ..config }
}

fn add_account(config: Config, at: usize, alias: String, server: String, username: String, key: String) -> (r:
    Config)
    requires
        at < config.grants@.len(),
    ensures
        r == (Config { accounts: r.accounts, grants: r.grants, ..config }),
        r.accounts@.len() == config.accounts@.len() + 1,
        r.accounts@.drop_last() == config.accounts@,
        is_new(
            r.accounts@.last(),
            (arguments::Setup { alias: Some(alias), server: Some(server), username: Some(username) }),
            key@,
        ),
        is_joined(config.grants@[at as int], r.grants@[at as int], key@),
        r.grants@ == config.grants@.update(at as int, r.grants@[at as int]),
{
    let mut mailboxes: Vec<String> = Vec::new();
    mailboxes.push("INBOX".to_owned());
    let mut from_identities: Vec<String> = Vec::new();
    from_identities.push(alias.clone());
    let mut accounts = config.accounts;
    let ghost before = accounts@;
    accounts.push(
        AccountConfig {
            key: key.clone(),
            alias,
            server,
            port: 993,
            tls: TlsMode::Implicit,
            username,
            mailboxes,
            from_identities,
            drafts_mailbox: None,
            credential: CredentialSource::Native {  },
            retain_history: false,
        },
    );
    assert(accounts@.drop_last() =~= before);
    let mut grants = config.grants;
    let ghost earlier = grants@;
    let grant = grants.remove(at);
    let mut grant = grant;
    grant.accounts.push(key);
    grants.insert(at, grant);
    assert(grants@ =~= earlier.update(at as int, grants@[at as int]));
    Config { accounts, grants, ..config }
}

/// The configuration that setup would write. `key` names a new account, if there is one.
pub fn edit(config: Config, args: arguments::Setup, selected: &Vec<String>, key: String) -> (r: Result<
    Config,
    Error,
>)
    ensures
        match refusal(config, args, selected@) {
            Some(Refusal::Code(code)) => r matches Err(error) && error.reports(code),
            Some(Refusal::Setup) => r matches Err(error) && error.asks_for_setup(),
            None => r matches Ok(edited) && is_edited(config, edited, args, selected@, key@),
        },
{
    if selected.len() > 1 {
        return Err(Error::new(ErrorCode::InvalidRequest));
    }
    let alias = match &args.alias {
        Some(alias) => alias.clone(),
        None => {
            if selected.len() > 0 {
                return Err(Error::new(ErrorCode::InvalidRequest));
            }
            return Ok(config);
        },
    };
    let target = if selected.len() > 0 {
        selected[0].clone()
    } else {
        alias.clone()
    };
    match find_account(&config.accounts, target.as_str()) {
        Some(at) => Ok(update_account(config, at, args, alias)),
        None => {
            if selected.len() > 0 {
                return Err(Error::new(ErrorCode::AccountNotAllowed));
            }
            match (args.server, args.username) {
                (Some(server), Some(username)) => match find_grant(&config) {
                    Some(at) => Ok(add_account(config, at, alias, server, username, key)),
                    None => Err(Error::setup_required()),
                },
                _ => Err(Error::setup_required()),
            }
        },
    }
}

/// Whether setup writes a configuration: a new one, or one that it has edited.
pub fn writes(existed: bool, edited: bool) -> (r: bool)
    ensures
        r == (edited || !existed),
{
    edited || !existed
}

/// Refuses to write over a configuration that has changed since it was read.
pub fn confirm_unchanged(before: &Option<String>, now: &Option<String>) -> (r: Result<(), Error>)
    ensures
        match r {
            Ok(()) => match (*before, *now) {
                (Some(before), Some(now)) => before@ == now@,
                (None, None) => true,
                _ => false,
            },
            Err(error) => error.reports(ErrorCode::OperationConflict) && !(match (*before, *now) {
                (Some(before), Some(now)) => before@ == now@,
                (None, None) => true,
                _ => false,
            }),
        },
{
    let unchanged = match (before, now) {
        (Some(before), Some(now)) => same(before.as_str(), now.as_str()),
        (None, None) => true,
        _ => false,
    };
    if unchanged {
        Ok(())
    } else {
        Err(Error::new(ErrorCode::OperationConflict))
    }
}

/// Setup never replaces or removes an account other than the one that it is about.
pub proof fn other_accounts_are_kept(
    before: Config,
    after: Config,
    args: arguments::Setup,
    selected: Seq<String>,
    key: Seq<char>,
    i: int,
)
    requires
        is_edited(before, after, args, selected, key),
        0 <= i < before.accounts@.len(),
        args.alias is Some ==> before.accounts@[i].alias@ != target_of(args, selected),
    ensures
        after.accounts@.len() >= before.accounts@.len(),
        after.accounts@[i] == before.accounts@[i],
{
    if args.alias is Some {
        match account_named(before.accounts@, target_of(args, selected), 0) {
            Some(at) => {
                found_by_name(before.accounts@, target_of(args, selected), 0);
            },
            None => {
                assert(after.accounts@.drop_last()[i] == before.accounts@[i]);
            },
        }
    }
}

proof fn found_by_name(accounts: Seq<AccountConfig>, alias: Seq<char>, i: int)
    requires
        0 <= i,
    ensures
        account_named(accounts, alias, i) matches Some(at) ==> i <= at < accounts.len()
            && accounts[at].alias@ == alias,
    decreases accounts.len() - i,
{
    if i < accounts.len() && accounts[i].alias@ != alias {
        found_by_name(accounts, alias, i + 1);
    }
}

/// An account is found by its alias, the first of that name, and not found only where none has it.
pub proof fn the_first_account_of_a_name_is_found(accounts: Seq<AccountConfig>, alias: Seq<char>, i: int)
    requires
        0 <= i,
    ensures
        match account_named(accounts, alias, i) {
            Some(at) => i <= at < accounts.len() && accounts[at].alias@ == alias && forall|k: int|
                i <= k < at ==> (#[trigger] accounts[k]).alias@ != alias,
            None => forall|k: int| i <= k < accounts.len() ==> (#[trigger] accounts[k]).alias@ != alias,
        },
    decreases accounts.len() - i,
{
    if i < accounts.len() && accounts[i].alias@ != alias {
        the_first_account_of_a_name_is_found(accounts, alias, i + 1);
    }
}

/// Editing an account changes what was given and nothing else.
pub proof fn edits_change_what_was_given(before: AccountConfig, after: AccountConfig, args: arguments::Setup)
    requires
        args.alias is Some,
        is_updated(before, after, args),
    ensures
        after.alias == args.alias->0,
        args.server is None ==> after.server == before.server,
        args.server matches Some(server) ==> after.server == server,
        args.username is None ==> after.username == before.username,
        args.username matches Some(username) ==> after.username == username,
        after.key == before.key && after.port == before.port && after.tls == before.tls && after.mailboxes
            == before.mailboxes && after.from_identities == before.from_identities && after.drafts_mailbox
            == before.drafts_mailbox && after.credential == before.credential,
{
}

/// A new account starts on the standard port under TLS, with its inbox alone, without drafts, and with the
/// native store.
pub proof fn new_accounts_start_small(account: AccountConfig, args: arguments::Setup, key: Seq<char>)
    requires
        args.alias is Some && args.server is Some && args.username is Some,
        is_new(account, args, key),
    ensures
        account.key@ == key && account.alias@ == args.alias->0@,
        account.server == args.server->0 && account.username == args.username->0,
        account.port == 993 && account.tls is Implicit && account.credential is Native,
        account.mailboxes@.len() == 1 && account.mailboxes@[0]@ == "INBOX"@,
        account.drafts_mailbox is None,
{
}

/// A set-up without an alias edits nothing and is refused only where it names accounts; one account at
/// most can be edited, it has to be there where it is selected, and a new one needs a server and a user.
pub proof fn set_ups_are_refused_for_cause(config: Config, args: arguments::Setup, selected: Seq<String>)
    ensures
        selected.len() > 1 ==> refusal(config, args, selected) == Some(Refusal::Code(ErrorCode::InvalidRequest)),
        args.alias is None ==> (refusal(config, args, selected) is None <==> selected.len() == 0),
        args.alias is Some && selected.len() == 1 ==> (refusal(config, args, selected) is None <==> exists|i: int|
            0 <= i < config.accounts@.len() && (#[trigger] config.accounts@[i]).alias@ == selected[0]@),
        args.alias is Some && selected.len() == 1 && refusal(config, args, selected) is Some ==> refusal(
            config,
            args,
            selected,
        ) == Some(Refusal::Code(ErrorCode::AccountNotAllowed)),
        args.alias is Some && selected.len() == 0 && (args.server is None || args.username is None) && (forall|i: int|
            0 <= i < config.accounts@.len() ==> (#[trigger] config.accounts@[i]).alias@ != args.alias->0@) ==> refusal(
            config,
            args,
            selected,
        ) == Some(Refusal::Setup),
{
    the_first_account_of_a_name_is_found(config.accounts@, target_of(args, selected), 0);
}

/// A configuration is written only over what was read: whatever changed, appeared or vanished since stops
/// it.
pub proof fn changed_configurations_are_kept(before: Option<String>, now: Option<String>, r: Result<(), Error>)
    requires
        call_ensures(confirm_unchanged, (&before, &now), r),
    ensures
        before is None && now is None ==> r is Ok,
        before is Some != now is Some ==> r is Err,
        (before matches Some(was) && now matches Some(is_now) && was@ == is_now@) ==> r is Ok,
        (before matches Some(was) && now matches Some(is_now) && was@ != is_now@) ==> (r matches Err(error) && error.code
            is OperationConflict),
{
}

} // verus!
