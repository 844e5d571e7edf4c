//! Versioned operator configuration. Parsing validates authority and resource ceilings.
use vstd::prelude::*;

use crate::domain::Error;
use crate::policy::{profiles_grant_by_kind, Permission, Profile};
use crate::text::{
    are_distinct, byte_len, chars_of, distinct, holds_char, is_control, is_listed, listed, same,
    utf8_len,
};

pub mod limits;

pub use limits::{LimitOverrides, Limits};

verus! {

/// The longest configuration text that is read.
pub const MAX_BYTES: usize = 4194304;

#[derive(Clone, Copy, Debug, PartialEq, Eq, Structural)]
pub enum Topology {
    Native,
    LinuxNativeWsl,
    WindowsHostedWsl,
}

impl Default for Topology {
    fn default() -> (r: Self)
        ensures
            r == Topology::Native,
    {
        Topology::Native
    }
}

#[derive(Clone, Copy, Debug, PartialEq, Eq, Structural)]
pub enum TlsMode {
    Implicit,
    Starttls,
}

impl Default for TlsMode {
    fn default() -> (r: Self)
        ensures
            r == TlsMode::Implicit,
    {
        TlsMode::Implicit
    }
}

#[derive(Debug, PartialEq, Eq)]
pub enum CredentialSource {
    Native {  },
    Systemd { path: String },
    Command { executable: String, args: Vec<String>, working_dir: String },
    Session {  },
}

#[derive(Debug)]
pub struct AccountConfig {
    pub key: String,
    pub alias: String,
    pub server: String,
    pub port: u16,
    pub tls: TlsMode,
    pub username: String,
    pub mailboxes: Vec<String>,
    pub from_identities: Vec<String>,
    pub drafts_mailbox: Option<String>,
    pub credential: CredentialSource,
    pub retain_history: bool,
}

/// The port of IMAP over TLS, used where the operator states none.
pub fn default_port() -> (r: u16)
    ensures
        r == 993,
{
    993
}

/// The grant used where the operator names none.
pub fn default_grant() -> (r: String)
    ensures
        r@ == "default"@,
{
    "default".to_owned()
}

#[derive(Debug)]
pub struct AccessGrant {
    pub name: String,
    pub profile: Profile,
    pub accounts: Vec<String>,
    pub mailboxes: Vec<String>,
    pub limits: Limits,
}

/// A grant as the operator wrote it.
#[derive(Debug)]
pub struct RawGrant {
    pub name: String,
    pub profile: Profile,
    pub accounts: Vec<String>,
    pub mailboxes: Vec<String>,
    pub limits: LimitOverrides,
}

#[derive(Debug)]
pub struct Config {
    pub version: u32,
    pub default_grant: String,
    pub topology: Topology,
    pub state_dir: String,
    pub limits: Limits,
    pub accounts: Vec<AccountConfig>,
    pub grants: Vec<AccessGrant>,
}

/// A configuration as the operator wrote it.
#[derive(Debug)]
pub struct RawConfig {
    pub version: u32,
    pub default_grant: String,
    pub topology: Topology,
    pub state_dir: String,
    pub limits: Limits,
    pub accounts: Vec<AccountConfig>,
    pub grants: Vec<RawGrant>,
}

/// The component of an absolute path that starts at `i` names the parent directory.
pub open spec fn parent_at(path: Seq<char>, i: int) -> bool {
    &&& 0 <= i && i + 2 <= path.len()
    &&& path[i] == '.' && path[i + 1] == '.'
    &&& i == 0 || path[i - 1] == '/'
    &&& i + 2 == path.len() || path[i + 2] == '/'
}

/// An absolute path that never climbs and can be handed to the system.
pub open spec fn is_safe_path(path: Seq<char>) -> bool {
    &&& path.len() > 0 && path[0] == '/'
    &&& forall|i: int| !#[trigger] parent_at(path, i)
    &&& !path.contains('\0')
}

pub fn safe_path(path: &str) -> (r: bool)
    ensures
        r == is_safe_path(path@),
{
    let chars = chars_of(path);
    if chars.len() == 0 || chars[0] != '/' {
        return false;
    }
    let mut i: usize = 0;
    while i < chars.len()
        invariant
            chars@ == path@,
            i <= chars@.len(),
            forall|j: int| j < i ==> !#[trigger] parent_at(path@, j),
            forall|j: int| 0 <= j < i ==> path@[j] != '\0',
        decreases chars@.len() - i,
    {
        if chars[i] == '\0' {
            assert(path@.contains('\0'));
            return false;
        }
        if chars.len() - i >= 2 && chars[i] == '.' && chars[i + 1] == '.' && (i == 0 || chars[i - 1]
            == '/') && (chars.len() - i == 2 || chars[i + 2] == '/') {
            assert(parent_at(path@, i as int));
            return false;
        }
        i = i + 1;
    }
    true
}

pub open spec fn identifier_char(c: char) -> bool {
    ||| '0' <= c <= '9'
    ||| 'A' <= c <= 'Z'
    ||| 'a' <= c <= 'z'
    ||| c == '_'
    ||| c == '-'
    ||| c == '.'
}

/// A short name made of letters, digits, `_`, `-` and `.`.
pub open spec fn is_identifier(value: Seq<char>) -> bool {
    &&& 0 < value.len()
    &&& utf8_len(value) <= 128
    &&& forall|i: int| 0 <= i < value.len() ==> identifier_char(#[trigger] value[i])
}

pub fn identifier(value: &str) -> (r: bool)
    ensures
        r == is_identifier(value@),
{
    let chars = chars_of(value);
    if chars.len() == 0 || byte_len(value) > 128 {
        return false;
    }
    for i in 0..chars.len()
        invariant
            chars@ == value@,
            forall|j: int| 0 <= j < i ==> identifier_char(#[trigger] value@[j]),
    {
        let c = chars[i];
        if !(('0' <= c && c <= '9') || ('A' <= c && c <= 'Z') || ('a' <= c && c <= 'z') || c == '_'
            || c == '-' || c == '.') {
            assert(!identifier_char(value@[i as int]));
            return false;
        }
    }
    true
}

/// A visible name: not empty, at most 1024 bytes, and free of control characters.
pub open spec fn is_label(value: Seq<char>) -> bool {
    &&& 0 < value.len()
    &&& utf8_len(value) <= 1024
    &&& forall|i: int| 0 <= i < value.len() ==> !is_control(#[trigger] value[i])
}

pub fn label(value: &str) -> (r: bool)
    ensures
        r == is_label(value@),
{
    let chars = chars_of(value);
    if chars.len() == 0 || byte_len(value) > 1024 {
        return false;
    }
    for i in 0..chars.len()
        invariant
            chars@ == value@,
            forall|j: int| 0 <= j < i ==> !is_control(#[trigger] value@[j]),
    {
        if crate::text::control(chars[i]) {
            assert(is_control(value@[i as int]));
            return false;
        }
    }
    true
}

/// Between one and `max` labels without repetition.
pub open spec fn are_unique_labels(values: Seq<String>, max: nat) -> bool {
    &&& 0 < values.len() <= max
    &&& forall|i: int| 0 <= i < values.len() ==> is_label((#[trigger] values[i])@)
    &&& distinct(values)
}

pub fn unique_labels(values: &Vec<String>, max: usize) -> (r: bool)
    ensures
        r == are_unique_labels(values@, max as nat),
{
    if values.len() == 0 || values.len() > max {
        return false;
    }
    for i in 0..values.len()
        invariant
            forall|j: int| 0 <= j < i ==> is_label((#[trigger] values@[j])@),
    {
        if !label(values[i].as_str()) {
            assert(!is_label(values@[i as int]@));
            return false;
        }
    }
    are_distinct(values)
}

pub open spec fn server_char(c: char) -> bool {
    ||| '0' <= c <= '9'
    ||| 'A' <= c <= 'Z'
    ||| 'a' <= c <= 'z'
    ||| c == '.'
    ||| c == '-'
    ||| c == ':'
}

/// A host name or address of at most 253 bytes.
pub open spec fn is_server_name(value: Seq<char>) -> bool {
    &&& 0 < value.len()
    &&& utf8_len(value) <= 253
    &&& forall|i: int| 0 <= i < value.len() ==> server_char(#[trigger] value[i])
}

pub fn server_name(value: &str) -> (r: bool)
    ensures
        r == is_server_name(value@),
{
    let chars = chars_of(value);
    if chars.len() == 0 || byte_len(value) > 253 {
        return false;
    }
    for i in 0..chars.len()
        invariant
            chars@ == value@,
            forall|j: int| 0 <= j < i ==> server_char(#[trigger] value@[j]),
    {
        let c = chars[i];
        if !(('0' <= c && c <= '9') || ('A' <= c && c <= 'Z') || ('a' <= c && c <= 'z') || c == '.'
            || c == '-' || c == ':') {
            assert(!server_char(value@[i as int]));
            return false;
        }
    }
    true
}

/// An argument that can be handed to another program.
pub open spec fn is_safe_argument(value: Seq<char>) -> bool {
    utf8_len(value) <= 4096 && !value.contains('\0')
}

fn safe_arguments(args: &Vec<String>) -> (r: bool)
    ensures
        r == forall|i: int| 0 <= i < args@.len() ==> is_safe_argument((#[trigger] args@[i])@),
{
    for i in 0..args.len()
        invariant
            forall|j: int| 0 <= j < i ==> is_safe_argument((#[trigger] args@[j])@),
    {
        if byte_len(args[i].as_str()) > 4096 || holds_char(args[i].as_str(), '\0') {
            assert(!is_safe_argument(args@[i as int]@));
            return false;
        }
    }
    true
}

impl CredentialSource {
    /// The programs and files that the source names can be used as they stand.
    pub open spec fn valid(self) -> bool {
        match self {
            CredentialSource::Systemd { path } => is_safe_path(path@),
            CredentialSource::Command { executable, args, working_dir } => {
                &&& is_safe_path(executable@)
                &&& is_safe_path(working_dir@)
                &&& args@.len() <= 64
                &&& forall|i: int|
                    0 <= i < args@.len() ==> is_safe_argument((#[trigger] args@[i])@)
            },
            _ => true,
        }
    }

    pub fn is_valid(&self) -> (r: bool)
        ensures
            r == self.valid(),
    {
        match self {
            CredentialSource::Systemd { path } => safe_path(path.as_str()),
            CredentialSource::Command { executable, args, working_dir } => {
                safe_path(executable.as_str()) && safe_path(working_dir.as_str()) && args.len()
                    <= 64 && safe_arguments(args)
            },
            _ => true,
        }
    }
}

impl AccountConfig {
    /// The account is complete on its own, next to `inventory` mailboxes at most.
    pub open spec fn valid(self, inventory: nat) -> bool {
        &&& is_identifier(self.key@)
        &&& is_label(self.alias@)
        &&& is_server_name(self.server@)
        &&& self.port != 0
        &&& is_label(self.username@)
        &&& are_unique_labels(self.mailboxes@, inventory)
        &&& are_unique_labels(self.from_identities@, 100)
        &&& self.drafts_mailbox matches Some(drafts) ==> listed(self.mailboxes@, drafts@)
        &&& self.credential.valid()
    }

    pub fn is_valid(&self, inventory: usize) -> (r: bool)
        ensures
            r == self.valid(inventory as nat),
    {
        identifier(self.key.as_str()) && label(self.alias.as_str()) && server_name(
            self.server.as_str(),
        ) && self.port != 0 && label(self.username.as_str()) && unique_labels(
            &self.mailboxes,
            inventory,
        ) && unique_labels(&self.from_identities, 100) && match &self.drafts_mailbox {
            Some(drafts) => is_listed(&self.mailboxes, drafts.as_str()),
            None => true,
        } && self.credential.is_valid()
    }
}

/// Some account of the list has this key.
pub open spec fn has_key(accounts: Seq<AccountConfig>, key: Seq<char>) -> bool {
    exists|i: int| 0 <= i < accounts.len() && (#[trigger] accounts[i]).key@ == key
}

/// No two accounts share a key or an alias.
pub open spec fn are_separate(accounts: Seq<AccountConfig>) -> bool {
    forall|i: int, j: int|
        0 <= i < j < accounts.len() ==> {
            &&& (#[trigger] accounts[i]).key@ != (#[trigger] accounts[j]).key@
            &&& accounts[i].alias@ != accounts[j].alias@
        }
}

impl AccessGrant {
    /// Each account that the grant may write to keeps its drafts in a mailbox of the grant.
    pub open spec fn drafts_reachable(self, accounts: Seq<AccountConfig>) -> bool {
        self.profile is ReadOnly || forall|i: int, j: int|
            0 <= i < self.accounts@.len() && 0 <= j < accounts.len() && (#[trigger] accounts[j]).key@
                == (#[trigger] self.accounts@[i])@ ==> (accounts[j].drafts_mailbox matches Some(
                drafts,
            ) && listed(self.mailboxes@, drafts@))
    }

    /// The grant names existing accounts and stays below the service's ceilings.
    pub open spec fn valid(self, limits: Limits, accounts: Seq<AccountConfig>) -> bool {
        &&& self.limits.valid()
        &&& self.limits.within(limits)
        &&& is_identifier(self.name@)
        &&& self.accounts@.len() <= limits.accounts
        &&& are_unique_labels(self.mailboxes@, limits.mailbox_inventory as nat)
        &&& forall|i: int|
            0 <= i < self.accounts@.len() ==> has_key(accounts, (#[trigger] self.accounts@[i])@)
        &&& self.drafts_reachable(accounts)
    }
}

fn key_index(accounts: &Vec<AccountConfig>, key: &str) -> (r: Option<usize>)
    ensures
        match r {
            Some(i) => i < accounts@.len() && accounts@[i as int].key@ == key@,
            None => !has_key(accounts@, key@),
        },
{
    for i in 0..accounts.len()
        invariant
            forall|j: int| 0 <= j < i ==> (#[trigger] accounts@[j]).key@ != key@,
    {
        if same(accounts[i].key.as_str(), key) {
            return Some(i);
        }
    }
    None
}

impl AccessGrant {
    pub fn is_valid(&self, limits: &Limits, accounts: &Vec<AccountConfig>) -> (r: bool)
        requires
            are_separate(accounts@),
        ensures
            r == self.valid(*limits, accounts@),
    {
        if self.limits.validate().is_err() || !self.limits.fits_within(limits) || !identifier(
            self.name.as_str(),
        ) || self.accounts.len() > limits.accounts || !unique_labels(
            &self.mailboxes,
            limits.mailbox_inventory,
        ) {
            return false;
        }
        let writes = self.profile != Profile::ReadOnly;
        let mut known = true;
        let mut reachable = true;
        for i in 0..self.accounts.len()
            invariant
                are_separate(accounts@),
                known == forall|j: int|
                    0 <= j < i ==> has_key(accounts@, (#[trigger] self.accounts@[j])@),
                known ==> (reachable <==> (!writes || forall|j: int, k: int|
                    0 <= j < i && 0 <= k < accounts@.len() && (#[trigger] accounts@[k]).key@ == (
                    #[trigger] self.accounts@[j])@ ==> (accounts@[k].drafts_mailbox matches Some(
                        drafts,
                    ) && listed(self.mailboxes@, drafts@)))),
                !writes ==> reachable,
        {
            match key_index(accounts, self.accounts[i].as_str()) {
                None => {
                    assert(!has_key(accounts@, self.accounts@[i as int]@));
                    known = false;
                },
                Some(at) => {
                    assert(has_key(accounts@, self.accounts@[i as int]@)) by {
                        assert(accounts@[at as int].key@ == self.accounts@[i as int]@);
                    }
                    let here = match &accounts[at].drafts_mailbox {
                        Some(drafts) => is_listed(&self.mailboxes, drafts.as_str()),
                        None => false,
                    };
                    if writes && !here {
                        reachable = false;
                    }
                },
            }
        }
        known && reachable
    }
}

/// The accounts and grants fit into the limits, the grants grant only what the accounts describe, and
/// some read-only grant is the default.
pub open spec fn are_sound(
    limits: Limits,
    accounts: Seq<AccountConfig>,
    grants: Seq<AccessGrant>,
    default_grant: Seq<char>,
) -> bool {
    &&& limits.valid()
    &&& accounts.len() <= limits.accounts
    &&& 0 < grants.len() <= limits.grants
    &&& is_identifier(default_grant)
    &&& exists|i: int|
        0 <= i < grants.len() && (#[trigger] grants[i]).name@ == default_grant
            && grants[i].profile is ReadOnly
    &&& forall|i: int|
        0 <= i < accounts.len() ==> (#[trigger] accounts[i]).valid(limits.mailbox_inventory as nat)
    &&& are_separate(accounts)
    &&& forall|i: int|
        0 <= i < grants.len() ==> (#[trigger] grants[i]).valid(limits, accounts)
    &&& forall|i: int, j: int|
        0 <= i < j < grants.len() ==> (#[trigger] grants[i]).name@ != (#[trigger] grants[j]).name@
}

impl Config {
    /// The configuration can be served as it stands.
    pub open spec fn valid(self) -> bool {
        &&& self.version == 1
        &&& is_safe_path(self.state_dir@)
        &&& are_sound(self.limits, self.accounts@, self.grants@, self.default_grant@)
    }

    fn accounts_valid(&self) -> (r: bool)
        ensures
            r == ((forall|i: int|
                0 <= i < self.accounts@.len() ==> (#[trigger] self.accounts@[i]).valid(
                    self.limits.mailbox_inventory as nat,
                )) && are_separate(self.accounts@)),
    {
        for j in 0..self.accounts.len()
            invariant
                forall|i: int|
                    0 <= i < j ==> (#[trigger] self.accounts@[i]).valid(
                        self.limits.mailbox_inventory as nat,
                    ),
                forall|a: int, b: int|
                    0 <= a < b < j ==> {
                        &&& (#[trigger] self.accounts@[a]).key@ != (#[trigger] self.accounts@[b]).key@
                        &&& self.accounts@[a].alias@ != self.accounts@[b].alias@
                    },
        {
            let account = &self.accounts[j];
            if !account.is_valid(self.limits.mailbox_inventory) {
                assert(!self.accounts@[j as int].valid(self.limits.mailbox_inventory as nat));
                return false;
            }
            for i in 0..j
                invariant
                    j < self.accounts@.len(),
                    account == self.accounts@[j as int],
                    forall|a: int|
                        0 <= a < i ==> (#[trigger] self.accounts@[a]).key@ != account.key@
                            && self.accounts@[a].alias@ != account.alias@,
            {
                if same(self.accounts[i].key.as_str(), account.key.as_str()) || same(
                    self.accounts[i].alias.as_str(),
                    account.alias.as_str(),
                ) {
                    assert(!are_separate(self.accounts@)) by {
                        let a = self.accounts@[i as int];
                        let b = self.accounts@[j as int];
                        assert(a.key@ == b.key@ || a.alias@ == b.alias@);
                    }
                    return false;
                }
            }
        }
        true
    }

    fn grants_valid(&self) -> (r: bool)
        requires
            are_separate(self.accounts@),
        ensures
            r == ((forall|i: int|
                0 <= i < self.grants@.len() ==> (#[trigger] self.grants@[i]).valid(
                    self.limits,
                    self.accounts@,
                )) && (forall|i: int, j: int|
                0 <= i < j < self.grants@.len() ==> (#[trigger] self.grants@[i]).name@ != (
                #[trigger] self.grants@[j]).name@)),
    {
        for j in 0..self.grants.len()
            invariant
                are_separate(self.accounts@),
                forall|i: int|
                    0 <= i < j ==> (#[trigger] self.grants@[i]).valid(self.limits, self.accounts@),
                forall|a: int, b: int|
                    0 <= a < b < j ==> (#[trigger] self.grants@[a]).name@ != (
                    #[trigger] self.grants@[b]).name@,
        {
            let grant = &self.grants[j];
            if !grant.is_valid(&self.limits, &self.accounts) {
                assert(!self.grants@[j as int].valid(self.limits, self.accounts@));
                return false;
            }
            for i in 0..j
                invariant
                    j < self.grants@.len(),
                    grant == self.grants@[j as int],
                    forall|a: int| 0 <= a < i ==> (#[trigger] self.grants@[a]).name@ != grant.name@,
            {
                if same(self.grants[i].name.as_str(), grant.name.as_str()) {
                    assert(self.grants@[i as int].name@ == self.grants@[j as int].name@);
                    return false;
                }
            }
        }
        true
    }

    pub fn validate(&self) -> (r: Result<(), Error>)
        ensures
            r is Ok <==> self.valid(),
            r matches Err(error) ==> error.asks_for_setup(),
    {
        if self.limits.validate().is_err() || self.version != 1 || !safe_path(
            self.state_dir.as_str(),
        ) || self.accounts.len() > self.limits.accounts || self.grants.len() == 0
            || self.grants.len() > self.limits.grants || !identifier(self.default_grant.as_str()) {
            return Err(Error::setup_required());
        }
        let mut defaulted = false;
        for i in 0..self.grants.len()
            invariant
                defaulted == exists|j: int|
                    0 <= j < i && (#[trigger] self.grants@[j]).name@ == self.default_grant@
                        && self.grants@[j].profile is ReadOnly,
        {
            if same(self.grants[i].name.as_str(), self.default_grant.as_str())
                && self.grants[i].profile == Profile::ReadOnly {
                defaulted = true;
                assert(self.grants@[i as int].name@ == self.default_grant@);
            }
        }
        if !defaulted || !self.accounts_valid() || !self.grants_valid() {
            return Err(Error::setup_required());
        }
        Ok(())
    }
}

/// A value of a TOML document.
#[verifier::external_type_specification]
#[verifier::external_body]
pub struct ExValue(toml::Value);

/// What a TOML value holds, as far as the search for retired settings looks: the entries of a
/// table, the items of an array, and nothing of any other value.
pub enum ValueView {
    Table(Seq<(Seq<char>, ValueView)>),
    Array(Seq<ValueView>),
    Leaf,
}

/// What a value holds.
pub uninterp spec fn value_of(value: toml::Value) -> ValueView;

/// The value that a text in TOML stands for, or nothing where the text is not TOML.
pub uninterp spec fn toml_document(input: Seq<char>) -> Option<ValueView>;

/// `toml::from_str` into a `toml::Value`. The contract names what the value holds.
#[verifier::external_body]
fn parse_toml(input: &str) -> (r: Option<toml::Value>)
    ensures
        match r {
            Some(value) => toml_document(input@) == Some(value_of(value)),
            None => toml_document(input@) is None,
        },
{
    toml::from_str::<toml::Value>(input).ok()
}

/// A TOML value opened by one level.
pub enum OpenedValue<'a> {
    Table(Vec<(&'a str, &'a toml::Value)>),
    Array(Vec<&'a toml::Value>),
    Leaf,
}

impl<'a> OpenedValue<'a> {
    pub open spec fn holds(self) -> ValueView {
        match self {
            OpenedValue::Table(entries) => ValueView::Table(entries_of(entries@)),
            OpenedValue::Array(items) => ValueView::Array(items_of(items@)),
            OpenedValue::Leaf => ValueView::Leaf,
        }
    }
}

pub open spec fn entries_of(entries: Seq<(&str, &toml::Value)>) -> Seq<(Seq<char>, ValueView)> {
    entries.map_values(|entry: (&str, &toml::Value)| (entry.0@, value_of(*entry.1)))
}

pub open spec fn items_of(items: Seq<&toml::Value>) -> Seq<ValueView> {
    items.map_values(|item: &toml::Value| value_of(*item))
}

/// The variants of `toml::Value`: the keys and values of a table, the items of an array, or a value
/// that holds no other. The contract claims that these are what `value_of` names.
#[verifier::external_body]
fn open_value<'a>(value: &'a toml::Value) -> (r: OpenedValue<'a>)
    ensures
        r.holds() == value_of(*value),
{
    match value {
        toml::Value::Table(entries) => OpenedValue::Table(
            entries.iter().map(|(key, value)| (key.as_str(), value)).collect(),
        ),
        toml::Value::Array(items) => OpenedValue::Array(items.iter().collect()),
        _ => OpenedValue::Leaf,
    }
}

/// A setting of the retired capacity layout.
pub open spec fn is_obsolete_key(key: Seq<char>) -> bool {
    ||| key == "runtimes"@
    ||| key == "runtime_slots"@
    ||| key == "runtime_slot"@
    ||| key == "shared_permit"@
    ||| key == "shared_permits"@
}

/// Some table of the value, at any depth, has a retired capacity setting for a key.
pub open spec fn holds_obsolete(value: ValueView) -> bool
    decreases value,
{
    match value {
        ValueView::Table(entries) => exists|i: int|
            0 <= i < entries.len() && (is_obsolete_key((#[trigger] entries[i]).0)
                || holds_obsolete(entries[i].1)),
        ValueView::Array(items) => exists|i: int|
            0 <= i < items.len() && holds_obsolete(#[trigger] items[i]),
        ValueView::Leaf => false,
    }
}

/// Whether a key is a retired capacity setting.
pub fn obsolete_key(key: &str) -> (r: bool)
    ensures
        r == is_obsolete_key(key@),
{
    same(key, "runtimes") || same(key, "runtime_slots") || same(key, "runtime_slot") || same(
        key,
        "shared_permit",
    ) || same(key, "shared_permits")
}

/// Whether some table of the value, at any depth, has a retired capacity setting for a key.
pub fn contains_obsolete(value: &toml::Value) -> (r: bool)
    ensures
        r == holds_obsolete(value_of(*value)),
    decreases value_of(*value),
{
    let ghost view = value_of(*value);
    match open_value(value) {
        OpenedValue::Table(entries) => {
            let ghost views = view->Table_0;
            assert(views == entries_of(entries@));
            for i in 0..entries.len()
                invariant
                    view == value_of(*value),
                    view == ValueView::Table(views),
                    views == entries_of(entries@),
                    forall|j: int|
                        0 <= j < i ==> !is_obsolete_key((#[trigger] views[j]).0) && !holds_obsolete(
                            views[j].1,
                        ),
            {
                let (key, inner) = entries[i];
                assert(views[i as int] == (key@, value_of(*inner)));
                proof {
                    let within = value_of(*value)->Table_0;
                    assert(decreases_to!(value_of(*value) => within));
                    assert(decreases_to!(within => within[i as int]));
                    assert(decreases_to!(within[i as int] => within[i as int].1));
                }
                if obsolete_key(key) || contains_obsolete(inner) {
                    assert(holds_obsolete(ValueView::Table(views)));
                    return true;
                }
            }
            false
        },
        OpenedValue::Array(items) => {
            let ghost views = view->Array_0;
            assert(views == items_of(items@));
            for i in 0..items.len()
                invariant
                    view == value_of(*value),
                    view == ValueView::Array(views),
                    views == items_of(items@),
                    forall|j: int| 0 <= j < i ==> !holds_obsolete(#[trigger] views[j]),
            {
                let inner = items[i];
                assert(views[i as int] == value_of(*inner));
                proof {
                    let within = value_of(*value)->Array_0;
                    assert(decreases_to!(value_of(*value) => within));
                    assert(decreases_to!(within => within[i as int]));
                }
                if contains_obsolete(inner) {
                    assert(holds_obsolete(views[i as int]));
                    assert(holds_obsolete(ValueView::Array(views)));
                    return true;
                }
            }
            false
        },
        OpenedValue::Leaf => false,
    }
}

/// The text is TOML and states a retired capacity setting somewhere.
pub open spec fn is_obsolete(input: Seq<char>) -> bool {
    toml_document(input) matches Some(value) && holds_obsolete(value)
}

pub fn obsolete_runtime_capacity(input: &str) -> (r: bool)
    ensures
        r == is_obsolete(input@),
{
    match parse_toml(input) {
        Some(value) => contains_obsolete(&value),
        None => false,
    }
}

impl RawGrant {
    /// The grant with its own settings put over `limits`.
    pub open spec fn resolved(self, limits: Limits) -> AccessGrant {
        AccessGrant {
            name: self.name,
            profile: self.profile,
            accounts: self.accounts,
            mailboxes: self.mailboxes,
            limits: self.limits.applied(limits),
        }
    }

    /// The grant's own settings only lower `limits` and stand on their own.
    pub open spec fn resolvable(self, limits: Limits) -> bool {
        self.limits.applied(limits).within(limits) && self.limits.applied(limits).valid()
    }
}

/// The grants with their own settings put over `limits`, unless one of them may not.
fn resolve_grants(raw: Vec<RawGrant>, limits: &Limits) -> (r: Result<Vec<AccessGrant>, Error>)
    ensures
        match r {
            Ok(grants) => {
                &&& grants@ == raw@.map_values(|grant: RawGrant| grant.resolved(*limits))
                &&& forall|i: int| 0 <= i < raw@.len() ==> (#[trigger] raw@[i]).resolvable(*limits)
            },
            Err(error) => error.asks_for_setup() && exists|i: int|
                0 <= i < raw@.len() && !(#[trigger] raw@[i]).resolvable(*limits),
        },
{
    let mut grants: Vec<AccessGrant> = Vec::new();
    let ghost all = raw@;
    let mut rest = raw;
    let ghost mut done: int = 0;
    while rest.len() > 0
        invariant
            all == raw@,
            0 <= done <= all.len(),
            rest@ == all.skip(done),
            grants@.len() == done,
            forall|i: int|
                0 <= i < done ==> (#[trigger] all[i]).resolvable(*limits) && grants@[i]
                    == all[i].resolved(*limits),
        decreases rest@.len(),
    {
        let grant = rest.remove(0);
        assert(grant == all[done]);
        match grant.limits.resolve(limits) {
            Err(error) => {
                assert(!all[done].resolvable(*limits));
                return Err(error);
            },
            Ok(resolved) => {
                grants.push(
                    AccessGrant {
                        name: grant.name,
                        profile: grant.profile,
                        accounts: grant.accounts,
                        mailboxes: grant.mailboxes,
                        limits: resolved,
                    },
                );
                proof {
                    assert(rest@ =~= all.skip(done + 1));
                    done = done + 1;
                }
            },
        }
    }
    assert(grants@ =~= all.map_values(|grant: RawGrant| grant.resolved(*limits)));
    Ok(grants)
}

impl RawConfig {
    /// The grants, each with its own settings put over those of the service.
    pub open spec fn resolved_grants(self) -> Seq<AccessGrant> {
        self.grants@.map_values(|grant: RawGrant| grant.resolved(self.limits))
    }

    /// `config` is what the operator wrote, each grant with its own settings put in.
    pub open spec fn resolves_to(self, config: Config) -> bool {
        &&& config.version == self.version
        &&& config.default_grant == self.default_grant
        &&& config.topology == self.topology
        &&& config.state_dir == self.state_dir
        &&& config.limits == self.limits
        &&& config.accounts == self.accounts
        &&& config.grants@ == self.resolved_grants()
    }

    /// What the operator wrote can be served: no grant raises a setting, and the configuration that
    /// comes of it is valid.
    pub open spec fn valid(self) -> bool {
        &&& self.version == 1
        &&& is_safe_path(self.state_dir@)
        &&& forall|i: int|
            0 <= i < self.grants@.len() ==> (#[trigger] self.grants@[i]).resolvable(self.limits)
        &&& are_sound(self.limits, self.accounts@, self.resolved_grants(), self.default_grant@)
    }
}

impl Config {
    /// The validated configuration for what the operator wrote.
    pub fn resolve(raw: RawConfig) -> (r: Result<Self, Error>)
        ensures
            match r {
                Ok(config) => raw.valid() && raw.resolves_to(config) && config.valid(),
                Err(error) => !raw.valid() && error.asks_for_setup(),
            },
    {
        if raw.limits.validate().is_err() {
            return Err(Error::setup_required());
        }
        let grants = match resolve_grants(raw.grants, &raw.limits) {
            Ok(grants) => grants,
            Err(error) => {
                return Err(error);
            },
        };
        let config = Config {
            version: raw.version,
            default_grant: raw.default_grant,
            topology: raw.topology,
            state_dir: raw.state_dir,
            limits: raw.limits,
            accounts: raw.accounts,
            grants,
        };
        match config.validate() {
            Ok(()) => Ok(config),
            Err(error) => Err(error),
        }
    }

    /// Reads a configuration text. `decoded` is what the text says in this layout, or nothing
    /// where it is not written in this layout.
    pub fn parse(input: &str, decoded: Option<RawConfig>) -> (r: Result<Self, Error>)
        ensures
            match r {
                Ok(config) => {
                    &&& utf8_len(input@) <= MAX_BYTES
                    &&& decoded matches Some(raw) && raw.valid() && raw.resolves_to(config)
                    &&& config.valid()
                },
                Err(error) => if utf8_len(input@) > MAX_BYTES {
                    error.asks_for_setup()
                } else {
                    match decoded {
                        Some(raw) => !raw.valid() && error.asks_for_setup(),
                        None => if is_obsolete(input@) {
                            error.names_obsolete_capacity()
                        } else {
                            error.asks_for_setup()
                        },
                    }
                },
            },
    {
        if byte_len(input) > MAX_BYTES {
            return Err(Error::setup_required());
        }
        match decoded {
            None => {
                if obsolete_runtime_capacity(input) {
                    Err(Error::obsolete_runtime_capacity())
                } else {
                    Err(Error::setup_required())
                }
            },
            Some(raw) => Config::resolve(raw),
        }
    }
}

proof fn reordering_keeps_items<A>(first: Seq<A>, second: Seq<A>)
    requires
        first.to_multiset() == second.to_multiset(),
    ensures
        first.len() == second.len(),
        forall|i: int| 0 <= i < first.len() ==> second.contains(#[trigger] first[i]),
        forall|i: int| 0 <= i < second.len() ==> first.contains(#[trigger] second[i]),
        first.no_duplicates() ==> second.no_duplicates(),
{
    first.to_multiset_ensures();
    second.to_multiset_ensures();
    assert forall|i: int| 0 <= i < first.len() implies second.contains(#[trigger] first[i]) by {
        assert(first.contains(first[i]));
        assert(first.to_multiset().count(first[i]) > 0);
        assert(second.to_multiset().count(first[i]) > 0);
    }
    assert forall|i: int| 0 <= i < second.len() implies first.contains(#[trigger] second[i]) by {
        assert(second.contains(second[i]));
        assert(second.to_multiset().count(second[i]) > 0);
        assert(first.to_multiset().count(second[i]) > 0);
    }
    if first.no_duplicates() {
        first.lemma_multiset_has_no_duplicates();
        second.lemma_multiset_has_no_duplicates_conv();
    }
}

proof fn reordering_keeps_soundness(
    limits: Limits,
    accounts: Seq<AccountConfig>,
    others: Seq<AccountConfig>,
    grants: Seq<AccessGrant>,
    more: Seq<AccessGrant>,
    default_grant: Seq<char>,
)
    requires
        are_sound(limits, accounts, grants, default_grant),
        accounts.to_multiset() == others.to_multiset(),
        grants.to_multiset() == more.to_multiset(),
    ensures
        are_sound(limits, others, more, default_grant),
{
    assert(accounts.no_duplicates());
    assert(grants.no_duplicates());
    reordering_keeps_items(accounts, others);
    reordering_keeps_items(grants, more);
    assert(are_separate(others)) by {
        assert forall|i: int, j: int| 0 <= i < j < others.len() implies {
            &&& (#[trigger] others[i]).key@ != (#[trigger] others[j]).key@
            &&& others[i].alias@ != others[j].alias@
        } by {
            let a = choose|a: int| 0 <= a < accounts.len() && accounts[a] == others[i];
            let b = choose|b: int| 0 <= b < accounts.len() && accounts[b] == others[j];
            assert(accounts.contains(others[i]) && accounts.contains(others[j]));
            assert(others[i] != others[j]);
            assert(a != b);
            if a < b {
                assert(accounts[a].key@ != accounts[b].key@);
            } else {
                assert(accounts[b].key@ != accounts[a].key@);
            }
        }
    }
    assert forall|i: int| 0 <= i < more.len() implies (#[trigger] more[i]).valid(limits, others) by {
        let grant = more[i];
        assert(grants.contains(grant));
        assert(grant.valid(limits, accounts));
        assert forall|k: int| 0 <= k < grant.accounts@.len() implies has_key(
            others,
            (#[trigger] grant.accounts@[k])@,
        ) by {
            let a = choose|a: int|
                0 <= a < accounts.len() && (#[trigger] accounts[a]).key@ == grant.accounts@[k]@;
            assert(has_key(accounts, grant.accounts@[k]@));
            assert(others.contains(accounts[a]));
        }
        assert forall|k: int, j: int|
            0 <= k < grant.accounts@.len() && 0 <= j < others.len() && (#[trigger] others[j]).key@
                == (#[trigger] grant.accounts@[k])@ && !(grant.profile is ReadOnly) implies (
        others[j].drafts_mailbox matches Some(drafts) && listed(grant.mailboxes@, drafts@)) by {
            assert(accounts.contains(others[j]));
        }
    }
    assert forall|i: int, j: int| 0 <= i < j < more.len() implies (#[trigger] more[i]).name@ != (
    #[trigger] more[j]).name@ by {
        let a = choose|a: int| 0 <= a < grants.len() && grants[a] == more[i];
        let b = choose|b: int| 0 <= b < grants.len() && grants[b] == more[j];
        assert(grants.contains(more[i]) && grants.contains(more[j]));
        assert(more[i] != more[j]);
        if a < b {
            assert(grants[a].name@ != grants[b].name@);
        } else {
            assert(grants[b].name@ != grants[a].name@);
        }
    }
    assert forall|i: int| 0 <= i < others.len() implies (#[trigger] others[i]).valid(
        limits.mailbox_inventory as nat,
    ) by {
        assert(accounts.contains(others[i]));
    }
    let d = choose|d: int|
        0 <= d < grants.len() && (#[trigger] grants[d]).name@ == default_grant
            && grants[d].profile is ReadOnly;
    assert(more.contains(grants[d]));
}

/// The order in which accounts and grants are written does not matter: a configuration is valid in
/// one order if it is in every other.
pub proof fn order_does_not_matter(first: Config, second: Config)
    requires
        first.version == second.version,
        first.state_dir@ == second.state_dir@,
        first.limits == second.limits,
        first.default_grant@ == second.default_grant@,
        first.accounts@.to_multiset() == second.accounts@.to_multiset(),
        first.grants@.to_multiset() == second.grants@.to_multiset(),
    ensures
        first.valid() == second.valid(),
{
    if first.valid() {
        reordering_keeps_soundness(
            first.limits,
            first.accounts@,
            second.accounts@,
            first.grants@,
            second.grants@,
            first.default_grant@,
        );
    }
    if second.valid() {
        reordering_keeps_soundness(
            first.limits,
            second.accounts@,
            first.accounts@,
            second.grants@,
            first.grants@,
            first.default_grant@,
        );
    }
}

/// A grant of a valid configuration never allows more than the service as a whole: its settings
/// are no larger, its accounts exist, and it holds draft permissions only where every account it
/// names keeps its drafts in a mailbox of the grant.
pub proof fn grants_stay_below_the_service(config: Config, grant: int, account: int)
    requires
        config.valid(),
        0 <= grant < config.grants@.len(),
        0 <= account < config.grants@[grant].accounts@.len(),
    ensures
        config.grants@[grant].limits.within(config.limits),
        has_key(config.accounts@, config.grants@[grant].accounts@[account]@),
        !(config.grants@[grant].profile is ReadOnly) ==> exists|j: int|
            0 <= j < config.accounts@.len() && (#[trigger] config.accounts@[j]).key@
                == config.grants@[grant].accounts@[account]@ && (
            config.accounts@[j].drafts_mailbox matches Some(drafts) && listed(
                config.grants@[grant].mailboxes@,
                drafts@,
            )),
{
    let g = config.grants@[grant];
    assert(g.valid(config.limits, config.accounts@));
    assert(has_key(config.accounts@, g.accounts@[account]@));
    let j = choose|j: int|
        0 <= j < config.accounts@.len() && (#[trigger] config.accounts@[j]).key@
            == g.accounts@[account]@;
    assert(config.accounts@[j].key@ == g.accounts@[account]@);
}

/// A path is safe where it begins at the root and has no step to a parent and no NUL; a step to a parent
/// is refused wherever it stands.
pub proof fn safe_paths_never_step_back(before: Seq<char>, after: Seq<char>)
    ensures
        !is_safe_path(before + seq!['/', '.', '.']),
        !is_safe_path(before + seq!['/', '.', '.', '/'] + after),
        !is_safe_path(Seq::empty()),
        before.len() > 0 && before[0] != '/' ==> !is_safe_path(before),
        before.contains('\0') ==> !is_safe_path(before),
        before.len() > 0 && before[0] == '/' && !before.contains('\0') && (forall|i: int|
            0 <= i < before.len() - 1 ==> !(#[trigger] before[i] == '.' && before[i + 1] == '.')) ==> is_safe_path(
            before,
        ),
{
    let n = before.len() as int;
    let closed = before + seq!['/', '.', '.'];
    assert(parent_at(closed, n + 1));
    let open = before + seq!['/', '.', '.', '/'] + after;
    assert(open[n] == '/' && open[n + 1] == '.' && open[n + 2] == '.' && open[n + 3] == '/');
    assert(parent_at(open, n + 1));
    if before.len() > 0 && before[0] == '/' && !before.contains('\0') && (forall|i: int|
        0 <= i < before.len() - 1 ==> !(#[trigger] before[i] == '.' && before[i + 1] == '.')) {
        assert forall|i: int| !#[trigger] parent_at(before, i) by {
            if parent_at(before, i) {
                assert(before[i] == '.' && before[i + 1] == '.');
            }
        }
    }
}

/// What names may hold: keys are letters, digits, underscores, hyphens and dots in at most 128 bytes,
/// labels are any text without control characters in at most 1024, servers are letters, digits, dots,
/// hyphens and colons in at most 253, and no argument holds a NUL or has more than 4096 bytes.
pub proof fn names_hold_what_they_may(value: Seq<char>, c: char)
    ensures
        is_identifier(value) ==> 0 < value.len() && utf8_len(value) <= 128,
        is_label(value) ==> 0 < value.len() && utf8_len(value) <= 1024,
        is_server_name(value) ==> 0 < value.len() && utf8_len(value) <= 253,
        is_safe_argument(value) <==> utf8_len(value) <= 4096 && forall|i: int|
            0 <= i < value.len() ==> #[trigger] value[i] != '\0',
        is_identifier(value) && value.contains(c) ==> ('0' <= c <= '9') || ('a' <= c <= 'z') || ('A' <= c <= 'Z') || c
            == '_' || c == '-' || c == '.',
        is_label(value) && value.contains(c) ==> !is_control(c),
        is_server_name(value) && value.contains(c) ==> ('0' <= c <= '9') || ('a' <= c <= 'z') || ('A' <= c <= 'Z')
            || c == '.' || c == '-' || c == ':',
        0 < value.len() && utf8_len(value) <= 128 && (forall|i: int|
            0 <= i < value.len() ==> ('0' <= #[trigger] value[i] <= '9') || ('a' <= value[i] <= 'z') || ('A' <= value[i]
                <= 'Z') || value[i] == '_' || value[i] == '-' || value[i] == '.') ==> is_identifier(value),
        0 < value.len() && utf8_len(value) <= 253 && (forall|i: int|
            0 <= i < value.len() ==> ('0' <= #[trigger] value[i] <= '9') || ('a' <= value[i] <= 'z') || ('A' <= value[i]
                <= 'Z') || value[i] == '.' || value[i] == '-' || value[i] == ':') ==> is_server_name(value),
        0 < value.len() && utf8_len(value) <= 1024 && (forall|i: int|
            0 <= i < value.len() ==> !is_control(#[trigger] value[i])) ==> is_label(value),
{
    if value.contains(c) {
        let i = choose|i: int| 0 <= i < value.len() && value[i] == c;
        assert(value[i] == c);
    }
    if value.contains('\0') {
        let i = choose|i: int| 0 <= i < value.len() && value[i] == '\0';
        assert(value[i] == '\0');
    }
}

/// A valid account can be reached and used: it has a port, a server and a user, one to the allowed number
/// of mailboxes, one to a hundred sender addresses, and its drafts go to one of its own mailboxes.
pub proof fn accounts_are_usable(account: AccountConfig, inventory: nat)
    requires
        account.valid(inventory),
    ensures
        account.port > 0,
        is_server_name(account.server@) && is_label(account.username@) && is_label(account.alias@) && is_identifier(
            account.key@,
        ),
        1 <= account.mailboxes@.len() <= inventory,
        1 <= account.from_identities@.len() <= 100,
        account.drafts_mailbox matches Some(drafts) ==> exists|i: int|
            0 <= i < account.mailboxes@.len() && (#[trigger] account.mailboxes@[i])@ == drafts@,
        forall|i: int, j: int|
            0 <= i < account.mailboxes@.len() && 0 <= j < account.mailboxes@.len() && (
            #[trigger] account.mailboxes@[i])@ == (#[trigger] account.mailboxes@[j])@ ==> i == j,
        account.credential matches CredentialSource::Systemd { path } ==> is_safe_path(path@),
        account.credential matches CredentialSource::Command { executable, args, working_dir } ==> is_safe_path(
            executable@,
        ) && is_safe_path(working_dir@) && args@.len() <= 64,
{
    assert forall|i: int, j: int|
        0 <= i < account.mailboxes@.len() && 0 <= j < account.mailboxes@.len() && (#[trigger] account.mailboxes@[i])@
            == (#[trigger] account.mailboxes@[j])@ implies i == j by {
        if i < j {
            assert(account.mailboxes@[i]@ != account.mailboxes@[j]@);
        } else if j < i {
            assert(account.mailboxes@[j]@ != account.mailboxes@[i]@);
        }
    }
}

/// Without being asked for more, a service grants reading alone: the default grant is one of its grants
/// and lets nobody draft. No two accounts share a key or an alias, and no two grants a name.
pub proof fn the_default_grant_only_reads(config: Config)
    requires
        config.valid(),
    ensures
        config.version == 1,
        exists|i: int|
            0 <= i < config.grants@.len() && (#[trigger] config.grants@[i]).name@ == config.default_grant@
                && !config.grants@[i].profile.granted(false).contains(Permission::AppendDraft),
        forall|i: int, j: int|
            0 <= i < config.accounts@.len() && 0 <= j < config.accounts@.len() && i != j
                ==> (#[trigger] config.accounts@[i]).key@ != (#[trigger] config.accounts@[j]).key@
                && config.accounts@[i].alias@ != config.accounts@[j].alias@,
        forall|i: int, j: int|
            0 <= i < config.grants@.len() && 0 <= j < config.grants@.len() && i != j
                ==> (#[trigger] config.grants@[i]).name@ != (#[trigger] config.grants@[j]).name@,
        config.accounts@.len() <= config.limits.accounts,
        1 <= config.grants@.len() <= config.limits.grants,
        is_safe_path(config.state_dir@),
{
    let i = choose|i: int|
        0 <= i < config.grants@.len() && (#[trigger] config.grants@[i]).name@ == config.default_grant@
            && config.grants@[i].profile is ReadOnly;
    profiles_grant_by_kind(config.grants@[i].profile, false, Permission::AppendDraft);
    assert(config.grants@[i].name@ == config.default_grant@
        && !config.grants@[i].profile.granted(false).contains(Permission::AppendDraft));
    assert forall|i: int, j: int| 0 <= i < config.accounts@.len() && 0 <= j < config.accounts@.len() && i
        != j implies (#[trigger] config.accounts@[i]).key@ != (#[trigger] config.accounts@[j]).key@
        && config.accounts@[i].alias@ != config.accounts@[j].alias@ by {
        if i > j {
            assert(config.accounts@[j].key@ != config.accounts@[i].key@);
        }
    }
    assert forall|i: int, j: int| 0 <= i < config.grants@.len() && 0 <= j < config.grants@.len() && i
        != j implies (#[trigger] config.grants@[i]).name@ != (#[trigger] config.grants@[j]).name@ by {
        if i > j {
            assert(config.grants@[j].name@ != config.grants@[i].name@);
        }
    }
}

/// A setting that is no longer known is found in a table by its key and at any depth under any key.
pub proof fn obsolete_settings_are_found_in_tables(entries: Seq<(Seq<char>, ValueView)>, i: int)
    requires
        0 <= i < entries.len(),
        is_unknown_today(entries[i].0) || holds_obsolete(entries[i].1),
    ensures
        holds_obsolete(ValueView::Table(entries)),
{
    let value = ValueView::Table(entries);
    reveal_with_fuel(holds_obsolete, 3);
    match value {
        ValueView::Table(list) => {
            assert(0 <= i < list.len() && (is_obsolete_key(list[i].0) || holds_obsolete(list[i].1)));
            assert(holds_obsolete(value));
        },
        _ => {},
    }
}

/// A setting that is no longer known is found in any item of an array.
pub proof fn obsolete_settings_are_found_in_arrays(items: Seq<ValueView>, i: int)
    requires
        0 <= i < items.len(),
        holds_obsolete(items[i]),
    ensures
        holds_obsolete(ValueView::Array(items)),
{
    let value = ValueView::Array(items);
    reveal_with_fuel(holds_obsolete, 3);
    match value {
        ValueView::Array(list) => {
            assert(0 <= i < list.len() && holds_obsolete(list[i]));
            assert(holds_obsolete(value));
        },
        _ => {},
    }
}

/// A document is refused for nothing else: some key of the table is one that is no longer known, or what
/// stands under it holds one.
pub proof fn nothing_else_is_obsolete(entries: Seq<(Seq<char>, ValueView)>) -> (i: int)
    requires
        holds_obsolete(ValueView::Table(entries)),
    ensures
        0 <= i < entries.len(),
        is_unknown_today(entries[i].0) || holds_obsolete(entries[i].1),
{
    choose|i: int|
        0 <= i < entries.len() && (is_obsolete_key((#[trigger] entries[i]).0) || holds_obsolete(entries[i].1))
}

/// The settings of earlier versions.
pub open spec fn is_unknown_today(key: Seq<char>) -> bool {
    key == "runtimes"@ || key == "runtime_slot"@ || key == "runtime_slots"@ || key == "shared_permit"@ || key
        == "shared_permits"@
}

/// A grant keeps its name, its profile, its accounts and its mailboxes when its limits are settled.
pub proof fn settled_grants_keep_their_scope(raw: RawConfig, config: Config, i: int)
    requires
        raw.resolves_to(config),
        0 <= i < raw.grants@.len(),
    ensures
        config.grants@.len() == raw.grants@.len(),
        config.grants@[i].name == raw.grants@[i].name,
        config.grants@[i].profile == raw.grants@[i].profile,
        config.grants@[i].accounts == raw.grants@[i].accounts,
        config.grants@[i].mailboxes == raw.grants@[i].mailboxes,
        config.grants@[i].limits == raw.grants@[i].limits.applied(raw.limits),
        config.accounts == raw.accounts && config.default_grant == raw.default_grant && config.state_dir
            == raw.state_dir && config.limits == raw.limits,
{
}

/// Without being told otherwise an account is reached on the port for IMAP under TLS, and a service uses
/// the grant called `default`.
pub proof fn defaults_are_secure(port: u16, grant: String)
    requires
        call_ensures(default_port, (), port),
        call_ensures(default_grant, (), grant),
    ensures
        port == 993,
        grant@ == seq!['d', 'e', 'f', 'a', 'u', 'l', 't'],
{
    reveal_strlit("default");
    assert("default"@ =~= seq!['d', 'e', 'f', 'a', 'u', 'l', 't']);
}

} // verus!
