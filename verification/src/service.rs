//! Account discovery and access-grant authorization through one application interface.
use vstd::prelude::*;

use crate::config::{AccessGrant, AccountConfig, Config, Limits};
use crate::domain::{
    Account, AccountDiscovery, AccountHealth, Availability, Capabilities, Capacity, Error, ErrorCode,
    Health, ListAccountsInput, Operation, OperationResult, ProcessCapacity, Setup,
};
use crate::encoding::{
    clamped, json_list_bytes, json_list_size, json_text_bytes, json_text_size, OutputBudget,
};
use crate::imap::discovery::{identity_of, mailbox_identity};
use crate::order::{comes_before, order_is_irreflexive, order_is_total, order_is_transitive, precedes};
use crate::policy::{name_views, profiles_grant_by_kind, short_names, Narrowing, Permission, RequestContext};
use crate::text::{byte_len, is_listed, listed, same, utf8_len};

verus! {

/// The stable identity of a configured account.
#[derive(Debug)]
pub struct Identity {
    pub account_id: String,
    pub generation: u64,
}

/// What was last learned of an account.
#[derive(Debug)]
pub struct Observation {
    pub account_id: String,
    pub availability: Availability,
}

/// A validated configuration with the identities of its accounts.
#[derive(Debug)]
pub struct Service {
    pub config: Config,
    /// One for each account of the configuration.
    pub identities: Vec<Identity>,
    pub context_id: u128,
    pub observations: Vec<Observation>,
}

fn denied() -> (r: Error)
    ensures
        r.reports(ErrorCode::PermissionDenied),
{
    Error::new(ErrorCode::PermissionDenied)
}

/// The grant of that name is the first one of the list from `i` on.
pub open spec fn first_grant(grants: Seq<AccessGrant>, name: Seq<char>, i: int) -> Option<int>
    decreases grants.len() - i,
{
    if !(0 <= i < grants.len()) {
        None
    } else if grants[i].name@ == name {
        Some(i)
    } else {
        first_grant(grants, name, i + 1)
    }
}

fn find_grant(grants: &Vec<AccessGrant>, name: &str) -> (r: Option<usize>)
    ensures
        match r {
            Some(i) => first_grant(grants@, name@, 0) == Some(i as int) && i < grants@.len()
                && grants@[i as int].name@ == name@,
            None => first_grant(grants@, name@, 0) is None,
        },
{
    let mut i: usize = 0;
    while i < grants.len()
        invariant
            i <= grants@.len(),
            first_grant(grants@, name@, i as int) == first_grant(grants@, name@, 0),
        decreases grants@.len() - i,
    {
        if same(grants[i].name.as_str(), name) {
            return Some(i);
        }
        i = i + 1;
    }
    None
}

/// The request reaches the account: its grant lists it, and its narrowing lets it through.
pub open spec fn is_visible(account: AccountConfig, grant: AccessGrant, narrowing: Narrowing) -> bool {
    listed(grant.accounts@, account.key@) && narrowing.lets_through(account.alias@)
}

/// The places of the visible accounts among the first `count`, in order.
pub open spec fn visible(
    accounts: Seq<AccountConfig>,
    grant: AccessGrant,
    narrowing: Narrowing,
    count: int,
) -> Seq<usize>
    decreases count,
{
    if count <= 0 {
        Seq::empty()
    } else if is_visible(accounts[count - 1], grant, narrowing) {
        visible(accounts, grant, narrowing, count - 1).push((count - 1) as usize)
    } else {
        visible(accounts, grant, narrowing, count - 1)
    }
}

/// The request names more accounts, or longer names, than a service takes.
pub open spec fn is_excessive(narrowing: Narrowing, limits: Limits) -> bool {
    narrowing.accounts matches Some(accounts) && (accounts@.len() > limits.accounts || exists|i: int|
        0 <= i < accounts@.len() && utf8_len((#[trigger] accounts@[i])@) > 1024)
}

/// The account at one place is shown in front of the one at the other: its identity comes first, or
/// the identities are equal and its place does.
pub open spec fn is_shown_first(identities: Seq<Identity>, one: usize, other: usize) -> bool {
    let (a, b) = (identities[one as int].account_id@, identities[other as int].account_id@);
    precedes(a, b) || (a == b && one < other)
}

/// The places in the order of their identities.
pub open spec fn is_by_identity(indices: Seq<usize>, identities: Seq<Identity>) -> bool {
    forall|i: int, j: int|
        0 <= i < j < indices.len() ==> is_shown_first(
            identities,
            #[trigger] indices[i],
            #[trigger] indices[j],
        )
}

/// The places are named once each, from the front.
pub open spec fn is_rising(indices: Seq<usize>) -> bool {
    forall|i: int, j: int| 0 <= i < j < indices.len() ==> indices[i] < indices[j]
}

/// The places in the order of their identities; equal identities keep their order.
fn by_identity(indices: &Vec<usize>, identities: &Vec<Identity>) -> (r: Vec<usize>)
    requires
        is_rising(indices@),
        forall|i: int| 0 <= i < indices@.len() ==> #[trigger] indices@[i] < identities@.len(),
    ensures
        is_by_identity(r@, identities@),
        r@.to_multiset() == indices@.to_multiset(),
        r@.len() == indices@.len(),
        forall|i: int| 0 <= i < r@.len() ==> #[trigger] r@[i] < identities@.len(),
{
    broadcast use vstd::seq_lib::group_to_multiset_ensures;

    let mut out: Vec<usize> = Vec::new();
    let mut done: usize = 0;
    assert(indices@.take(0) =~= Seq::<usize>::empty());
    while done < indices.len()
        invariant
            done <= indices@.len(),
            is_rising(indices@),
            forall|i: int| 0 <= i < indices@.len() ==> #[trigger] indices@[i] < identities@.len(),
            forall|i: int| 0 <= i < out@.len() ==> #[trigger] out@[i] < identities@.len(),
            forall|i: int, k: int|
                0 <= i < out@.len() && done <= k < indices@.len() ==> #[trigger] out@[i]
                    < #[trigger] indices@[k],
            is_by_identity(out@, identities@),
            out@.len() == done,
            out@.to_multiset() == indices@.take(done as int).to_multiset(),
        decreases indices@.len() - done,
    {
        broadcast use vstd::seq_lib::group_to_multiset_ensures;

        let ghost before = out@;
        let value: usize = indices[done];
        let mut at: usize = 0;
        while at < out.len() && !comes_before(
            identities[value].account_id.as_str(),
            identities[out[at]].account_id.as_str(),
        )
            invariant
                at <= out@.len(),
                out@ == before,
                value < identities@.len(),
                forall|i: int| 0 <= i < before.len() ==> #[trigger] before[i] < identities@.len(),
                forall|k: int|
                    0 <= k < at ==> !precedes(
                        identities@[value as int].account_id@,
                        identities@[(#[trigger] before[k]) as int].account_id@,
                    ),
            decreases out@.len() - at,
        {
            at = at + 1;
        }
        out.insert(at, value);
        proof {
            let after = out@;
            assert(after =~= before.insert(at as int, value));
            assert forall|i: int, j: int| 0 <= i < j < after.len() implies is_shown_first(
                identities@,
                #[trigger] after[i],
                #[trigger] after[j],
            ) by {
                let id = identities@[value as int].account_id@;
                if i == at {
                    assert(after[j] == before[j - 1]);
                    let here = identities@[before[at as int] as int].account_id@;
                    if j - 1 > at {
                        assert(is_shown_first(identities@, before[at as int], before[j - 1]));
                        let later = identities@[before[j - 1] as int].account_id@;
                        if later != here {
                            order_is_transitive(id, here, later);
                        }
                    }
                } else if j == at {
                    assert(after[i] == before[i]);
                    order_is_total(id, identities@[before[i] as int].account_id@);
                } else {
                    let a = if i < at {
                        i
                    } else {
                        i - 1
                    };
                    let b = if j < at {
                        j
                    } else {
                        j - 1
                    };
                    assert(after[i] == before[a] && after[j] == before[b]);
                }
            }
            assert forall|i: int| 0 <= i < after.len() implies #[trigger] after[i] <= value && after[i]
                < identities@.len() by {
                if i < at {
                    assert(after[i] == before[i]);
                } else if i > at {
                    assert(after[i] == before[i - 1]);
                }
            }
            vstd::seq_lib::to_multiset_insert(before, at as int, value);
            assert(indices@.take(done + 1) =~= indices@.take(done as int).push(value));
            assert(after.to_multiset() =~= indices@.take(done + 1).to_multiset());
        }
        done = done + 1;
    }
    assert(indices@.take(indices@.len() as int) =~= indices@);
    out
}

/// The bytes that the descriptions of the accounts at these places take.
pub open spec fn accounts_cost(indices: Seq<usize>, accounts: Seq<AccountConfig>) -> nat
    decreases indices.len(),
{
    if indices.len() == 0 {
        0
    } else {
        let account = accounts[indices.last() as int];
        accounts_cost(indices.drop_last(), accounts) + 256 + json_text_bytes(account.alias@)
            + json_list_bytes(account.from_identities@)
    }
}

proof fn accounts_cost_grows(indices: Seq<usize>, accounts: Seq<AccountConfig>, count: int)
    requires
        0 <= count <= indices.len(),
    ensures
        accounts_cost(indices.take(count), accounts) <= accounts_cost(indices, accounts),
    decreases indices.len() - count,
{
    if count < indices.len() {
        assert(indices.take(count + 1).drop_last() =~= indices.take(count));
        accounts_cost_grows(indices, accounts, count + 1);
    } else {
        assert(indices.take(count) =~= indices);
    }
}

/// The names of operations, each with the permission that it needs.
pub open spec fn offered(permissions: Seq<Permission>) -> Seq<Seq<char>> {
    seq!["list_accounts"@, "capabilities"@, "health"@] + (if permissions.contains(
        Permission::ListMailboxes,
    ) {
        seq!["list_mailboxes"@]
    } else {
        Seq::empty()
    }) + (if permissions.contains(Permission::SearchMessages) {
        seq!["search_messages"@]
    } else {
        Seq::empty()
    }) + (if permissions.contains(Permission::ReadMessage) {
        seq!["get_message"@]
    } else {
        Seq::empty()
    }) + (if permissions.contains(Permission::ReadAttachment) {
        seq!["list_attachments"@, "get_attachment"@]
    } else {
        Seq::empty()
    })
}

/// The operations that a context may use, in the order in which they are reported.
pub fn operations(context: &RequestContext) -> (r: Vec<String>)
    ensures
        name_views(r@) == offered(context@.permissions),
{
    let mut names: Vec<String> = Vec::new();
    names.push("list_accounts".to_owned());
    names.push("capabilities".to_owned());
    names.push("health".to_owned());
    if context.holds(Permission::ListMailboxes) {
        names.push("list_mailboxes".to_owned());
    }
    if context.holds(Permission::SearchMessages) {
        names.push("search_messages".to_owned());
    }
    if context.holds(Permission::ReadMessage) {
        names.push("get_message".to_owned());
    }
    if context.holds(Permission::ReadAttachment) {
        names.push("list_attachments".to_owned());
        names.push("get_attachment".to_owned());
    }
    assert(name_views(names@) =~= offered(context@.permissions));
    names
}

/// What was last learned of the account, from the observation at `i` on.
pub open spec fn last_seen(observations: Seq<Observation>, id: Seq<char>, i: int) -> Availability
    decreases observations.len() - i,
{
    if !(0 <= i < observations.len()) {
        Availability::Unknown
    } else if observations[i].account_id@ == id {
        observations[i].availability
    } else {
        last_seen(observations, id, i + 1)
    }
}

/// The failure says something about the account and not about the request.
pub open spec fn is_telling(code: ErrorCode) -> bool {
    code is ProviderUnavailable || code is AuthenticationFailed || code is CredentialUnavailable
        || code is TlsFailed
}

/// How many accounts cannot be reached.
pub open spec fn unreachable_count(accounts: Seq<AccountHealth>) -> nat
    decreases accounts.len(),
{
    if accounts.len() == 0 {
        0
    } else {
        unreachable_count(accounts.drop_last()) + (if accounts.last().availability is Unavailable {
            1nat
        } else {
            0nat
        })
    }
}

/// One word for the state of all the accounts together.
pub open spec fn overall(accounts: Seq<AccountHealth>) -> Seq<char> {
    let count = unreachable_count(accounts);
    if count == 0 {
        "ready"@
    } else if count == accounts.len() {
        "unavailable"@
    } else {
        "degraded"@
    }
}

impl Service {
    /// The configuration is valid, and every account has an identity.
    pub open spec fn well_formed(self) -> bool {
        self.config.valid() && self.identities@.len() == self.config.accounts@.len()
    }

    /// Opens a service over a validated configuration.
    pub fn open(config: Config, identities: Vec<Identity>, context_id: u128) -> (r: Result<Self, Error>)
        requires
            identities@.len() == config.accounts@.len(),
        ensures
            match r {
                Ok(service) => {
                    &&& config.valid()
                    &&& service.well_formed()
                    &&& service.config == config
                    &&& service.identities == identities
                    &&& service.context_id == context_id
                    &&& service.observations@.len() == 0
                },
                Err(error) => !config.valid() && error.asks_for_setup(),
            },
    {
        match config.validate() {
            Ok(()) => Ok(Service { config, identities, context_id, observations: Vec::new() }),
            Err(error) => Err(error),
        }
    }

    /// What setup reports of a valid configuration, with the installation and the revision that it
    /// was given.
    pub fn setup(config: &Config, installation_id: String, configuration_revision: String) -> (r:
        Result<Setup, Error>)
        ensures
            match r {
                Ok(setup) => {
                    &&& config.valid()
                    &&& setup.installation_id == installation_id
                    &&& setup.configuration_revision == configuration_revision
                    &&& setup.accounts == config.accounts@.len()
                    &&& setup.grants == config.grants@.len()
                },
                Err(error) => !config.valid() && error.asks_for_setup(),
            },
    {
        match config.validate() {
            Ok(()) => Ok(
                Setup {
                    installation_id,
                    configuration_revision,
                    accounts: config.accounts.len(),
                    grants: config.grants.len(),
                },
            ),
            Err(error) => Err(error),
        }
    }

    /// Why a grant and a narrowing make no context, if they do not.
    pub open spec fn context_refusal(self, name: Seq<char>, narrowing: Narrowing) -> Option<ErrorCode> {
        if first_grant(self.config.grants@, name, 0) is None {
            Some(ErrorCode::PermissionDenied)
        } else if is_excessive(narrowing, self.config.limits) {
            Some(ErrorCode::InvalidRequest)
        } else {
            None
        }
    }

    /// The authority of a request: that of its grant, less what the request gives up.
    pub open spec fn issues(
        self,
        context: RequestContext,
        grant: AccessGrant,
        narrowing: Narrowing,
    ) -> bool {
        &&& context@.service_id == self.context_id
        &&& context@.grant == grant.name@
        &&& context@.account_indices == visible(
            self.config.accounts@,
            grant,
            narrowing,
            self.config.accounts@.len() as int,
        )
        &&& context@.permissions == grant.profile.granted(narrowing.read_only)
        &&& context@.response_limit == grant.limits.envelope_bytes
    }

    pub fn context(&self, grant_name: &str, narrowing: &Narrowing) -> (r: Result<
        RequestContext,
        Error,
    >)
        ensures
            match self.context_refusal(grant_name@, *narrowing) {
                Some(code) => r matches Err(error) && error.reports(code),
                None => r matches Ok(context) && self.issues(
                    context,
                    self.config.grants@[first_grant(self.config.grants@, grant_name@, 0)->0],
                    *narrowing,
                ) && context@.grant == grant_name@ && self.knows(context),
            },
    {
        let at: usize = match find_grant(&self.config.grants, grant_name) {
            Some(at) => at,
            None => {
                return Err(denied());
            },
        };
        if let Some(accounts) = &narrowing.accounts {
            if accounts.len() > self.config.limits.accounts || !short_names(accounts) {
                return Err(Error::new(ErrorCode::InvalidRequest));
            }
        }
        let grant = &self.config.grants[at];
        let mut indices: Vec<usize> = Vec::new();
        for i in 0..self.config.accounts.len()
            invariant
                indices@ == visible(self.config.accounts@, *grant, *narrowing, i as int),
                indices@.len() <= i,
                is_rising(indices@),
                forall|k: int| 0 <= k < indices@.len() ==> #[trigger] indices@[k] < i,
        {
            let account = &self.config.accounts[i];
            if is_listed(&grant.accounts, account.key.as_str()) && narrowing.allows(
                account.alias.as_str(),
            ) {
                indices.push(i);
            }
        }
        Ok(
            RequestContext::new(
                self.context_id,
                grant_name.to_owned(),
                indices,
                grant.profile.permissions(narrowing.read_only),
                grant.limits.envelope_bytes,
            ),
        )
    }

    /// The context was issued by this service, so its accounts are accounts of the configuration.
    pub open spec fn knows(self, context: RequestContext) -> bool {
        &&& context@.account_indices.len() <= self.config.accounts@.len()
        &&& is_rising(context@.account_indices)
        &&& forall|i: int|
            0 <= i < context@.account_indices.len() ==> #[trigger] context@.account_indices[i]
                < self.config.accounts@.len()
    }

    /// The place of the grant behind a context, if the context belongs to this service.
    pub open spec fn grant_of(self, context: RequestContext) -> Option<int> {
        if context@.service_id == self.context_id {
            first_grant(self.config.grants@, context@.grant, 0)
        } else {
            None
        }
    }

    /// The grant behind a context of this service.
    pub fn grant(&self, context: &RequestContext) -> (r: Result<usize, Error>)
        ensures
            match r {
                Ok(at) => self.grant_of(*context) == Some(at as int) && at
                    < self.config.grants@.len(),
                Err(error) => error.reports(ErrorCode::PermissionDenied) && self.grant_of(
                    *context,
                ) is None,
            },
    {
        if !context.belongs_to(self.context_id) {
            return Err(denied());
        }
        match find_grant(&self.config.grants, context.grant_name()) {
            Some(at) => Ok(at),
            None => Err(denied()),
        }
    }

    pub fn limits(&self, context: &RequestContext) -> (r: Result<&Limits, Error>)
        ensures
            match r {
                Ok(limits) => self.grant_of(*context) matches Some(at) && *limits
                    == self.config.grants@[at].limits,
                Err(error) => error.reports(ErrorCode::PermissionDenied) && self.grant_of(
                    *context,
                ) is None,
            },
    {
        match self.grant(context) {
            Ok(at) => Ok(&self.config.grants[at].limits),
            Err(error) => Err(error),
        }
    }

    pub fn availability(&self, account: &str) -> (r: Availability)
        ensures
            r == last_seen(self.observations@, account@, 0),
    {
        let mut i: usize = 0;
        while i < self.observations.len()
            invariant
                i <= self.observations@.len(),
                last_seen(self.observations@, account@, i as int) == last_seen(
                    self.observations@,
                    account@,
                    0,
                ),
            decreases self.observations@.len() - i,
        {
            if same(self.observations[i].account_id.as_str(), account) {
                return self.observations[i].availability;
            }
            i = i + 1;
        }
        Availability::Unknown
    }

    fn note(&mut self, account: &str, availability: Availability)
        ensures
            final(self).config == old(self).config,
            final(self).identities == old(self).identities,
            final(self).context_id == old(self).context_id,
            last_seen(final(self).observations@, account@, 0) == availability,
            forall|other: Seq<char>|
                other != account@ ==> #[trigger] last_seen(final(self).observations@, other, 0)
                    == last_seen(old(self).observations@, other, 0),
    {
        let ghost before = self.observations@;
        let count: usize = self.observations.len();
        let mut i: usize = 0;
        while i < count
            invariant
                *self == *old(self),
                before == self.observations@,
                count == before.len(),
                i <= count,
                forall|k: int| 0 <= k < i ==> (#[trigger] before[k]).account_id@ != account@,
            decreases count - i,
        {
            if same(self.observations[i].account_id.as_str(), account) {
                self.observations.set(
                    i,
                    Observation { account_id: account.to_owned(), availability },
                );
                proof {
                    let after = self.observations@;
                    replaced(before, after, i as int, account@, account@, 0);
                    assert forall|other: Seq<char>| other != account@ implies #[trigger] last_seen(
                        after,
                        other,
                        0,
                    ) == last_seen(before, other, 0) by {
                        replaced(before, after, i as int, account@, other, 0);
                    }
                }
                return;
            }
            i = i + 1;
        }
        self.observations.push(Observation { account_id: account.to_owned(), availability });
        proof {
            let after = self.observations@;
            replaced(before, after, count as int, account@, account@, 0);
            assert forall|other: Seq<char>| other != account@ implies #[trigger] last_seen(
                after,
                other,
                0,
            ) == last_seen(before, other, 0) by {
                replaced(before, after, count as int, account@, other, 0);
            }
        }
    }

    /// Learns from the outcome of an operation on an account: success shows that it can be reached, and
    /// a telling failure that it cannot.
    pub fn observe(&mut self, account: &str, failure: Option<ErrorCode>)
        ensures
            final(self).config == old(self).config,
            final(self).identities == old(self).identities,
            final(self).context_id == old(self).context_id,
            last_seen(final(self).observations@, account@, 0) == (match failure {
                None => Availability::Available,
                Some(code) => if is_telling(code) {
                    Availability::Unavailable
                } else {
                    last_seen(old(self).observations@, account@, 0)
                },
            }),
            forall|other: Seq<char>|
                other != account@ ==> #[trigger] last_seen(final(self).observations@, other, 0)
                    == last_seen(old(self).observations@, other, 0),
    {
        match failure {
            None => {
                self.note(account, Availability::Available);
            },
            Some(code) => {
                if code == ErrorCode::ProviderUnavailable || code == ErrorCode::AuthenticationFailed
                    || code == ErrorCode::CredentialUnavailable || code == ErrorCode::TlsFailed {
                    self.note(account, Availability::Unavailable);
                }
            },
        }
    }

    /// Capacity that one process offers within the limits.
    pub fn capacity(limits: &Limits) -> (r: Capacity)
        ensures
            r == (Capacity {
                isolation: None,
                per_process: ProcessCapacity {
                    active_requests: limits.active_requests as u64,
                    queued_requests: limits.queued_requests as u64,
                    buffered_bytes: limits.buffered_bytes as u64,
                },
            }),
    {
        Capacity {
            isolation: None,
            per_process: ProcessCapacity {
                active_requests: limits.active_requests as u64,
                queued_requests: limits.queued_requests as u64,
                buffered_bytes: limits.buffered_bytes as u64,
            },
        }
    }

    /// The health of the account at a place of the configuration.
    pub open spec fn reports_health(self, health: AccountHealth, index: usize) -> bool {
        &&& health.account_id@ == self.identities@[index as int].account_id@
        &&& health.generation == self.identities@[index as int].generation
        &&& health.availability == last_seen(
            self.observations@,
            self.identities@[index as int].account_id@,
            0,
        )
    }

    /// What a question for the health of the accounts is answered.
    pub open spec fn answers_health(self, context: RequestContext, r: Result<Health, Error>) -> bool {
        match r {
            Ok(health) => {
                &&& 256 + 160 * context@.account_indices.len() <= context@.response_limit - 512
                &&& exists|order: Seq<usize>|
                    {
                        &&& #[trigger] order.to_multiset()
                            == context@.account_indices.to_multiset()
                        &&& is_by_identity(order, self.identities@)
                        &&& health.accounts@.len() == order.len()
                        &&& forall|i: int|
                            0 <= i < order.len() ==> self.reports_health(
                                #[trigger] health.accounts@[i],
                                order[i],
                            )
                    }
                &&& health.status@ == overall(health.accounts@)
                &&& health.listener@ == context@.grant
            },
            Err(error) => error.reports(ErrorCode::ResponseTooLarge) && 256 + 160
                * context@.account_indices.len() > context@.response_limit - 512,
        }
    }

    /// The health of the accounts of a context, in the order of their identities.
    fn health(&self, context: &RequestContext) -> (r: Result<Health, Error>)
        requires
            self.well_formed(),
            self.knows(*context),
        ensures
            self.answers_health(*context, r),
    {
        let room: usize = if context.response_limit() < 512 {
            0
        } else {
            context.response_limit() - 512
        };
        let count: usize = context.account_indices().len();
        if 256 + 160 * count > room {
            return Err(Error::new(ErrorCode::ResponseTooLarge));
        }
        let order = by_identity(context.account_indices(), &self.identities);
        let mut accounts: Vec<AccountHealth> = Vec::new();
        let mut failed: usize = 0;
        for i in 0..order.len()
            invariant
                self.well_formed(),
                forall|k: int| 0 <= k < order@.len() ==> #[trigger] order@[k] < self.identities@.len(),
                accounts@.len() == i,
                failed == unreachable_count(accounts@),
                failed <= i,
                forall|k: int|
                    0 <= k < i ==> self.reports_health(#[trigger] accounts@[k], order@[k]),
        {
            let identity = &self.identities[order[i]];
            let availability = self.availability(identity.account_id.as_str());
            let ghost before = accounts@;
            if availability == Availability::Unavailable {
                failed = failed + 1;
            }
            accounts.push(
                AccountHealth {
                    account_id: identity.account_id.clone(),
                    generation: identity.generation,
                    availability,
                },
            );
            assert(accounts@.drop_last() =~= before);
        }
        let status = if failed == 0 {
            "ready".to_owned()
        } else if failed == accounts.len() {
            "unavailable".to_owned()
        } else {
            "degraded".to_owned()
        };
        Ok(Health { status, listener: context.grant_name().to_owned(), accounts })
    }

    /// What a caller is told of the account at a place of the configuration.
    pub open spec fn describes(self, account: Account, index: usize, context: RequestContext) -> bool {
        let configured = self.config.accounts@[index as int];
        &&& account.alias@ == configured.alias@
        &&& account.account_id@ == self.identities@[index as int].account_id@
        &&& account.generation == self.identities@[index as int].generation
        &&& name_views(account.from_identities@) == name_views(configured.from_identities@)
        &&& name_views(account.capabilities@) == offered(context@.permissions)
        &&& account.availability == last_seen(
            self.observations@,
            self.identities@[index as int].account_id@,
            0,
        )
    }

    /// The list that is made of the accounts in this order, or the refusal of one that is too large.
    pub open spec fn lists(
        self,
        context: RequestContext,
        order: Seq<usize>,
        limit: usize,
        r: Result<AccountDiscovery, Error>,
    ) -> bool {
        match r {
            Ok(found) => {
                &&& self.fits(order, limit, context)
                &&& found.complete == (order.len() <= limit)
                &&& found.accounts@.len() == least(order.len(), limit as nat)
                &&& forall|i: int|
                    0 <= i < found.accounts@.len() ==> self.describes(
                        #[trigger] found.accounts@[i],
                        order[i],
                        context,
                    )
            },
            Err(error) => !self.fits(order, limit, context) && error.reports(
                ErrorCode::ResponseTooLarge,
            ),
        }
    }

    /// What a question for the accounts is answered.
    pub open spec fn answers_accounts(
        self,
        context: RequestContext,
        input: ListAccountsInput,
        r: Result<AccountDiscovery, Error>,
    ) -> bool {
        match self.grant_of(context) {
            None => r matches Err(error) && error.reports(ErrorCode::PermissionDenied),
            Some(at) => {
                let most = self.config.grants@[at].limits.accounts;
                let limit = match input.limit {
                    Some(limit) => limit,
                    None => most,
                };
                if 1 <= limit <= most {
                    exists|order: Seq<usize>|
                        {
                            &&& #[trigger] order.to_multiset()
                                == context@.account_indices.to_multiset()
                            &&& is_by_identity(order, self.identities@)
                            &&& self.lists(context, order, limit, r)
                        }
                } else {
                    r matches Err(error) && error.reports(ErrorCode::InvalidRequest)
                }
            },
        }
    }

    /// The accounts of a context in the order of their identities, at most as many as are asked for.
    pub fn list_accounts(&self, context: &RequestContext, input: ListAccountsInput) -> (r: Result<
        AccountDiscovery,
        Error,
    >)
        requires
            self.well_formed(),
            self.grant_of(*context) is Some ==> self.knows(*context),
        ensures
            self.answers_accounts(*context, input, r),
    {
        let at: usize = match self.grant(context) {
            Ok(at) => at,
            Err(error) => {
                return Err(error);
            },
        };
        let most: usize = self.config.grants[at].limits.accounts;
        let limit: usize = match input.limit {
            Some(limit) => limit,
            None => most,
        };
        proof {
            assert(self.config.grants@[at as int].valid(self.config.limits, self.config.accounts@));
        }
        if limit == 0 || limit > most {
            return Err(Error::new(ErrorCode::InvalidRequest));
        }
        let order = by_identity(context.account_indices(), &self.identities);
        let complete = order.len() <= limit;
        let shown: usize = if order.len() <= limit {
            order.len()
        } else {
            limit
        };
        let ghost first = order@.take(shown as int);
        let room: usize = if context.response_limit() < 512 {
            0
        } else {
            context.response_limit() - 512
        };
        let mut budget = OutputBudget::new(room);
        match budget.reserve(32) {
            Ok(()) => {},
            Err(error) => {
                assert(!self.fits(order@, limit, *context));
                return Err(error);
            },
        }
        for i in 0..shown
            invariant
                self.well_formed(),
                shown <= order@.len(),
                first == order@.take(shown as int),
                shown == least(order@.len(), limit as nat),
                order@.to_multiset() == context@.account_indices.to_multiset(),
                is_by_identity(order@, self.identities@),
                room == (if context@.response_limit < 512 {
                    0int
                } else {
                    context@.response_limit - 512
                }),
                forall|k: int| 0 <= k < order@.len() ==> #[trigger] order@[k] < self.identities@.len(),
                budget.remaining == room - 32 - accounts_cost(
                    first.take(i as int),
                    self.config.accounts@,
                ),
                32 + accounts_cost(first.take(i as int), self.config.accounts@) <= room,
                self.grant_of(*context) == Some(at as int),
                1 <= limit <= self.config.grants@[at as int].limits.accounts,
                limit == (match input.limit {
                    Some(limit) => limit,
                    None => self.config.grants@[at as int].limits.accounts,
                }),
        {
            assert(first.take(i + 1).drop_last() =~= first.take(i as int));
            proof {
                accounts_cost_grows(first, self.config.accounts@, i + 1);
            }
            let account = &self.config.accounts[order[i]];
            let failure = match budget.reserve(256) {
                Ok(()) => match budget.reserve(json_text_size(account.alias.as_str())) {
                    Ok(()) => match budget.reserve(json_list_size(&account.from_identities)) {
                        Ok(()) => None,
                        Err(error) => Some(error),
                    },
                    Err(error) => Some(error),
                },
                Err(error) => Some(error),
            };
            if let Some(error) = failure {
                assert(!self.fits(order@, limit, *context));
                return Err(error);
            }
        }
        assert(first.take(shown as int) =~= first);
        assert(self.fits(order@, limit, *context));
        let mut accounts: Vec<Account> = Vec::new();
        for i in 0..shown
            invariant
                self.well_formed(),
                shown <= order@.len(),
                forall|k: int| 0 <= k < order@.len() ==> #[trigger] order@[k] < self.identities@.len(),
                accounts@.len() == i,
                forall|k: int|
                    0 <= k < i ==> self.describes(#[trigger] accounts@[k], order@[k], *context),
        {
            let account = &self.config.accounts[order[i]];
            let identity = &self.identities[order[i]];
            accounts.push(
                Account {
                    alias: account.alias.clone(),
                    account_id: identity.account_id.clone(),
                    generation: identity.generation,
                    from_identities: crate::policy::copy_names(&account.from_identities),
                    capabilities: operations(context),
                    availability: self.availability(identity.account_id.as_str()),
                },
            );
        }
        Ok(AccountDiscovery { accounts, complete })
    }

    /// The descriptions of the first `limit` accounts in this order fit into a response.
    pub open spec fn fits(self, order: Seq<usize>, limit: usize, context: RequestContext) -> bool {
        32 + accounts_cost(
            order.take(least(order.len(), limit as nat) as int),
            self.config.accounts@,
        ) <= context@.response_limit - 512
    }

    /// What a question for the capabilities is answered.
    pub open spec fn answers_capabilities(
        self,
        context: RequestContext,
        r: Result<Capabilities, Error>,
    ) -> bool {
        match self.grant_of(context) {
            None => r matches Err(error) && error.reports(ErrorCode::PermissionDenied),
            Some(at) => match r {
                Ok(capabilities) => {
                    let limits = self.config.grants@[at].limits;
                    &&& name_views(capabilities.operations@) == offered(context@.permissions)
                    &&& capabilities.permissions@ == context@.permissions
                    &&& self.answers_health(context, Ok(capabilities.health))
                    &&& capabilities.capacity == (Capacity {
                        isolation: None,
                        per_process: ProcessCapacity {
                            active_requests: limits.active_requests as u64,
                            queued_requests: limits.queued_requests as u64,
                            buffered_bytes: limits.buffered_bytes as u64,
                        },
                    })
                },
                Err(error) => self.answers_health(context, Err(error)),
            },
        }
    }

    /// What the caller may do, and how its accounts fare.
    pub fn capabilities(&self, context: &RequestContext) -> (r: Result<Capabilities, Error>)
        requires
            self.well_formed(),
            self.grant_of(*context) is Some ==> self.knows(*context),
        ensures
            self.answers_capabilities(*context, r),
    {
        let at: usize = match self.grant(context) {
            Ok(at) => at,
            Err(error) => {
                return Err(error);
            },
        };
        let health = match self.health(context) {
            Ok(health) => health,
            Err(error) => {
                return Err(error);
            },
        };
        let permissions = context.permissions().clone();
        assert(permissions@ =~= context@.permissions);
        Ok(
            Capabilities {
                operations: operations(context),
                permissions,
                health,
                capacity: Service::capacity(&self.config.grants[at].limits),
            },
        )
    }

    /// Routes an operation: those about the service itself are answered here, the rest by a provider. A
    /// context of another service and a changed configuration are refused first.
    pub fn dispatch(&self, context: &RequestContext, operation: &Operation, stale: Option<Error>) -> (r:
        Result<Dispatch, Error>)
        requires
            self.well_formed(),
            self.grant_of(*context) is Some ==> self.knows(*context),
        ensures
            if self.grant_of(*context) is None {
                r matches Err(error) && error.reports(ErrorCode::PermissionDenied)
            } else if stale is Some {
                r == Err::<Dispatch, Error>(stale->0)
            } else {
                match operation {
                    Operation::ListAccounts(input) => match r {
                        Ok(Dispatch::Answer(OperationResult::Accounts(found))) =>
                            self.answers_accounts(*context, *input, Ok(found)),
                        Err(error) => self.answers_accounts(*context, *input, Err(error)),
                        _ => false,
                    },
                    Operation::Capabilities => match r {
                        Ok(Dispatch::Answer(OperationResult::Capabilities(found))) =>
                            self.answers_capabilities(*context, Ok(found)),
                        Err(error) => self.answers_capabilities(*context, Err(error)),
                        _ => false,
                    },
                    Operation::Health => match r {
                        Ok(Dispatch::Answer(OperationResult::Health(found))) => self.answers_health(
                            *context,
                            Ok(found),
                        ),
                        Err(error) => self.answers_health(*context, Err(error)),
                        _ => false,
                    },
                    _ => r matches Ok(Dispatch::Provider),
                }
            },
    {
        match self.grant(context) {
            Ok(_) => {},
            Err(error) => {
                return Err(error);
            },
        }
        if let Some(error) = stale {
            return Err(error);
        }
        match operation {
            Operation::ListAccounts(input) => match self.list_accounts(context, *input) {
                Ok(found) => Ok(Dispatch::Answer(OperationResult::Accounts(found))),
                Err(error) => Err(error),
            },
            Operation::Capabilities => match self.capabilities(context) {
                Ok(found) => Ok(Dispatch::Answer(OperationResult::Capabilities(found))),
                Err(error) => Err(error),
            },
            Operation::Health => match self.health(context) {
                Ok(found) => Ok(Dispatch::Answer(OperationResult::Health(found))),
                Err(error) => Err(error),
            },
            _ => Ok(Dispatch::Provider),
        }
    }

    /// Accepts a result of so many bytes for a context, with 512 bytes kept for what goes around it.
    pub fn check_result(context: &RequestContext, size: usize) -> (r: Result<(), Error>)
        ensures
            match r {
                Ok(()) => size <= room_of(context@.response_limit),
                Err(error) => error.reports(ErrorCode::ResponseTooLarge) && size > room_of(
                    context@.response_limit,
                ),
            },
    {
        let room: usize = context.response_limit().saturating_sub(512);
        if size > room {
            return Err(Error::new(ErrorCode::ResponseTooLarge));
        }
        Ok(())
    }

    /// The bytes that the entries of the accounts of a context take in a discovery.
    pub open spec fn discovery_size(self, indices: Seq<usize>) -> nat
        decreases indices.len(),
    {
        if indices.len() == 0 {
            2048
        } else {
            let account = self.config.accounts@[indices.last() as int];
            self.discovery_size(indices.drop_last()) + 512 + json_text_bytes(account.alias@)
                + json_list_bytes(account.from_identities@)
        }
    }

    /// The bytes that the largest page of the mailboxes of one account takes.
    pub open spec fn page_size(self, index: usize, grant: AccessGrant) -> nat {
        let sizes = from_largest(
            mailbox_entries(self.config.accounts@[index as int].mailboxes@, grant),
        );
        2048 + grant.limits.token_bytes as nat + sum(
            sizes.take(least(sizes.len(), grant.limits.mailbox_page as nat) as int),
        )
    }

    /// The largest of a size and of the pages of the accounts at these places, up to a ceiling.
    pub open spec fn largest_page(
        self,
        indices: Seq<usize>,
        grant: AccessGrant,
        maximum: usize,
        size: usize,
    ) -> usize
        decreases indices.len(),
    {
        if indices.len() == 0 {
            size
        } else {
            let rest = self.largest_page(indices.drop_last(), grant, maximum, size);
            let page = least(maximum as nat, self.page_size(indices.last(), grant)) as usize;
            if page > rest {
                page
            } else {
                rest
            }
        }
    }

    /// The bytes that the answers of a context may take: all that its grant allows where messages can be
    /// searched, and otherwise what the labels of its accounts and mailboxes can grow to.
    pub open spec fn bound(self, context: RequestContext, grant: AccessGrant) -> usize {
        let maximum = if grant.limits.envelope_bytes < context@.response_limit {
            grant.limits.envelope_bytes
        } else {
            context@.response_limit
        };
        let discovery = least(
            maximum as nat,
            self.discovery_size(context@.account_indices),
        ) as usize;
        if context@.permissions.contains(Permission::SearchMessages) {
            maximum
        } else if context@.permissions.contains(Permission::ListMailboxes) {
            self.largest_page(context@.account_indices, grant, maximum, discovery)
        } else {
            discovery
        }
    }

    /// Bound the discovery envelopes of a context without cloning labels.
    pub fn response_bound(&self, context: &RequestContext) -> (r: Result<usize, Error>)
        requires
            self.well_formed(),
            self.grant_of(*context) is Some ==> self.knows(*context),
        ensures
            match r {
                Ok(bound) => self.grant_of(*context) matches Some(at) && bound == self.bound(
                    *context,
                    self.config.grants@[at],
                ),
                Err(error) => error.reports(ErrorCode::PermissionDenied) && self.grant_of(
                    *context,
                ) is None,
            },
    {
        let at: usize = match self.grant(context) {
            Ok(at) => at,
            Err(error) => {
                return Err(error);
            },
        };
        let grant = &self.config.grants[at];
        let maximum: usize = if grant.limits.envelope_bytes < context.response_limit() {
            grant.limits.envelope_bytes
        } else {
            context.response_limit()
        };
        if context.holds(Permission::SearchMessages) {
            return Ok(maximum);
        }
        let indices = context.account_indices();
        let mut size: usize = if maximum < 2048 {
            maximum
        } else {
            2048
        };
        for i in 0..indices.len()
            invariant
                self.well_formed(),
                self.knows(*context),
                indices@ == context@.account_indices,
                size == least(maximum as nat, self.discovery_size(indices@.take(i as int))),
        {
            assert(indices@.take(i + 1).drop_last() =~= indices@.take(i as int));
            assert(indices@.take(i + 1).last() == indices@[i as int]);
            let account = &self.config.accounts[indices[i]];
            // Covers account identity, generation, operation names and envelope fields;
            // capability/health entries are smaller than this discovery entry.
            let added: usize = 512usize.saturating_add(
                json_text_size(account.alias.as_str()),
            ).saturating_add(json_list_size(&account.from_identities));
            let total: usize = size.saturating_add(added);
            size = if total < maximum {
                total
            } else {
                maximum
            };
        }
        assert(indices@.take(indices@.len() as int) =~= indices@);
        if context.holds(Permission::ListMailboxes) {
            let ghost start = size;
            for i in 0..indices.len()
                invariant
                    self.well_formed(),
                    self.knows(*context),
                    indices@ == context@.account_indices,
                    size == self.largest_page(indices@.take(i as int), *grant, maximum, start),
            {
                assert(indices@.take(i + 1).drop_last() =~= indices@.take(i as int));
                assert(indices@.take(i + 1).last() == indices@[i as int]);
                let page: usize = mailbox_page(&self.config.accounts[indices[i]].mailboxes, grant);
                let page: usize = if page < maximum {
                    page
                } else {
                    maximum
                };
                if page > size {
                    size = page;
                }
            }
        }
        Ok(size)
    }
}

/// The bytes of a response less what goes around a result.
pub open spec fn room_of(limit: usize) -> usize {
    if limit < 512 {
        0
    } else {
        (limit - 512) as usize
    }
}

/// Where an operation is carried out.
#[derive(Debug)]
pub enum Dispatch {
    Answer(OperationResult),
    Provider,
}

/// The mailbox is one of those that the grant names.
pub open spec fn is_granted(name: Seq<char>, mailboxes: Seq<String>) -> bool {
    exists|i: int|
        0 <= i < mailboxes.len() && identity_of((#[trigger] mailboxes[i])@) == identity_of(name)
}

/// The bytes of one entry of a mailbox page.
pub open spec fn entry_size(name: Seq<char>, grant: AccessGrant) -> usize {
    clamped(2048 + grant.limits.token_bytes as nat + 12 * utf8_len(name))
}

/// The sizes of the entries of the granted mailboxes.
pub open spec fn mailbox_entries(mailboxes: Seq<String>, grant: AccessGrant) -> Seq<usize>
    decreases mailboxes.len(),
{
    if mailboxes.len() == 0 {
        Seq::empty()
    } else if is_granted(mailboxes.last()@, grant.mailboxes@) {
        mailbox_entries(mailboxes.drop_last(), grant).push(
            entry_size(mailboxes.last()@, grant),
        )
    } else {
        mailbox_entries(mailboxes.drop_last(), grant)
    }
}

/// The values from the largest to the smallest.
pub open spec fn from_largest(values: Seq<usize>) -> Seq<usize> {
    values.sort_by(|a: usize, b: usize| a >= b)
}

fn granted(name: &str, mailboxes: &Vec<String>) -> (r: bool)
    ensures
        r == is_granted(name@, mailboxes@),
{
    let wanted = mailbox_identity(name);
    for i in 0..mailboxes.len()
        invariant
            wanted@ == identity_of(name@),
            forall|j: int|
                0 <= j < i ==> identity_of((#[trigger] mailboxes@[j])@) != identity_of(name@),
    {
        let here = mailbox_identity(mailboxes[i].as_str());
        if same(here.as_str(), wanted.as_str()) {
            assert(identity_of(mailboxes@[i as int]@) == identity_of(name@));
            return true;
        }
    }
    false
}

/// Puts a value behind all that are at least as large.
fn insert_size(sizes: &mut Vec<usize>, value: usize)
    requires
        forall|i: int, j: int| 0 <= i < j < old(sizes)@.len() ==> old(sizes)@[i] >= old(sizes)@[j],
    ensures
        forall|i: int, j: int|
            0 <= i < j < final(sizes)@.len() ==> final(sizes)@[i] >= final(sizes)@[j],
        final(sizes)@.to_multiset() == old(sizes)@.to_multiset().insert(value),
{
    let ghost before = sizes@;
    let mut at: usize = 0;
    while at < sizes.len() && sizes[at] >= value
        invariant
            at <= sizes@.len(),
            sizes@ == before,
            forall|k: int| 0 <= k < at ==> before[k] >= value,
        decreases sizes@.len() - at,
    {
        at = at + 1;
    }
    sizes.insert(at, value);
    proof {
        let after = sizes@;
        assert(after =~= before.insert(at as int, value));
        vstd::seq_lib::to_multiset_insert(before, at as int, value);
        assert forall|i: int, j: int| 0 <= i < j < after.len() implies after[i] >= after[j] by {
            let a = if i < at {
                i
            } else {
                i - 1
            };
            let b = if j < at {
                j
            } else {
                j - 1
            };
            if i == at {
                assert(after[j] == before[j - 1]);
                assert(before[at as int] < value);
                if j - 1 > at {
                    assert(before[at as int] >= before[j - 1]);
                }
            } else if j == at {
                assert(after[i] == before[i]);
            } else {
                assert(after[i] == before[a] && after[j] == before[b]);
                assert(before[a] >= before[b]);
            }
        }
    }
}

/// The bytes that the largest page of these mailboxes takes.
fn mailbox_page(mailboxes: &Vec<String>, grant: &AccessGrant) -> (r: usize)
    ensures
        r == clamped(
            ({
                let sizes = from_largest(mailbox_entries(mailboxes@, *grant));
                2048 + grant.limits.token_bytes as nat + sum(
                    sizes.take(least(sizes.len(), grant.limits.mailbox_page as nat) as int),
                )
            }),
        ),
{
    broadcast use vstd::seq_lib::group_to_multiset_ensures;

    let mut sizes: Vec<usize> = Vec::new();
    assert(mailboxes@.take(0) =~= Seq::<String>::empty());
    assert(sizes@ =~= mailbox_entries(mailboxes@.take(0), *grant));
    for i in 0..mailboxes.len()
        invariant
            forall|a: int, b: int| 0 <= a < b < sizes@.len() ==> sizes@[a] >= sizes@[b],
            sizes@.to_multiset() == mailbox_entries(mailboxes@.take(i as int), *grant).to_multiset(),
    {
        broadcast use vstd::seq_lib::group_to_multiset_ensures;

        assert(mailboxes@.take(i + 1).drop_last() =~= mailboxes@.take(i as int));
        assert(mailboxes@.take(i + 1).last() == mailboxes@[i as int]);
        let name = mailboxes[i].as_str();
        if granted(name, &grant.mailboxes) {
            let escaped: usize = match byte_len(name).checked_mul(12) {
                Some(escaped) => escaped,
                None => usize::MAX,
            };
            let entry: usize = 2048usize.saturating_add(grant.limits.token_bytes).saturating_add(
                escaped,
            );
            insert_size(&mut sizes, entry);
            assert(mailbox_entries(mailboxes@.take(i + 1), *grant) =~= mailbox_entries(
                mailboxes@.take(i as int),
                *grant,
            ).push(entry));
        }
    }
    assert(mailboxes@.take(mailboxes@.len() as int) =~= mailboxes@);
    let ghost entries = mailbox_entries(mailboxes@, *grant);
    proof {
        let leq = |a: usize, b: usize| a >= b;
        entries.lemma_sort_by_ensures(leq);
        vstd::seq_lib::lemma_sorted_unique(sizes@, from_largest(entries), leq);
    }
    let taken: usize = if sizes.len() < grant.limits.mailbox_page {
        sizes.len()
    } else {
        grant.limits.mailbox_page
    };
    let mut total: usize = 2048usize.saturating_add(grant.limits.token_bytes);
    for i in 0..taken
        invariant
            taken <= sizes@.len(),
            total == clamped(
                2048 + grant.limits.token_bytes as nat + sum(sizes@.take(i as int)),
            ),
    {
        assert(sizes@.take(i + 1).drop_last() =~= sizes@.take(i as int));
        total = total.saturating_add(sizes[i]);
    }
    total
}

pub open spec fn sum(values: Seq<usize>) -> nat
    decreases values.len(),
{
    if values.len() == 0 {
        0
    } else {
        sum(values.drop_last()) + values.last() as nat
    }
}

/// Writing an observation at the first place of its account changes what is said of that account alone.
proof fn replaced(
    before: Seq<Observation>,
    after: Seq<Observation>,
    at: int,
    id: Seq<char>,
    other: Seq<char>,
    i: int,
)
    requires
        0 <= i <= at <= before.len(),
        after.len() == before.len() || (at == before.len() && after.len() == at + 1),
        at < after.len(),
        forall|k: int| 0 <= k < before.len() && k != at ==> after[k] == before[k],
        after[at].account_id@ == id,
        at < before.len() ==> before[at].account_id@ == id,
        forall|k: int| 0 <= k < at ==> (#[trigger] before[k]).account_id@ != id,
    ensures
        other == id ==> last_seen(after, other, i) == after[at].availability,
        other != id ==> last_seen(after, other, i) == last_seen(before, other, i),
    decreases at - i,
{
    if i < at {
        assert(before[i].account_id@ != id);
        replaced(before, after, at, id, other, i + 1);
    } else if other != id {
        if at < before.len() {
            same_from(before, after, other, at + 1);
        }
    }
}

proof fn same_from(before: Seq<Observation>, after: Seq<Observation>, other: Seq<char>, i: int)
    requires
        0 <= i,
        after.len() == before.len(),
        forall|k: int| i <= k < before.len() ==> after[k] == before[k],
    ensures
        last_seen(after, other, i) == last_seen(before, other, i),
    decreases before.len() - i,
{
    if i < before.len() {
        same_from(before, after, other, i + 1);
    }
}

pub open spec fn least(a: nat, b: nat) -> nat {
    if a <= b {
        a
    } else {
        b
    }
}

/// The order in which accounts are shown leaves no choice: two lists of the same places in that order
/// are equal.
pub proof fn the_order_is_fixed(one: Seq<usize>, other: Seq<usize>, identities: Seq<Identity>)
    requires
        one.to_multiset() == other.to_multiset(),
        is_by_identity(one, identities),
        is_by_identity(other, identities),
    ensures
        one == other,
{
    let up_to = |a: usize, b: usize| a == b || is_shown_first(identities, a, b);
    assert forall|a: usize, b: usize| #[trigger] up_to(a, b) && #[trigger] up_to(b, a) implies a
        == b by {
        let (x, y) = (identities[a as int].account_id@, identities[b as int].account_id@);
        order_is_irreflexive(x);
        if precedes(x, y) && precedes(y, x) {
            order_is_transitive(x, y, x);
        }
    }
    assert forall|a: usize, b: usize| #[trigger] up_to(a, b) || #[trigger] up_to(b, a) by {
        order_is_total(identities[a as int].account_id@, identities[b as int].account_id@);
    }
    assert forall|a: usize, b: usize, c: usize| #[trigger] up_to(a, b) && #[trigger] up_to(
        b,
        c,
    ) implies up_to(a, c) by {
        let x = identities[a as int].account_id@;
        let y = identities[b as int].account_id@;
        let z = identities[c as int].account_id@;
        if precedes(x, y) && precedes(y, z) {
            order_is_transitive(x, y, z);
        }
    }
    assert(vstd::relations::total_ordering(up_to));
    assert(vstd::relations::sorted_by(one, up_to));
    assert(vstd::relations::sorted_by(other, up_to));
    vstd::seq_lib::lemma_sorted_unique(one, other, up_to);
}

/// A context reaches an account only through its grant and its narrowing.
pub proof fn contexts_stay_within_their_grant(
    accounts: Seq<AccountConfig>,
    grant: AccessGrant,
    narrowing: Narrowing,
    count: int,
    index: usize,
)
    requires
        0 <= count <= accounts.len(),
        accounts.len() <= usize::MAX,
        visible(accounts, grant, narrowing, count).contains(index),
    ensures
        index < count,
        listed(grant.accounts@, accounts[index as int].key@),
        narrowing.lets_through(accounts[index as int].alias@),
    decreases count,
{
    if count > 0 {
        let rest = visible(accounts, grant, narrowing, count - 1);
        if rest.contains(index) {
            contexts_stay_within_their_grant(accounts, grant, narrowing, count - 1, index);
        } else {
            let all = visible(accounts, grant, narrowing, count);
            let k = choose|k: int| 0 <= k < all.len() && all[k] == index;
            if k < rest.len() {
                assert(rest[k] == index);
            }
        }
    }
}

/// Which operations are offered: three to everybody, and the others to those who may use them.
pub proof fn permissions_decide_what_is_offered(permissions: Seq<Permission>)
    ensures
        ({
            let list = offered(permissions);
            &&& list.contains("list_accounts"@) && list.contains("capabilities"@) && list.contains("health"@)
            &&& permissions.contains(Permission::ListMailboxes) ==> list.contains("list_mailboxes"@)
            &&& permissions.contains(Permission::SearchMessages) ==> list.contains("search_messages"@)
            &&& permissions.contains(Permission::ReadMessage) ==> list.contains("get_message"@)
            &&& permissions.contains(Permission::ReadAttachment) ==> list.contains("list_attachments"@)
                && list.contains("get_attachment"@)
            &&& list.len() == 3 + (if permissions.contains(Permission::ListMailboxes) {
                1int
            } else {
                0
            }) + (if permissions.contains(Permission::SearchMessages) {
                1int
            } else {
                0
            }) + (if permissions.contains(Permission::ReadMessage) {
                1int
            } else {
                0
            }) + (if permissions.contains(Permission::ReadAttachment) {
                2int
            } else {
                0
            })
        }),
{
    let list = offered(permissions);
    assert(list[0] == "list_accounts"@ && list[1] == "capabilities"@ && list[2] == "health"@);
    let n1: int = if permissions.contains(Permission::ListMailboxes) {
        1
    } else {
        0
    };
    let n2: int = n1 + if permissions.contains(Permission::SearchMessages) {
        1int
    } else {
        0
    };
    let n3: int = n2 + if permissions.contains(Permission::ReadMessage) {
        1int
    } else {
        0
    };
    if permissions.contains(Permission::ListMailboxes) {
        assert(list[3] == "list_mailboxes"@);
    }
    if permissions.contains(Permission::SearchMessages) {
        assert(list[3 + n1] == "search_messages"@);
    }
    if permissions.contains(Permission::ReadMessage) {
        assert(list[3 + n2] == "get_message"@);
    }
    if permissions.contains(Permission::ReadAttachment) {
        assert(list[3 + n3] == "list_attachments"@);
        assert(list[4 + n3] == "get_attachment"@);
    }
}

/// A grant is found by its name, the first of that name.
pub proof fn the_first_grant_of_a_name_is_found(grants: Seq<AccessGrant>, name: Seq<char>, i: int)
    requires
        0 <= i,
    ensures
        match first_grant(grants, name, i) {
            Some(at) => i <= at < grants.len() && grants[at].name@ == name && forall|k: int|
                i <= k < at ==> (#[trigger] grants[k]).name@ != name,
            None => forall|k: int| i <= k < grants.len() ==> (#[trigger] grants[k]).name@ != name,
        },
    decreases grants.len() - i,
{
    if i < grants.len() && grants[i].name@ != name {
        the_first_grant_of_a_name_is_found(grants, name, i + 1);
    }
}

/// Every account that a grant names and the request lets through is seen, each once and in the order of
/// the configuration.
pub proof fn granted_accounts_are_seen(
    accounts: Seq<AccountConfig>,
    grant: AccessGrant,
    narrowing: Narrowing,
    count: int,
    index: usize,
)
    requires
        0 <= count <= accounts.len(),
        accounts.len() <= usize::MAX,
        index < count,
        listed(grant.accounts@, accounts[index as int].key@),
        narrowing.lets_through(accounts[index as int].alias@),
    ensures
        visible(accounts, grant, narrowing, count).contains(index),
    decreases count,
{
    let list = visible(accounts, grant, narrowing, count);
    if index == count - 1 {
        assert(list.last() == index);
        assert(list[list.len() - 1] == index);
    } else {
        granted_accounts_are_seen(accounts, grant, narrowing, count - 1, index);
        let before = visible(accounts, grant, narrowing, count - 1);
        let i = choose|i: int| 0 <= i < before.len() && before[i] == index;
        assert(list[i] == index);
    }
}

/// A service is ready where no account is out of reach, unavailable where every one of them is and there
/// is one, and degraded otherwise.
pub proof fn health_is_told_of_all(accounts: Seq<AccountHealth>)
    ensures
        (forall|i: int| 0 <= i < accounts.len() ==> !((#[trigger] accounts[i]).availability is Unavailable))
            ==> overall(accounts) == "ready"@,
        accounts.len() > 0 && (forall|i: int|
            0 <= i < accounts.len() ==> (#[trigger] accounts[i]).availability is Unavailable) ==> overall(accounts)
            == "unavailable"@,
        (exists|i: int| 0 <= i < accounts.len() && (#[trigger] accounts[i]).availability is Unavailable) && (exists|
            i: int,
        |
            0 <= i < accounts.len() && !((#[trigger] accounts[i]).availability is Unavailable)) ==> overall(accounts)
            == "degraded"@,
{
    unreachable_accounts_are_counted(accounts);
}

proof fn unreachable_accounts_are_counted(accounts: Seq<AccountHealth>)
    ensures
        unreachable_count(accounts) <= accounts.len(),
        unreachable_count(accounts) == 0 <==> (forall|i: int|
            0 <= i < accounts.len() ==> !((#[trigger] accounts[i]).availability is Unavailable)),
        unreachable_count(accounts) == accounts.len() <==> (forall|i: int|
            0 <= i < accounts.len() ==> (#[trigger] accounts[i]).availability is Unavailable),
    decreases accounts.len(),
{
    if accounts.len() > 0 {
        let shorter = accounts.drop_last();
        unreachable_accounts_are_counted(shorter);
        let n = accounts.len() - 1;
        assert(accounts[n] == accounts.last());
        assert(forall|i: int| 0 <= i < n ==> #[trigger] accounts[i] == shorter[i]);
        if forall|i: int| 0 <= i < accounts.len() ==> !((#[trigger] accounts[i]).availability is Unavailable) {
            assert forall|i: int| 0 <= i < shorter.len() implies !((#[trigger] shorter[i]).availability
                is Unavailable) by {
                assert(accounts[i] == shorter[i]);
            }
        }
        if forall|i: int| 0 <= i < accounts.len() ==> (#[trigger] accounts[i]).availability is Unavailable {
            assert forall|i: int| 0 <= i < shorter.len() implies (#[trigger] shorter[i]).availability is Unavailable by {
                assert(accounts[i] == shorter[i]);
            }
        }
    }
}

/// What was observed of an account is told, and nothing is known of one that was not observed.
pub proof fn observations_are_told(observations: Seq<Observation>, id: Seq<char>, i: int)
    requires
        0 <= i,
    ensures
        (forall|k: int| i <= k < observations.len() ==> (#[trigger] observations[k]).account_id@ != id) ==> last_seen(
            observations,
            id,
            i,
        ) is Unknown,
        (exists|k: int| i <= k < observations.len() && (#[trigger] observations[k]).account_id@ == id) ==> exists|
            k: int,
        |
            i <= k < observations.len() && (#[trigger] observations[k]).account_id@ == id && last_seen(
                observations,
                id,
                i,
            ) == observations[k].availability,
    decreases observations.len() - i,
{
    if i < observations.len() {
        if observations[i].account_id@ != id {
            observations_are_told(observations, id, i + 1);
        } else {
            assert(observations[i].account_id@ == id);
        }
    }
}

/// What an account can be judged by: a provider that does not answer, and failures of the login. Other
/// failures say nothing of it.
pub proof fn some_failures_tell(code: ErrorCode)
    ensures
        is_telling(code) <==> code is ProviderUnavailable || code.status() == 4,
{
}

/// A context is refused for a grant that is not there and for too many or too long names.
pub proof fn contexts_are_refused_for_cause(service: Service, name: Seq<char>, narrowing: Narrowing)
    ensures
        service.context_refusal(name, narrowing) == Some(ErrorCode::PermissionDenied) <==> forall|i: int|
            0 <= i < service.config.grants@.len() ==> (#[trigger] service.config.grants@[i]).name@ != name,
        service.context_refusal(name, narrowing) is None ==> (narrowing.accounts matches Some(accounts)
            ==> accounts@.len() <= service.config.limits.accounts && forall|i: int|
            0 <= i < accounts@.len() ==> utf8_len((#[trigger] accounts@[i])@) <= 1024),
        narrowing.accounts is None && service.context_refusal(name, narrowing) is Some ==> service.context_refusal(
            name,
            narrowing,
        ) == Some(ErrorCode::PermissionDenied),
{
    the_first_grant_of_a_name_is_found(service.config.grants@, name, 0);
}

/// No answer is larger than the context and its grant allow.
pub proof fn answers_stay_within_the_limit(service: Service, context: RequestContext, grant: AccessGrant)
    ensures
        service.bound(context, grant) <= context@.response_limit,
        service.bound(context, grant) <= grant.limits.envelope_bytes,
{
    let maximum = if grant.limits.envelope_bytes < context@.response_limit {
        grant.limits.envelope_bytes
    } else {
        context@.response_limit
    };
    let discovery = least(maximum as nat, service.discovery_size(context@.account_indices)) as usize;
    pages_stay_within(service, context@.account_indices, grant, maximum, discovery);
}

proof fn pages_stay_within(service: Service, indices: Seq<usize>, grant: AccessGrant, maximum: usize, size: usize)
    requires
        size <= maximum,
    ensures
        service.largest_page(indices, grant, maximum, size) <= maximum,
    decreases indices.len(),
{
    if indices.len() > 0 {
        pages_stay_within(service, indices.drop_last(), grant, maximum, size);
    }
}

/// An answer leaves 512 bytes for what is written around it.
pub proof fn answers_leave_room(limit: usize)
    ensures
        limit >= 512 ==> room_of(limit) + 512 == limit,
        limit < 512 ==> room_of(limit) == 0,
{
}

/// A list of accounts holds at most as many as were asked for, and is complete exactly where it holds every
/// account that the context sees.
pub proof fn account_lists_tell_whether_they_are_complete(
    service: Service,
    context: RequestContext,
    input: ListAccountsInput,
    found: AccountDiscovery,
)
    requires
        service.answers_accounts(context, input, Ok(found)),
    ensures
        found.complete <==> found.accounts@.len() == context@.account_indices.len(),
        found.accounts@.len() <= context@.account_indices.len(),
        input.limit matches Some(limit) ==> found.accounts@.len() <= limit,
        service.grant_of(context) matches Some(at) && found.accounts@.len()
            <= service.config.grants@[at].limits.accounts,
{
    let at = service.grant_of(context)->0;
    let most = service.config.grants@[at].limits.accounts;
    let limit = match input.limit {
        Some(limit) => limit,
        None => most,
    };
    let r = Ok::<AccountDiscovery, Error>(found);
    let order = choose|order: Seq<usize>|
        {
            &&& #[trigger] order.to_multiset() == context@.account_indices.to_multiset()
            &&& is_by_identity(order, service.identities@)
            &&& service.lists(context, order, limit, r)
        };
    order.to_multiset_ensures();
    context@.account_indices.to_multiset_ensures();
}

/// A context of another service, or of a grant that is gone, is answered with a denial, and a page of
/// no accounts or of more than the grant allows is refused.
pub proof fn foreign_contexts_are_denied(
    service: Service,
    context: RequestContext,
    input: ListAccountsInput,
    r: Result<AccountDiscovery, Error>,
)
    requires
        service.answers_accounts(context, input, r),
    ensures
        context@.service_id != service.context_id ==> (r matches Err(error) && error.code is PermissionDenied),
        service.grant_of(context) matches Some(at) ==> (input.limit matches Some(limit) ==> (limit == 0 || limit
            > service.config.grants@[at].limits.accounts) ==> (r matches Err(error) && error.code is InvalidRequest)),
{
}

/// Health is told of every account that the context sees, and of no other.
pub proof fn health_is_told_of_every_account(service: Service, context: RequestContext, health: Health)
    requires
        service.answers_health(context, Ok(health)),
    ensures
        health.accounts@.len() == context@.account_indices.len(),
        health.listener@ == context@.grant,
        health.status@ == overall(health.accounts@),
{
    let order = choose|order: Seq<usize>|
        {
            &&& #[trigger] order.to_multiset() == context@.account_indices.to_multiset()
            &&& is_by_identity(order, service.identities@)
            &&& health.accounts@.len() == order.len()
            &&& forall|i: int|
                0 <= i < order.len() ==> service.reports_health(#[trigger] health.accounts@[i], order[i])
        };
    order.to_multiset_ensures();
    context@.account_indices.to_multiset_ensures();
}

/// What a context may do is what its grant and its narrowing leave: it belongs to the service, carries the
/// name of its grant, and never drafts where it only reads.
pub proof fn contexts_carry_what_was_granted(
    service: Service,
    context: RequestContext,
    grant: AccessGrant,
    narrowing: Narrowing,
)
    requires
        service.issues(context, grant, narrowing),
    ensures
        context@.service_id == service.context_id && context@.grant == grant.name@,
        context@.response_limit == grant.limits.envelope_bytes,
        narrowing.read_only || grant.profile is ReadOnly ==> !context@.permissions.contains(Permission::AppendDraft),
        grant.profile is DraftsOnly ==> !context@.permissions.contains(Permission::ReadMessage)
            && !context@.permissions.contains(Permission::SearchMessages),
        !narrowing.read_only && !(grant.profile is ReadOnly) ==> context@.permissions.contains(Permission::AppendDraft),
{
    profiles_grant_by_kind(grant.profile, narrowing.read_only, Permission::AppendDraft);
    profiles_grant_by_kind(grant.profile, narrowing.read_only, Permission::ReadMessage);
    profiles_grant_by_kind(grant.profile, narrowing.read_only, Permission::SearchMessages);
}

/// A mailbox is granted under the name that its identity has: the inbox in any case, every other as it is
/// written.
pub proof fn mailboxes_are_granted_by_identity(name: Seq<char>, mailboxes: Seq<String>, i: int)
    ensures
        0 <= i < mailboxes.len() && mailboxes[i]@ == name ==> is_granted(name, mailboxes),
        mailboxes.len() == 0 ==> !is_granted(name, mailboxes),
        is_granted(name, mailboxes) ==> exists|k: int|
            0 <= k < mailboxes.len() && identity_of((#[trigger] mailboxes[k])@) == identity_of(name),
{
}

/// A service answers what it knows itself and hands the rest to the provider; a foreign context is denied
/// before anything else, and a stale account before its request is looked at.
pub proof fn services_answer_what_they_know(
    service: Service,
    context: RequestContext,
    operation: Operation,
    stale: Option<Error>,
    r: Result<Dispatch, Error>,
)
    requires
        service.well_formed(),
        service.grant_of(context) is Some ==> service.knows(context),
        call_ensures(Service::dispatch, (&service, &context, &operation, stale), r),
    ensures
        context@.service_id != service.context_id ==> (r matches Err(error) && error.code is PermissionDenied),
        service.grant_of(context) is Some ==> (stale matches Some(error) ==> r == Err::<Dispatch, Error>(error)),
        service.grant_of(context) is Some && stale is None ==> (r matches Ok(Dispatch::Provider) <==> !(operation
            is ListAccounts || operation is Capabilities || operation is Health)),
{
}

} // verus!
