//! Access-grant authority and request narrowing are independent of provider adapters.
use vstd::prelude::*;

use crate::text::{byte_len, is_listed, listed, utf8_len};

verus! {

#[derive(Clone, Copy, Debug, PartialEq, Eq, Structural)]
pub enum Profile {
    ReadOnly,
    DraftsOnly,
    ReadAndDrafts,
}

impl Default for Profile {
    fn default() -> (r: Self)
        ensures
            r == Profile::ReadOnly,
    {
        Profile::ReadOnly
    }
}

#[derive(Clone, Copy, Debug, PartialEq, Eq, Structural)]
pub enum Permission {
    ListAccounts,
    ListMailboxes,
    SearchMessages,
    ReadMessage,
    ReadAttachment,
    AppendDraft,
    InspectDraftOperation,
}

impl Permission {
    /// The permission concerns drafts.
    pub open spec fn drafts(self) -> bool {
        self is AppendDraft || self is InspectDraftOperation
    }
}

impl Profile {
    /// The permissions of the profile, in the order in which they are reported.
    pub open spec fn granted(self, read_only: bool) -> Seq<Permission> {
        seq![Permission::ListAccounts] + (if self is DraftsOnly {
            Seq::empty()
        } else {
            seq![
                Permission::ListMailboxes,
                Permission::SearchMessages,
                Permission::ReadMessage,
                Permission::ReadAttachment,
            ]
        }) + (if self is ReadOnly || read_only {
            Seq::empty()
        } else {
            seq![Permission::AppendDraft, Permission::InspectDraftOperation]
        })
    }

    pub fn permissions(self, read_only: bool) -> (r: Vec<Permission>)
        ensures
            r@ == self.granted(read_only),
    {
        let mut result: Vec<Permission> = Vec::new();
        result.push(Permission::ListAccounts);
        if self != Profile::DraftsOnly {
            result.push(Permission::ListMailboxes);
            result.push(Permission::SearchMessages);
            result.push(Permission::ReadMessage);
            result.push(Permission::ReadAttachment);
        }
        if self != Profile::ReadOnly && !read_only {
            result.push(Permission::AppendDraft);
            result.push(Permission::InspectDraftOperation);
        }
        assert(result@ =~= self.granted(read_only));
        result
    }
}

/// A read-only request never holds a draft permission, whatever the profile.
pub proof fn read_only_excludes_drafts(profile: Profile, permission: Permission)
    requires
        profile.granted(true).contains(permission),
    ensures
        !permission.drafts(),
        profile.granted(false).contains(permission),
{
    let narrow = profile.granted(true);
    let wide = profile.granted(false);
    let i = choose|i: int| 0 <= i < narrow.len() && narrow[i] == permission;
    assert(wide[i] == permission);
}

#[derive(Clone, Debug, Default)]
pub struct Narrowing {
    pub read_only: bool,
    pub accounts: Option<Vec<String>>,
}

impl Narrowing {
    /// The request may reach the account of this alias.
    pub open spec fn lets_through(self, alias: Seq<char>) -> bool {
        match self.accounts {
            Some(accounts) => listed(accounts@, alias),
            None => true,
        }
    }

    pub fn allows(&self, alias: &str) -> (r: bool)
        ensures
            r == self.lets_through(alias@),
    {
        match &self.accounts {
            Some(accounts) => is_listed(accounts, alias),
            None => true,
        }
    }

    /// At most 256 aliases of at most 1024 bytes each.
    pub open spec fn bounded(self) -> bool {
        self.accounts matches Some(accounts) ==> accounts@.len() <= 256 && forall|i: int|
            0 <= i < accounts@.len() ==> utf8_len((#[trigger] accounts@[i])@) <= 1024
    }

    pub fn is_bounded(&self) -> (r: bool)
        ensures
            r == self.bounded(),
    {
        match &self.accounts {
            Some(accounts) => accounts.len() <= 256 && short_names(accounts),
            None => true,
        }
    }
}

/// Whether every name has at most 1024 bytes.
pub fn short_names(names: &Vec<String>) -> (r: bool)
    ensures
        r == (forall|i: int| 0 <= i < names@.len() ==> utf8_len((#[trigger] names@[i])@) <= 1024),
{
    for i in 0..names.len()
        invariant
            forall|j: int| 0 <= j < i ==> utf8_len((#[trigger] names@[j])@) <= 1024,
    {
        if byte_len(names[i].as_str()) > 1024 {
            assert(utf8_len(names@[i as int]@) > 1024);
            return false;
        }
    }
    true
}

/// The names of `list` that are in `other`, in their order.
pub open spec fn common(list: Seq<String>, other: Seq<String>) -> Seq<Seq<char>>
    decreases list.len(),
{
    if list.len() == 0 {
        Seq::empty()
    } else if listed(other, list.last()@) {
        common(list.drop_last(), other).push(list.last()@)
    } else {
        common(list.drop_last(), other)
    }
}

pub open spec fn name_views(list: Seq<String>) -> Seq<Seq<char>> {
    list.map_values(|name: String| name@)
}

fn keep_common(list: &Vec<String>, other: &Vec<String>) -> (r: Vec<String>)
    ensures
        name_views(r@) == common(list@, other@),
{
    let mut out: Vec<String> = Vec::new();
    assert(name_views(out@) =~= common(list@.take(0), other@));
    for i in 0..list.len()
        invariant
            name_views(out@) == common(list@.take(i as int), other@),
    {
        assert(list@.take(i + 1).drop_last() =~= list@.take(i as int));
        let ghost earlier = name_views(out@);
        if is_listed(other, list[i].as_str()) {
            out.push(list[i].clone());
            assert(name_views(out@) =~= earlier.push(list@[i as int]@));
        }
    }
    assert(list@.take(list@.len() as int) =~= list@);
    out
}

pub fn copy_names(list: &Vec<String>) -> (r: Vec<String>)
    ensures
        name_views(r@) == name_views(list@),
{
    let mut out: Vec<String> = Vec::new();
    for i in 0..list.len()
        invariant
            name_views(out@) == name_views(list@.take(i as int)),
    {
        let ghost earlier = name_views(out@);
        out.push(list[i].clone());
        assert(name_views(out@) =~= earlier.push(list@[i as int]@));
        assert(name_views(list@.take(i + 1)) =~= name_views(list@.take(i as int)).push(
            list@[i as int]@,
        ));
    }
    assert(list@.take(list@.len() as int) =~= list@);
    out
}

/// What a request within a session may still reach.
pub open spec fn is_intersection(session: Narrowing, request: Narrowing, r: Narrowing) -> bool {
    &&& r.read_only == (session.read_only || request.read_only)
    &&& match (session.accounts, request.accounts, r.accounts) {
        (Some(session), Some(request), Some(accounts)) => name_views(accounts@) == common(
            request@,
            session@,
        ),
        (Some(session), None, Some(accounts)) => name_views(accounts@) == name_views(session@),
        (None, Some(request), Some(accounts)) => name_views(accounts@) == name_views(request@),
        (None, None, None) => true,
        _ => false,
    }
}

pub fn intersect(session: &Narrowing, request: &Narrowing) -> (r: Narrowing)
    ensures
        is_intersection(*session, *request, r),
{
    let accounts = match (&session.accounts, &request.accounts) {
        (Some(session), Some(request)) => Some(keep_common(request, session)),
        (Some(session), None) => Some(copy_names(session)),
        (None, Some(request)) => Some(copy_names(request)),
        (None, None) => None,
    };
    Narrowing { read_only: session.read_only || request.read_only, accounts }
}

proof fn common_members(list: Seq<String>, other: Seq<String>, name: Seq<char>)
    ensures
        common(list, other).contains(name) == (listed(list, name) && listed(other, name)),
    decreases list.len(),
{
    if list.len() > 0 {
        let rest = list.drop_last();
        common_members(rest, other, name);
        let before = common(rest, other);
        if listed(rest, name) {
            let i = choose|i: int| 0 <= i < rest.len() && (#[trigger] rest[i])@ == name;
            assert(list[i]@ == name);
        }
        if listed(list, name) {
            let i = choose|i: int| 0 <= i < list.len() && (#[trigger] list[i])@ == name;
            if i < rest.len() {
                assert(rest[i]@ == name);
            }
        }
        if list.last()@ == name {
            assert(list[list.len() - 1]@ == name);
        }
        if listed(other, list.last()@) {
            let after = before.push(list.last()@);
            if before.contains(name) {
                let i = choose|i: int| 0 <= i < before.len() && before[i] == name;
                assert(after[i] == name);
            }
            if list.last()@ == name {
                assert(after[before.len() as int] == name);
            }
            if after.contains(name) {
                let i = choose|i: int| 0 <= i < after.len() && after[i] == name;
                if i < before.len() {
                    assert(before[i] == name);
                }
            }
        }
    }
}

proof fn views_hold_members(list: Seq<String>, name: Seq<char>)
    ensures
        name_views(list).contains(name) == listed(list, name),
{
    if listed(list, name) {
        let i = choose|i: int| 0 <= i < list.len() && (#[trigger] list[i])@ == name;
        assert(name_views(list)[i] == name);
    }
    if name_views(list).contains(name) {
        let i = choose|i: int| 0 <= i < name_views(list).len() && name_views(list)[i] == name;
        assert(list[i]@ == name);
    }
}

/// A request reaches an account exactly when both the session and the request let it through, and it is
/// read-only when either is: narrowing never widens.
pub proof fn narrowing_never_widens(
    session: Narrowing,
    request: Narrowing,
    both: Narrowing,
    alias: Seq<char>,
)
    requires
        is_intersection(session, request, both),
    ensures
        both.lets_through(alias) == (session.lets_through(alias) && request.lets_through(alias)),
        session.read_only || request.read_only ==> both.read_only,
{
    match (session.accounts, request.accounts, both.accounts) {
        (Some(s), Some(q), Some(accounts)) => {
            common_members(q@, s@, alias);
            views_hold_members(accounts@, alias);
        },
        (Some(s), None, Some(accounts)) => {
            views_hold_members(s@, alias);
            views_hold_members(accounts@, alias);
        },
        (None, Some(q), Some(accounts)) => {
            views_hold_members(q@, alias);
            views_hold_members(accounts@, alias);
        },
        _ => {},
    }
}

/// The authority of a request, created by the application from a configured access grant.
#[derive(Clone, Debug)]
pub struct RequestContext {
    service_id: u128,
    grant: String,
    /// Indices into the immutable configuration of the issuing service.
    account_indices: Vec<usize>,
    permissions: Vec<Permission>,
    response_limit: usize,
}

/// The authority of a request over plain values.
pub struct Authority {
    pub service_id: u128,
    pub grant: Seq<char>,
    pub account_indices: Seq<usize>,
    pub permissions: Seq<Permission>,
    pub response_limit: usize,
}

impl View for RequestContext {
    type V = Authority;

    closed spec fn view(&self) -> Authority {
        Authority {
            service_id: self.service_id,
            grant: self.grant@,
            account_indices: self.account_indices@,
            permissions: self.permissions@,
            response_limit: self.response_limit,
        }
    }
}

impl RequestContext {
    pub(crate) fn new(
        service_id: u128,
        grant: String,
        account_indices: Vec<usize>,
        permissions: Vec<Permission>,
        response_limit: usize,
    ) -> (r: Self)
        ensures
            r@ == (Authority {
                service_id,
                grant: grant@,
                account_indices: account_indices@,
                permissions: permissions@,
                response_limit,
            }),
    {
        RequestContext { service_id, grant, account_indices, permissions, response_limit }
    }

    /// The context with a response limit that is lowered to `maximum`, but never raised.
    pub fn with_response_limit(self, maximum: usize) -> (r: Self)
        ensures
            r@ == (Authority {
                response_limit: if self@.response_limit < maximum {
                    self@.response_limit
                } else {
                    maximum
                },
                ..self@
            }),
    {
        RequestContext {
            response_limit: if self.response_limit < maximum {
                self.response_limit
            } else {
                maximum
            },
            ..self
        }
    }

    pub fn belongs_to(&self, service_id: u128) -> (r: bool)
        ensures
            r == (self@.service_id == service_id),
    {
        self.service_id == service_id
    }

    pub fn grant_name(&self) -> (r: &str)
        ensures
            r@ == self@.grant,
    {
        self.grant.as_str()
    }

    pub fn account_indices(&self) -> (r: &Vec<usize>)
        ensures
            r@ == self@.account_indices,
    {
        &self.account_indices
    }

    pub fn permissions(&self) -> (r: &Vec<Permission>)
        ensures
            r@ == self@.permissions,
    {
        &self.permissions
    }

    pub fn response_limit(&self) -> (r: usize)
        ensures
            r == self@.response_limit,
    {
        self.response_limit
    }

    pub fn holds(&self, permission: Permission) -> (r: bool)
        ensures
            r == self@.permissions.contains(permission),
    {
        for i in 0..self.permissions.len()
            invariant
                forall|j: int| 0 <= j < i ==> self.permissions@[j] != permission,
        {
            if self.permissions[i] == permission {
                assert(self.permissions@[i as int] == permission);
                return true;
            }
        }
        false
    }
}

/// Who may do what: everybody may list accounts; reading is for every profile but that of drafts alone;
/// drafts are for every profile but that of reading alone, unless the request is narrowed to reading.
pub proof fn profiles_grant_by_kind(profile: Profile, read_only: bool, permission: Permission)
    ensures
        profile.granted(read_only).contains(permission) <==> match permission {
            Permission::ListAccounts => true,
            Permission::AppendDraft | Permission::InspectDraftOperation => profile != Profile::ReadOnly
                && !read_only,
            _ => profile != Profile::DraftsOnly,
        },
        permission.drafts() <==> permission == Permission::AppendDraft || permission
            == Permission::InspectDraftOperation,
{
    let list = profile.granted(read_only);
    assert(list[0] == Permission::ListAccounts);
    if profile != Profile::DraftsOnly {
        assert(list[1] == Permission::ListMailboxes);
        assert(list[2] == Permission::SearchMessages);
        assert(list[3] == Permission::ReadMessage);
        assert(list[4] == Permission::ReadAttachment);
    }
    if profile != Profile::ReadOnly && !read_only {
        let n = list.len() as int;
        assert(list[n - 2] == Permission::AppendDraft);
        assert(list[n - 1] == Permission::InspectDraftOperation);
    }
    if list.contains(permission) {
        let i = choose|i: int| 0 <= i < list.len() && list[i] == permission;
        assert(list[i] == permission);
    }
}

/// A request keeps the limits of its session and adds its own: it is read-only where either is, names
/// an account only where both let it through, and is wide open only where both are.
pub proof fn narrowings_add_up(session: Narrowing, request: Narrowing, both: Narrowing)
    requires
        is_intersection(session, request, both),
    ensures
        both.read_only <==> session.read_only || request.read_only,
        both.accounts is None <==> session.accounts is None && request.accounts is None,
{
}

/// A narrowing names at most 256 accounts of at most 1024 bytes each.
pub proof fn narrowings_are_bounded(narrowing: Narrowing)
    ensures
        narrowing.accounts is None ==> narrowing.bounded(),
        narrowing.accounts matches Some(accounts) ==> (narrowing.bounded() <==> accounts@.len() < 257 && forall|
            i: int,
        |
            0 <= i < accounts@.len() ==> utf8_len((#[trigger] accounts@[i])@) < 1025),
{
}

} // verus!
