//! Authenticated local broker transport with bounded framing and admission.
use vstd::prelude::*;

pub use crate::encoding::validate_json_depth;

use crate::domain::{Error, ErrorCode};
use crate::text::{byte_len, chars_of, is_listed, listed, same, utf8_len};

verus! {

pub fn unavailable() -> (r: Error)
    ensures
        r.reports(ErrorCode::BrokerUnavailable),
{
    Error::new(ErrorCode::BrokerUnavailable)
}

pub fn denied() -> (r: Error)
    ensures
        r.reports(ErrorCode::PermissionDenied),
{
    Error::new(ErrorCode::PermissionDenied)
}

pub fn limited() -> (r: Error)
    ensures
        r.reports(ErrorCode::RateLimited),
{
    Error::new(ErrorCode::RateLimited)
}

/// What a directory, file or socket is, without following links.
#[derive(Clone, Copy, Debug, PartialEq, Eq, Structural)]
pub enum Node {
    Directory,
    Regular,
    Socket,
    Other,
}

/// What the system says of a path.
#[derive(Clone, Copy, Debug, PartialEq, Eq, Structural)]
pub struct Attributes {
    pub node: Node,
    pub owner: u32,
    pub mode: u32,
    pub links: u64,
    /// The path is absolute and resolves to itself.
    pub canonical: bool,
}

/// Nobody but the owner has any access.
pub open spec fn is_private(mode: u32) -> bool {
    mode & 0o077 == 0
}

/// What is wrong with a path that should be protected, if anything is.
pub open spec fn protection(found: Option<Attributes>, wanted: Node, uid: u32) -> Result<
    (),
    ErrorCode,
> {
    match found {
        None => Err(ErrorCode::BrokerUnavailable),
        Some(found) => if found.node == wanted && found.owner == uid && is_private(found.mode) && (
        wanted is Directory ==> found.canonical) && (wanted is Regular ==> found.links == 1) {
            Ok(())
        } else {
            Err(ErrorCode::PermissionDenied)
        },
    }
}

/// The verdict is the one of the code: success, or the reviewed error.
pub open spec fn verdict(r: Result<(), Error>, expected: Result<(), ErrorCode>) -> bool {
    match (r, expected) {
        (Ok(()), Ok(())) => true,
        (Err(error), Err(code)) => error.reports(code),
        _ => false,
    }
}

fn protected(found: Option<Attributes>, wanted: Node, uid: u32) -> (r: Result<(), Error>)
    ensures
        verdict(r, protection(found, wanted, uid)),
{
    match found {
        None => Err(unavailable()),
        Some(found) => {
            if found.node != wanted || found.owner != uid || found.mode & 0o077 != 0 || (wanted
                == Node::Directory && !found.canonical) || (wanted == Node::Regular && found.links
                != 1) {
                return Err(denied());
            }
            Ok(())
        },
    }
}

/// A protected directory is owned by this identity and inaccessible to others.
pub fn protected_directory(found: Option<Attributes>, uid: u32) -> (r: Result<(), Error>)
    ensures
        verdict(r, protection(found, Node::Directory, uid)),
{
    protected(found, Node::Directory, uid)
}

/// An endpoint is a private socket in a protected directory.
pub open spec fn endpoint_protection(
    parent: Option<Attributes>,
    found: Option<Attributes>,
    uid: u32,
) -> Result<(), ErrorCode> {
    match protection(parent, Node::Directory, uid) {
        Ok(()) => protection(found, Node::Socket, uid),
        Err(code) => Err(code),
    }
}

pub fn endpoint_identity(parent: Option<Attributes>, found: Option<Attributes>, uid: u32) -> (r:
    Result<(), Error>)
    ensures
        verdict(r, endpoint_protection(parent, found, uid)),
{
    match protected_directory(parent, uid) {
        Ok(()) => protected(found, Node::Socket, uid),
        Err(error) => Err(error),
    }
}

/// The lock file is a private regular file with one name; a file that cannot be examined is refused.
pub fn lock_file(found: Option<Attributes>, uid: u32) -> (r: Result<(), Error>)
    ensures
        match r {
            Ok(()) => protection(found, Node::Regular, uid) is Ok,
            Err(error) => protection(found, Node::Regular, uid) is Err && error.reports(
                ErrorCode::PermissionDenied,
            ),
        },
{
    match protected(found, Node::Regular, uid) {
        Ok(()) => Ok(()),
        Err(_) => Err(denied()),
    }
}

/// What stands at the path of an endpoint before the broker binds it.
#[derive(Clone, Copy, Debug, PartialEq, Eq, Structural)]
pub enum Occupant {
    Nothing,
    Found(Attributes),
    Unreadable,
}

/// Whether a listener may be served, checked before any listener is.
#[derive(Clone, Copy, Debug, PartialEq, Eq, Structural)]
pub enum Preflight {
    Proceed,
    /// Its directory is missing; another listener may still be served.
    Skip,
}

pub open spec fn preflight(parent: Option<Attributes>, occupant: Occupant, uid: u32) -> Result<
    Preflight,
    ErrorCode,
> {
    match protection(parent, Node::Directory, uid) {
        Err(code) => if code is BrokerUnavailable {
            Ok(Preflight::Skip)
        } else {
            Err(code)
        },
        Ok(()) => match occupant {
            Occupant::Nothing => Ok(Preflight::Proceed),
            Occupant::Unreadable => Err(ErrorCode::PermissionDenied),
            Occupant::Found(found) => match protection(Some(found), Node::Socket, uid) {
                Ok(()) => Ok(Preflight::Proceed),
                Err(code) => Err(code),
            },
        },
    }
}

pub fn check_listener(parent: Option<Attributes>, occupant: Occupant, uid: u32) -> (r: Result<
    Preflight,
    Error,
>)
    ensures
        match (r, preflight(parent, occupant, uid)) {
            (Ok(found), Ok(expected)) => found == expected,
            (Err(error), Err(code)) => error.reports(code),
            _ => false,
        },
{
    match protected_directory(parent, uid) {
        Err(error) => if error.code == ErrorCode::BrokerUnavailable {
            Ok(Preflight::Skip)
        } else {
            Err(error)
        },
        Ok(()) => match occupant {
            Occupant::Nothing => Ok(Preflight::Proceed),
            Occupant::Unreadable => Err(denied()),
            Occupant::Found(found) => match protected(Some(found), Node::Socket, uid) {
                Ok(()) => Ok(Preflight::Proceed),
                Err(error) => Err(error),
            },
        },
    }
}

/// How a probe of an existing endpoint ended.
#[derive(Clone, Copy, Debug, PartialEq, Eq, Structural)]
pub enum Probe {
    /// Nothing stands at the path.
    Absent,
    /// Nobody listens behind the socket.
    Refused,
    /// Somebody does, or that cannot be ruled out.
    Live,
}

#[derive(Clone, Copy, Debug, PartialEq, Eq, Structural)]
pub enum Binding {
    Bind,
    RemoveAndBind,
    MarkUnavailable,
}

/// A socket is replaced only when nobody listens behind it.
pub fn binding(probe: Probe) -> (r: Binding)
    ensures
        r == (match probe {
            Probe::Absent => Binding::Bind,
            Probe::Refused => Binding::RemoveAndBind,
            Probe::Live => Binding::MarkUnavailable,
        }),
{
    match probe {
        Probe::Absent => Binding::Bind,
        Probe::Refused => Binding::RemoveAndBind,
        Probe::Live => Binding::MarkUnavailable,
    }
}

/// The broker serves when at least one listener is bound.
pub fn require_listeners(bound: usize) -> (r: Result<(), Error>)
    ensures
        match r {
            Ok(()) => bound > 0,
            Err(error) => bound == 0 && error.reports(ErrorCode::BrokerUnavailable),
        },
{
    if bound == 0 {
        Err(unavailable())
    } else {
        Ok(())
    }
}

/// The ceilings of one listener.
#[derive(Clone, Copy, Debug, PartialEq, Eq, Structural)]
pub struct ListenerLimits {
    pub ipc_frame_bytes: usize,
    pub json_nesting: usize,
    pub clients: usize,
    pub handshakes: usize,
    pub active_requests: usize,
    pub queued_requests: usize,
    pub buffered_bytes: usize,
    pub handshake_seconds: usize,
    pub operation_seconds: usize,
    pub connection_lifetime_seconds: usize,
}

/// What is left of the shared resources.
#[derive(Clone, Copy, Debug, PartialEq, Eq, Structural)]
pub struct Budget {
    pub clients: usize,
    pub handshakes: usize,
    pub active: usize,
    pub queued: usize,
    pub bytes: usize,
}

impl Budget {
    /// A message takes bytes and a place in the queue, and nothing else.
    pub open spec fn only_less(self, before: Self) -> bool {
        &&& self.clients == before.clients
        &&& self.handshakes == before.handshakes
        &&& self.active == before.active
        &&& self.queued <= before.queued
        &&& self.bytes <= before.bytes
    }

    pub fn new(limits: &ListenerLimits) -> (r: Self)
        ensures
            r == (Budget {
                clients: limits.clients,
                handshakes: limits.handshakes,
                active: limits.active_requests,
                queued: limits.queued_requests,
                bytes: limits.buffered_bytes,
            }),
    {
        Budget {
            clients: limits.clients,
            handshakes: limits.handshakes,
            active: limits.active_requests,
            queued: limits.queued_requests,
            bytes: limits.buffered_bytes,
        }
    }
}

/// Both the broker and the listener have so much left.
pub open spec fn both_have(global: usize, local: usize, count: usize) -> bool {
    count <= u32::MAX && count <= global && count <= local
}

/// Takes the same amount from the broker's and the listener's share, or nothing from either.
pub fn reserve(global: &mut usize, local: &mut usize, count: usize) -> (r: Result<(), Error>)
    ensures
        match r {
            Ok(()) => {
                &&& both_have(*old(global), *old(local), count)
                &&& *final(global) == *old(global) - count
                &&& *final(local) == *old(local) - count
            },
            Err(error) => {
                &&& error.reports(ErrorCode::RateLimited)
                &&& !both_have(*old(global), *old(local), count)
                &&& *final(global) == *old(global)
                &&& *final(local) == *old(local)
            },
        },
{
    if count > 0xffff_ffff || *global < count || *local < count {
        return Err(limited());
    }
    *global = *global - count;
    *local = *local - count;
    Ok(())
}

/// Gives back what was reserved.
pub fn release(global: &mut usize, local: &mut usize, count: usize)
    requires
        *old(global) + count <= usize::MAX,
        *old(local) + count <= usize::MAX,
    ensures
        *final(global) == *old(global) + count,
        *final(local) == *old(local) + count,
{
    *global = *global + count;
    *local = *local + count;
}

/// A caller is let in when its identity is one of those that the listener serves, and the broker and the
/// listener have room for another client and another handshake.
pub open spec fn is_let_in(peer: Option<u32>, served: Seq<u32>, global: Budget, local: Budget) -> bool {
    &&& peer matches Some(uid) && served.contains(uid)
    &&& global.clients > 0 && local.clients > 0
    &&& global.handshakes > 0 && local.handshakes > 0
}

/// What is left after a caller was let in.
pub open spec fn after_letting_in(budget: Budget) -> Budget {
    Budget {
        clients: (budget.clients - 1) as usize,
        handshakes: (budget.handshakes - 1) as usize,
        ..budget
    }
}

/// Lets a caller in, with a place among the clients and one among the handshakes, or takes nothing.
pub fn let_in(peer: Option<u32>, served: &Vec<u32>, global: &mut Budget, local: &mut Budget) -> (r: bool)
    ensures
        r == is_let_in(peer, served@, *old(global), *old(local)),
        *final(global) == (if r {
            after_letting_in(*old(global))
        } else {
            *old(global)
        }),
        *final(local) == (if r {
            after_letting_in(*old(local))
        } else {
            *old(local)
        }),
{
    let known = match peer {
        Some(uid) => serves(served, uid),
        None => false,
    };
    if !known {
        return false;
    }
    if reserve(&mut global.clients, &mut local.clients, 1).is_err() {
        return false;
    }
    if reserve(&mut global.handshakes, &mut local.handshakes, 1).is_err() {
        release(&mut global.clients, &mut local.clients, 1);
        return false;
    }
    true
}

fn serves(served: &Vec<u32>, uid: u32) -> (r: bool)
    ensures
        r == served@.contains(uid),
{
    for i in 0..served.len()
        invariant
            forall|j: int| 0 <= j < i ==> #[trigger] served@[j] != uid,
    {
        if served[i] == uid {
            assert(served@[i as int] == uid);
            return true;
        }
    }
    false
}

/// Accepts the length of a frame and says how many bytes to reserve for it: twice as many as it has.
/// A frame for which nobody could ever reserve so much is refused as any other excess is.
pub fn frame_length(length: u32, maximum: usize) -> (r: Result<usize, Error>)
    ensures
        match r {
            Ok(bytes) => 1 <= length <= maximum && bytes == 2 * length && bytes <= u32::MAX,
            Err(error) => if 1 <= length <= maximum {
                2 * length > u32::MAX && error.reports(ErrorCode::RateLimited)
            } else {
                error.reports(ErrorCode::InvalidRequest)
            },
        },
{
    if length == 0 || length as usize > maximum {
        return Err(Error::new(ErrorCode::InvalidRequest));
    }
    match length.checked_mul(2) {
        Some(bytes) => Ok(bytes as usize),
        None => Err(limited()),
    }
}

/// What is wrong with the first message of a client, if anything is.
pub open spec fn greeting(kind: Seq<char>, client_name: Option<Seq<char>>, version: u32) -> Result<
    (),
    ErrorCode,
> {
    if kind != "hello"@ || (client_name matches Some(name) && utf8_len(name) > 256) {
        Err(ErrorCode::InvalidRequest)
    } else if version != 1 {
        Err(ErrorCode::ProtocolMismatch)
    } else {
        Ok(())
    }
}

pub fn check_hello(kind: &str, client_name: &Option<String>, version: u32) -> (r: Result<(), Error>)
    ensures
        verdict(
            r,
            greeting(
                kind@,
                match client_name {
                    Some(name) => Some(name@),
                    None => None,
                },
                version,
            ),
        ),
{
    let long = match client_name {
        Some(name) => byte_len(name.as_str()) > 256,
        None => false,
    };
    if !same(kind, "hello") || long {
        return Err(Error::new(ErrorCode::InvalidRequest));
    }
    if version != 1 {
        return Err(Error::new(ErrorCode::ProtocolMismatch));
    }
    Ok(())
}

pub open spec fn is_request_char(c: char) -> bool {
    '0' <= c <= '9' || 'A' <= c <= 'Z' || 'a' <= c <= 'z' || c == '-' || c == '_'
}

/// A request identifier: up to 64 letters, digits, hyphens and underscores.
pub open spec fn is_request_id(id: Seq<char>) -> bool {
    &&& 1 <= id.len()
    &&& utf8_len(id) <= 64
    &&& forall|i: int| 0 <= i < id.len() ==> is_request_char(#[trigger] id[i])
}

pub fn request_id(id: &str) -> (r: bool)
    ensures
        r == is_request_id(id@),
{
    let chars = chars_of(id);
    if chars.len() == 0 || byte_len(id) > 64 {
        return false;
    }
    for i in 0..chars.len()
        invariant
            chars@ == id@,
            forall|j: int| 0 <= j < i ==> is_request_char(#[trigger] id@[j]),
    {
        let c = chars[i];
        if !(('0' <= c && c <= '9') || ('A' <= c && c <= 'Z') || ('a' <= c && c <= 'z') || c == '-'
            || c == '_') {
            assert(!is_request_char(id@[i as int]));
            return false;
        }
    }
    true
}

/// A message of a client, without what the service makes of it.
#[derive(Debug)]
pub enum Message {
    Request { request_id: String },
    Cancel { request_id: String, target_request_id: String },
}

impl Message {
    pub open spec fn id(self) -> Seq<char> {
        match self {
            Message::Request { request_id } => request_id@,
            Message::Cancel { request_id, .. } => request_id@,
        }
    }

    fn name(&self) -> (r: &String)
        ensures
            r@ == self.id(),
    {
        match self {
            Message::Request { request_id } => request_id,
            Message::Cancel { request_id, .. } => request_id,
        }
    }
}

/// What the broker does with a message.
#[derive(Debug)]
pub enum Reaction {
    /// Hand the request to the service; its reply comes later.
    Start,
    /// Answer that the named request was cancelled, and cancel it.
    Cancelled { target: String },
    /// Answer with a failure.
    Refuse(Error),
}

/// One client's requests.
#[derive(Debug)]
pub struct Session {
    /// Every identifier that the client has used.
    pub seen: Vec<String>,
    /// The requests that have been started and not answered.
    pub pending: Vec<String>,
}

/// The most identifiers that one connection may use.
pub const IDENTIFIERS: usize = 4096;

/// The identifiers of a list without one of them.
pub open spec fn without(list: Seq<String>, id: Seq<char>, rest: Seq<String>) -> bool {
    forall|other: Seq<char>| #[trigger]
        listed(rest, other) == (listed(list, other) && other != id)
}

impl Session {
    pub fn new() -> (r: Self)
        ensures
            r.seen@.len() == 0,
            r.pending@.len() == 0,
            r.well_formed(),
    {
        Session { seen: Vec::new(), pending: Vec::new() }
    }

    /// Pending requests have different identifiers, all of which were used before.
    pub open spec fn well_formed(self) -> bool {
        &&& self.seen@.len() <= IDENTIFIERS
        &&& crate::text::distinct(self.seen@)
        &&& crate::text::distinct(self.pending@)
        &&& forall|i: int|
            0 <= i < self.pending@.len() ==> listed(self.seen@, (#[trigger] self.pending@[i])@)
    }

    /// The identifier may be used: it is well formed and new, and the client has some left.
    pub open spec fn accepts(self, id: Seq<char>) -> bool {
        is_request_id(id) && self.seen@.len() < IDENTIFIERS && !listed(self.seen@, id)
    }

    /// Takes a message, with the resources that it needs: its identifier and 128 bytes for as long as
    /// the connection lasts, room for one answer, and a place in the queue for a request. An error ends
    /// the connection.
    pub fn receive(
        &mut self,
        message: &Message,
        global: &mut Budget,
        local: &mut Budget,
        frame_bytes: usize,
    ) -> (r: Result<Reaction, Error>)
        requires
            old(self).well_formed(),
        ensures
            final(self).well_formed(),
            final(global).only_less(*old(global)),
            final(local).only_less(*old(local)),
            match r {
                Err(error) => {
                    let cost = utf8_len(message.id()) + 128;
                    if !old(self).accepts(message.id()) {
                        &&& error.reports(ErrorCode::InvalidRequest)
                        &&& *final(self) == *old(self)
                        &&& *final(global) == *old(global)
                        &&& *final(local) == *old(local)
                    } else if !both_have(old(global).bytes, old(local).bytes, cost as usize) {
                        &&& error.reports(ErrorCode::RateLimited)
                        &&& *final(self) == *old(self)
                        &&& *final(global) == *old(global)
                        &&& *final(local) == *old(local)
                    } else {
                        &&& error.reports(ErrorCode::RateLimited)
                        &&& !both_have(
                            (old(global).bytes - cost) as usize,
                            (old(local).bytes - cost) as usize,
                            frame_bytes,
                        )
                        &&& final(self).pending == old(self).pending
                        &&& forall|other: Seq<char>| #[trigger]
                            listed(final(self).seen@, other) == (listed(old(self).seen@, other)
                                || other == message.id())
                        &&& *final(global) == (Budget {
                            bytes: (old(global).bytes - cost) as usize,
                            ..*old(global)
                        })
                        &&& *final(local) == (Budget {
                            bytes: (old(local).bytes - cost) as usize,
                            ..*old(local)
                        })
                    }
                },
                Ok(reaction) => {
                    let taken = utf8_len(message.id()) + 128 + frame_bytes;
                    &&& old(self).accepts(message.id())
                    &&& final(global).bytes == old(global).bytes - taken
                    &&& final(local).bytes == old(local).bytes - taken
                    &&& final(self).seen@.len() == old(self).seen@.len() + 1
                    &&& forall|other: Seq<char>| #[trigger]
                        listed(final(self).seen@, other) == (listed(old(self).seen@, other) || other
                            == message.id())
                    &&& match (*message, reaction) {
                        (Message::Request { request_id }, Reaction::Start) => {
                            &&& old(global).queued > 0 && old(local).queued > 0
                            &&& final(global).queued == old(global).queued - 1
                            &&& final(local).queued == old(local).queued - 1
                            &&& forall|other: Seq<char>| #[trigger]
                                listed(final(self).pending@, other) == (listed(
                                    old(self).pending@,
                                    other,
                                ) || other == request_id@)
                        },
                        (Message::Request { .. }, Reaction::Refuse(error)) => {
                            &&& !(old(global).queued > 0 && old(local).queued > 0)
                            &&& final(global).queued == old(global).queued
                            &&& final(local).queued == old(local).queued
                            &&& error.reports(ErrorCode::RateLimited)
                            &&& final(self).pending@ == old(self).pending@
                        },
                        (Message::Cancel { target_request_id, .. }, Reaction::Cancelled { target }) => {
                            &&& final(global).queued == old(global).queued
                            &&& final(local).queued == old(local).queued
                            &&& target@ == target_request_id@
                            &&& listed(old(self).pending@, target@)
                            &&& without(old(self).pending@, target@, final(self).pending@)
                        },
                        (Message::Cancel { target_request_id, .. }, Reaction::Refuse(error)) => {
                            &&& final(global).queued == old(global).queued
                            &&& final(local).queued == old(local).queued
                            &&& !listed(old(self).pending@, target_request_id@)
                            &&& error.reports(ErrorCode::InvalidRequest)
                            &&& final(self).pending@ == old(self).pending@
                        },
                        _ => false,
                    }
                },
            },
    {
        let id = message.name();
        if !request_id(id.as_str()) || self.seen.len() >= IDENTIFIERS || is_listed(
            &self.seen,
            id.as_str(),
        ) {
            return Err(Error::new(ErrorCode::InvalidRequest));
        }
        match reserve(&mut global.bytes, &mut local.bytes, byte_len(id.as_str()) + 128) {
            Ok(()) => {},
            Err(error) => {
                return Err(error);
            },
        }
        let ghost earlier = self.seen@;
        self.seen.push(id.clone());
        proof {
            grown(earlier, message.id(), self.seen@);
        }
        match reserve(&mut global.bytes, &mut local.bytes, frame_bytes) {
            Ok(()) => {},
            Err(error) => {
                return Err(error);
            },
        }
        match message {
            Message::Cancel { target_request_id, .. } => {
                if self.finish(target_request_id.as_str()) {
                    Ok(Reaction::Cancelled { target: target_request_id.clone() })
                } else {
                    Ok(Reaction::Refuse(Error::new(ErrorCode::InvalidRequest)))
                }
            },
            Message::Request { request_id } => match reserve(
                &mut global.queued,
                &mut local.queued,
                1,
            ) {
                Err(error) => Ok(Reaction::Refuse(error)),
                Ok(()) => {
                    let ghost before = self.pending@;
                    self.pending.push(request_id.clone());
                    proof {
                        assert(!listed(before, request_id@)) by {
                            if listed(before, request_id@) {
                                let i = choose|i: int|
                                    0 <= i < before.len() && (#[trigger] before[i])@
                                        == request_id@;
                                assert(listed(earlier, before[i]@));
                            }
                        }
                        grown(before, request_id@, self.pending@);
                    }
                    Ok(Reaction::Start)
                },
            },
        }
    }

    /// Forgets a request that was answered or cancelled; says whether it was pending.
    pub fn finish(&mut self, id: &str) -> (r: bool)
        requires
            old(self).well_formed(),
        ensures
            final(self).well_formed(),
            final(self).seen == old(self).seen,
            r == listed(old(self).pending@, id@),
            r ==> without(old(self).pending@, id@, final(self).pending@),
            !r ==> final(self).pending@ == old(self).pending@,
    {
        let count: usize = self.pending.len();
        for i in 0..count
            invariant
                *self == *old(self),
                self.well_formed(),
                count == self.pending@.len(),
                forall|j: int| 0 <= j < i ==> (#[trigger] self.pending@[j])@ != id@,
        {
            if same(self.pending[i].as_str(), id) {
                let ghost before = self.pending@;
                let _ = self.pending.remove(i);
                proof {
                    let after = self.pending@;
                    assert(after =~= before.remove(i as int));
                    assert(before[i as int]@ == id@);
                    assert forall|other: Seq<char>| #[trigger]
                        listed(after, other) == (listed(before, other) && other != id@) by {
                        if listed(before, other) && other != id@ {
                            let k = choose|k: int|
                                0 <= k < before.len() && (#[trigger] before[k])@ == other;
                            if k < i {
                                assert(after[k]@ == other);
                            } else {
                                assert(after[k - 1]@ == other);
                            }
                        }
                        if listed(after, other) {
                            let k = choose|k: int|
                                0 <= k < after.len() && (#[trigger] after[k])@ == other;
                            if k < i {
                                assert(before[k]@ == other);
                            } else {
                                assert(before[k + 1]@ == other);
                            }
                        }
                    }
                    assert forall|a: int, b: int| 0 <= a < b < after.len() implies (
                    #[trigger] after[a])@ != (#[trigger] after[b])@ by {
                        let x = if a < i {
                            a
                        } else {
                            a + 1
                        };
                        let y = if b < i {
                            b
                        } else {
                            b + 1
                        };
                        assert(before[x]@ != before[y]@);
                    }
                    assert forall|a: int| 0 <= a < after.len() implies listed(
                        self.seen@,
                        (#[trigger] after[a])@,
                    ) by {
                        let x = if a < i {
                            a
                        } else {
                            a + 1
                        };
                        assert(listed(self.seen@, before[x]@));
                    }
                }
                return true;
            }
        }
        false
    }
}

proof fn grown(list: Seq<String>, id: Seq<char>, more: Seq<String>)
    requires
        crate::text::distinct(list),
        !listed(list, id),
        more.len() == list.len() + 1,
        forall|i: int| 0 <= i < list.len() ==> more[i] == list[i],
        more[list.len() as int]@ == id,
    ensures
        crate::text::distinct(more),
        forall|other: Seq<char>| #[trigger]
            listed(more, other) == (listed(list, other) || other == id),
{
    assert forall|other: Seq<char>| #[trigger]
        listed(more, other) == (listed(list, other) || other == id) by {
        if listed(list, other) {
            let k = choose|k: int| 0 <= k < list.len() && (#[trigger] list[k])@ == other;
            assert(more[k]@ == other);
        }
        if other == id {
            assert(more[list.len() as int]@ == other);
        }
        if listed(more, other) {
            let k = choose|k: int| 0 <= k < more.len() && (#[trigger] more[k])@ == other;
            if k < list.len() {
                assert(list[k]@ == other);
            }
        }
    }
    assert forall|a: int, b: int| 0 <= a < b < more.len() implies (#[trigger] more[a])@ != (
    #[trigger] more[b])@ by {
        if b == list.len() {
            assert(list[a]@ == more[a]@);
        } else {
            assert(list[a]@ != list[b]@);
        }
    }
}

/// How the work on a request ended.
#[derive(Debug)]
pub enum Ending<T> {
    Cancelled,
    Expired,
    Finished(Result<T, Error>),
}

/// What the client is told of a request that has ended.
pub fn settle<T>(ending: Ending<T>) -> (r: Result<T, Error>)
    ensures
        match ending {
            Ending::Cancelled => r matches Err(error) && error.reports(ErrorCode::Cancelled),
            Ending::Expired => r matches Err(error) && error.reports(ErrorCode::Timeout),
            Ending::Finished(result) => r == result,
        },
{
    match ending {
        Ending::Cancelled => Err(Error::new(ErrorCode::Cancelled)),
        Ending::Expired => Err(Error::new(ErrorCode::Timeout)),
        Ending::Finished(result) => result,
    }
}

/// Whether a reply that could not be written is replaced by its failure: only one that is too large is.
pub fn replaces_reply(error: &Error) -> (r: bool)
    ensures
        r == (error.code is ResponseTooLarge),
{
    error.code == ErrorCode::ResponseTooLarge
}

/// Accepts the broker's identity and its greeting.
pub fn check_broker(peer: Option<u32>, expected: u32) -> (r: Result<(), Error>)
    ensures
        match r {
            Ok(()) => peer == Some(expected),
            Err(error) => peer != Some(expected) && error.reports(ErrorCode::PermissionDenied),
        },
{
    match peer {
        Some(uid) => if uid == expected {
            Ok(())
        } else {
            Err(denied())
        },
        None => Err(denied()),
    }
}

pub fn check_welcome(version: u32) -> (r: Result<(), Error>)
    ensures
        match r {
            Ok(()) => version == 1,
            Err(error) => version != 1 && error.reports(ErrorCode::ProtocolMismatch),
        },
{
    if version != 1 {
        Err(Error::new(ErrorCode::ProtocolMismatch))
    } else {
        Ok(())
    }
}

/// Accepts a reply only for the request that it answers.
pub fn check_reply(expected: &str, answered: &str, schema_version: u32) -> (r: Result<(), Error>)
    ensures
        match r {
            Ok(()) => expected@ == answered@ && schema_version == 1,
            Err(error) => !(expected@ == answered@ && schema_version == 1) && error.reports(
                ErrorCode::ProtocolMismatch,
            ),
        },
{
    if !same(expected, answered) || schema_version != 1 {
        return Err(Error::new(ErrorCode::ProtocolMismatch));
    }
    Ok(())
}

/// An identifier is accepted at most once in the life of a connection.
pub proof fn identifiers_are_used_once(before: Session, after: Session, id: Seq<char>)
    requires
        forall|other: Seq<char>| #[trigger]
            listed(after.seen@, other) == (listed(before.seen@, other) || other == id),
    ensures
        !after.accepts(id),
        forall|other: Seq<char>| after.accepts(other) ==> !listed(before.seen@, other),
{
    assert(listed(after.seen@, id));
    assert forall|other: Seq<char>| after.accepts(other) implies !listed(before.seen@, other) by {
        assert(!listed(after.seen@, other));
    }
}

/// What is protected is what it should be, belongs to the user, and is closed to everybody else; a
/// directory is named by its true path, and a file by one name alone. What is not there is not denied.
pub proof fn protected_nodes_are_the_users_own(found: Attributes, wanted: Node, uid: u32)
    ensures
        protection(None, wanted, uid) == Err::<(), ErrorCode>(ErrorCode::BrokerUnavailable),
        protection(Some(found), wanted, uid) is Ok <==> {
            &&& found.node == wanted
            &&& found.owner == uid
            &&& found.mode & 0o070 == 0 && found.mode & 0o007 == 0
            &&& wanted is Directory ==> found.canonical
            &&& wanted is Regular ==> found.links == 1
        },
        protection(Some(found), wanted, uid) is Err ==> protection(Some(found), wanted, uid) == Err::<(), ErrorCode>(
            ErrorCode::PermissionDenied,
        ),
{
    let mode = found.mode;
    assert((mode & 0o077 == 0) == (mode & 0o070 == 0 && mode & 0o007 == 0)) by (bit_vector);
}

/// An endpoint is protected where its directory and its socket both are.
pub proof fn endpoints_are_protected_twice(parent: Option<Attributes>, found: Option<Attributes>, uid: u32)
    ensures
        endpoint_protection(parent, found, uid) is Ok <==> protection(parent, Node::Directory, uid) is Ok && protection(
            found,
            Node::Socket,
            uid,
        ) is Ok,
        parent is None ==> endpoint_protection(parent, found, uid) == Err::<(), ErrorCode>(
            ErrorCode::BrokerUnavailable,
        ),
{
}

/// Before a socket is made its place is looked at: a directory that is not there is passed over, one that
/// is not protected is refused, and so is a place that is taken by anything but a protected socket.
pub proof fn places_are_looked_at_first(parent: Option<Attributes>, occupant: Occupant, uid: u32)
    ensures
        preflight(parent, occupant, uid) == Ok::<Preflight, ErrorCode>(Preflight::Skip) <==> parent is None,
        parent is Some && protection(parent, Node::Directory, uid) is Err ==> preflight(parent, occupant, uid) == Err::<
            Preflight,
            ErrorCode,
        >(ErrorCode::PermissionDenied),
        preflight(parent, occupant, uid) == Ok::<Preflight, ErrorCode>(Preflight::Proceed) <==> protection(
            parent,
            Node::Directory,
            uid,
        ) is Ok && (occupant is Nothing || (occupant matches Occupant::Found(found) && protection(
            Some(found),
            Node::Socket,
            uid,
        ) is Ok)),
{
}

/// A peer is let in that is known, is one of those served, and for whom there is room on both sides; it
/// then takes one place and one handshake.
pub proof fn known_peers_are_let_in(peer: Option<u32>, served: Seq<u32>, global: Budget, local: Budget)
    ensures
        peer is None ==> !is_let_in(peer, served, global, local),
        peer matches Some(uid) ==> !served.contains(uid) ==> !is_let_in(peer, served, global, local),
        global.clients == 0 || local.clients == 0 || global.handshakes == 0 || local.handshakes == 0 ==> !is_let_in(
            peer,
            served,
            global,
            local,
        ),
        peer matches Some(uid) ==> served.contains(uid) && global.clients > 0 && local.clients > 0 && global.handshakes
            > 0 && local.handshakes > 0 ==> is_let_in(peer, served, global, local),
        is_let_in(peer, served, global, local) ==> after_letting_in(global).clients + 1 == global.clients
            && after_letting_in(global).handshakes + 1 == global.handshakes && after_letting_in(global).active
            == global.active && after_letting_in(global).queued == global.queued && after_letting_in(global).bytes
            == global.bytes,
{
}

/// A session begins with a greeting of the first version and a name of at most 256 bytes.
pub proof fn sessions_begin_with_a_greeting(kind: Seq<char>, client_name: Option<Seq<char>>, version: u32)
    ensures
        greeting(kind, client_name, version) is Ok <==> kind == "hello"@ && version == 1 && (client_name matches Some(
            name,
        ) ==> utf8_len(name) <= 256),
        kind != "hello"@ ==> greeting(kind, client_name, version) == Err::<(), ErrorCode>(ErrorCode::InvalidRequest),
        kind == "hello"@ && client_name is None && version != 1 ==> greeting(kind, client_name, version) == Err::<
            (),
            ErrorCode,
        >(ErrorCode::ProtocolMismatch),
{
}

/// A request is named by one to 64 letters, digits, hyphens and underscores.
pub proof fn requests_have_plain_names(id: Seq<char>)
    ensures
        is_request_id(id) <==> id.len() > 0 && utf8_len(id) <= 64 && forall|i: int|
            0 <= i < id.len() ==> ('a' <= #[trigger] id[i] <= 'z') || ('A' <= id[i] <= 'Z') || ('0' <= id[i] <= '9')
                || id[i] == '_' || id[i] == '-',
{
    if is_request_id(id) {
        assert forall|i: int| 0 <= i < id.len() implies ('a' <= #[trigger] id[i] <= 'z') || ('A' <= id[i] <= 'Z') || (
        '0' <= id[i] <= '9') || id[i] == '_' || id[i] == '-' by {
            assert(is_request_char(id[i]));
        }
    }
}

/// A socket is made where there is none or a dead one, which goes first; a live one is left alone.
pub proof fn live_sockets_are_left_alone(probe: Probe, r: Binding)
    requires
        call_ensures(binding, (probe,), r),
    ensures
        r is MarkUnavailable <==> probe is Live,
        r is Bind <==> probe is Absent,
        r is RemoveAndBind <==> probe is Refused,
{
}

/// A message has at least one byte and at most as many as it may, and is charged twice its length.
pub proof fn messages_are_charged_twice(length: u32, maximum: usize, r: Result<usize, Error>)
    requires
        call_ensures(frame_length, (length, maximum), r),
    ensures
        length == 0 || length > maximum ==> (r matches Err(error) && error.code is InvalidRequest),
        r matches Ok(bytes) ==> bytes == length + length,
        1 <= length <= maximum && length + length <= u32::MAX ==> r is Ok,
{
}

/// Only the broker that was expected is spoken to, only in the first version, and its reply has to be the
/// one to the request.
pub proof fn only_the_expected_broker_is_spoken_to(
    peer: Option<u32>,
    expected: u32,
    version: u32,
    request: &str,
    answered: &str,
    broker: Result<(), Error>,
    welcome: Result<(), Error>,
    reply: Result<(), Error>,
)
    requires
        call_ensures(check_broker, (peer, expected), broker),
        call_ensures(check_welcome, (version,), welcome),
        call_ensures(check_reply, (request, answered, version), reply),
    ensures
        broker is Ok <==> peer == Some(expected),
        broker matches Err(error) ==> error.code is PermissionDenied,
        welcome is Ok <==> version == 1,
        reply is Ok <==> version == 1 && request@ == answered@,
        reply matches Err(error) ==> error.code is ProtocolMismatch,
{
}

/// A request ends as it went; one that was withdrawn is told as cancelled, and one that took too long as
/// timed out.
pub proof fn requests_end_as_they_went(ending: Ending<u64>, r: Result<u64, Error>)
    requires
        call_ensures(settle::<u64>, (ending,), r),
    ensures
        ending is Cancelled ==> (r matches Err(error) && error.code is Cancelled),
        ending is Expired ==> (r matches Err(error) && error.code is Timeout),
        ending matches Ending::Finished(result) ==> r == result,
{
}

} // verus!
