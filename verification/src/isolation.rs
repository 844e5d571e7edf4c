//! Native macOS IPC for the explicitly provisioned isolated topology.
use vstd::prelude::*;

use crate::config::Limits;
use crate::domain::{Error, ErrorCode, IsolationCapacity, OperationResult};
use crate::encoding::{depth_fits, validate_json_depth};
use crate::path::{
    absolute_paths_begin_at_the_root, begins_with, same_path, slashes_part_the_steps, steps,
};
use crate::policy::{Authority, RequestContext};
use crate::text::{byte_len, same, utf8_len};

verus! {

pub const ROUTE_BYTES: usize = 65536;

pub const REQUEST_BYTES: usize = 65536;

/// Sessions that are served at once.
pub const SESSIONS: usize = 4;

/// Where the service listens.
pub open spec fn socket_path() -> Seq<char> {
    "/Library/Application Support/mailctl-isolated/run/socket"@
}

fn unavailable() -> (r: Error)
    ensures
        r.reports(ErrorCode::BrokerUnavailable),
{
    Error::new(ErrorCode::BrokerUnavailable)
}

/// One user who may use the service, and the grant that the operator assigned.
#[derive(Debug)]
pub struct Caller {
    pub uid: u32,
    pub grant: String,
}

/// The operator's routing of callers to the service.
#[derive(Debug)]
pub struct Route {
    pub version: u32,
    pub service_uid: u32,
    pub socket: String,
    pub callers: Vec<Caller>,
}

impl Caller {
    /// An ordinary user, neither the superuser nor the service, with a named grant.
    pub open spec fn valid(self, service_uid: u32) -> bool {
        self.uid != 0 && self.uid != service_uid && 1 <= utf8_len(self.grant@) <= 128
    }
}

/// The grant of the first caller with this identity, from `i` on.
pub open spec fn grant_from(callers: Seq<Caller>, uid: u32, i: int) -> Option<Seq<char>>
    decreases callers.len() - i,
{
    if !(0 <= i < callers.len()) {
        None
    } else if callers[i].uid == uid {
        Some(callers[i].grant@)
    } else {
        grant_from(callers, uid, i + 1)
    }
}

impl Route {
    /// The route leads to the one socket, and no caller is named twice.
    pub open spec fn valid(self) -> bool {
        &&& self.version == 1
        &&& self.service_uid != 0
        &&& steps(self.socket@) == steps(socket_path())
        &&& self.callers@.len() <= 256
        &&& forall|i: int|
            0 <= i < self.callers@.len() ==> (#[trigger] self.callers@[i]).valid(self.service_uid)
        &&& forall|i: int, j: int|
            0 <= i < j < self.callers@.len() ==> (#[trigger] self.callers@[i]).uid != (
            #[trigger] self.callers@[j]).uid
    }

    pub fn validate(&self) -> (r: Result<(), Error>)
        ensures
            match r {
                Ok(()) => self.valid(),
                Err(error) => !self.valid() && error.reports(ErrorCode::BrokerUnavailable),
            },
    {
        if self.version != 1 || self.service_uid == 0 || !same_path(
            self.socket.as_str(),
            "/Library/Application Support/mailctl-isolated/run/socket",
        ) || self.callers.len() > 256 {
            return Err(unavailable());
        }
        for j in 0..self.callers.len()
            invariant
                forall|a: int|
                    0 <= a < j ==> (#[trigger] self.callers@[a]).valid(self.service_uid),
                forall|a: int, b: int|
                    0 <= a < b < j ==> (#[trigger] self.callers@[a]).uid != (
                    #[trigger] self.callers@[b]).uid,
        {
            let caller = &self.callers[j];
            let length: usize = byte_len(caller.grant.as_str());
            if caller.uid == 0 || caller.uid == self.service_uid || length == 0 || length > 128 {
                assert(!self.callers@[j as int].valid(self.service_uid));
                return Err(unavailable());
            }
            for i in 0..j
                invariant
                    j < self.callers@.len(),
                    *caller == self.callers@[j as int],
                    forall|a: int| 0 <= a < i ==> (#[trigger] self.callers@[a]).uid != caller.uid,
            {
                if self.callers[i].uid == caller.uid {
                    assert(self.callers@[i as int].uid == self.callers@[j as int].uid);
                    return Err(unavailable());
                }
            }
        }
        Ok(())
    }

    /// The grant of a caller.
    pub fn grant(&self, uid: u32) -> (r: Option<&str>)
        ensures
            match r {
                Some(grant) => grant_from(self.callers@, uid, 0) == Some(grant@),
                None => grant_from(self.callers@, uid, 0) is None,
            },
    {
        let mut i: usize = 0;
        while i < self.callers.len()
            invariant
                i <= self.callers@.len(),
                grant_from(self.callers@, uid, i as int) == grant_from(self.callers@, uid, 0),
            decreases self.callers@.len() - i,
        {
            if self.callers[i].uid == uid {
                return Some(self.callers[i].grant.as_str());
            }
            i = i + 1;
        }
        None
    }

    /// A caller may connect when the route names it; the superuser and the service never may.
    pub fn check_caller(&self, caller: u32) -> (r: Result<(), Error>)
        ensures
            match r {
                Ok(()) => caller != 0 && caller != self.service_uid && grant_from(
                    self.callers@,
                    caller,
                    0,
                ) is Some,
                Err(error) => error.reports(ErrorCode::PermissionDenied) && (caller == 0 || caller
                    == self.service_uid || grant_from(self.callers@, caller, 0) is None),
            },
    {
        if caller == 0 || caller == self.service_uid || self.grant(caller).is_none() {
            return Err(Error::new(ErrorCode::PermissionDenied));
        }
        Ok(())
    }

    /// The process that serves runs as the service, and not as the superuser.
    pub fn check_server(&self, uid: u32) -> (r: Result<(), Error>)
        ensures
            match r {
                Ok(()) => uid != 0 && uid == self.service_uid,
                Err(error) => error.reports(ErrorCode::BrokerUnavailable) && (uid == 0 || uid
                    != self.service_uid),
            },
    {
        if uid == 0 || uid != self.service_uid {
            return Err(unavailable());
        }
        Ok(())
    }

    /// The peer behind the socket is the service.
    pub fn check_peer(&self, peer: Option<u32>) -> (r: Result<(), Error>)
        ensures
            match r {
                Ok(()) => peer == Some(self.service_uid),
                Err(error) => error.reports(ErrorCode::BrokerUnavailable) && peer != Some(
                    self.service_uid,
                ),
            },
    {
        match peer {
            Some(uid) => if uid == self.service_uid {
                Ok(())
            } else {
                Err(unavailable())
            },
            None => Err(unavailable()),
        }
    }
}

/// The first frame of the service, as far as the client judges it.
#[derive(Debug)]
pub enum Offer {
    Hello { version: u32, limits: Limits, response_bound: usize },
    Other,
}

/// What a client knows of its session.
#[derive(Debug)]
pub struct Client {
    /// The connection can be used: no exchange on it was broken off.
    pub open: bool,
    pub limits: Limits,
    pub response_bound: usize,
}

/// The offer of a service that a client accepts.
pub open spec fn is_acceptable(offer: Offer) -> bool {
    offer matches Offer::Hello { version, limits, response_bound } && version == 1
        && limits.valid() && 1024 <= response_bound <= limits.envelope_bytes
}

impl Client {
    pub fn accept(offer: Offer) -> (r: Result<Self, Error>)
        ensures
            match r {
                Ok(client) => is_acceptable(offer) && client.open && (offer matches Offer::Hello {
                    limits,
                    response_bound,
                    ..
                } && client.limits == limits && client.response_bound == response_bound),
                Err(error) => !is_acceptable(offer) && error.reports(ErrorCode::ProtocolMismatch),
            },
    {
        match offer {
            Offer::Hello { version, limits, response_bound } => {
                if version != 1 {
                    return Err(Error::new(ErrorCode::ProtocolMismatch));
                }
                match limits.validate() {
                    Ok(()) => {},
                    Err(_) => {
                        return Err(Error::new(ErrorCode::ProtocolMismatch));
                    },
                }
                if response_bound < 1024 || response_bound > limits.envelope_bytes {
                    return Err(Error::new(ErrorCode::ProtocolMismatch));
                }
                Ok(Client { open: true, limits, response_bound })
            },
            Offer::Other => Err(Error::new(ErrorCode::ProtocolMismatch)),
        }
    }

    /// Lowers the bound on responses; it is never raised.
    pub fn limit_response(&mut self, maximum: usize)
        ensures
            *final(self) == (Client {
                response_bound: if old(self).response_bound < maximum {
                    old(self).response_bound
                } else {
                    maximum
                },
                ..*old(self)
            }),
    {
        if maximum < self.response_bound {
            self.response_bound = maximum;
        }
    }

    /// Takes the connection for one exchange. It stays taken until the answer has been received, so that
    /// no later request receives an answer that belonged to a cancelled one.
    pub fn begin(&mut self) -> (r: Result<(), Error>)
        ensures
            final(self).limits == old(self).limits,
            final(self).response_bound == old(self).response_bound,
            !final(self).open,
            match r {
                Ok(()) => old(self).open,
                Err(error) => !old(self).open && error.reports(ErrorCode::BrokerUnavailable),
            },
    {
        if !self.open {
            return Err(unavailable());
        }
        self.open = false;
        Ok(())
    }

    /// Ends an exchange with the answer: only a result gives the connection back.
    pub fn finish(&mut self, is_result: bool) -> (r: Result<(), Error>)
        ensures
            final(self).limits == old(self).limits,
            final(self).response_bound == old(self).response_bound,
            match r {
                Ok(()) => is_result && final(self).open,
                Err(error) => !is_result && final(self).open == old(self).open && error.reports(
                    ErrorCode::ProtocolMismatch,
                ),
            },
    {
        if is_result {
            self.open = true;
            Ok(())
        } else {
            Err(Error::new(ErrorCode::ProtocolMismatch))
        }
    }
}

/// A frame of a client, as far as the session is concerned.
#[derive(Clone, Copy, Debug, PartialEq, Eq, Structural)]
pub enum ClientFrame {
    Hello { version: u32 },
    Operation { response_limit: usize },
    Doctor { response_limit: usize },
}

/// A session starts with a greeting of the first version.
pub fn check_greeting(frame: ClientFrame) -> (r: Result<(), Error>)
    ensures
        match r {
            Ok(()) => frame == (ClientFrame::Hello { version: 1 }),
            Err(error) => frame != (ClientFrame::Hello { version: 1 }) && error.reports(
                ErrorCode::ProtocolMismatch,
            ),
        },
{
    match frame {
        ClientFrame::Hello { version } => if version == 1 {
            Ok(())
        } else {
            Err(Error::new(ErrorCode::ProtocolMismatch))
        },
        _ => Err(Error::new(ErrorCode::ProtocolMismatch)),
    }
}

/// The bound that a client sets on the answer to its request.
pub open spec fn requested_bound(frame: ClientFrame) -> Option<usize> {
    match frame {
        ClientFrame::Operation { response_limit } | ClientFrame::Doctor { response_limit } => Some(
            response_limit,
        ),
        ClientFrame::Hello { .. } => None,
    }
}

/// Accepts a request of a running session: no second greeting, and a bound that the session can keep.
pub fn check_request(frame: ClientFrame, response_bound: usize) -> (r: Result<usize, Error>)
    ensures
        match requested_bound(frame) {
            None => r matches Err(error) && error.reports(ErrorCode::ProtocolMismatch),
            Some(bound) => if 1024 <= bound <= response_bound {
                r == Ok::<usize, Error>(bound)
            } else {
                r matches Err(error) && error.reports(ErrorCode::InvalidRequest)
            },
        },
{
    let bound: usize = match frame {
        ClientFrame::Operation { response_limit } | ClientFrame::Doctor { response_limit } =>
            response_limit,
        ClientFrame::Hello { .. } => {
            return Err(Error::new(ErrorCode::ProtocolMismatch));
        },
    };
    if bound < 1024 || bound > response_bound {
        return Err(Error::new(ErrorCode::InvalidRequest));
    }
    Ok(bound)
}

/// The context of one request, whose answer leaves 256 bytes for its frame.
pub fn narrow_context(context: RequestContext, bound: usize) -> (r: RequestContext)
    ensures
        r@ == (Authority {
            response_limit: lesser(context@.response_limit, reduced(bound, 256)),
            ..context@
        }),
{
    context.with_response_limit(bound.saturating_sub(256))
}

pub open spec fn lesser(a: usize, b: usize) -> usize {
    if a < b {
        a
    } else {
        b
    }
}

pub open spec fn reduced(a: usize, b: usize) -> usize {
    if a < b {
        0
    } else {
        (a - b) as usize
    }
}

fn smaller(a: usize, b: usize) -> (r: usize)
    ensures
        r == lesser(a, b),
{
    if a < b {
        a
    } else {
        b
    }
}

/// The ceilings of an isolated session under a grant.
pub open spec fn narrowed_limits(configured: Limits) -> Limits {
    Limits {
        operation_seconds: lesser(configured.operation_seconds, 30),
        initialization_seconds: lesser(configured.initialization_seconds, 5),
        connection_lifetime_seconds: lesser(configured.connection_lifetime_seconds, 300),
        active_requests: 1,
        json_nesting: lesser(configured.json_nesting, 32),
        ..configured
    }
}

/// The largest response of a session. Every byte of a request is covered 128 times, for generic JSON
/// decoding, and a response sixteen times, within the share of one session.
pub open spec fn session_bound(configured: Limits) -> usize {
    lesser(
        configured.envelope_bytes,
        (reduced((configured.buffered_bytes / SESSIONS) as usize, 8388608) / 16) as usize,
    )
}

pub fn session_limits(configured: &Limits) -> (r: Result<(Limits, usize), Error>)
    ensures
        match r {
            Ok((limits, bound)) => {
                &&& limits == narrowed_limits(*configured)
                &&& bound == session_bound(*configured)
                &&& bound >= 1024
            },
            Err(error) => session_bound(*configured) < 1024 && error.reports(
                ErrorCode::BrokerUnavailable,
            ),
        },
{
    let mut limits = *configured;
    limits.operation_seconds = smaller(limits.operation_seconds, 30);
    limits.initialization_seconds = smaller(limits.initialization_seconds, 5);
    limits.connection_lifetime_seconds = smaller(limits.connection_lifetime_seconds, 300);
    limits.active_requests = 1;
    limits.json_nesting = smaller(limits.json_nesting, 32);
    // Internally tagged frames buffer generic content before typed field bounds reject unknown or
    // oversized fields. Reserve generic JSON decoding space for every wire byte; sixteen
    // response-sized units separately cover result fields, serialization growth, framed output, and
    // bounded task metadata.
    let share: usize = limits.buffered_bytes / SESSIONS;
    let response_bound: usize = smaller(limits.envelope_bytes, share.saturating_sub(8388608) / 16);
    if response_bound < 1024 {
        return Err(unavailable());
    }
    Ok((limits, response_bound))
}

/// What all sessions together may hold stays within the buffer: for each, its requests and its responses.
pub proof fn sessions_fit_the_buffer(configured: Limits)
    requires
        session_bound(configured) >= 1024,
    ensures
        SESSIONS * (128 * REQUEST_BYTES + 16 * session_bound(configured))
            <= configured.buffered_bytes,
{
    let share = configured.buffered_bytes / SESSIONS;
    let room = reduced(share as usize, 8388608);
    assert(session_bound(configured) <= room / 16);
    assert(share >= 8388608);
}

/// Shows the capacity of a session in the answer to a question for capabilities; other answers pass.
pub fn isolated_capacity(
    result: Result<OperationResult, Error>,
    limits: &Limits,
    session_cap: usize,
) -> (r: Result<OperationResult, Error>)
    ensures
        match (result, r) {
            (
                Ok(OperationResult::Capabilities(before)),
                Ok(OperationResult::Capabilities(after)),
            ) => {
                &&& after.operations == before.operations
                &&& after.permissions == before.permissions
                &&& after.health == before.health
                &&& after.capacity.per_process.active_requests == session_cap
                &&& after.capacity.per_process.queued_requests == 0
                &&& after.capacity.per_process.buffered_bytes
                    == before.capacity.per_process.buffered_bytes
                &&& after.capacity.isolation == Some(
                    IsolationCapacity {
                        sessions: session_cap as u64,
                        active_requests_per_session: 1,
                        request_bytes: REQUEST_BYTES as u64,
                        session_seconds: limits.connection_lifetime_seconds as u64,
                    },
                )
            },
            (Ok(OperationResult::Capabilities(_)), _) => false,
            _ => r == result,
        },
{
    match result {
        Ok(OperationResult::Capabilities(capabilities)) => {
            let mut capabilities = capabilities;
            capabilities.capacity.per_process.active_requests = session_cap as u64;
            capabilities.capacity.per_process.queued_requests = 0;
            capabilities.capacity.isolation = Some(
                IsolationCapacity {
                    sessions: session_cap as u64,
                    active_requests_per_session: 1,
                    request_bytes: REQUEST_BYTES as u64,
                    session_seconds: limits.connection_lifetime_seconds as u64,
                },
            );
            Ok(OperationResult::Capabilities(capabilities))
        },
        result => result,
    }
}

/// Accepts the length of a frame.
pub fn frame_length(length: u32, maximum: usize) -> (r: Result<usize, Error>)
    ensures
        match r {
            Ok(bytes) => 1 <= length <= maximum && bytes == length,
            Err(error) => !(1 <= length <= maximum) && error.reports(ErrorCode::InvalidRequest),
        },
{
    if length == 0 || length as usize > maximum {
        return Err(Error::new(ErrorCode::InvalidRequest));
    }
    Ok(length as usize)
}

/// Accepts the nesting of a frame before it is decoded.
pub fn check_frame(bytes: &[u8], nesting: usize) -> (r: Result<(), Error>)
    ensures
        match r {
            Ok(()) => depth_fits(bytes@, nesting as nat),
            Err(error) => !depth_fits(bytes@, nesting as nat) && error.reports(
                ErrorCode::InvalidRequest,
            ),
        },
{
    validate_json_depth(bytes, nesting)
}

/// Places for sessions that are left: for the service, and for each grant.
#[derive(Debug)]
pub struct Places {
    pub left: usize,
    pub grants: Vec<GrantPlaces>,
}

#[derive(Debug)]
pub struct GrantPlaces {
    pub grant: String,
    pub cap: usize,
    pub left: usize,
}

/// The place of the entry for a grant, from `i` on.
pub open spec fn entry_of(grants: Seq<GrantPlaces>, grant: Seq<char>, i: int) -> Option<int>
    decreases grants.len() - i,
{
    if !(0 <= i < grants.len()) {
        None
    } else if grants[i].grant@ == grant {
        Some(i)
    } else {
        entry_of(grants, grant, i + 1)
    }
}

/// The grants, one of them with this many places left.
pub open spec fn with_left(grants: Seq<GrantPlaces>, at: int, left: usize) -> Seq<GrantPlaces> {
    grants.update(at, GrantPlaces { left, ..grants[at] })
}

/// What one session takes and gives back leaves every grant as it was.
pub proof fn places_come_back(grants: Seq<GrantPlaces>, grant: Seq<char>)
    requires
        entry_of(grants, grant, 0) matches Some(at) && grants[at].left > 0,
    ensures
        ({
            let at = entry_of(grants, grant, 0)->0;
            let taken = with_left(grants, at, (grants[at].left - 1) as usize);
            &&& entry_of(taken, grant, 0) == Some(at)
            &&& with_left(taken, at, (taken[at].left + 1) as usize) == grants
        }),
{
    let at = entry_of(grants, grant, 0)->0;
    let taken = with_left(grants, at, (grants[at].left - 1) as usize);
    entries_exist(grants, grant, 0);
    entries_stay(grants, taken, grant, 0);
    assert(with_left(taken, at, (taken[at].left + 1) as usize) =~= grants);
}

proof fn entries_exist(grants: Seq<GrantPlaces>, grant: Seq<char>, i: int)
    requires
        0 <= i,
    ensures
        entry_of(grants, grant, i) matches Some(at) ==> i <= at < grants.len(),
    decreases grants.len() - i,
{
    if i < grants.len() && grants[i].grant@ != grant {
        entries_exist(grants, grant, i + 1);
    }
}

proof fn entries_stay(grants: Seq<GrantPlaces>, other: Seq<GrantPlaces>, grant: Seq<char>, i: int)
    requires
        0 <= i,
        grants.len() == other.len(),
        forall|k: int| 0 <= k < grants.len() ==> (#[trigger] grants[k]).grant == other[k].grant,
    ensures
        entry_of(grants, grant, i) == entry_of(other, grant, i),
    decreases grants.len() - i,
{
    if i < grants.len() && grants[i].grant@ != grant {
        entries_stay(grants, other, grant, i + 1);
    }
}

impl Places {
    /// Every place of the service is free, and no grant has places yet.
    pub fn new(active_requests: usize) -> (r: Self)
        ensures
            r.left == if active_requests < SESSIONS {
                active_requests
            } else {
                SESSIONS
            },
            r.grants@.len() == 0,
    {
        Places {
            left: if active_requests < SESSIONS {
                active_requests
            } else {
                SESSIONS
            },
            grants: Vec::new(),
        }
    }

    fn find(&self, grant: &str) -> (r: Option<usize>)
        ensures
            match r {
                Some(at) => entry_of(self.grants@, grant@, 0) == Some(at as int) && at
                    < self.grants@.len(),
                None => entry_of(self.grants@, grant@, 0) is None,
            },
    {
        let mut i: usize = 0;
        while i < self.grants.len()
            invariant
                i <= self.grants@.len(),
                entry_of(self.grants@, grant@, i as int) == entry_of(self.grants@, grant@, 0),
            decreases self.grants@.len() - i,
        {
            if same(self.grants[i].grant.as_str(), grant) {
                return Some(i);
            }
            i = i + 1;
        }
        None
    }

    /// Gives a grant the places that its own limit and the places of the service allow. A grant that
    /// has places keeps them.
    pub fn enroll(&mut self, grant: &str, active_requests: usize, sessions: usize)
        ensures
            final(self).left == old(self).left,
            match entry_of(old(self).grants@, grant@, 0) {
                Some(_) => final(self).grants@ == old(self).grants@,
                None => {
                    let cap = if active_requests < sessions {
                        active_requests
                    } else {
                        sessions
                    };
                    &&& final(self).grants@.len() == old(self).grants@.len() + 1
                    &&& final(self).grants@.drop_last() == old(self).grants@
                    &&& final(self).grants@.last().grant@ == grant@
                    &&& final(self).grants@.last().cap == cap
                    &&& final(self).grants@.last().left == cap
                },
            },
    {
        if self.find(grant).is_some() {
            return;
        }
        let cap: usize = if active_requests < sessions {
            active_requests
        } else {
            sessions
        };
        self.grants.push(GrantPlaces { grant: grant.to_owned(), cap, left: cap });
        assert(self.grants@.drop_last() =~= old(self).grants@);
    }

    /// Takes one place of the service and one of the grant, or neither; says how many the grant has.
    pub fn take(&mut self, grant: &str) -> (r: Option<usize>)
        ensures
            match r {
                Some(cap) => {
                    &&& old(self).left > 0
                    &&& entry_of(old(self).grants@, grant@, 0) matches Some(at)
                    &&& old(self).grants@[at].left > 0
                    &&& cap == old(self).grants@[at].cap
                    &&& final(self).left == old(self).left - 1
                    &&& final(self).grants@ == with_left(
                        old(self).grants@,
                        at,
                        (old(self).grants@[at].left - 1) as usize,
                    )
                },
                None => {
                    &&& *final(self) == *old(self)
                    &&& old(self).left == 0 || (match entry_of(old(self).grants@, grant@, 0) {
                        Some(at) => old(self).grants@[at].left == 0,
                        None => true,
                    })
                },
            },
    {
        if self.left == 0 {
            return None;
        }
        match self.find(grant) {
            None => None,
            Some(at) => {
                let left: usize = self.grants[at].left;
                if left == 0 {
                    return None;
                }
                self.left = self.left - 1;
                Some(self.put(at, left - 1))
            },
        }
    }

    fn put(&mut self, at: usize, left: usize) -> (r: usize)
        requires
            at < old(self).grants@.len(),
        ensures
            final(self).left == old(self).left,
            final(self).grants@ == with_left(old(self).grants@, at as int, left),
            r == old(self).grants@[at as int].cap,
    {
        let cap: usize = self.grants[at].cap;
        let grant = self.grants[at].grant.clone();
        self.grants.set(at, GrantPlaces { grant, cap, left });
        cap
    }

    /// Gives back what a session took.
    pub fn give_back(&mut self, grant: &str)
        requires
            old(self).left < usize::MAX,
            entry_of(old(self).grants@, grant@, 0) matches Some(at) ==> old(self).grants@[at].left
                < usize::MAX,
        ensures
            final(self).left == old(self).left + 1,
            match entry_of(old(self).grants@, grant@, 0) {
                Some(at) => final(self).grants@ == with_left(
                    old(self).grants@,
                    at,
                    (old(self).grants@[at].left + 1) as usize,
                ),
                None => final(self).grants@ == old(self).grants@,
            },
    {
        self.left = self.left + 1;
        match self.find(grant) {
            Some(at) => {
                let left: usize = self.grants[at].left;
                self.put(at, left + 1);
            },
            None => {},
        }
    }
}

/// What the system says of one path, without following a link.
#[derive(Clone, Copy, Debug, PartialEq, Eq, Structural)]
pub struct PathFacts {
    pub link: bool,
    pub directory: bool,
    pub regular: bool,
    pub socket: bool,
    pub owner: u32,
    pub mode: u32,
    pub length: u64,
}

/// Nobody but the owner can write.
pub open spec fn is_guarded(facts: PathFacts) -> bool {
    facts.mode & 0o022 == 0
}

/// A path that only the superuser can change: each of its ancestors is a directory of the superuser, and
/// the path itself is too, or is a file.
pub open spec fn is_root_path(chain: Seq<PathFacts>, directory: bool) -> bool {
    forall|i: int|
        0 <= i < chain.len() ==> {
            let facts = #[trigger] chain[i];
            &&& !facts.link
            &&& facts.owner == 0
            &&& is_guarded(facts)
            &&& facts.directory || (i == 0 && !directory && facts.regular)
        }
}

/// Accepts a path by what is said of it and of its ancestors, the path itself first; `canonical` says
/// that it resolves to itself.
pub fn verify_root_path(canonical: bool, chain: &Vec<PathFacts>, directory: bool) -> (r: Result<
    (),
    Error,
>)
    ensures
        match r {
            Ok(()) => canonical && is_root_path(chain@, directory),
            Err(error) => !(canonical && is_root_path(chain@, directory)) && error.reports(
                ErrorCode::BrokerUnavailable,
            ),
        },
{
    if !canonical {
        return Err(unavailable());
    }
    for i in 0..chain.len()
        invariant
            canonical,
            forall|j: int|
                0 <= j < i ==> {
                    let facts = #[trigger] chain@[j];
                    &&& !facts.link
                    &&& facts.owner == 0
                    &&& is_guarded(facts)
                    &&& facts.directory || (j == 0 && !directory && facts.regular)
                },
    {
        let facts = chain[i];
        if facts.link || facts.owner != 0 || facts.mode & 0o022 != 0 || !(facts.directory || (i == 0
            && !directory && facts.regular)) {
            assert(chain@[i as int] == facts);
            return Err(unavailable());
        }
    }
    Ok(())
}

/// A directory of the service that no other user can see into, below directories of the service or of the
/// superuser.
pub open spec fn is_private_directory(chain: Seq<PathFacts>, uid: u32) -> bool {
    &&& chain.len() > 0
    &&& chain[0].owner == uid
    &&& chain[0].mode & 0o077 == 0
    &&& forall|i: int|
        0 <= i < chain.len() ==> {
            let facts = #[trigger] chain[i];
            &&& !facts.link
            &&& facts.directory
            &&& facts.owner == 0 || facts.owner == uid
            &&& is_guarded(facts)
        }
}

pub fn verify_private_directory(chain: &Vec<PathFacts>, uid: u32) -> (r: Result<(), Error>)
    ensures
        match r {
            Ok(()) => is_private_directory(chain@, uid),
            Err(error) => !is_private_directory(chain@, uid) && error.reports(
                ErrorCode::BrokerUnavailable,
            ),
        },
{
    for i in 0..chain.len()
        invariant
            forall|j: int|
                0 <= j < i ==> {
                    let facts = #[trigger] chain@[j];
                    &&& !facts.link
                    &&& facts.directory
                    &&& facts.owner == 0 || facts.owner == uid
                    &&& is_guarded(facts)
                },
    {
        let facts = chain[i];
        if facts.link || !facts.directory || (facts.owner != 0 && facts.owner != uid) || facts.mode
            & 0o022 != 0 {
            assert(chain@[i as int] == facts);
            return Err(unavailable());
        }
    }
    if chain.len() == 0 || chain[0].owner != uid || chain[0].mode & 0o077 != 0 {
        return Err(unavailable());
    }
    Ok(())
}

/// A file of its owner within a size, that nobody else can touch in the given ways.
pub open spec fn is_private_file(facts: PathFacts, maximum: usize, owner: u32, writable: u32) -> bool {
    facts.regular && facts.owner == owner && facts.mode & writable == 0 && facts.length <= maximum
}

pub fn check_private_file(facts: PathFacts, maximum: usize, owner: u32, writable: u32) -> (r: Result<
    (),
    Error,
>)
    ensures
        match r {
            Ok(()) => is_private_file(facts, maximum, owner, writable),
            Err(error) => !is_private_file(facts, maximum, owner, writable) && error.reports(
                ErrorCode::BrokerUnavailable,
            ),
        },
{
    if !facts.regular || facts.owner != owner || facts.mode & writable != 0 || facts.length
        > maximum as u64 {
        return Err(unavailable());
    }
    Ok(())
}

/// Accepts what was read of a file: it may have grown since it was examined.
pub fn check_contents(read: usize, maximum: usize) -> (r: Result<(), Error>)
    ensures
        match r {
            Ok(()) => read <= maximum,
            Err(error) => read > maximum && error.reports(ErrorCode::BrokerUnavailable),
        },
{
    if read > maximum {
        return Err(unavailable());
    }
    Ok(())
}

/// The directory of the socket belongs to the service, and callers can pass through it.
pub fn check_run_directory(facts: PathFacts, uid: u32) -> (r: Result<(), Error>)
    ensures
        match r {
            Ok(()) => !facts.link && facts.directory && facts.owner == uid && is_guarded(facts)
                && facts.mode & 0o001 != 0,
            Err(error) => !(!facts.link && facts.directory && facts.owner == uid && is_guarded(facts)
                && facts.mode & 0o001 != 0) && error.reports(ErrorCode::BrokerUnavailable),
        },
{
    if facts.link || !facts.directory || facts.owner != uid || facts.mode & 0o022 != 0 || facts.mode
        & 0o001 == 0 {
        return Err(unavailable());
    }
    Ok(())
}

/// The lock file is a private file of the service.
pub fn check_lock(facts: PathFacts, uid: u32) -> (r: Result<(), Error>)
    ensures
        match r {
            Ok(()) => facts.regular && facts.owner == uid && facts.mode & 0o077 == 0,
            Err(error) => !(facts.regular && facts.owner == uid && facts.mode & 0o077 == 0)
                && error.reports(ErrorCode::BrokerUnavailable),
        },
{
    if !facts.regular || facts.owner != uid || facts.mode & 0o077 != 0 {
        return Err(unavailable());
    }
    Ok(())
}

/// What stands where the socket will be.
#[derive(Clone, Copy, Debug, PartialEq, Eq, Structural)]
pub enum Leftover {
    Nothing,
    Found(PathFacts),
    Unreadable,
}

/// Whether a leftover is to be removed: only a socket is, and anything else stops the service.
pub fn stale_socket(leftover: Leftover) -> (r: Result<bool, Error>)
    ensures
        match leftover {
            Leftover::Nothing => r == Ok::<bool, Error>(false),
            Leftover::Found(facts) if facts.socket => r == Ok::<bool, Error>(true),
            _ => r matches Err(error) && error.reports(ErrorCode::BrokerUnavailable),
        },
{
    match leftover {
        Leftover::Nothing => Ok(false),
        Leftover::Found(facts) => if facts.socket {
            Ok(true)
        } else {
            Err(unavailable())
        },
        Leftover::Unreadable => Err(unavailable()),
    }
}

/// The path is the directory or lies below it.
pub open spec fn lies_in(path: Seq<char>, directory: Seq<char>) -> bool {
    steps(directory).is_prefix_of(steps(path))
}

/// Whether a path lies in a directory.
pub fn starts_with(path: &str, directory: &str) -> (r: bool)
    ensures
        r == lies_in(path@, directory@),
{
    begins_with(path, directory)
}

/// The canonical path of the service's home.
pub open spec fn service_home() -> Seq<char> {
    "/private/var/db/mailctl-isolated"@
}

/// Accepts the home of the service by its canonical path.
pub fn check_home(home: &str) -> (r: Result<(), Error>)
    ensures
        match r {
            Ok(()) => steps(home@) == steps(service_home()),
            Err(error) => steps(home@) != steps(service_home()) && error.reports(ErrorCode::BrokerUnavailable),
        },
{
    if same_path(home, "/private/var/db/mailctl-isolated") {
        Ok(())
    } else {
        Err(unavailable())
    }
}

/// The state of the service lies within its home.
pub fn check_state(state: &str, home: &str) -> (r: Result<(), Error>)
    ensures
        match r {
            Ok(()) => lies_in(state@, home@),
            Err(error) => !lies_in(state@, home@) && error.reports(ErrorCode::BrokerUnavailable),
        },
{
    if starts_with(state, home) {
        Ok(())
    } else {
        Err(unavailable())
    }
}

/// A caller is a user other than root and the service, under a grant with a name of one to 128 bytes.
pub proof fn callers_are_ordinary_users(caller: Caller, service_uid: u32)
    ensures
        caller.valid(service_uid) <==> caller.uid > 0 && caller.uid != service_uid && 0 < utf8_len(caller.grant@)
            && utf8_len(caller.grant@) <= 128,
{
}

/// A caller gets the grant that is written down for their user, the first such one, and nobody else gets
/// any.
pub proof fn callers_get_their_own_grant(callers: Seq<Caller>, uid: u32, i: int)
    requires
        0 <= i,
    ensures
        match grant_from(callers, uid, i) {
            Some(grant) => exists|k: int|
                i <= k < callers.len() && (#[trigger] callers[k]).uid == uid && callers[k].grant@ == grant && forall|
                    j: int,
                |
                    i <= j < k ==> (#[trigger] callers[j]).uid != uid,
            None => forall|k: int| i <= k < callers.len() ==> (#[trigger] callers[k]).uid != uid,
        },
    decreases callers.len() - i,
{
    if i < callers.len() {
        if callers[i].uid == uid {
            assert(callers[i].uid == uid);
        } else {
            callers_get_their_own_grant(callers, uid, i + 1);
        }
    }
}

/// A route is sound where it is of the first version, the service is not root, its socket is the one that
/// the service listens on, and its callers are at most 256 ordinary users, each named once.
pub proof fn routes_lead_to_the_service(route: Route)
    requires
        route.valid(),
    ensures
        route.version == 1 && route.service_uid > 0,
        steps(route.socket@) == steps("/Library/Application Support/mailctl-isolated/run/socket"@),
        route.callers@.len() <= 256,
        forall|i: int| 0 <= i < route.callers@.len() ==> (#[trigger] route.callers@[i]).uid != route.service_uid
            && route.callers@[i].uid > 0,
        forall|i: int, j: int|
            0 <= i < route.callers@.len() && 0 <= j < route.callers@.len() && i != j
                ==> (#[trigger] route.callers@[i]).uid != (#[trigger] route.callers@[j]).uid,
{
    assert forall|i: int| 0 <= i < route.callers@.len() implies (#[trigger] route.callers@[i]).uid
        != route.service_uid && route.callers@[i].uid > 0 by {
        assert(route.callers@[i].valid(route.service_uid));
    }
    assert forall|i: int, j: int| 0 <= i < route.callers@.len() && 0 <= j < route.callers@.len() && i
        != j implies (#[trigger] route.callers@[i]).uid != (#[trigger] route.callers@[j]).uid by {
        if i > j {
            assert(route.callers@[j].uid != route.callers@[i].uid);
        }
    }
}

/// An isolated session lives under the limits of the service and under some of its own: one request at a
/// time, half a minute for an operation, five seconds to start and five minutes in all.
pub proof fn sessions_are_narrowed(configured: Limits)
    requires
        configured.valid(),
    ensures
        narrowed_limits(configured).within(configured),
        narrowed_limits(configured).active_requests == 1,
        narrowed_limits(configured).operation_seconds <= 30 && narrowed_limits(configured).initialization_seconds <= 5
            && narrowed_limits(configured).connection_lifetime_seconds <= 300 && narrowed_limits(
            configured,
        ).json_nesting <= 32,
        configured.operation_seconds <= 30 ==> narrowed_limits(configured).operation_seconds
            == configured.operation_seconds,
        configured.json_nesting <= 32 ==> narrowed_limits(configured).json_nesting == configured.json_nesting,
        narrowed_limits(configured).envelope_bytes == configured.envelope_bytes,
        session_bound(configured) <= configured.envelope_bytes,
        16 * session_bound(configured) <= configured.buffered_bytes / 4,
{
}

/// A service is accepted that speaks the first version, has valid limits and answers in at least 1024
/// bytes and at most as many as its envelope has.
pub proof fn offers_are_accepted_for_cause(offer: Offer)
    ensures
        is_acceptable(offer) <==> match offer {
            Offer::Hello { version, limits, response_bound } => version == 1 && limits.valid() && 1024
                <= response_bound && response_bound <= limits.envelope_bytes,
            _ => false,
        },
{
}

/// Nobody but its owner may change a guarded file.
pub proof fn guarded_files_are_written_by_their_owner(facts: PathFacts)
    ensures
        is_guarded(facts) <==> facts.mode & 0o020 == 0 && facts.mode & 0o002 == 0,
{
    let mode = facts.mode;
    assert((mode & 0o022 == 0) == (mode & 0o020 == 0 && mode & 0o002 == 0)) by (bit_vector);
}

/// A path belongs to root where every step of it does, is no link, can be changed by nobody else, and is a
/// directory but for a file at its end.
pub proof fn paths_belong_to_root(chain: Seq<PathFacts>, directory: bool, i: int)
    requires
        0 <= i < chain.len(),
    ensures
        is_root_path(chain, directory) ==> chain[i].owner == 0 && !chain[i].link && chain[i].mode & 0o022 == 0
            && (chain[i].directory || chain[i].regular) && (i > 0 || directory ==> chain[i].directory),
        chain[i].owner != 0 || chain[i].link || chain[i].mode & 0o022 != 0 ==> !is_root_path(chain, directory),
{
}

/// A private directory is its user's own and closed to everybody else, and every step to it is a guarded
/// directory of that user or of root.
pub proof fn directories_are_private(chain: Seq<PathFacts>, uid: u32, i: int)
    requires
        0 <= i < chain.len(),
    ensures
        is_private_directory(chain, uid) ==> chain[0].owner == uid && chain[0].mode & 0o077 == 0,
        is_private_directory(chain, uid) ==> !chain[i].link && chain[i].directory && (chain[i].owner == 0
            || chain[i].owner == uid) && chain[i].mode & 0o022 == 0,
        !is_private_directory(Seq::empty(), uid),
{
}

/// A file is private that is regular, of the right owner, closed to what it must be closed to, and no
/// longer than it may be.
pub proof fn files_are_private(facts: PathFacts, maximum: usize, owner: u32, writable: u32)
    ensures
        is_private_file(facts, maximum, owner, writable) <==> !(!facts.regular || facts.owner != owner || facts.mode
            & writable != 0 || facts.length > maximum),
{
}

/// Both sides know each other: the server runs as the user of the route, which is never root, a client
/// accepts nobody else, and a session begins with a greeting of the first version.
pub proof fn both_sides_know_each_other(
    route: Route,
    uid: u32,
    peer: Option<u32>,
    frame: ClientFrame,
    server: Result<(), Error>,
    client: Result<(), Error>,
    greeting: Result<(), Error>,
)
    requires
        call_ensures(Route::check_server, (&route, uid), server),
        call_ensures(Route::check_peer, (&route, peer), client),
        call_ensures(check_greeting, (frame,), greeting),
    ensures
        server is Ok <==> uid == route.service_uid && uid != 0,
        client is Ok <==> peer == Some(route.service_uid),
        greeting is Ok <==> (frame matches ClientFrame::Hello { version } && version == 1),
        server matches Err(error) ==> error.code is BrokerUnavailable,
        greeting matches Err(error) ==> error.code is ProtocolMismatch,
{
}

/// A frame has at least one byte and at most as many as it may.
pub proof fn frames_are_bounded(length: u32, maximum: usize, r: Result<usize, Error>)
    requires
        call_ensures(frame_length, (length, maximum), r),
    ensures
        r is Ok <==> length > 0 && length <= maximum,
        r matches Ok(bytes) ==> bytes == length,
{
}

/// An isolated service tells what a session may do and keeps every other answer as it is.
pub proof fn isolated_answers_are_kept(
    result: Result<OperationResult, Error>,
    limits: Limits,
    session_cap: usize,
    r: Result<OperationResult, Error>,
)
    requires
        call_ensures(isolated_capacity, (result, &limits, session_cap), r),
    ensures
        result is Err ==> r == result,
        (result matches Ok(answer) && !(answer is Capabilities)) ==> r == result,
        result matches Ok(OperationResult::Capabilities(before)) ==> (r matches Ok(OperationResult::Capabilities(after))
            && after.permissions == before.permissions && after.operations == before.operations && after.health
            == before.health && after.capacity.per_process.queued_requests == 0 && (after.capacity.isolation matches Some(
            told,
        ) && told.active_requests_per_session == 1 && told.sessions == session_cap && told.session_seconds
            == limits.connection_lifetime_seconds)),
{
}

/// What stands below a directory lies in it, and so does the directory itself.
pub proof fn paths_below_lie_in_their_directory(directory: Seq<char>, rest: Seq<char>)
    requires
        directory.len() > 0 && directory[0] == '/',
    ensures
        lies_in(directory, directory),
        lies_in(directory + seq!['/'] + rest, directory),
        steps(service_home()) == steps("/private/var/db/mailctl-isolated"@),
{
    let path = directory + seq!['/'] + rest;
    slashes_part_the_steps(directory, rest);
    absolute_paths_begin_at_the_root(directory, path);
    absolute_paths_begin_at_the_root(path, directory);
    assert(path[0] == '/');
    assert(steps(directory) =~= steps(path).take(steps(directory).len() as int));
}

} // verus!
