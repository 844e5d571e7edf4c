//! Admission limits around the SDK's STDIO transport.
use vstd::prelude::*;

use crate::config::Limits;
use crate::domain::{Error, ErrorCode};
use crate::encoding::{depth_fits, nodes_fit, validate_json_bounds};
use crate::text::same;

verus! {

/// The SDK's initial buffers, the pipe in front of it, and bounded task metadata.
pub const FIXED: usize = 65536;

/// Keys and values that one frame may hold.
pub const FRAME_NODES: usize = 4096;

/// The smallest frame and envelope that are served.
pub const LEAST: usize = 1024;

/// The largest frame that is read. A full search can contain 32 four-KiB strings, each
/// JSON-escaped to six bytes per source byte.
pub const FRAME_BYTES: usize = 1048576;

pub open spec fn lesser(a: int, b: int) -> int {
    if a < b {
        a
    } else {
        b
    }
}

pub open spec fn greater(a: int, b: int) -> int {
    if a > b {
        a
    } else {
        b
    }
}

/// Descriptors of a decoded response. Nonempty identity strings occupy at least three encoded
/// bytes, with at most 100 per account; every account takes at least 160 bytes.
pub open spec fn structure_bytes(envelope: int, accounts: int) -> int {
    65536 + 64 * lesser(accounts * 100, envelope / 3) + 4096 * lesser(accounts, envelope / 160)
        + 1024 * lesser(256, envelope / 160)
}

/// A response frame: the envelope once as a value and once as escaped text, beside the caller's
/// identifier and the fixed protocol text.
pub open spec fn output_bytes(input: int, envelope: int) -> int {
    greater(3 * envelope + input + 1024, 32768)
}

/// The permanent reservation: one decoder and the retained encoder capacities.
pub open spec fn control_bytes(input: int, envelope: int) -> int {
    lesser(272 * input, 12 * input + 4194304) + 2 * output_bytes(input, envelope) + 2 * lesser(
        output_bytes(input, envelope),
        2097152,
    )
}

/// The reservation of one request: its input until the output is complete, and the copies of the
/// envelope that coexist.
pub open spec fn request_bytes(input: int, envelope: int, accounts: int) -> int {
    lesser(128 * input, 4 * input + 2097152) + 3 * envelope + structure_bytes(envelope, accounts)
}

/// One request of these sizes fits beside the permanent reservation.
pub open spec fn fits(input: int, envelope: int, accounts: int, available: int) -> bool {
    control_bytes(input, envelope) + request_bytes(input, envelope, accounts) <= available
}

proof fn smaller_fits(input: int, envelope: int, less: int, lesser_envelope: int, accounts: int, available: int)
    requires
        0 <= less <= input,
        0 <= lesser_envelope <= envelope,
        0 <= accounts,
        fits(input, envelope, accounts, available),
    ensures
        fits(less, lesser_envelope, accounts, available),
{
}

/// Ceilings for the frames and requests of one session.
#[derive(Clone, Copy, Debug)]
pub struct Bounds {
    pub input: usize,
    pub envelope: usize,
    pub output: usize,
    pub requests: usize,
    pub nesting: usize,
    pub deadline_seconds: u64,
}

/// `found` is the largest size up to `upper` that fits, or `start` where none does.
pub open spec fn largest(found: int, start: int, upper: int, fit: spec_fn(int) -> bool) -> bool {
    &&& start <= found
    &&& found == start || (found <= upper && fit(found))
    &&& forall|size: int| found < size <= upper ==> !#[trigger] fit(size)
}

impl Bounds {
    /// What `limits` leave for frames and requests.
    pub open spec fn available(limits: Limits) -> int {
        limits.buffered_bytes - FIXED
    }

    /// The frames are as large as the buffer allows, and the envelope comes second.
    pub open spec fn chosen(
        limits: Limits,
        response_bound: usize,
        input: int,
        envelope: int,
    ) -> bool {
        let available = Bounds::available(limits);
        let accounts = limits.accounts as int;
        &&& largest(
            input,
            LEAST as int,
            lesser(limits.envelope_bytes as int, FRAME_BYTES as int),
            |size: int| fits(size, LEAST as int, accounts, available),
        )
        &&& largest(
            envelope,
            0,
            lesser(response_bound as int, limits.envelope_bytes as int),
            |size: int| fits(input, size, accounts, available),
        )
    }

    /// The sizes are chosen to fill the buffer, and what remains of it is given to concurrent
    /// requests.
    pub open spec fn sized(self, limits: Limits, response_bound: usize) -> bool {
        let available = Bounds::available(limits);
        let accounts = limits.accounts as int;
        &&& Bounds::chosen(limits, response_bound, self.input as int, self.envelope as int)
        &&& self.output == output_bytes(self.input as int, self.envelope as int)
        &&& self.requests == lesser(
            (available - control_bytes(self.input as int, self.envelope as int)) / request_bytes(
                self.input as int,
                self.envelope as int,
                accounts,
            ),
            limits.active_requests + limits.queued_requests,
        )
        &&& self.nesting == limits.json_nesting
        &&& self.deadline_seconds == limits.operation_seconds
    }

    pub fn reservations(input: usize, envelope: usize, accounts: usize) -> (r: (
        usize,
        usize,
        usize,
    ))
        requires
            input <= 1048576,
            envelope <= 67108864,
            accounts <= 256,
        ensures
            r.0 == output_bytes(input as int, envelope as int),
            r.1 == control_bytes(input as int, envelope as int),
            r.2 == request_bytes(input as int, envelope as int, accounts as int),
            r.1 + r.2 <= 800000000,
    {
        let identities: usize = if accounts * 100 < envelope / 3 {
            accounts * 100
        } else {
            envelope / 3
        };
        let discovered: usize = if accounts < envelope / 160 {
            accounts
        } else {
            envelope / 160
        };
        let healthy: usize = if 256 < envelope / 160 {
            256
        } else {
            envelope / 160
        };
        let structure: usize = 65536 + 64 * identities + 4096 * discovered + 1024 * healthy;
        let response: usize = 3 * envelope + input + 1024;
        let output: usize = if response > 32768 {
            response
        } else {
            32768
        };
        let control_input: usize = if 272 * input < 12 * input + 4194304 {
            272 * input
        } else {
            12 * input + 4194304
        };
        let request_input: usize = if 128 * input < 4 * input + 2097152 {
            128 * input
        } else {
            4 * input + 2097152
        };
        let copied: usize = if output < 2097152 {
            output
        } else {
            2097152
        };
        let control: usize = control_input + 2 * output + 2 * copied;
        let request: usize = request_input + 3 * envelope + structure;
        (output, control, request)
    }

    pub fn new(limits: &Limits, response_bound: usize) -> (r: Result<Self, Error>)
        requires
            limits.within(Limits::greatest()),
        ensures
            match r {
                Ok(bounds) => {
                    &&& bounds.sized(*limits, response_bound)
                    &&& bounds.envelope >= LEAST
                },
                Err(error) => error.asks_for_setup() && (limits.buffered_bytes < FIXED || exists|
                    input: int,
                    envelope: int,
                | #[trigger]
                    Bounds::chosen(*limits, response_bound, input, envelope) && envelope < LEAST),
            },
    {
        if limits.buffered_bytes < FIXED {
            return Err(Error::setup_required());
        }
        let available: usize = limits.buffered_bytes - FIXED;
        let accounts: usize = limits.accounts;
        let ghost frame_fits = |size: int|
            fits(size, LEAST as int, accounts as int, available as int);
        let mut input: usize = LEAST;
        let cap: usize = if limits.envelope_bytes < FRAME_BYTES {
            limits.envelope_bytes
        } else {
            FRAME_BYTES
        };
        let mut upper: usize = cap;
        while input < upper
            invariant
                accounts <= 256,
                LEAST <= input <= FRAME_BYTES,
                upper <= cap <= FRAME_BYTES,
                input == LEAST || (input <= cap && frame_fits(input as int)),
                forall|size: int| upper < size <= cap ==> !#[trigger] frame_fits(size),
                frame_fits == |size: int|
                    fits(size, LEAST as int, accounts as int, available as int),
            decreases upper - input,
        {
            let distance: usize = upper - input;
            let candidate: usize = input + distance / 2 + distance % 2;
            let (_output, control, request) = Bounds::reservations(candidate, LEAST, accounts);
            if control + request <= available {
                input = candidate;
            } else {
                assert forall|size: int| candidate - 1 < size <= cap implies !#[trigger] frame_fits(
                    size,
                ) by {
                    if frame_fits(size) {
                        smaller_fits(
                            size,
                            LEAST as int,
                            candidate as int,
                            LEAST as int,
                            accounts as int,
                            available as int,
                        );
                    }
                }
                upper = candidate - 1;
            }
        }
        let ghost envelope_fits = |size: int|
            fits(input as int, size, accounts as int, available as int);
        let mut envelope: usize = 0;
        let bound: usize = if response_bound < limits.envelope_bytes {
            response_bound
        } else {
            limits.envelope_bytes
        };
        let mut upper: usize = bound;
        while envelope < upper
            invariant
                accounts <= 256,
                input <= FRAME_BYTES,
                upper <= bound <= 67108864,
                envelope <= bound,
                envelope == 0 || envelope_fits(envelope as int),
                forall|size: int| upper < size <= bound ==> !#[trigger] envelope_fits(size),
                envelope_fits == |size: int|
                    fits(input as int, size, accounts as int, available as int),
            decreases upper - envelope,
        {
            let distance: usize = upper - envelope;
            let candidate: usize = envelope + distance / 2 + distance % 2;
            let (_output, control, request) = Bounds::reservations(input, candidate, accounts);
            if control + request <= available {
                envelope = candidate;
            } else {
                assert forall|size: int|
                    candidate - 1 < size <= bound implies !#[trigger] envelope_fits(size) by {
                    if envelope_fits(size) {
                        smaller_fits(
                            input as int,
                            size,
                            input as int,
                            candidate as int,
                            accounts as int,
                            available as int,
                        );
                    }
                }
                upper = candidate - 1;
            }
        }
        let (output, control, request) = Bounds::reservations(input, envelope, accounts);
        if envelope < LEAST {
            assert(Bounds::chosen(*limits, response_bound, input as int, envelope as int));
            return Err(Error::setup_required());
        }
        let requests: usize = (available - control) / request;
        let most: usize = limits.active_requests + limits.queued_requests;
        Ok(
            Bounds {
                input,
                envelope,
                output,
                requests: if requests < most {
                    requests
                } else {
                    most
                },
                nesting: limits.json_nesting,
                deadline_seconds: limits.operation_seconds as u64,
            },
        )
    }
}

/// The concurrent requests of a session never exceed the shared buffer together with the
/// permanent reservation.
pub proof fn sessions_stay_in_the_buffer(bounds: Bounds, limits: Limits, response_bound: usize)
    requires
        bounds.sized(limits, response_bound),
        bounds.envelope >= LEAST,
    ensures
        FIXED + control_bytes(bounds.input as int, bounds.envelope as int) + bounds.requests
            * request_bytes(bounds.input as int, bounds.envelope as int, limits.accounts as int)
            <= limits.buffered_bytes,
        1 <= bounds.requests || limits.active_requests + limits.queued_requests == 0,
{
    let request = request_bytes(
        bounds.input as int,
        bounds.envelope as int,
        limits.accounts as int,
    );
    let rest = Bounds::available(limits) - control_bytes(
        bounds.input as int,
        bounds.envelope as int,
    );
    assert(request > 0);
    assert(rest >= request);
    let count = rest / request;
    assert(count * request <= rest && count >= 1) by (nonlinear_arith)
        requires
            count == rest / request,
            request > 0,
            rest >= request,
    ;
    assert(bounds.requests * request <= count * request) by (nonlinear_arith)
        requires
            bounds.requests <= count,
            request > 0,
    ;
}

/// The limits leave no choice: at most one pair of sizes is chosen, so a session is refused for
/// its size exactly when that pair is too small.
pub proof fn the_choice_is_unique(
    limits: Limits,
    response_bound: usize,
    input: int,
    envelope: int,
    other_input: int,
    other_envelope: int,
)
    requires
        Bounds::chosen(limits, response_bound, input, envelope),
        Bounds::chosen(limits, response_bound, other_input, other_envelope),
    ensures
        input == other_input,
        envelope == other_envelope,
{
    let frame_fits = |size: int|
        fits(size, LEAST as int, limits.accounts as int, Bounds::available(limits));
    assert(input == other_input) by {
        assert(frame_fits(input) == frame_fits(input));
        assert(frame_fits(other_input) == frame_fits(other_input));
    }
    let envelope_fits = |size: int|
        fits(input, size, limits.accounts as int, Bounds::available(limits));
    assert(envelope_fits(envelope) == envelope_fits(envelope));
    assert(envelope_fits(other_envelope) == envelope_fits(other_envelope));
}

/// Bound nesting and structural nodes of one line before the SDK parses it.
pub fn validate_frame(bytes: &[u8], nesting: usize) -> (r: Result<(), Error>)
    ensures
        r is Ok <==> depth_fits(bytes@, nesting as nat) && nodes_fit(bytes@, FRAME_NODES as nat),
        r matches Err(error) ==> error.reports(ErrorCode::InvalidRequest),
{
    validate_json_bounds(bytes, nesting, FRAME_NODES)
}

/// The identifier that a peer gives to a request.
#[derive(Debug, PartialEq, Eq)]
pub enum RequestId {
    Number(i64),
    Text(String),
}

impl RequestId {
    /// Both identifiers name the same request.
    pub open spec fn names(self, other: RequestId) -> bool {
        match (self, other) {
            (RequestId::Number(a), RequestId::Number(b)) => a == b,
            (RequestId::Text(a), RequestId::Text(b)) => a@ == b@,
            _ => false,
        }
    }

    pub fn same_as(&self, other: &RequestId) -> (r: bool)
        ensures
            r == self.names(*other),
    {
        match (self, other) {
            (RequestId::Number(a), RequestId::Number(b)) => *a == *b,
            (RequestId::Text(a), RequestId::Text(b)) => same(a.as_str(), b.as_str()),
            _ => false,
        }
    }
}

/// A decoded message from the peer, as far as admission depends on it.
#[derive(Debug)]
pub enum Incoming {
    Initialize { id: RequestId },
    Ping { id: RequestId },
    Request { id: RequestId },
    Other,
}

impl Incoming {
    pub open spec fn id(self) -> Option<RequestId> {
        match self {
            Incoming::Initialize { id } | Incoming::Ping { id } | Incoming::Request { id } => Some(
                id,
            ),
            Incoming::Other => None,
        }
    }
}

/// Which requests of one session are unanswered, and whether the peer has introduced itself.
#[derive(Debug)]
pub struct Intake {
    pub initializing: bool,
    pub pending: Vec<RequestId>,
}

/// An unanswered request bears this identifier.
pub open spec fn is_pending(pending: Seq<RequestId>, id: RequestId) -> bool {
    exists|i: int| 0 <= i < pending.len() && (#[trigger] pending[i]).names(id)
}

impl Intake {
    /// No two unanswered requests share an identifier.
    pub open spec fn well_formed(self) -> bool {
        forall|i: int, j: int|
            0 <= i < j < self.pending@.len() ==> !(#[trigger] self.pending@[i]).names(
                #[trigger] self.pending@[j],
            )
    }

    /// The peer may send this message now: the session is initialized before anything but a ping,
    /// and an identifier is not used again before its answer.
    pub open spec fn admits(self, message: Incoming) -> bool {
        match message {
            Incoming::Other => true,
            Incoming::Request { id } => !self.initializing && !is_pending(self.pending@, id),
            Incoming::Initialize { id } | Incoming::Ping { id } => !is_pending(self.pending@, id),
        }
    }

    pub fn new() -> (r: Self)
        ensures
            r.well_formed(),
            r.initializing,
            r.pending@.len() == 0,
    {
        Intake { initializing: true, pending: Vec::new() }
    }

    fn position(&self, id: &RequestId) -> (r: Option<usize>)
        ensures
            match r {
                Some(i) => i < self.pending@.len() && self.pending@[i as int].names(*id),
                None => !is_pending(self.pending@, *id),
            },
    {
        for i in 0..self.pending.len()
            invariant
                forall|j: int| 0 <= j < i ==> !(#[trigger] self.pending@[j]).names(*id),
        {
            if self.pending[i].same_as(id) {
                return Some(i);
            }
        }
        None
    }

    /// Takes the next message, or says that the session ends here. An initialization ends the
    /// introduction even where its identifier is refused.
    pub fn receive(&mut self, message: Incoming) -> (r: bool)
        requires
            old(self).well_formed(),
        ensures
            final(self).well_formed(),
            r == old(self).admits(message),
            final(self).initializing == (old(self).initializing && !(message is Initialize)),
            final(self).pending@ == (match message.id() {
                Some(id) if r => old(self).pending@.push(id),
                _ => old(self).pending@,
            }),
    {
        let id = match message {
            Incoming::Other => {
                return true;
            },
            Incoming::Initialize { id } => {
                self.initializing = false;
                id
            },
            Incoming::Ping { id } => id,
            Incoming::Request { id } => {
                if self.initializing {
                    return false;
                }
                id
            },
        };
        match self.position(&id) {
            Some(_) => false,
            None => {
                self.pending.push(id);
                true
            },
        }
    }

    /// Forgets a request once its answer has been sent.
    pub fn answered(&mut self, id: &RequestId)
        requires
            old(self).well_formed(),
        ensures
            final(self).well_formed(),
            final(self).initializing == old(self).initializing,
            !is_pending(final(self).pending@, *id),
            !is_pending(old(self).pending@, *id) ==> final(self).pending@ == old(self).pending@,
            is_pending(old(self).pending@, *id) ==> exists|i: int|
                0 <= i < old(self).pending@.len() && (#[trigger] old(self).pending@[i]).names(*id)
                    && final(self).pending@ == old(self).pending@.remove(i),
    {
        match self.position(id) {
            None => {},
            Some(i) => {
                let ghost before = self.pending@;
                self.pending.remove(i);
                assert forall|j: int| 0 <= j < self.pending@.len() implies !(
                #[trigger] self.pending@[j]).names(*id) by {
                    if j < i {
                        assert(self.pending@[j] == before[j]);
                        assert(!before[j].names(before[i as int]));
                    } else {
                        assert(self.pending@[j] == before[j + 1]);
                        assert(!before[i as int].names(before[j + 1]));
                    }
                }
                assert forall|a: int, b: int| 0 <= a < b < self.pending@.len() implies !(
                #[trigger] self.pending@[a]).names(#[trigger] self.pending@[b]) by {
                    let x = if a < i {
                        a
                    } else {
                        a + 1
                    };
                    let y = if b < i {
                        b
                    } else {
                        b + 1
                    };
                    assert(!before[x].names(before[y]));
                }
            },
        }
    }
}

/// An identifier is refused while its request is unanswered, and may be used again after the answer. The
/// other requests are not affected.
pub proof fn identifiers_wait_for_their_answer(
    before: Intake,
    after: Intake,
    id: RequestId,
    other: RequestId,
    at: int,
)
    requires
        before.well_formed(),
        !before.initializing,
        0 <= at < before.pending@.len(),
        before.pending@[at].names(id),
        after.initializing == before.initializing,
        after.pending@ == before.pending@.remove(at),
        !other.names(id),
    ensures
        !before.admits(Incoming::Request { id }),
        after.admits(Incoming::Request { id }),
        is_pending(after.pending@, other) == is_pending(before.pending@, other),
{
    let (old_list, new_list) = (before.pending@, after.pending@);
    if is_pending(new_list, id) {
        let j = choose|j: int| 0 <= j < new_list.len() && (#[trigger] new_list[j]).names(id);
        if j < at {
            assert(new_list[j] == old_list[j]);
            assert(!old_list[j].names(old_list[at]));
        } else {
            assert(new_list[j] == old_list[j + 1]);
            assert(!old_list[at].names(old_list[j + 1]));
        }
    }
    if is_pending(new_list, other) {
        let j = choose|j: int| 0 <= j < new_list.len() && (#[trigger] new_list[j]).names(other);
        if j < at {
            assert(old_list[j].names(other));
        } else {
            assert(old_list[j + 1].names(other));
        }
    }
    if is_pending(old_list, other) {
        let j = choose|j: int| 0 <= j < old_list.len() && (#[trigger] old_list[j]).names(other);
        if j < at {
            assert(new_list[j].names(other));
        } else {
            assert(j != at);
            assert(new_list[j - 1].names(other));
        }
    }
}

/// A message is let in unless its identifier still waits for an answer or, for a request, the session is
/// still being set up; what carries no identifier is always let in.
pub proof fn messages_are_let_in(intake: Intake, message: Incoming)
    ensures
        message is Other ==> intake.admits(message),
        message matches Incoming::Request { id } ==> (intake.admits(message) <==> !intake.initializing && forall|
            i: int,
        |
            0 <= i < intake.pending@.len() ==> !(#[trigger] intake.pending@[i]).names(id)),
        message matches Incoming::Ping { id } ==> (intake.admits(message) <==> forall|i: int|
            0 <= i < intake.pending@.len() ==> !(#[trigger] intake.pending@[i]).names(id)),
        message matches Incoming::Initialize { id } ==> (intake.admits(message) <==> forall|i: int|
            0 <= i < intake.pending@.len() ==> !(#[trigger] intake.pending@[i]).names(id)),
        message is Other <==> message.id() is None,
{
}

/// Identifiers are the same where they are the same number or the same text; a number is never a text.
pub proof fn identifiers_are_compared_by_value(a: RequestId, b: RequestId, c: RequestId)
    ensures
        a.names(a),
        a.names(b) == b.names(a),
        a.names(b) && b.names(c) ==> a.names(c),
        a is Number && b is Text ==> !a.names(b),
        (a matches RequestId::Number(x) && b matches RequestId::Number(y) && x != y) ==> !a.names(b),
        (a matches RequestId::Text(x) && b matches RequestId::Text(y) && x@ != y@) ==> !a.names(b),
{
}

} // verus!
