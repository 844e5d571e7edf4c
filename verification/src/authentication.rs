//! Process-local authentication admission, credential work, and IMAP connections.
//!
//! Times are nanoseconds on one monotonic clock of the process.
use crate::config::{AccountConfig, Limits, TlsMode};
use crate::credentials::SourceError;
use crate::imap;
use std::collections::VecDeque;
use vstd::prelude::*;

verus! {

/// A minute in nanoseconds.
pub const MINUTE: u128 = 60_000_000_000;

#[derive(Clone, Copy, Debug, PartialEq, Eq, Structural)]
pub enum Error {
    Source(SourceError),
    Imap(imap::Error),
    RateLimited,
    Timeout,
    InvalidInput,
}

/// An account as one generation of the configuration has it. Its identifier is a UUID as a number.
pub struct Account {
    pub id: u128,
    pub generation: u64,
    pub config: AccountConfig,
}

/// A place at a gate: inside, or in the queue under a ticket.
#[derive(Clone, Copy, Debug, PartialEq, Eq, Structural)]
pub enum Admission {
    Inside,
    Waiting { ticket: u64 },
}

/// A gate with a bounded number of places and a queue in front of them.
pub struct Gate {
    pub active: usize,
    pub waiting: VecDeque<u64>,
    pub next_ticket: u64,
}

impl Gate {
    /// The tickets of the queue are in the order in which they were drawn, and the next one is new.
    pub open spec fn ordered(self) -> bool {
        &&& forall|i: int, j: int|
            0 <= i < j < self.waiting@.len() ==> self.waiting@[i] < self.waiting@[j]
        &&& forall|i: int| 0 <= i < self.waiting@.len() ==> self.waiting@[i] < self.next_ticket
    }

    /// A newcomer gets a place at once: one of `active` is free, and nobody waits.
    pub open spec fn open_to_newcomers(self, active: usize) -> bool {
        self.waiting@.len() == 0 && self.active < active
    }

    /// The turn is that of `ticket`: one of `active` places is free, and it is first in the queue.
    pub open spec fn lets_in(self, ticket: u64, active: usize) -> bool {
        self.waiting@.len() > 0 && self.waiting@[0] == ticket && self.active < active
    }

    /// A gate at which nobody is.
    pub fn new() -> (r: Self)
        ensures
            r.active == 0,
            r.waiting@ == Seq::<u64>::empty(),
            r.next_ticket == 0,
            r.ordered(),
    {
        Gate { active: 0, waiting: VecDeque::new(), next_ticket: 0 }
    }

    /// Takes a place where one is free and nobody waits, or a ticket where the queue has room.
    pub fn reserve(&mut self, active: usize, pending: usize) -> (r: Result<Admission, Error>)
        ensures
            match r {
                Ok(Admission::Inside) => {
                    &&& old(self).open_to_newcomers(active)
                    &&& final(self).active == old(self).active + 1
                    &&& final(self).waiting@ == old(self).waiting@
                    &&& final(self).next_ticket == old(self).next_ticket
                },
                Ok(Admission::Waiting { ticket }) => {
                    &&& !old(self).open_to_newcomers(active)
                    &&& old(self).waiting@.len() < pending
                    &&& ticket == old(self).next_ticket
                    &&& final(self).active == old(self).active
                    &&& final(self).waiting@ == old(self).waiting@.push(ticket)
                    &&& final(self).next_ticket == if ticket == u64::MAX {
                        0
                    } else {
                        ticket + 1
                    }
                },
                Err(error) => {
                    &&& error == Error::RateLimited
                    &&& !old(self).open_to_newcomers(active)
                    &&& old(self).waiting@.len() >= pending
                    &&& final(self).active == old(self).active
                    &&& final(self).waiting@ == old(self).waiting@
                    &&& final(self).next_ticket == old(self).next_ticket
                },
            },
            old(self).active <= active ==> final(self).active <= active,
            old(self).ordered() && old(self).next_ticket < u64::MAX ==> final(self).ordered(),
    {
        if self.waiting.len() == 0 && self.active < active {
            self.active = self.active + 1;
            return Ok(Admission::Inside);
        }
        if self.waiting.len() >= pending {
            return Err(Error::RateLimited);
        }
        let ticket: u64 = self.next_ticket;
        self.next_ticket = ticket.wrapping_add(1);
        self.waiting.push_back(ticket);
        Ok(Admission::Waiting { ticket })
    }

    /// Lets the first of the queue in where a place is free. Answers whether `ticket` went in.
    pub fn enter(&mut self, ticket: u64, active: usize) -> (r: bool)
        ensures
            r == old(self).lets_in(ticket, active),
            final(self).next_ticket == old(self).next_ticket,
            if r {
                &&& final(self).active == old(self).active + 1
                &&& final(self).waiting@ == old(self).waiting@.drop_first()
            } else {
                &&& final(self).active == old(self).active
                &&& final(self).waiting@ == old(self).waiting@
            },
            old(self).active <= active ==> final(self).active <= active,
            old(self).ordered() ==> final(self).ordered(),
    {
        if self.waiting.len() == 0 || self.waiting[0] != ticket || self.active >= active {
            return false;
        }
        self.active = self.active + 1;
        let _ = self.waiting.pop_front();
        assert(self.waiting@ =~= old(self).waiting@.drop_first());
        true
    }

    /// Gives a place or a ticket back.
    pub fn leave(&mut self, admission: Admission)
        requires
            admission is Inside ==> old(self).active > 0,
        ensures
            final(self).next_ticket == old(self).next_ticket,
            match admission {
                Admission::Inside => {
                    &&& final(self).active == old(self).active - 1
                    &&& final(self).waiting@ == old(self).waiting@
                },
                Admission::Waiting { ticket } => {
                    &&& final(self).active == old(self).active
                    &&& final(self).waiting@ == old(self).waiting@.filter(
                        |entry: u64| entry != ticket,
                    )
                },
            },
            old(self).ordered() ==> final(self).ordered(),
    {
        match admission {
            Admission::Inside => {
                self.active = self.active - 1;
            },
            Admission::Waiting { ticket } => {
                let ghost queue = self.waiting@;
                let ghost kept = |entry: u64| entry != ticket;
                let mut rest: VecDeque<u64> = VecDeque::new();
                proof {
                    reveal(Seq::filter);
                    assert(queue.take(0) =~= Seq::<u64>::empty());
                }
                let count: usize = self.waiting.len();
                for i in 0..count
                    invariant
                        count == queue.len(),
                        self.waiting@ == queue,
                        kept == (|entry: u64| entry != ticket),
                        rest@ == queue.take(i as int).filter(kept),
                {
                    proof {
                        reveal(Seq::filter);
                        assert(queue.take(i + 1).drop_last() =~= queue.take(i as int));
                        assert(queue.take(i + 1).last() == queue[i as int]);
                    }
                    let entry: u64 = self.waiting[i];
                    if entry != ticket {
                        rest.push_back(entry);
                    }
                }
                proof {
                    assert(queue.take(queue.len() as int) =~= queue);
                    if old(self).ordered() {
                        filtering_keeps_order(queue, ticket, self.next_ticket);
                    }
                }
                self.waiting = rest;
            },
        }
    }
}

proof fn filtering_keeps_order(queue: Seq<u64>, ticket: u64, bound: u64)
    requires
        forall|i: int, j: int| 0 <= i < j < queue.len() ==> queue[i] < queue[j],
        forall|i: int| 0 <= i < queue.len() ==> queue[i] < bound,
    ensures
        ({
            let rest = queue.filter(|entry: u64| entry != ticket);
            &&& forall|i: int, j: int| 0 <= i < j < rest.len() ==> rest[i] < rest[j]
            &&& forall|i: int| 0 <= i < rest.len() ==> rest[i] < bound
            &&& forall|i: int|
                0 <= i < rest.len() ==> rest[i] != ticket && queue.contains(#[trigger] rest[i])
            &&& forall|i: int|
                0 <= i < queue.len() && queue[i] != ticket ==> rest.contains(#[trigger] queue[i])
        }),
    decreases queue.len(),
{
    reveal(Seq::filter);
    let kept = |entry: u64| entry != ticket;
    let rest = queue.filter(kept);
    if queue.len() > 0 {
        let shorter = queue.drop_last();
        filtering_keeps_order(shorter, ticket, queue.last());
        let before = shorter.filter(kept);
        assert(rest == if queue.last() != ticket {
            before.push(queue.last())
        } else {
            before
        });
        assert forall|i: int| 0 <= i < rest.len() implies rest[i] != ticket && queue.contains(
            #[trigger] rest[i],
        ) by {
            if i < before.len() {
                assert(shorter.contains(before[i]));
                let k = choose|k: int| 0 <= k < shorter.len() && shorter[k] == before[i];
                assert(queue[k] == rest[i]);
            } else {
                assert(queue[queue.len() - 1] == rest[i]);
            }
        }
        assert forall|i: int| 0 <= i < queue.len() && queue[i] != ticket implies rest.contains(
            #[trigger] queue[i],
        ) by {
            if i < shorter.len() {
                assert(shorter[i] == queue[i]);
                assert(before.contains(shorter[i]));
                let k = choose|k: int| 0 <= k < before.len() && before[k] == queue[i];
                assert(rest[k] == queue[i]);
            } else {
                assert(rest[rest.len() - 1] == queue[i]);
            }
        }
        assert forall|i: int| 0 <= i < rest.len() implies rest[i] < bound by {
            if i < before.len() {
                assert(before[i] < queue.last());
            }
        }
        assert forall|i: int, j: int| 0 <= i < j < rest.len() implies rest[i] < rest[j] by {
            if j == before.len() {
                assert(before[i] < queue.last());
            }
        }
    }
}

/// Nobody is overtaken: while an earlier ticket is in the queue, neither a later one nor a newcomer is
/// let in.
pub proof fn nobody_is_overtaken(gate: Gate, earlier: int, later: int, active: usize)
    requires
        gate.ordered(),
        0 <= earlier < later < gate.waiting@.len(),
    ensures
        !gate.lets_in(gate.waiting@[later], active),
        !gate.open_to_newcomers(active),
{
}

/// The queue moves: whoever is first is let in as soon as a place is free, and then the next is first.
pub proof fn the_first_is_let_in(gate: Gate, active: usize)
    requires
        gate.waiting@.len() > 0,
        gate.active < active,
    ensures
        gate.lets_in(gate.waiting@[0], active),
        gate.waiting@.len() > 1 ==> gate.waiting@.drop_first()[0] == gate.waiting@[1],
{
}

/// A ticket that is given back leaves the others in their order.
pub proof fn queues_keep_their_order(gate: Gate, ticket: u64)
    requires
        gate.ordered(),
    ensures
        ({
            let rest = gate.waiting@.filter(|entry: u64| entry != ticket);
            &&& !rest.contains(ticket)
            &&& forall|i: int, j: int| 0 <= i < j < rest.len() ==> rest[i] < rest[j]
            &&& forall|i: int|
                0 <= i < gate.waiting@.len() && gate.waiting@[i] != ticket ==> rest.contains(
                    #[trigger] gate.waiting@[i],
                )
        }),
{
    filtering_keeps_order(gate.waiting@, ticket, gate.next_ticket);
}

/// A connection that is not in use.
pub struct Idle<C> {
    pub connection: C,
    pub established: u64,
    pub expires_at: u64,
}

impl<C> Idle<C> {
    /// A connection that was established at `now`.
    pub fn established(connection: C, now: u64, lifetime: u64) -> (r: Self)
        requires
            now + lifetime <= u64::MAX,
        ensures
            r == (Idle { connection, established: now, expires_at: (now + lifetime) as u64 }),
    {
        Idle { connection, established: now, expires_at: now + lifetime }
    }
}

/// The connections of one account that are not in use, for one generation of its configuration.
pub struct Pool<C> {
    pub generation: u64,
    pub idle: Vec<Idle<C>>,
    pub last_doctor: Option<u64>,
}

/// The time from `start` to `now`; a start that is still to come counts as now.
pub open spec fn elapsed(start: u64, now: u64) -> int {
    if now < start {
        0
    } else {
        now - start
    }
}

/// The connections that `keeps` accepts, in their order.
pub open spec fn retained<C>(list: Seq<Idle<C>>, keeps: spec_fn(Idle<C>) -> bool) -> Seq<Idle<C>> {
    list.filter(keeps)
}

/// Moves the connections that may still be used at `now` into a list of their own.
fn usable<C>(list: Vec<Idle<C>>, now: u64, lifetime: Option<u64>) -> (r: Vec<Idle<C>>)
    ensures
        r@ == retained(list@, Pool::<C>::keeping(now, lifetime)),
{
    let ghost whole = list@;
    let ghost keeps = Pool::<C>::keeping(now, lifetime);
    let mut rest = list;
    let mut kept: Vec<Idle<C>> = Vec::new();
    proof {
        reveal(Seq::filter);
        assert(whole.take(0) =~= Seq::<Idle<C>>::empty());
    }
    let count: usize = rest.len();
    for i in 0..count
        invariant
            count == whole.len(),
            keeps == Pool::<C>::keeping(now, lifetime),
            rest@ == whole.skip(i as int),
            kept@ == whole.take(i as int).filter(keeps),
    {
        proof {
            reveal(Seq::filter);
            assert(whole.take(i + 1).drop_last() =~= whole.take(i as int));
            assert(whole.take(i + 1).last() == whole[i as int]);
        }
        let one = rest.remove(0);
        assert(one == whole[i as int]);
        assert(rest@ =~= whole.skip(i + 1));
        let young = match lifetime {
            Some(lifetime) => now.saturating_sub(one.established) < lifetime,
            None => true,
        };
        if one.expires_at > now && young {
            kept.push(one);
        }
    }
    assert(whole.take(whole.len() as int) =~= whole);
    kept
}

impl<C> Pool<C> {
    /// What is kept at `now`: unexpired connections, and with a lifetime only those that are younger.
    pub open spec fn keeping(now: u64, lifetime: Option<u64>) -> spec_fn(Idle<C>) -> bool {
        |idle: Idle<C>|
            idle.expires_at > now && match lifetime {
                Some(lifetime) => elapsed(idle.established, now) < lifetime,
                None => true,
            }
    }

    /// No connection at all.
    pub fn new(generation: u64) -> (r: Self)
        ensures
            r.generation == generation,
            r.idle@.len() == 0,
            r.last_doctor is None,
    {
        Pool { generation, idle: Vec::new(), last_doctor: None }
    }

    /// Follows the configuration: a newer generation discards the connections of an older one, and
    /// an older generation is refused.
    pub fn follow(&mut self, generation: u64) -> (r: Result<(), Error>)
        ensures
            r == if generation < old(self).generation {
                Err::<(), Error>(Error::InvalidInput)
            } else {
                Ok(())
            },
            final(self).last_doctor == old(self).last_doctor,
            if generation > old(self).generation {
                final(self).generation == generation && final(self).idle@.len() == 0
            } else {
                final(self).generation == old(self).generation && final(self).idle@ == old(self).idle@
            },
    {
        if generation < self.generation {
            return Err(Error::InvalidInput);
        }
        if generation != self.generation {
            self.generation = generation;
            self.idle = Vec::new();
        }
        Ok(())
    }

    /// An account may be checked at `now`: `checks` times a minute, spread evenly.
    pub open spec fn may_check(self, now: u64, checks: usize) -> bool {
        match self.last_doctor {
            Some(last) => elapsed(last, now) * checks >= MINUTE,
            None => true,
        }
    }

    /// Takes note of a check of the account, or refuses it where the last one was too recent.
    pub fn check(&mut self, now: u64, checks: usize) -> (r: Result<(), Error>)
        requires
            checks <= u32::MAX,
        ensures
            final(self).generation == old(self).generation,
            final(self).idle@ == old(self).idle@,
            if old(self).may_check(now, checks) {
                r == Ok::<(), Error>(()) && final(self).last_doctor == Some(now)
            } else {
                &&& r == Err::<(), Error>(Error::RateLimited)
                &&& final(self).last_doctor == old(self).last_doctor
            },
    {
        match self.last_doctor {
            Some(last) => {
                let since: u64 = now.saturating_sub(last);
                assert(since * checks <= u64::MAX * u32::MAX) by (nonlinear_arith)
                    requires
                        since <= u64::MAX,
                        checks <= u32::MAX,
                ;
                if since as u128 * (checks as u128) < MINUTE {
                    return Err(Error::RateLimited);
                }
            },
            None => {},
        }
        self.last_doctor = Some(now);
        Ok(())
    }

    /// What stays of the connections when one is taken: the usable ones, in their order, and no more
    /// of them than there are spare places, with one more where one is reused.
    pub open spec fn stock(
        self,
        now: u64,
        lifetime: u64,
        connections: usize,
        active: usize,
        fresh: bool,
    ) -> Seq<Idle<C>> {
        let spare: int = if active <= connections {
            connections - active
        } else {
            0
        };
        let room: int = if fresh {
            spare
        } else {
            spare + 1
        };
        let kept = retained(self.idle@, Self::keeping(now, Some(lifetime)));
        if kept.len() > room {
            kept.take(room)
        } else {
            kept
        }
    }

    /// Takes a connection out of the pool, for an account of `connections` connections of which
    /// `active` are in use, that of the caller among them. A caller that wants a fresh one gets none.
    pub fn take(
        &mut self,
        generation: u64,
        now: u64,
        lifetime: u64,
        connections: usize,
        active: usize,
        fresh: bool,
    ) -> (r: Result<Option<Idle<C>>, Error>)
        requires
            connections < usize::MAX,
        ensures
            final(self).generation == old(self).generation,
            final(self).last_doctor == old(self).last_doctor,
            if generation != old(self).generation {
                &&& r == Err::<Option<Idle<C>>, Error>(Error::InvalidInput)
                &&& final(self).idle@ == old(self).idle@
            } else {
                let stock = old(self).stock(now, lifetime, connections, active, fresh);
                if fresh || stock.len() == 0 {
                    &&& r == Ok::<Option<Idle<C>>, Error>(None)
                    &&& final(self).idle@ == stock
                } else {
                    &&& final(self).idle@ == stock.drop_last()
                    &&& r == Ok::<Option<Idle<C>>, Error>(
                        Some(
                            Idle {
                                expires_at: if stock.last().expires_at <= stock.last().established
                                    + lifetime {
                                    stock.last().expires_at
                                } else {
                                    (stock.last().established + lifetime) as u64
                                },
                                ..stock.last()
                            },
                        ),
                    )
                }
            },
            r is Ok && active <= connections ==> final(self).idle@.len() + active <= connections,
            match r {
                Ok(Some(idle)) => idle.expires_at > now,
                _ => true,
            },
    {
        if self.generation != generation {
            return Err(Error::InvalidInput);
        }
        let mut all: Vec<Idle<C>> = Vec::new();
        all.append(&mut self.idle);
        assert(all@ =~= old(self).idle@);
        let mut kept = usable(all, now, Some(lifetime));
        let ghost whole = kept@;
        proof {
            retained_are_kept(old(self).idle@, Self::keeping(now, Some(lifetime)));
        }
        let spare: usize = connections.saturating_sub(active);
        let room: usize = if fresh {
            spare
        } else {
            spare + 1
        };
        kept.truncate(room);
        let ghost stock = old(self).stock(now, lifetime, connections, active, fresh);
        assert(kept@ =~= stock);
        if fresh || kept.len() == 0 {
            self.idle = kept;
            return Ok(None);
        }
        match kept.pop() {
            Some(mut idle) => {
                proof {
                    assert(idle == stock.last());
                    assert(stock.last() == whole[stock.len() - 1]);
                    assert(kept@ =~= stock.drop_last());
                }
                let latest: u64 = idle.established.saturating_add(lifetime);
                if latest < idle.expires_at {
                    idle.expires_at = latest;
                }
                self.idle = kept;
                Ok(Some(idle))
            },
            None => Ok(None),
        }
    }

    /// Puts a connection back, unless the configuration changed, the connection expired, or the
    /// account would hold more connections than it may. Answers whether it was kept.
    pub fn give_back(
        &mut self,
        idle: Idle<C>,
        generation: u64,
        now: u64,
        active: usize,
        capacity: usize,
    ) -> (r: bool)
        ensures
            r == (old(self).generation == generation && idle.expires_at > now && old(self).idle@.len() + active <= capacity),
            final(self).generation == old(self).generation,
            final(self).last_doctor == old(self).last_doctor,
            final(self).idle@ == if r {
                old(self).idle@.push(idle)
            } else {
                old(self).idle@
            },
            r && active > 0 ==> final(self).idle@.len() + (active - 1) <= capacity,
    {
        if self.generation == generation && idle.expires_at > now && active <= capacity
            && self.idle.len() <= capacity - active {
            self.idle.push(idle);
            true
        } else {
            false
        }
    }

    /// Discards what has expired at `now`, and answers when the next connection does.
    pub fn expire(&mut self, now: u64) -> (r: Option<u64>)
        ensures
            final(self).generation == old(self).generation,
            final(self).last_doctor == old(self).last_doctor,
            final(self).idle@ == retained(old(self).idle@, Self::keeping(now, None)),
            match r {
                Some(next) => {
                    &&& next > now
                    &&& exists|i: int|
                        0 <= i < final(self).idle@.len() && (#[trigger] final(self).idle@[i]).expires_at == next
                    &&& forall|i: int|
                        0 <= i < final(self).idle@.len() ==> next <= (#[trigger] final(self).idle@[i]).expires_at
                },
                None => final(self).idle@.len() == 0,
            },
    {
        let mut all: Vec<Idle<C>> = Vec::new();
        all.append(&mut self.idle);
        assert(all@ =~= old(self).idle@);
        proof {
            retained_are_kept(old(self).idle@, Self::keeping(now, None));
        }
        let kept = usable(all, now, None);
        let mut next: Option<u64> = None;
        for i in 0..kept.len()
            invariant
                forall|j: int| 0 <= j < kept@.len() ==> (#[trigger] kept@[j]).expires_at > now,
                match next {
                    Some(next) => {
                        &&& next > now
                        &&& exists|j: int|
                            0 <= j < i && (#[trigger] kept@[j]).expires_at == next
                        &&& forall|j: int|
                            0 <= j < i ==> next <= (#[trigger] kept@[j]).expires_at
                    },
                    None => i == 0,
                },
        {
            let at: u64 = kept[i].expires_at;
            let sooner = match next {
                Some(next) => at < next,
                None => true,
            };
            if sooner {
                next = Some(at);
            }
            assert(kept@[i as int].expires_at == at);
        }
        let ghost list = kept@;
        self.idle = kept;
        proof {
            match next {
                Some(next) => {
                    let at = choose|j: int|
                        0 <= j < list.len() && (#[trigger] list[j]).expires_at == next;
                    assert(self.idle@[at].expires_at == next);
                },
                None => {},
            }
        }
        next
    }
}

/// What is retained satisfies the condition.
proof fn retained_are_kept<C>(list: Seq<Idle<C>>, keeps: spec_fn(Idle<C>) -> bool)
    ensures
        forall|i: int|
            0 <= i < retained(list, keeps).len() ==> keeps(#[trigger] retained(list, keeps)[i]),
        retained(list, keeps).len() <= list.len(),
    decreases list.len(),
{
    reveal(Seq::filter);
    if list.len() > 0 {
        retained_are_kept(list.drop_last(), keeps);
        let before = retained(list.drop_last(), keeps);
        assert(retained(list, keeps) == if keeps(list.last()) {
            before.push(list.last())
        } else {
            before
        });
    }
}

/// The limits that an operation asks for stay within those of the process.
pub open spec fn within(limits: Limits, bounds: Limits) -> bool {
    &&& limits.account_connections <= bounds.account_connections
    &&& limits.account_pending_requests <= bounds.account_pending_requests
    &&& limits.secret_bytes <= bounds.secret_bytes
    &&& limits.operation_seconds <= bounds.operation_seconds
    &&& limits.connection_seconds <= bounds.connection_seconds
    &&& limits.connection_lifetime_seconds <= bounds.connection_lifetime_seconds
    &&& limits.doctor_checks_per_minute <= bounds.doctor_checks_per_minute
    &&& limits.credential_workers <= bounds.credential_workers
    &&& limits.queued_credentials <= bounds.queued_credentials
}

/// What is asked of a credential source.
#[derive(Clone, Copy, Debug, PartialEq, Eq, Structural)]
pub enum WorkKind {
    Inspect,
    Resolve,
}

/// Credential work that is under way, for as long as anybody waits for it or does it.
#[derive(Clone, Copy, Debug, PartialEq, Eq, Structural)]
pub struct Flight {
    pub serial: u64,
    pub account: u128,
    pub generation: u64,
    pub kind: WorkKind,
    pub waiters: usize,
    pub running: bool,
    pub settled: bool,
}

impl Flight {
    /// The work is that of an account, a generation of its configuration and a kind.
    pub open spec fn does(self, account: u128, generation: u64, kind: WorkKind) -> bool {
        self.account == account && self.generation == generation && self.kind == kind
    }

    /// Anybody still waits for the work or does it.
    pub open spec fn alive(self) -> bool {
        self.waiters > 0 || self.running
    }
}

/// How work is had: by waiting with others for what is under way, or by starting it.
#[derive(Clone, Copy, Debug, PartialEq, Eq, Structural)]
pub enum Joined {
    Shared { serial: u64 },
    Started { serial: u64, admission: Admission },
}

/// The credential work of one process.
pub struct Flights {
    pub workers: Gate,
    pub flights: Vec<Flight>,
    pub next_serial: u64,
}

/// The flights that somebody still waits for or does, in their order.
pub open spec fn living(flights: Seq<Flight>) -> Seq<Flight> {
    flights.filter(|flight: Flight| flight.alive())
}

/// One piece of work is under way at most once, and serial numbers ascend.
pub open spec fn are_single(flights: Seq<Flight>, next_serial: u64) -> bool {
    &&& forall|i: int, j: int|
        0 <= i < j < flights.len() ==> {
            &&& (#[trigger] flights[i]).serial < (#[trigger] flights[j]).serial
            &&& !flights[i].settled && !flights[j].settled ==> !flights[i].does(
                flights[j].account,
                flights[j].generation,
                flights[j].kind,
            )
        }
    &&& forall|i: int| 0 <= i < flights.len() ==> (#[trigger] flights[i]).serial < next_serial
}

proof fn living_stay_single(flights: Seq<Flight>, next_serial: u64)
    requires
        are_single(flights, next_serial),
    ensures
        are_single(living(flights), next_serial),
        forall|i: int|
            0 <= i < living(flights).len() ==> flights.contains(#[trigger] living(flights)[i]),
    decreases flights.len(),
{
    reveal(Seq::filter);
    if flights.len() > 0 {
        let shorter = flights.drop_last();
        let last = flights.last();
        assert forall|i: int| 0 <= i < shorter.len() implies (#[trigger] shorter[i]).serial
            < last.serial by {
            assert(shorter[i] == flights[i]);
        }
        assert(are_single(shorter, next_serial)) by {
            assert forall|i: int, j: int| 0 <= i < j < shorter.len() implies {
                &&& (#[trigger] shorter[i]).serial < (#[trigger] shorter[j]).serial
                &&& !shorter[i].settled && !shorter[j].settled ==> !shorter[i].does(
                    shorter[j].account,
                    shorter[j].generation,
                    shorter[j].kind,
                )
            } by {
                assert(shorter[i] == flights[i] && shorter[j] == flights[j]);
            }
        }
        living_stay_single(shorter, next_serial);
        let before = living(shorter);
        let after = living(flights);
        assert(after == if last.alive() {
            before.push(last)
        } else {
            before
        });
        assert forall|i: int| 0 <= i < after.len() implies flights.contains(#[trigger] after[i]) by {
            if i < before.len() {
                assert(shorter.contains(before[i]));
                let k = choose|k: int| 0 <= k < shorter.len() && shorter[k] == before[i];
                assert(flights[k] == after[i]);
            } else {
                assert(flights[flights.len() - 1] == after[i]);
            }
        }
        assert forall|i: int, j: int| 0 <= i < j < after.len() implies {
            &&& (#[trigger] after[i]).serial < (#[trigger] after[j]).serial
            &&& !after[i].settled && !after[j].settled ==> !after[i].does(
                after[j].account,
                after[j].generation,
                after[j].kind,
            )
        } by {
            if j == before.len() {
                assert(shorter.contains(before[i]));
                let k = choose|k: int| 0 <= k < shorter.len() && shorter[k] == before[i];
                assert(flights[k] == after[i]);
                assert(flights[flights.len() - 1] == after[j]);
            }
        }
    }
}

impl Flights {
    pub open spec fn well_formed(&self) -> bool {
        are_single(self.flights@, self.next_serial)
    }

    /// Work that is under way for the account, its generation and the kind stands at `i`.
    pub open spec fn shares(
        flights: Seq<Flight>,
        account: u128,
        generation: u64,
        kind: WorkKind,
        i: int,
    ) -> bool {
        0 <= i < flights.len() && !flights[i].settled && flights[i].does(account, generation, kind)
    }

    /// No work at all.
    pub fn new() -> (r: Self)
        ensures
            r.well_formed(),
            r.flights@.len() == 0,
            r.next_serial == 0,
            r.workers.active == 0,
            r.workers.waiting@.len() == 0,
            r.workers.next_ticket == 0,
    {
        Flights { workers: Gate::new(), flights: Vec::new(), next_serial: 0 }
    }

    fn prune(&mut self)
        requires
            old(self).well_formed(),
        ensures
            final(self).flights@ == living(old(self).flights@),
            final(self).workers == old(self).workers,
            final(self).next_serial == old(self).next_serial,
            final(self).well_formed(),
    {
        let ghost whole = self.flights@;
        let mut kept: Vec<Flight> = Vec::new();
        proof {
            reveal(Seq::filter);
            assert(whole.take(0) =~= Seq::<Flight>::empty());
        }
        let count: usize = self.flights.len();
        for i in 0..count
            invariant
                count == whole.len(),
                self.flights@ == whole,
                kept@ == living(whole.take(i as int)),
        {
            proof {
                reveal(Seq::filter);
                assert(whole.take(i + 1).drop_last() =~= whole.take(i as int));
                assert(whole.take(i + 1).last() == whole[i as int]);
            }
            let flight = self.flights[i];
            if flight.waiters > 0 || flight.running {
                kept.push(flight);
            }
        }
        proof {
            assert(whole.take(whole.len() as int) =~= whole);
            living_stay_single(whole, self.next_serial);
        }
        self.flights = kept;
    }

    /// Joins the work that is under way, or starts it where a worker or a place in their queue can be
    /// had. Work that nobody waits for or does any more is forgotten first.
    pub fn join(
        &mut self,
        account: u128,
        generation: u64,
        kind: WorkKind,
        workers: usize,
        queued: usize,
    ) -> (r: Result<Joined, Error>)
        requires
            old(self).well_formed(),
            old(self).next_serial < u64::MAX,
            forall|i: int|
                0 <= i < old(self).flights@.len() ==> (#[trigger] old(self).flights@[i]).waiters
                    < usize::MAX,
        ensures
            final(self).well_formed(),
            ({
                let before = living(old(self).flights@);
                match r {
                    Ok(Joined::Shared { serial }) => exists|i: int|
                        {
                            &&& #[trigger] Self::shares(before, account, generation, kind, i)
                            &&& serial == before[i].serial
                            &&& final(self).flights@ == before.update(
                                i,
                                Flight { waiters: (before[i].waiters + 1) as usize, ..before[i] },
                            )
                            &&& final(self).workers == old(self).workers
                            &&& final(self).next_serial == old(self).next_serial
                        },
                    Ok(Joined::Started { serial, admission }) => {
                        &&& forall|i: int|
                            !(#[trigger] Self::shares(before, account, generation, kind, i))
                        &&& serial == old(self).next_serial
                        &&& final(self).next_serial == serial + 1
                        &&& final(self).flights@ == before.push(
                            Flight {
                                serial,
                                account,
                                generation,
                                kind,
                                waiters: 1,
                                running: true,
                                settled: false,
                            },
                        )
                        &&& match admission {
                            Admission::Inside => {
                                &&& old(self).workers.open_to_newcomers(workers)
                                &&& final(self).workers.active == old(self).workers.active + 1
                                &&& final(self).workers.waiting@ == old(self).workers.waiting@
                                &&& final(self).workers.next_ticket
                                    == old(self).workers.next_ticket
                            },
                            Admission::Waiting { ticket } => {
                                &&& !old(self).workers.open_to_newcomers(workers)
                                &&& old(self).workers.waiting@.len() < queued
                                &&& ticket == old(self).workers.next_ticket
                                &&& final(self).workers.active == old(self).workers.active
                                &&& final(self).workers.waiting@
                                    == old(self).workers.waiting@.push(ticket)
                                &&& final(self).workers.next_ticket == if ticket == u64::MAX {
                                    0
                                } else {
                                    ticket + 1
                                }
                            },
                        }
                    },
                    Err(error) => {
                        &&& forall|i: int|
                            !(#[trigger] Self::shares(before, account, generation, kind, i))
                        &&& error == Error::RateLimited
                        &&& !old(self).workers.open_to_newcomers(workers)
                        &&& old(self).workers.waiting@.len() >= queued
                        &&& final(self).flights@ == before
                        &&& final(self).workers.active == old(self).workers.active
                        &&& final(self).workers.waiting@ == old(self).workers.waiting@
                        &&& final(self).workers.next_ticket == old(self).workers.next_ticket
                        &&& final(self).next_serial == old(self).next_serial
                    },
                }
            }),
            old(self).workers.active <= workers ==> final(self).workers.active <= workers,
    {
        proof {
            living_stay_single(self.flights@, self.next_serial);
        }
        self.prune();
        let ghost before = self.flights@;
        let count: usize = self.flights.len();
        for i in 0..count
            invariant
                count == self.flights@.len(),
                self.flights@ == before,
                before == living(old(self).flights@),
                self.workers == old(self).workers,
                self.next_serial == old(self).next_serial,
                self.well_formed(),
                forall|k: int|
                    0 <= k < before.len() ==> old(self).flights@.contains(#[trigger] before[k]),
                forall|k: int|
                    0 <= k < old(self).flights@.len() ==> (#[trigger] old(self).flights@[k]).waiters < usize::MAX,
                forall|k: int|
                    0 <= k < i ==> !(#[trigger] Self::shares(before, account, generation, kind, k)),
        {
            let flight = self.flights[i];
            if !flight.settled && flight.account == account && flight.generation == generation
                && flight.kind == kind {
                proof {
                    assert(before[i as int] == flight);
                    assert(old(self).flights@.contains(before[i as int]));
                    assert(Self::shares(before, account, generation, kind, i as int));
                }
                let joined = Flight { waiters: flight.waiters + 1, ..flight };
                self.flights.set(i, joined);
                proof {
                    assert(self.well_formed()) by {
                        let after = self.flights@;
                        assert forall|a: int, b: int| 0 <= a < b < after.len() implies {
                            &&& (#[trigger] after[a]).serial < (#[trigger] after[b]).serial
                            &&& !after[a].settled && !after[b].settled ==> !after[a].does(
                                after[b].account,
                                after[b].generation,
                                after[b].kind,
                            )
                        } by {
                            assert(before[a].serial < before[b].serial);
                        }
                        assert forall|a: int| 0 <= a < after.len() implies (
                        #[trigger] after[a]).serial < self.next_serial by {
                            assert(before[a].serial < self.next_serial);
                        }
                    }
                }
                return Ok(Joined::Shared { serial: flight.serial });
            }
            assert(!Self::shares(before, account, generation, kind, i as int));
        }
        let admission = match self.workers.reserve(workers, queued) {
            Ok(admission) => admission,
            Err(error) => {
                return Err(error);
            },
        };
        let serial: u64 = self.next_serial;
        self.next_serial = serial + 1;
        self.flights.push(
            Flight { serial, account, generation, kind, waiters: 1, running: true, settled: false },
        );
        proof {
            let after = self.flights@;
            assert forall|a: int, b: int| 0 <= a < b < after.len() implies {
                &&& (#[trigger] after[a]).serial < (#[trigger] after[b]).serial
                &&& !after[a].settled && !after[b].settled ==> !after[a].does(
                    after[b].account,
                    after[b].generation,
                    after[b].kind,
                )
            } by {
                assert(before[a].serial < serial);
                if b < before.len() {
                    assert(before[a].serial < before[b].serial);
                } else {
                    assert(!Self::shares(before, account, generation, kind, a));
                }
            }
        }
        Ok(Joined::Started { serial, admission })
    }

    /// Where the flight with a serial number stands.
    fn find(&self, serial: u64) -> (r: Option<usize>)
        ensures
            match r {
                Some(i) => i < self.flights@.len() && self.flights@[i as int].serial == serial,
                None => forall|i: int|
                    0 <= i < self.flights@.len() ==> (#[trigger] self.flights@[i]).serial != serial,
            },
    {
        for i in 0..self.flights.len()
            invariant
                forall|k: int| 0 <= k < i ==> (#[trigger] self.flights@[k]).serial != serial,
        {
            if self.flights[i].serial == serial {
                return Some(i);
            }
        }
        None
    }

    /// Replaces the flight at `i` by one of the same work that is no less settled.
    fn put(&mut self, i: usize, flight: Flight)
        requires
            old(self).well_formed(),
            i < old(self).flights@.len(),
            flight.serial == old(self).flights@[i as int].serial,
            flight.does(
                old(self).flights@[i as int].account,
                old(self).flights@[i as int].generation,
                old(self).flights@[i as int].kind,
            ),
            old(self).flights@[i as int].settled ==> flight.settled,
        ensures
            final(self).well_formed(),
            final(self).flights@ == old(self).flights@.update(i as int, flight),
            final(self).workers == old(self).workers,
            final(self).next_serial == old(self).next_serial,
    {
        let ghost before = self.flights@;
        self.flights.set(i, flight);
        proof {
            let after = self.flights@;
            assert forall|a: int, b: int| 0 <= a < b < after.len() implies {
                &&& (#[trigger] after[a]).serial < (#[trigger] after[b]).serial
                &&& !after[a].settled && !after[b].settled ==> !after[a].does(
                    after[b].account,
                    after[b].generation,
                    after[b].kind,
                )
            } by {
                assert(before[a].serial < before[b].serial);
            }
            assert forall|a: int| 0 <= a < after.len() implies (#[trigger] after[a]).serial
                < self.next_serial by {
                assert(before[a].serial < self.next_serial);
            }
        }
    }

    /// One that waited for the work leaves. Answers whether nobody waits for it any more.
    pub fn leave(&mut self, serial: u64) -> (r: bool)
        requires
            old(self).well_formed(),
        ensures
            final(self).well_formed(),
            final(self).workers == old(self).workers,
            final(self).next_serial == old(self).next_serial,
            forall|i: int|
                0 <= i < old(self).flights@.len() && (#[trigger] old(self).flights@[i]).serial
                    == serial && old(self).flights@[i].waiters > 0 ==> {
                    &&& final(self).flights@ == old(self).flights@.update(
                        i,
                        Flight {
                            waiters: (old(self).flights@[i].waiters - 1) as usize,
                            ..old(self).flights@[i]
                        },
                    )
                    &&& r == (old(self).flights@[i].waiters == 1)
                },
            (forall|i: int|
                0 <= i < old(self).flights@.len() && (#[trigger] old(self).flights@[i]).serial
                    == serial ==> old(self).flights@[i].waiters == 0) ==> !r
                && final(self).flights@ == old(self).flights@,
    {
        match self.find(serial) {
            Some(i) => {
                let flight = self.flights[i];
                if flight.waiters == 0 {
                    return false;
                }
                self.put(i, Flight { waiters: flight.waiters - 1, ..flight });
                flight.waiters == 1
            },
            None => false,
        }
    }

    /// Whether anybody waits for the work: if not, it is not done.
    pub fn is_wanted(&self, serial: u64) -> (r: bool)
        requires
            self.well_formed(),
        ensures
            r == exists|i: int|
                0 <= i < self.flights@.len() && (#[trigger] self.flights@[i]).serial == serial
                    && self.flights@[i].waiters > 0,
    {
        match self.find(serial) {
            Some(i) => self.flights[i].waiters > 0,
            None => false,
        }
    }

    /// The work ends, with a result or without one.
    pub fn end(&mut self, serial: u64, with_result: bool)
        requires
            old(self).well_formed(),
        ensures
            final(self).well_formed(),
            final(self).workers == old(self).workers,
            final(self).next_serial == old(self).next_serial,
            final(self).flights@.len() == old(self).flights@.len(),
            forall|i: int|
                0 <= i < old(self).flights@.len() ==> #[trigger] final(self).flights@[i] == (if old(self).flights@[i].serial == serial {
                    Flight {
                        running: false,
                        settled: with_result || old(self).flights@[i].settled,
                        ..old(self).flights@[i]
                    }
                } else {
                    old(self).flights@[i]
                }),
    {
        match self.find(serial) {
            Some(i) => {
                let flight = self.flights[i];
                self.put(
                    i,
                    Flight { running: false, settled: with_result || flight.settled, ..flight },
                );
                proof {
                    assert forall|k: int|
                        0 <= k < old(self).flights@.len() && k != i implies (#[trigger] old(self).flights@[k]).serial != serial by {
                        if k < i {
                            assert(old(self).flights@[k].serial < old(self).flights@[i as int].serial);
                        } else {
                            assert(old(self).flights@[i as int].serial < old(self).flights@[k].serial);
                        }
                    }
                }
            },
            None => {},
        }
    }
}

/// Accepts a secret that an operation may use.
pub fn check_secret(length: usize, limits: &Limits) -> (r: Result<(), Error>)
    ensures
        r == if length > limits.secret_bytes {
            Err::<(), Error>(Error::Source(SourceError::InvalidSecret))
        } else {
            Ok(())
        },
{
    if length > limits.secret_bytes {
        Err(Error::Source(SourceError::InvalidSecret))
    } else {
        Ok(())
    }
}

/// How an account's server is reached, in the words of the protocol.
pub fn tls_mode(mode: TlsMode) -> (r: imap::TlsMode)
    ensures
        r == match mode {
            TlsMode::Implicit => imap::TlsMode::Implicit,
            TlsMode::Starttls => imap::TlsMode::StartTls,
        },
{
    match mode {
        TlsMode::Implicit => imap::TlsMode::Implicit,
        TlsMode::Starttls => imap::TlsMode::StartTls,
    }
}

/// How long a connection lives, in nanoseconds.
pub open spec fn lifetime(limits: Limits) -> int {
    limits.connection_lifetime_seconds * 1_000_000_000
}

/// The accounts of one process, each with its pool and its gate.
pub struct Runtime<C> {
    pub limits: Limits,
    pub ids: Vec<u128>,
    pub pools: Vec<Pool<C>>,
    pub gates: Vec<Gate>,
}

/// A connection in use. Dropping a lease disposes its connection. Return it only at a clean operation
/// boundary.
pub struct Lease<C> {
    pub idle: Idle<C>,
    pub at: usize,
    pub generation: u64,
    pub capacity: usize,
}

impl<C> Lease<C> {
    /// Puts the connection back into its account's pool, while its own place is still taken.
    /// Answers whether it was kept.
    pub fn release(self, runtime: &mut Runtime<C>, now: u64) -> (r: bool)
        requires
            old(runtime).well_formed(),
            self.at < old(runtime).ids@.len(),
        ensures
            final(runtime).well_formed(),
            final(runtime).same_but_pool(*old(runtime), self.at as int),
            ({
                let before = old(runtime).pools@[self.at as int];
                let after = final(runtime).pools@[self.at as int];
                &&& r == (before.generation == self.generation && self.idle.expires_at > now
                    && before.idle@.len() + old(runtime).gates@[self.at as int].active
                    <= self.capacity)
                &&& after.generation == before.generation
                &&& after.last_doctor == before.last_doctor
                &&& after.idle@ == if r {
                    before.idle@.push(self.idle)
                } else {
                    before.idle@
                }
            }),
    {
        let at: usize = self.at;
        let active: usize = runtime.gates[at].active;
        let ghost before = runtime.pools@;
        let mut pool = runtime.pools.remove(at);
        let kept = pool.give_back(self.idle, self.generation, now, active, self.capacity);
        runtime.pools.insert(at, pool);
        assert(runtime.pools@ =~= before.update(at as int, pool));
        kept
    }
}

impl<C> Runtime<C> {
    /// Every account has a pool and a gate, no account stands twice, there are no more of them than
    /// the limits allow, and none has more connections in use than they allow.
    pub open spec fn well_formed(&self) -> bool {
        &&& self.limits.valid()
        &&& self.pools@.len() == self.ids@.len()
        &&& self.gates@.len() == self.ids@.len()
        &&& self.ids@.len() <= self.limits.accounts
        &&& self.ids@.no_duplicates()
        &&& forall|i: int|
            0 <= i < self.gates@.len() ==> (#[trigger] self.gates@[i]).active
                <= self.limits.account_connections
    }

    /// Nothing but the pool at `at` is different.
    pub open spec fn same_but_pool(self, other: Self, at: int) -> bool {
        &&& self.limits == other.limits
        &&& self.ids@ == other.ids@
        &&& self.gates@ == other.gates@
        &&& self.pools@.len() == other.pools@.len()
        &&& forall|i: int|
            0 <= i < self.pools@.len() && i != at ==> #[trigger] self.pools@[i] == other.pools@[i]
    }

    /// Nothing but the account's gate at `at` is different.
    pub open spec fn same_but_gate(self, other: Self, at: int) -> bool {
        &&& self.limits == other.limits
        &&& self.ids@ == other.ids@
        &&& self.pools@ == other.pools@
        &&& self.gates@.len() == other.gates@.len()
        &&& forall|i: int|
            0 <= i < self.gates@.len() && i != at ==> #[trigger] self.gates@[i] == other.gates@[i]
    }

    /// A process without accounts. Invalid limits are refused.
    pub fn new(limits: Limits) -> (r: Result<Self, Error>)
        ensures
            match r {
                Ok(runtime) => {
                    &&& limits.valid()
                    &&& runtime.well_formed()
                    &&& runtime.limits == limits
                    &&& runtime.ids@.len() == 0
                },
                Err(error) => !limits.valid() && error == Error::InvalidInput,
            },
    {
        match limits.validate() {
            Ok(()) => Ok(
                Runtime { limits, ids: Vec::new(), pools: Vec::new(), gates: Vec::new() },
            ),
            Err(_) => Err(Error::InvalidInput),
        }
    }

    /// Refuses limits that are invalid or wider than those of the process.
    pub fn validate_limits(&self, limits: &Limits) -> (r: Result<(), Error>)
        ensures
            r == if limits.valid() && within(*limits, self.limits) {
                Ok::<(), Error>(())
            } else {
                Err(Error::InvalidInput)
            },
    {
        match limits.validate() {
            Ok(()) => {},
            Err(_) => {
                return Err(Error::InvalidInput);
            },
        }
        if limits.account_connections > self.limits.account_connections
            || limits.account_pending_requests > self.limits.account_pending_requests
            || limits.secret_bytes > self.limits.secret_bytes || limits.operation_seconds
            > self.limits.operation_seconds || limits.connection_seconds
            > self.limits.connection_seconds || limits.connection_lifetime_seconds
            > self.limits.connection_lifetime_seconds || limits.doctor_checks_per_minute
            > self.limits.doctor_checks_per_minute || limits.credential_workers
            > self.limits.credential_workers || limits.queued_credentials
            > self.limits.queued_credentials {
            return Err(Error::InvalidInput);
        }
        Ok(())
    }

    fn position(&self, id: u128) -> (r: Option<usize>)
        ensures
            match r {
                Some(at) => at < self.ids@.len() && self.ids@[at as int] == id,
                None => !self.ids@.contains(id),
            },
    {
        for at in 0..self.ids.len()
            invariant
                forall|i: int| 0 <= i < at ==> self.ids@[i] != id,
        {
            if self.ids[at] == id {
                return Some(at);
            }
        }
        None
    }

    /// Where the pool of an account is, for one generation of its configuration. The pool of an
    /// account that was not used before is made, as long as the limits allow another account.
    pub fn pool(&mut self, id: u128, generation: u64) -> (r: Result<usize, Error>)
        requires
            old(self).well_formed(),
        ensures
            final(self).well_formed(),
            match r {
                Ok(at) => {
                    &&& at < final(self).ids@.len()
                    &&& final(self).ids@[at as int] == id
                    &&& final(self).pools@[at as int].generation == generation
                    &&& if old(self).ids@.contains(id) {
                        let before = old(self).pools@[at as int];
                        let after = final(self).pools@[at as int];
                        &&& final(self).same_but_pool(*old(self), at as int)
                        &&& after.last_doctor == before.last_doctor
                        &&& generation >= before.generation
                        &&& after.idle@ == if generation == before.generation {
                            before.idle@
                        } else {
                            Seq::empty()
                        }
                    } else {
                        let pool = final(self).pools@.last();
                        let gate = final(self).gates@.last();
                        &&& final(self).limits == old(self).limits
                        &&& final(self).ids@ == old(self).ids@.push(id)
                        &&& final(self).pools@ == old(self).pools@.push(pool)
                        &&& final(self).gates@ == old(self).gates@.push(gate)
                        &&& pool.idle@.len() == 0
                        &&& pool.last_doctor is None
                        &&& gate.active == 0
                        &&& gate.waiting@.len() == 0
                    }
                },
                Err(error) => {
                    &&& final(self).limits == old(self).limits
                    &&& final(self).ids@ == old(self).ids@
                    &&& final(self).pools@ == old(self).pools@
                    &&& final(self).gates@ == old(self).gates@
                    &&& if old(self).ids@.contains(id) {
                        &&& error == Error::InvalidInput
                        &&& exists|i: int|
                            0 <= i < old(self).ids@.len() && #[trigger] old(self).ids@[i] == id
                                && generation < old(self).pools@[i].generation
                    } else {
                        &&& error == Error::RateLimited
                        &&& old(self).ids@.len() == old(self).limits.accounts
                    }
                },
            },
    {
        match self.position(id) {
            Some(at) => {
                assert(self.ids@.contains(id));
                if generation < self.pools[at].generation {
                    return Err(Error::InvalidInput);
                }
                let ghost before = self.pools@;
                let mut pool = self.pools.remove(at);
                let _ = pool.follow(generation);
                self.pools.insert(at, pool);
                assert(self.pools@ =~= before.update(at as int, pool));
                proof {
                    if pool.idle@.len() == 0 {
                        assert(pool.idle@ =~= Seq::empty());
                    }
                }
                Ok(at)
            },
            None => {
                if self.ids.len() == self.limits.accounts {
                    return Err(Error::RateLimited);
                }
                let at: usize = self.ids.len();
                let ghost before = self.ids@;
                self.ids.push(id);
                self.pools.push(Pool::new(generation));
                self.gates.push(Gate::new());
                assert(self.ids@.no_duplicates()) by {
                    assert forall|i: int, j: int|
                        0 <= i < self.ids@.len() && 0 <= j < self.ids@.len() && i
                            != j implies self.ids@[i] != self.ids@[j] by {
                        if i == at as int {
                            assert(before.contains(before[j]));
                        } else if j == at as int {
                            assert(before.contains(before[i]));
                        }
                    }
                }
                Ok(at)
            },
        }
    }

    /// Takes a place among the connections of the account at `at`, or a ticket for one.
    pub fn reserve(&mut self, at: usize, limits: &Limits) -> (r: Result<Admission, Error>)
        requires
            old(self).well_formed(),
            at < old(self).ids@.len(),
            within(*limits, old(self).limits),
        ensures
            final(self).well_formed(),
            final(self).same_but_gate(*old(self), at as int),
            ({
                let before = old(self).gates@[at as int];
                let after = final(self).gates@[at as int];
                let full = !before.open_to_newcomers(limits.account_connections);
                match r {
                    Ok(Admission::Inside) => {
                        &&& !full
                        &&& after.active == before.active + 1
                        &&& after.waiting@ == before.waiting@
                        &&& after.next_ticket == before.next_ticket
                    },
                    Ok(Admission::Waiting { ticket }) => {
                        &&& full
                        &&& before.waiting@.len() < limits.account_pending_requests
                        &&& ticket == before.next_ticket
                        &&& after.active == before.active
                        &&& after.waiting@ == before.waiting@.push(ticket)
                        &&& after.next_ticket == if ticket == u64::MAX {
                            0
                        } else {
                            ticket + 1
                        }
                    },
                    Err(error) => {
                        &&& error == Error::RateLimited
                        &&& full
                        &&& before.waiting@.len() >= limits.account_pending_requests
                        &&& after.active == before.active
                        &&& after.waiting@ == before.waiting@
                        &&& after.next_ticket == before.next_ticket
                    },
                }
            }),
    {
        let ghost before = self.gates@;
        let mut gate = self.gates.remove(at);
        let admission = gate.reserve(
            limits.account_connections,
            limits.account_pending_requests,
        );
        self.gates.insert(at, gate);
        assert(self.gates@ =~= before.update(at as int, gate));
        admission
    }

    /// Gives the holder of `ticket` a place of the account at `at`, where the turn is theirs.
    pub fn enter(&mut self, at: usize, ticket: u64, limits: &Limits) -> (r: bool)
        requires
            old(self).well_formed(),
            at < old(self).ids@.len(),
            within(*limits, old(self).limits),
        ensures
            final(self).well_formed(),
            final(self).same_but_gate(*old(self), at as int),
            ({
                let before = old(self).gates@[at as int];
                let after = final(self).gates@[at as int];
                &&& r == before.lets_in(ticket, limits.account_connections)
                &&& after.next_ticket == before.next_ticket
                &&& if r {
                    &&& after.active == before.active + 1
                    &&& after.waiting@ == before.waiting@.drop_first()
                } else {
                    &&& after.active == before.active
                    &&& after.waiting@ == before.waiting@
                }
            }),
    {
        let ghost before = self.gates@;
        let mut gate = self.gates.remove(at);
        let entered = gate.enter(ticket, limits.account_connections);
        self.gates.insert(at, gate);
        assert(self.gates@ =~= before.update(at as int, gate));
        entered
    }

    /// Gives a place or a ticket of the account at `at` back.
    pub fn leave(&mut self, at: usize, admission: Admission)
        requires
            old(self).well_formed(),
            at < old(self).ids@.len(),
            admission is Inside ==> old(self).gates@[at as int].active > 0,
        ensures
            final(self).well_formed(),
            final(self).same_but_gate(*old(self), at as int),
            ({
                let before = old(self).gates@[at as int];
                let after = final(self).gates@[at as int];
                &&& after.next_ticket == before.next_ticket
                &&& match admission {
                    Admission::Inside => {
                        &&& after.active == before.active - 1
                        &&& after.waiting@ == before.waiting@
                    },
                    Admission::Waiting { ticket } => {
                        &&& after.active == before.active
                        &&& after.waiting@ == before.waiting@.filter(|entry: u64| entry != ticket)
                    },
                }
            }),
    {
        let ghost before = self.gates@;
        let mut gate = self.gates.remove(at);
        gate.leave(admission);
        self.gates.insert(at, gate);
        assert(self.gates@ =~= before.update(at as int, gate));
    }

    /// Takes note of a check of the account at `at`, or refuses it where the last one was too recent.
    pub fn doctor(&mut self, at: usize, now: u64, limits: &Limits) -> (r: Result<(), Error>)
        requires
            old(self).well_formed(),
            at < old(self).ids@.len(),
            limits.valid(),
        ensures
            final(self).well_formed(),
            final(self).same_but_pool(*old(self), at as int),
            ({
                let before = old(self).pools@[at as int];
                let after = final(self).pools@[at as int];
                &&& after.generation == before.generation
                &&& after.idle@ == before.idle@
                &&& if before.may_check(now, limits.doctor_checks_per_minute) {
                    r == Ok::<(), Error>(()) && after.last_doctor == Some(now)
                } else {
                    &&& r == Err::<(), Error>(Error::RateLimited)
                    &&& after.last_doctor == before.last_doctor
                }
            }),
    {
        let ghost before = self.pools@;
        let mut pool = self.pools.remove(at);
        let verdict = pool.check(now, limits.doctor_checks_per_minute);
        self.pools.insert(at, pool);
        assert(self.pools@ =~= before.update(at as int, pool));
        verdict
    }

    /// Takes a connection out of the pool of the account at `at`, for a caller with a place at its
    /// gate. Nothing is given where the caller has to connect itself.
    pub fn acquire(
        &mut self,
        at: usize,
        generation: u64,
        now: u64,
        limits: &Limits,
        fresh: bool,
    ) -> (r: Result<Option<Lease<C>>, Error>)
        requires
            old(self).well_formed(),
            at < old(self).ids@.len(),
            limits.valid(),
        ensures
            final(self).well_formed(),
            final(self).same_but_pool(*old(self), at as int),
            ({
                let before = old(self).pools@[at as int];
                let after = final(self).pools@[at as int];
                let active = old(self).gates@[at as int].active;
                let stock = before.stock(
                    now,
                    lifetime(*limits) as u64,
                    limits.account_connections,
                    active,
                    fresh,
                );
                &&& after.generation == before.generation
                &&& after.last_doctor == before.last_doctor
                &&& if generation != before.generation {
                    &&& r == Err::<Option<Lease<C>>, Error>(Error::InvalidInput)
                    &&& after.idle@ == before.idle@
                } else if fresh || stock.len() == 0 {
                    &&& r == Ok::<Option<Lease<C>>, Error>(None)
                    &&& after.idle@ == stock
                } else {
                    &&& after.idle@ == stock.drop_last()
                    &&& r matches Ok(Some(lease))
                    &&& lease.at == at
                    &&& lease.generation == generation
                    &&& lease.capacity == limits.account_connections
                    &&& lease.idle.connection == stock.last().connection
                    &&& lease.idle.established == stock.last().established
                    &&& lease.idle.expires_at > now
                    &&& lease.idle.expires_at == if stock.last().expires_at
                        <= stock.last().established + lifetime(*limits) {
                        stock.last().expires_at as int
                    } else {
                        stock.last().established + lifetime(*limits)
                    }
                }
                &&& r is Ok && active <= limits.account_connections ==> after.idle@.len() + active
                    <= limits.account_connections
            }),
    {
        let ghost before = self.pools@;
        let active: usize = self.gates[at].active;
        let lifetime: u64 = limits.connection_lifetime_seconds as u64 * 1_000_000_000;
        let mut pool = self.pools.remove(at);
        let taken = pool.take(
            generation,
            now,
            lifetime,
            limits.account_connections,
            active,
            fresh,
        );
        self.pools.insert(at, pool);
        assert(self.pools@ =~= before.update(at as int, pool));
        match taken {
            Ok(Some(idle)) => Ok(
                Some(Lease { idle, at, generation, capacity: limits.account_connections }),
            ),
            Ok(None) => Ok(None),
            Err(error) => Err(error),
        }
    }

    /// A lease on a connection that was established at `now`.
    pub fn lease(
        &self,
        connection: C,
        at: usize,
        generation: u64,
        now: u64,
        limits: &Limits,
    ) -> (r: Lease<C>)
        requires
            limits.valid(),
            now + lifetime(*limits) <= u64::MAX,
        ensures
            r.at == at,
            r.generation == generation,
            r.capacity == limits.account_connections,
            r.idle.connection == connection,
            r.idle.established == now,
            r.idle.expires_at == now + lifetime(*limits),
    {
        let lifetime: u64 = limits.connection_lifetime_seconds as u64 * 1_000_000_000;
        Lease {
            idle: Idle::established(connection, now, lifetime),
            at,
            generation,
            capacity: limits.account_connections,
        }
    }
}

/// A connection at rest is kept until it expires and as long as its lifetime goes, and no longer.
pub proof fn connections_rest_for_their_time<C>(idle: Idle<C>, now: u64, lifetime: u64)
    ensures
        idle.expires_at <= now ==> !Pool::<C>::keeping(now, None)(idle) && !Pool::<C>::keeping(now, Some(lifetime))(idle),
        idle.expires_at > now ==> Pool::<C>::keeping(now, None)(idle),
        idle.expires_at > now ==> (Pool::<C>::keeping(now, Some(lifetime))(idle) <==> 0 < lifetime && now
            - idle.established < lifetime),
{
}

/// A check is due where there was none, and then as often in a minute as is allowed.
pub proof fn checks_are_spaced<C>(pool: Pool<C>, now: u64, checks: usize)
    ensures
        pool.last_doctor is None ==> pool.may_check(now, checks),
        pool.last_doctor matches Some(last) ==> now <= last ==> !pool.may_check(now, checks),
        pool.last_doctor matches Some(last) ==> now >= last ==> (pool.may_check(now, checks) <==> (now - last) * checks
            >= 60 * 1_000_000_000),
{
    if let Some(last) = pool.last_doctor {
        if now <= last {
            assert(elapsed(last, now) * checks == 0) by (nonlinear_arith)
                requires
                    elapsed(last, now) == 0,
            ;
        }
    }
}

/// What is taken into use are connections that are kept, from the first on, and never more than there is
/// room for beside those in use.
pub proof fn the_stock_fits<C>(pool: Pool<C>, now: u64, lifetime: u64, connections: usize, active: usize, fresh: bool)
    ensures
        ({
            let stock = pool.stock(now, lifetime, connections, active, fresh);
            let kept = pool.idle@.filter(Pool::<C>::keeping(now, Some(lifetime)));
            &&& stock.is_prefix_of(kept)
            &&& active <= connections && fresh ==> stock.len() + active <= connections
            &&& active <= connections && !fresh ==> stock.len() + active <= connections + 1
            &&& active > connections && fresh ==> stock.len() == 0
            &&& stock.len() < kept.len() ==> stock.len() == (if active <= connections {
                connections - active
            } else {
                0
            }) + (if fresh {
                0int
            } else {
                1int
            })
        }),
{
    let kept = pool.idle@.filter(Pool::<C>::keeping(now, Some(lifetime)));
    let stock = pool.stock(now, lifetime, connections, active, fresh);
    assert(stock =~= kept.take(stock.len() as int));
}

/// The limits of a request stay below those of the service in all that concerns logins, and those of a
/// grant that stay below them altogether do so here.
pub proof fn narrower_limits_stay_below(limits: Limits, bounds: Limits)
    ensures
        limits.within(bounds) ==> within(limits, bounds),
        within(limits, bounds) ==> limits.account_connections <= bounds.account_connections
            && limits.account_pending_requests <= bounds.account_pending_requests && limits.secret_bytes
            <= bounds.secret_bytes && limits.operation_seconds <= bounds.operation_seconds && limits.connection_seconds
            <= bounds.connection_seconds && limits.connection_lifetime_seconds <= bounds.connection_lifetime_seconds
            && limits.doctor_checks_per_minute <= bounds.doctor_checks_per_minute && limits.credential_workers
            <= bounds.credential_workers && limits.queued_credentials <= bounds.queued_credentials,
{
}

/// Work is shared by those who need the same of the same account in the same generation, and by nobody
/// else.
pub proof fn work_is_shared_by_need(flights: Seq<Flight>, account: u128, generation: u64, kind: WorkKind, i: int)
    ensures
        Flights::shares(flights, account, generation, kind, i) ==> flights[i].account == account && flights[i].generation
            == generation && flights[i].kind == kind && !flights[i].settled,
        0 <= i < flights.len() && flights[i].settled ==> !Flights::shares(flights, account, generation, kind, i),
        0 <= i < flights.len() && (flights[i].account != account || flights[i].generation != generation
            || flights[i].kind != kind) ==> !Flights::shares(flights, account, generation, kind, i),
        0 <= i < flights.len() ==> (flights[i].alive() <==> flights[i].waiters > 0 || flights[i].running),
{
}

/// TLS is set up from the start or by an upgrade, as the account says, and a secret is refused where it is
/// longer than the limits allow.
pub proof fn accounts_choose_their_tls(mode: TlsMode, length: usize, limits: Limits, r: imap::TlsMode, secret: Result<(), Error>)
    requires
        call_ensures(tls_mode, (mode,), r),
        call_ensures(check_secret, (length, &limits), secret),
    ensures
        r is Implicit <==> mode is Implicit,
        r is StartTls <==> mode is Starttls,
        secret is Ok <==> length <= limits.secret_bytes,
        secret matches Err(error) ==> error == Error::Source(SourceError::InvalidSecret),
{
}

} // verus!
