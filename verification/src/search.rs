//! Bounded descending-UID traversal shared by message providers.
use vstd::prelude::*;

use crate::config::limits::Limits;
use crate::domain::search::{MessageMetadata, SearchCriteria};
use crate::domain::{Error, ErrorCode};
use crate::encoding::OutputBudget;
use crate::order::{descending, is_descending};

verus! {

#[derive(Clone, Copy, Debug, PartialEq, Eq, Structural)]
pub struct SearchPosition {
    pub uid_validity: u32,
    pub upper_uid: u32,
    pub next_uid: u32,
}

pub struct SearchRequest<'a> {
    pub mailbox: &'a str,
    pub criteria: &'a SearchCriteria,
    pub position: Option<SearchPosition>,
    pub limit: usize,
    pub response_bytes: usize,
}

#[derive(Debug)]
pub struct LocatedMessage {
    pub uid: u32,
    pub metadata: MessageMetadata,
}

#[derive(Debug)]
pub struct SearchBatch {
    pub position: SearchPosition,
    pub messages: Vec<LocatedMessage>,
}

/// A message that was read, with the bytes that its metadata takes in a response.
#[derive(Debug)]
pub struct Row {
    pub message: LocatedMessage,
    pub size: usize,
}

/// Where a page starts: at a known position, or at the greatest UID, which has to be asked for.
#[derive(Clone, Copy, Debug, PartialEq, Eq, Structural)]
pub enum Origin {
    At(SearchPosition),
    Top,
}

/// Why a page cannot start under valid limits, if it cannot.
pub open spec fn refusal(
    limits: Limits,
    limit: usize,
    validity: u32,
    position: Option<SearchPosition>,
) -> Option<ErrorCode> {
    if limit == 0 || limit > limits.search_page {
        Some(ErrorCode::InvalidRequest)
    } else if validity == 0 {
        Some(ErrorCode::ProviderUnavailable)
    } else if position matches Some(position) && position.uid_validity != validity {
        Some(ErrorCode::StaleCursor)
    } else {
        None
    }
}

/// Decides where the page of a request starts in a mailbox of this validity.
pub fn origin(
    limits: &Limits,
    limit: usize,
    validity: u32,
    position: Option<SearchPosition>,
) -> (r: Result<Origin, Error>)
    ensures
        !limits.valid() ==> (r matches Err(error) && error.asks_for_setup()),
        limits.valid() ==> match refusal(*limits, limit, validity, position) {
            Some(code) => r matches Err(error) && error.reports(code),
            None => r == Ok::<Origin, Error>(
                match position {
                    Some(position) => Origin::At(position),
                    None => Origin::Top,
                },
            ),
        },
{
    match limits.validate() {
        Ok(()) => {},
        Err(error) => {
            return Err(error);
        },
    }
    if limit == 0 || limit > limits.search_page {
        return Err(Error::new(ErrorCode::InvalidRequest));
    }
    if validity == 0 {
        return Err(Error::new(ErrorCode::ProviderUnavailable));
    }
    match position {
        Some(position) => if position.uid_validity != validity {
            Err(Error::new(ErrorCode::StaleCursor))
        } else {
            Ok(Origin::At(position))
        },
        None => Ok(Origin::Top),
    }
}

/// The UIDs of messages.
pub open spec fn uids(messages: Seq<LocatedMessage>) -> Seq<u32> {
    messages.map_values(|message: LocatedMessage| message.uid)
}

/// The messages come in descending order, above `low` and up to `high`.
pub open spec fn lie_within(messages: Seq<LocatedMessage>, low: u32, high: u32) -> bool {
    &&& is_descending(uids(messages))
    &&& forall|i: int| 0 <= i < messages.len() ==> low < (#[trigger] messages[i]).uid <= high
}

/// A page that is being filled.
pub struct Page {
    pub position: SearchPosition,
    pub messages: Vec<LocatedMessage>,
    pub budget: OutputBudget,
    pub limit: usize,
    pub window: usize,
    pub windows: usize,
    /// The UIDs whose messages are being read, in descending order.
    pub wanted: Vec<u32>,
    /// The greatest UID that this page may hold.
    pub top: u32,
}

/// The bytes that rows take in a response.
pub open spec fn cost(rows: Seq<Row>) -> nat
    decreases rows.len(),
{
    if rows.len() == 0 {
        0
    } else {
        cost(rows.drop_last()) + rows.last().size as nat + 1024
    }
}

/// The rows answer a request for these UIDs: each is one of them, and none comes twice.
pub open spec fn answer(rows: Seq<Row>, wanted: Seq<u32>) -> bool {
    &&& rows.len() <= wanted.len()
    &&& forall|i: int| 0 <= i < rows.len() ==> wanted.contains((#[trigger] rows[i]).message.uid)
    &&& forall|i: int, j: int|
        0 <= i < j < rows.len() ==> (#[trigger] rows[i]).message.uid != (#[trigger] rows[j]).message.uid
}

pub open spec fn messages_of(rows: Seq<Row>) -> Seq<LocatedMessage> {
    rows.map_values(|row: Row| row.message)
}

impl Page {
    /// What holds of a page at all times: its messages descend and lie above what is still to come.
    pub open spec fn well_formed(self) -> bool {
        &&& 1 <= self.window <= 10000
        &&& self.position.next_uid <= self.top
        &&& lie_within(self.messages@, self.position.next_uid, self.top)
        &&& self.messages@.len() + self.wanted@.len() <= self.limit
        &&& is_descending(self.wanted@)
        &&& forall|i: int|
            0 <= i < self.wanted@.len() ==> self.position.next_uid < #[trigger] self.wanted@[i]
                <= self.top
        &&& forall|i: int, j: int|
            0 <= i < self.messages@.len() && 0 <= j < self.wanted@.len() ==> (
            #[trigger] self.messages@[i]).uid > #[trigger] self.wanted@[j]
    }

    /// Nothing is left to search for.
    pub open spec fn done(self) -> bool {
        self.windows == 0 || self.position.next_uid == 0 || self.messages@.len() == self.limit
    }

    /// The lowest UID of the window that ends at the next UID.
    pub open spec fn window_start(self) -> u32 {
        if self.position.next_uid > self.window {
            (self.position.next_uid - (self.window - 1)) as u32
        } else {
            1
        }
    }

    pub fn new(limits: &Limits, limit: usize, response_bytes: usize, position: SearchPosition) -> (r:
        Self)
        requires
            limits.valid(),
        ensures
            r.well_formed(),
            r.position == position,
            r.top == position.next_uid,
            r.messages@.len() == 0,
            r.wanted@.len() == 0,
            r.budget.remaining == response_bytes,
            r.limit == limit,
            r.window == limits.search_uid_window,
            r.windows == limits.search_windows,
    {
        Page {
            position,
            messages: Vec::new(),
            budget: OutputBudget::new(response_bytes),
            limit,
            window: limits.search_uid_window,
            windows: limits.search_windows,
            wanted: Vec::new(),
            top: position.next_uid,
        }
    }

    fn first(&self) -> (r: u32)
        requires
            self.well_formed(),
        ensures
            r == self.window_start(),
    {
        let window: u32 = self.window as u32;
        if self.position.next_uid > window {
            self.position.next_uid - (window - 1)
        } else {
            1
        }
    }

    /// The next window of UIDs to search, from the first to the last, or nothing when the page is done.
    pub fn next(&mut self) -> (r: Option<(u32, u32)>)
        requires
            old(self).well_formed(),
        ensures
            final(self).well_formed(),
            match r {
                None => old(self).done() && *final(self) == *old(self),
                Some((first, last)) => {
                    &&& !old(self).done()
                    &&& last == old(self).position.next_uid
                    &&& first == old(self).window_start()
                    &&& 1 <= first <= last
                    &&& *final(self) == (Page {
                        windows: (old(self).windows - 1) as usize,
                        ..*old(self)
                    })
                },
            },
    {
        if self.windows == 0 || self.position.next_uid == 0 || self.messages.len() == self.limit {
            return None;
        }
        self.windows = self.windows - 1;
        Some((self.first(), self.position.next_uid))
    }

    /// The answer to a search of the window is acceptable: distinct UIDs of the window.
    pub open spec fn accepts(self, found: Seq<u32>) -> bool {
        &&& found.len() <= self.window
        &&& forall|i: int|
            0 <= i < found.len() ==> self.window_start() <= #[trigger] found[i]
                <= self.position.next_uid
        &&& found.no_duplicates()
    }

    /// `after` is to read the UIDs of `found` that fit on this page.
    pub open spec fn takes(self, found: Seq<u32>, after: Page) -> bool {
        let room = self.limit - self.messages@.len();
        let next = after.position.next_uid;
        let wanted = after.wanted@;
        &&& self.accepts(found)
        &&& after == (Page {
            position: SearchPosition { next_uid: next, ..self.position },
            wanted: after.wanted,
            ..self
        })
        &&& next < self.position.next_uid
        &&& is_descending(wanted)
        &&& forall|uid: u32| #[trigger]
            wanted.contains(uid) == (found.contains(uid) && uid > next)
        &&& if found.len() > room {
            wanted.len() == room && next == wanted.last() - 1
        } else {
            wanted.len() == found.len() && next == self.window_start() - 1
        }
    }

    /// Takes the UIDs that match in the window. Those that fit on the page are to be read next; the
    /// rest, and nothing else, stays below the new position.
    pub fn matched(&mut self, found: &Vec<u32>) -> (r: Result<(), Error>)
        requires
            old(self).well_formed(),
            old(self).wanted@.len() == 0,
            old(self).position.next_uid > 0,
            old(self).messages@.len() < old(self).limit,
        ensures
            final(self).well_formed(),
            match r {
                Ok(()) => old(self).takes(found@, *final(self)),
                Err(error) => error.reports(ErrorCode::ProviderUnavailable) && !old(self).accepts(
                    found@,
                ) && *final(self) == *old(self),
            },
    {
        let first: u32 = self.first();
        let last: u32 = self.position.next_uid;
        if found.len() > self.window {
            return Err(Error::new(ErrorCode::ProviderUnavailable));
        }
        for i in 0..found.len()
            invariant
                *self == *old(self),
                self.well_formed(),
                first == self.window_start(),
                last == self.position.next_uid,
                forall|j: int| 0 <= j < i ==> first <= #[trigger] found@[j] <= last,
        {
            if found[i] < first || found[i] > last {
                assert(!(first <= found@[i as int] <= last));
                return Err(Error::new(ErrorCode::ProviderUnavailable));
            }
        }
        let mut list = match descending(found) {
            Some(list) => list,
            None => {
                return Err(Error::new(ErrorCode::ProviderUnavailable));
            },
        };
        let room: usize = self.limit - self.messages.len();
        let ghost whole = list@;
        assert forall|i: int| 0 <= i < whole.len() implies first <= #[trigger] whole[i]
            <= last by {
            assert(whole.contains(whole[i]));
            let j = choose|j: int| 0 <= j < found@.len() && found@[j] == whole[i];
            assert(first <= found@[j] <= last);
        }
        let next: u32 = if list.len() > room {
            list[room - 1] - 1
        } else {
            first - 1
        };
        if list.len() > room {
            list.truncate(room);
        }
        proof {
            assert(list@ =~= whole.take(list@.len() as int));
            assert forall|uid: u32| #[trigger]
                list@.contains(uid) == (found@.contains(uid) && uid > next) by {
                if list@.contains(uid) {
                    let k = choose|k: int| 0 <= k < list@.len() && list@[k] == uid;
                    assert(whole[k] == uid);
                    assert(whole.contains(uid));
                    if whole.len() > room && k < room - 1 {
                        assert(whole[k] > whole[room - 1]);
                    }
                }
                if found@.contains(uid) && uid > next {
                    assert(whole.contains(uid));
                    let k = choose|k: int| 0 <= k < whole.len() && whole[k] == uid;
                    if whole.len() > room && k >= room {
                        assert(whole[room - 1] > whole[k]);
                    }
                    assert(list@[k] == uid);
                }
            }
            assert forall|i: int| 0 <= i < list@.len() implies next < #[trigger] list@[i]
                <= self.top by {
                assert(list@.contains(list@[i]));
                assert(whole[i] <= last);
            }
            assert forall|i: int, j: int|
                0 <= i < self.messages@.len() && 0 <= j < list@.len() implies (
            #[trigger] self.messages@[i]).uid > #[trigger] list@[j] by {
                assert(whole[j] <= last);
            }
        }
        self.position.next_uid = next;
        self.wanted = list;
        Ok(())
    }

    /// `after` holds the messages of `rows` too.
    pub open spec fn reads(self, rows: Seq<Row>, after: Page) -> bool {
        let earlier = self.messages@.len() as int;
        &&& answer(rows, self.wanted@)
        &&& cost(rows) <= self.budget.remaining
        &&& after.wanted@.len() == 0
        &&& after.budget.remaining == self.budget.remaining - cost(rows)
        &&& after.messages@.len() >= earlier
        &&& after.messages@.take(earlier) == self.messages@
        &&& after.messages@.skip(earlier).to_multiset() == messages_of(rows).to_multiset()
        &&& after == (Page {
            messages: after.messages,
            budget: after.budget,
            wanted: after.wanted,
            ..self
        })
    }

    /// Takes the messages that were read for the wanted UIDs. A message may be missing, when it has
    /// left the mailbox since the search.
    pub fn fetched(&mut self, rows: Vec<Row>) -> (r: Result<(), Error>)
        requires
            old(self).well_formed(),
        ensures
            match r {
                Ok(()) => final(self).well_formed() && old(self).reads(rows@, *final(self)),
                Err(error) => {
                    &&& error.reports(ErrorCode::ProviderUnavailable) <==> !answer(
                        rows@,
                        old(self).wanted@,
                    )
                    &&& error.reports(ErrorCode::ResponseTooLarge) <==> answer(
                        rows@,
                        old(self).wanted@,
                    )
                    &&& answer(rows@, old(self).wanted@) ==> cost(rows@)
                        > old(self).budget.remaining
                    &&& *final(self) == (Page { budget: final(self).budget, ..*old(self) })
                },
            },
    {
        if !answers(&rows, &self.wanted) {
            return Err(Error::new(ErrorCode::ProviderUnavailable));
        }
        let ghost given = rows@;
        for i in 0..rows.len()
            invariant
                rows@ == given,
                answer(given, old(self).wanted@),
                cost(given.take(i as int)) <= old(self).budget.remaining,
                *self == (Page { budget: self.budget, ..*old(self) }),
                self.budget.remaining == old(self).budget.remaining - cost(given.take(i as int)),
        {
            assert(given.take(i + 1).drop_last() =~= given.take(i as int));
            proof {
                costs_grow(given, i + 1);
            }
            match self.budget.reserve(rows[i].size) {
                Ok(()) => {},
                Err(error) => {
                    return Err(error);
                },
            }
            match self.budget.reserve(1024) {
                Ok(()) => {},
                Err(error) => {
                    return Err(error);
                },
            }
        }
        assert(given.take(given.len() as int) =~= given);
        let arranged = arrange(rows, &self.wanted);
        self.wanted = Vec::new();
        let ghost earlier = self.messages@;
        let mut arranged = arranged;
        let ghost added = arranged@;
        self.messages.append(&mut arranged);
        proof {
            let now = self.messages@;
            assert(now =~= earlier + added);
            assert(now.take(earlier.len() as int) =~= earlier);
            assert(now.skip(earlier.len() as int) =~= added);
            assert forall|i: int| 0 <= i < now.len() implies self.position.next_uid < (
            #[trigger] now[i]).uid <= self.top by {
                if i >= earlier.len() {
                    assert(now[i] == added[i - earlier.len()]);
                    assert(old(self).wanted@.contains(added[i - earlier.len()].uid));
                } else {
                    assert(now[i] == earlier[i]);
                }
            }
            assert forall|i: int, j: int| 0 <= i < j < now.len() implies #[trigger] uids(now)[i]
                > #[trigger] uids(now)[j] by {
                if j < earlier.len() {
                    assert(uids(earlier)[i] > uids(earlier)[j]);
                } else if i >= earlier.len() {
                    assert(uids(added)[i - earlier.len()] > uids(added)[j - earlier.len()]);
                } else {
                    let uid = added[j - earlier.len()].uid;
                    assert(old(self).wanted@.contains(uid));
                    let k = choose|k: int|
                        0 <= k < old(self).wanted@.len() && old(self).wanted@[k] == uid;
                    assert(earlier[i].uid > old(self).wanted@[k]);
                }
            }
            arranged_length(given, added);
        }
        Ok(())
    }

    /// What the page holds, and where the next one starts.
    pub fn finish(self) -> (r: SearchBatch)
        requires
            self.well_formed(),
        ensures
            r.position == self.position,
            r.messages@ == self.messages@,
            lie_within(r.messages@, r.position.next_uid, self.top),
    {
        SearchBatch { position: self.position, messages: self.messages }
    }
}

proof fn arranged_length(rows: Seq<Row>, added: Seq<LocatedMessage>)
    requires
        added.to_multiset() == messages_of(rows).to_multiset(),
    ensures
        added.len() == rows.len(),
{
    vstd::seq_lib::to_multiset_len(added);
    vstd::seq_lib::to_multiset_len(messages_of(rows));
}

proof fn costs_grow(rows: Seq<Row>, count: int)
    requires
        0 <= count <= rows.len(),
    ensures
        cost(rows.take(count)) <= cost(rows),
    decreases rows.len() - count,
{
    if count < rows.len() {
        assert(rows.take(count + 1).drop_last() =~= rows.take(count));
        costs_grow(rows, count + 1);
    } else {
        assert(rows.take(count) =~= rows);
    }
}

fn holds_uid(list: &Vec<u32>, uid: u32) -> (r: bool)
    ensures
        r == list@.contains(uid),
{
    for i in 0..list.len()
        invariant
            forall|j: int| 0 <= j < i ==> list@[j] != uid,
    {
        if list[i] == uid {
            assert(list@[i as int] == uid);
            return true;
        }
    }
    false
}

fn answers(rows: &Vec<Row>, wanted: &Vec<u32>) -> (r: bool)
    ensures
        r == answer(rows@, wanted@),
{
    if rows.len() > wanted.len() {
        return false;
    }
    for j in 0..rows.len()
        invariant
            rows@.len() <= wanted@.len(),
            forall|a: int| 0 <= a < j ==> wanted@.contains((#[trigger] rows@[a]).message.uid),
            forall|a: int, b: int|
                0 <= a < b < j ==> (#[trigger] rows@[a]).message.uid != (
                #[trigger] rows@[b]).message.uid,
    {
        if !holds_uid(wanted, rows[j].message.uid) {
            assert(!wanted@.contains(rows@[j as int].message.uid));
            return false;
        }
        for i in 0..j
            invariant
                j < rows@.len(),
                forall|a: int|
                    0 <= a < i ==> (#[trigger] rows@[a]).message.uid != rows@[j as int].message.uid,
        {
            if rows[i].message.uid == rows[j].message.uid {
                assert(rows@[i as int].message.uid == rows@[j as int].message.uid);
                return false;
            }
        }
    }
    true
}

/// The messages of the rows in descending order.
fn arrange(rows: Vec<Row>, wanted: &Vec<u32>) -> (r: Vec<LocatedMessage>)
    requires
        answer(rows@, wanted@),
    ensures
        is_descending(uids(r@)),
        r@.to_multiset() == messages_of(rows@).to_multiset(),
        forall|i: int| 0 <= i < r@.len() ==> wanted@.contains((#[trigger] r@[i]).uid),
{
    broadcast use vstd::seq_lib::group_to_multiset_ensures;

    let ghost given = rows@;
    let ghost all = messages_of(given);
    let mut rest = rows;
    let mut out: Vec<LocatedMessage> = Vec::new();
    let ghost mut done: int = 0;
    assert(given.skip(0) =~= given);
    assert(all.take(0) =~= Seq::<LocatedMessage>::empty());
    while rest.len() > 0
        invariant
            0 <= done <= given.len(),
            all == messages_of(given),
            rest@ == given.skip(done),
            answer(given, wanted@),
            is_descending(uids(out@)),
            out@.to_multiset() == all.take(done).to_multiset(),
        decreases rest@.len(),
    {
        broadcast use vstd::seq_lib::group_to_multiset_ensures;

        let row = rest.remove(0);
        let message = row.message;
        let ghost value = message;
        let ghost before = out@;
        proof {
            assert(value == all[done]);
            assert forall|k: int| 0 <= k < before.len() implies (#[trigger] before[k]).uid
                != value.uid by {
                vstd::seq_lib::to_multiset_contains(before, before[k]);
                vstd::seq_lib::to_multiset_contains(all.take(done), before[k]);
                assert(before.contains(before[k]));
                let i = choose|i: int| 0 <= i < done && all.take(done)[i] == before[k];
                assert(given[i].message.uid != given[done].message.uid);
            }
        }
        let mut at: usize = 0;
        while at < out.len() && out[at].uid > message.uid
            invariant
                at <= out@.len(),
                out@ == before,
                message == value,
                forall|k: int| 0 <= k < at ==> (#[trigger] before[k]).uid > value.uid,
            decreases out@.len() - at,
        {
            at = at + 1;
        }
        out.insert(at, message);
        proof {
            let after = out@;
            assert(after =~= before.insert(at as int, value));
            assert forall|i: int, j: int| 0 <= i < j < after.len() implies #[trigger] uids(after)[i]
                > #[trigger] uids(after)[j] by {
                let a = if i < at {
                    i
                } else {
                    i - 1
                };
                let b = if j < at {
                    j
                } else {
                    j - 1
                };
                if i == at {
                    assert(after[j] == before[j - 1]);
                    assert(before[at as int].uid < value.uid);
                    if j - 1 > at {
                        assert(uids(before)[at as int] > uids(before)[j - 1]);
                    }
                } else if j == at {
                    assert(after[i] == before[i]);
                } else {
                    assert(after[i] == before[a] && after[j] == before[b]);
                    assert(uids(before)[a] > uids(before)[b]);
                }
            }
            vstd::seq_lib::to_multiset_insert(before, at as int, value);
            assert(all.take(done + 1) =~= all.take(done).push(value));
            assert(rest@ =~= given.skip(done + 1));
            assert(out@.to_multiset() =~= all.take(done + 1).to_multiset());
            done = done + 1;
        }
    }
    proof {
        assert(all.take(done) =~= all);
        assert forall|i: int| 0 <= i < out@.len() implies wanted@.contains(
            (#[trigger] out@[i]).uid,
        ) by {
            vstd::seq_lib::to_multiset_contains(out@, out@[i]);
            vstd::seq_lib::to_multiset_contains(all, out@[i]);
            assert(out@.contains(out@[i]));
            let k = choose|k: int| 0 <= k < all.len() && all[k] == out@[i];
            assert(wanted@.contains(given[k].message.uid));
        }
    }
    out
}

/// A page that resumes where another stopped holds only older messages: none comes twice.
pub proof fn resumed_pages_repeat_nothing(earlier: SearchBatch, high: u32, later: SearchBatch, i: int, j: int)
    requires
        lie_within(earlier.messages@, earlier.position.next_uid, high),
        lie_within(later.messages@, later.position.next_uid, earlier.position.next_uid),
        0 <= i < earlier.messages@.len(),
        0 <= j < later.messages@.len(),
    ensures
        earlier.messages@[i].uid > later.messages@[j].uid,
{
}

/// The answer to a search is exact: it holds every matching UID of the window, once, and no other.
pub open spec fn is_exact(found: Seq<u32>, matching: Set<u32>, first: u32, last: u32) -> bool {
    &&& found.no_duplicates()
    &&& forall|uid: u32| #[trigger]
        found.contains(uid) == (matching.contains(uid) && first <= uid <= last)
}

/// Every wanted message was read.
pub open spec fn is_whole(rows: Seq<Row>, wanted: Seq<u32>) -> bool {
    forall|uid: u32| #[trigger]
        wanted.contains(uid) ==> exists|i: int|
            0 <= i < rows.len() && (#[trigger] rows[i]).message.uid == uid
}

/// A page that has just been started.
pub open spec fn is_fresh(page: Page) -> bool {
    page.messages@.len() == 0 && page.wanted@.len() == 0 && page.top == page.position.next_uid
}

/// One call on a page, in a mailbox in which these UIDs match and every message can be read.
pub open spec fn proceeds(matching: Set<u32>, before: Page, after: Page) -> bool {
    ||| !before.done() && after == (Page { windows: (before.windows - 1) as usize, ..before })
    ||| before.wanted@.len() == 0 && before.position.next_uid > 0 && before.messages@.len()
        < before.limit && exists|found: Seq<u32>| #[trigger]
        before.takes(found, after) && is_exact(
            found,
            matching,
            before.window_start(),
            before.position.next_uid,
        )
    ||| exists|rows: Seq<Row>| #[trigger]
        before.reads(rows, after) && is_whole(rows, before.wanted@)
}

/// The calls that fill one page, from its start until nothing is left to be read.
pub open spec fn fills(matching: Set<u32>, run: Seq<Page>) -> bool {
    &&& run.len() > 0
    &&& is_fresh(run[0])
    &&& run.last().wanted@.len() == 0
    &&& forall|i: int| 0 < i < run.len() ==> proceeds(matching, run[i - 1], #[trigger] run[i])
}

/// The page holds, or is about to read, every match above its position, and nothing else.
pub open spec fn covers(page: Page, matching: Set<u32>) -> bool {
    forall|uid: u32|
        (#[trigger] uids(page.messages@).contains(uid) || page.wanted@.contains(uid)) == (
        matching.contains(uid) && page.position.next_uid < uid <= page.top)
}

proof fn reading_loses_nothing(before: Page, rows: Seq<Row>, after: Page)
    requires
        before.reads(rows, after),
        is_whole(rows, before.wanted@),
    ensures
        forall|uid: u32| #[trigger]
            uids(after.messages@).contains(uid) == (uids(before.messages@).contains(uid)
                || before.wanted@.contains(uid)),
{
    let earlier = before.messages@.len() as int;
    let added = after.messages@.skip(earlier);
    let read = messages_of(rows);
    assert forall|uid: u32| #[trigger] uids(after.messages@).contains(uid) == (uids(
        before.messages@,
    ).contains(uid) || before.wanted@.contains(uid)) by {
        if uids(after.messages@).contains(uid) {
            let k = choose|k: int| 0 <= k < after.messages@.len() && uids(after.messages@)[k] == uid;
            if k < earlier {
                assert(after.messages@.take(earlier)[k] == before.messages@[k]);
                assert(uids(before.messages@)[k] == uid);
            } else {
                let message = added[k - earlier];
                assert(message == after.messages@[k]);
                assert(added.contains(message));
                vstd::seq_lib::to_multiset_contains(added, message);
                vstd::seq_lib::to_multiset_contains(read, message);
                let i = choose|i: int| 0 <= i < read.len() && read[i] == message;
                assert(before.wanted@.contains(rows[i].message.uid));
            }
        }
        if uids(before.messages@).contains(uid) {
            let k = choose|k: int|
                0 <= k < before.messages@.len() && uids(before.messages@)[k] == uid;
            assert(after.messages@.take(earlier)[k] == before.messages@[k]);
            assert(uids(after.messages@)[k] == uid);
        }
        if before.wanted@.contains(uid) {
            let i = choose|i: int| 0 <= i < rows.len() && (#[trigger] rows[i]).message.uid == uid;
            let message = read[i];
            assert(read.contains(message));
            vstd::seq_lib::to_multiset_contains(read, message);
            vstd::seq_lib::to_multiset_contains(added, message);
            let k = choose|k: int| 0 <= k < added.len() && added[k] == message;
            assert(after.messages@[earlier + k] == message);
            assert(uids(after.messages@)[earlier + k] == uid);
        }
    }
}

proof fn each_call_covers(matching: Set<u32>, before: Page, after: Page)
    requires
        proceeds(matching, before, after),
        covers(before, matching),
        before.position.next_uid <= before.top,
        before.window >= 1,
    ensures
        covers(after, matching),
        after.position.next_uid <= before.position.next_uid,
        after.top == before.top,
        after.window == before.window,
{
    if !before.done() && after == (Page { windows: (before.windows - 1) as usize, ..before }) {
    } else if before.wanted@.len() == 0 && before.position.next_uid > 0 && before.messages@.len()
        < before.limit && exists|found: Seq<u32>| #[trigger]
        before.takes(found, after) && is_exact(
            found,
            matching,
            before.window_start(),
            before.position.next_uid,
        ) {
        let found = choose|found: Seq<u32>| #[trigger]
            before.takes(found, after) && is_exact(
                found,
                matching,
                before.window_start(),
                before.position.next_uid,
            );
        let next = after.position.next_uid;
        if after.wanted@.len() > 0 {
            assert(after.wanted@.contains(after.wanted@.last()));
        }
        assert forall|uid: u32| (#[trigger] uids(after.messages@).contains(uid)
            || after.wanted@.contains(uid)) == (matching.contains(uid) && next < uid <= after.top) by {
            assert(after.wanted@.contains(uid) == (found.contains(uid) && uid > next));
            assert(uids(before.messages@).contains(uid) == uids(after.messages@).contains(uid));
            assert(!before.wanted@.contains(uid));
        }
    } else {
        let rows = choose|rows: Seq<Row>| #[trigger]
            before.reads(rows, after) && is_whole(rows, before.wanted@);
        reading_loses_nothing(before, rows, after);
        assert forall|uid: u32| (#[trigger] uids(after.messages@).contains(uid)
            || after.wanted@.contains(uid)) == (matching.contains(uid) && after.position.next_uid
            < uid <= after.top) by {
            assert(uids(before.messages@).contains(uid) || before.wanted@.contains(uid)
                || !uids(after.messages@).contains(uid));
            assert(!after.wanted@.contains(uid));
        }
    }
}

proof fn covered_so_far(matching: Set<u32>, run: Seq<Page>, i: int)
    requires
        fills(matching, run),
        run[0].window >= 1,
        0 <= i < run.len(),
    ensures
        covers(run[i], matching),
        run[i].position.next_uid <= run[i].top,
        run[i].top == run[0].position.next_uid,
        run[i].window == run[0].window,
    decreases i,
{
    if i == 0 {
        assert forall|uid: u32| (#[trigger] uids(run[0].messages@).contains(uid)
            || run[0].wanted@.contains(uid)) == (matching.contains(uid)
            && run[0].position.next_uid < uid <= run[0].top) by {}
    } else {
        covered_so_far(matching, run, i - 1);
        assert(proceeds(matching, run[i - 1], run[i]));
        each_call_covers(matching, run[i - 1], run[i]);
    }
}

/// A page holds exactly the messages that match between its last position and its first.
pub proof fn pages_hold_every_match(matching: Set<u32>, run: Seq<Page>)
    requires
        fills(matching, run),
        run[0].window >= 1,
    ensures
        forall|uid: u32| #[trigger]
            uids(run.last().messages@).contains(uid) == (matching.contains(uid)
                && run.last().position.next_uid < uid <= run[0].position.next_uid),
        run.last().position.next_uid <= run[0].position.next_uid,
{
    covered_so_far(matching, run, run.len() - 1);
    assert forall|uid: u32| #[trigger] uids(run.last().messages@).contains(uid) == (
    matching.contains(uid) && run.last().position.next_uid < uid <= run[0].position.next_uid) by {
        assert(!run.last().wanted@.contains(uid));
    }
}

/// The messages of the first `count` pages, one page after the other.
pub open spec fn found_by(runs: Seq<Seq<Page>>, count: int) -> Seq<u32>
    decreases count,
{
    if count <= 0 {
        Seq::empty()
    } else {
        found_by(runs, count - 1) + uids(runs[count - 1].last().messages@)
    }
}

/// Pages that follow one another: each is started where the one before it stopped.
pub open spec fn follow(matching: Set<u32>, runs: Seq<Seq<Page>>) -> bool {
    &&& forall|k: int|
        0 <= k < runs.len() ==> {
            &&& fills(matching, #[trigger] runs[k])
            &&& runs[k][0].window >= 1
            &&& runs[k].last().well_formed()
        }
    &&& forall|k: int|
        0 < k < runs.len() ==> (#[trigger] runs[k])[0].position.next_uid
            == runs[k - 1].last().position.next_uid
}

proof fn found_so_far(matching: Set<u32>, runs: Seq<Seq<Page>>, count: int)
    requires
        follow(matching, runs),
        0 < count <= runs.len(),
    ensures
        is_descending(found_by(runs, count)),
        runs[count - 1].last().position.next_uid <= runs[0][0].position.next_uid,
        forall|uid: u32| #[trigger]
            found_by(runs, count).contains(uid) == (matching.contains(uid)
                && runs[count - 1].last().position.next_uid < uid
                <= runs[0][0].position.next_uid),
    decreases count,
{
    let run = runs[count - 1];
    let earlier = found_by(runs, count - 1);
    let later = uids(run.last().messages@);
    let all = found_by(runs, count);
    pages_hold_every_match(matching, run);
    assert(is_descending(later));
    if count == 1 {
        assert(earlier =~= Seq::<u32>::empty());
        assert(all =~= later);
    } else {
        found_so_far(matching, runs, count - 1);
        let border = runs[count - 2].last().position.next_uid;
        assert(run[0].position.next_uid == border);
        assert forall|uid: u32| #[trigger] all.contains(uid) == (earlier.contains(uid)
            || later.contains(uid)) by {
            if earlier.contains(uid) {
                let i = choose|i: int| 0 <= i < earlier.len() && earlier[i] == uid;
                assert(all[i] == uid);
            }
            if later.contains(uid) {
                let i = choose|i: int| 0 <= i < later.len() && later[i] == uid;
                assert(all[earlier.len() + i] == uid);
            }
            if all.contains(uid) {
                let i = choose|i: int| 0 <= i < all.len() && all[i] == uid;
                if i < earlier.len() {
                    assert(earlier[i] == uid);
                } else {
                    assert(later[i - earlier.len()] == uid);
                }
            }
        }
        assert forall|i: int, j: int| 0 <= i < j < all.len() implies #[trigger] all[i]
            > #[trigger] all[j] by {
            if i < earlier.len() {
                assert(earlier.contains(all[i]));
            }
            if j >= earlier.len() {
                assert(later.contains(all[j]));
            }
        }
    }
}

/// A search that is resumed until nothing is left finds every matching message of the mailbox once,
/// the newest first, and no other: given that the mailbox does not change, answers exactly and lets
/// every match be read.
pub proof fn searches_find_every_match(matching: Set<u32>, upper: u32, runs: Seq<Seq<Page>>)
    requires
        runs.len() > 0,
        follow(matching, runs),
        runs[0][0].position.next_uid == upper,
        runs.last().last().position.next_uid == 0,
    ensures
        is_descending(found_by(runs, runs.len() as int)),
        forall|uid: u32| #[trigger]
            found_by(runs, runs.len() as int).contains(uid) == (matching.contains(uid) && 1 <= uid
                <= upper),
{
    found_so_far(matching, runs, runs.len() as int);
}

/// A search is refused for a page that is empty or too large, for a mailbox that cannot be told from its
/// successors, and for a position in an earlier one; every other search is not.
pub proof fn searches_are_refused_for_cause(
    limits: Limits,
    limit: usize,
    validity: u32,
    position: Option<SearchPosition>,
)
    ensures
        refusal(limits, limit, validity, position) is None <==> 1 <= limit <= limits.search_page && validity > 0 && (
        position matches Some(at) ==> at.uid_validity == validity),
        limit == 0 || limit > limits.search_page ==> refusal(limits, limit, validity, position) == Some(
            ErrorCode::InvalidRequest,
        ),
        1 <= limit <= limits.search_page && validity == 0 ==> refusal(limits, limit, validity, position) == Some(
            ErrorCode::ProviderUnavailable,
        ),
        1 <= limit <= limits.search_page && validity > 0 ==> (position matches Some(at) ==> at.uid_validity != validity
            ==> refusal(limits, limit, validity, position) == Some(ErrorCode::StaleCursor)),
{
}

/// A window ends at the next message and holds as many numbers as it may, or all that are left.
pub proof fn windows_are_full(page: Page)
    requires
        page.well_formed(),
        page.position.next_uid > 0,
    ensures
        1 <= page.window_start() <= page.position.next_uid,
        page.position.next_uid - page.window_start() + 1 <= page.window,
        page.window_start() == 1 || page.position.next_uid - page.window_start() + 1 == page.window,
{
}

/// The rows of a page cost what they hold and 1024 bytes each.
pub proof fn rows_cost_what_they_hold(rows: Seq<Row>, row: Row)
    ensures
        cost(Seq::empty()) == 0,
        cost(rows.push(row)) == cost(rows) + row.size + 1024,
{
    assert(rows.push(row).drop_last() =~= rows);
}

} // verus!
