//! Search windows and envelope reads on one exclusive read-only selection.
use vstd::prelude::*;

use super::projection::{fault, holds, is_full, octets, Projection};
use super::types::Item;
use crate::domain::search::{
    flag_name, has_valid_date, have_valid_dates, is_calendar_day, is_earlier, is_met, mentions, named_day,
    searches_for, texts_are_ordered_by_day, Day, SearchCriteria, SearchPredicate, SearchedMessage, StandardFlag,
};
use crate::domain::{Error, ErrorCode};
use crate::order::sort_numbers;
use crate::search::LocatedMessage;
use crate::text::{chars_of, holds_char};

verus! {

/// One condition of a SEARCH command.
#[derive(Debug)]
pub enum SearchKey {
    Since(Day),
    Before(Day),
    SentSince(Day),
    SentBefore(Day),
    From(String),
    To(String),
    Cc(String),
    Bcc(String),
    Subject(String),
    Text(String),
    Answered,
    Deleted,
    Draft,
    Flagged,
    Recent,
    Seen,
    Unanswered,
    Undeleted,
    Undraft,
    Unflagged,
    Old,
    Unseen,
}

/// The key asks for exactly what the predicate states.
pub open spec fn asks_for(key: SearchKey, predicate: SearchPredicate) -> bool {
    match (predicate, key) {
        (SearchPredicate::ReceivedAfter { date }, SearchKey::Since(day)) => named_day(date.text@)
            == Some(day),
        (SearchPredicate::ReceivedBefore { date }, SearchKey::Before(day)) => named_day(date.text@)
            == Some(day),
        (SearchPredicate::SentAfter { date }, SearchKey::SentSince(day)) => named_day(date.text@)
            == Some(day),
        (SearchPredicate::SentBefore { date }, SearchKey::SentBefore(day)) => named_day(date.text@)
            == Some(day),
        (SearchPredicate::From { value }, SearchKey::From(text)) => text@ == value@,
        (SearchPredicate::To { value }, SearchKey::To(text)) => text@ == value@,
        (SearchPredicate::Cc { value }, SearchKey::Cc(text)) => text@ == value@,
        (SearchPredicate::Bcc { value }, SearchKey::Bcc(text)) => text@ == value@,
        (SearchPredicate::Subject { value }, SearchKey::Subject(text)) => text@ == value@,
        (SearchPredicate::Text { value }, SearchKey::Text(text)) => text@ == value@,
        (SearchPredicate::RequiredFlag { flag }, _) => match flag {
            StandardFlag::Answered => key is Answered,
            StandardFlag::Deleted => key is Deleted,
            StandardFlag::Draft => key is Draft,
            StandardFlag::Flagged => key is Flagged,
            StandardFlag::Recent => key is Recent,
            StandardFlag::Seen => key is Seen,
        },
        (SearchPredicate::ForbiddenFlag { flag }, _) => match flag {
            StandardFlag::Answered => key is Unanswered,
            StandardFlag::Deleted => key is Undeleted,
            StandardFlag::Draft => key is Undraft,
            StandardFlag::Flagged => key is Unflagged,
            StandardFlag::Recent => key is Old,
            StandardFlag::Seen => key is Unseen,
        },
        _ => false,
    }
}

/// The text that a predicate searches for.
pub open spec fn sought(predicate: SearchPredicate) -> Option<Seq<char>> {
    match predicate {
        SearchPredicate::From { value }
        | SearchPredicate::To { value }
        | SearchPredicate::Cc { value }
        | SearchPredicate::Bcc { value }
        | SearchPredicate::Subject { value }
        | SearchPredicate::Text { value } => Some(value@),
        _ => None,
    }
}

pub open spec fn is_ascii_text(s: Seq<char>) -> bool {
    forall|i: int| 0 <= i < s.len() ==> (#[trigger] s[i]) as u32 <= 0x7f
}

/// The predicate searches for text that only UTF-8 can spell.
pub open spec fn needs_utf8(predicate: SearchPredicate) -> bool {
    match sought(predicate) {
        Some(text) => !is_ascii_text(text),
        None => false,
    }
}

/// The text of the predicate can stand in a command.
pub open spec fn is_sendable(predicate: SearchPredicate) -> bool {
    match sought(predicate) {
        Some(text) => !text.contains('\0'),
        None => true,
    }
}

pub open spec fn are_sendable(terms: Seq<SearchPredicate>) -> bool {
    forall|i: int| 0 <= i < terms.len() ==> is_sendable(#[trigger] terms[i])
}

fn ascii(text: &str) -> (r: bool)
    ensures
        r == is_ascii_text(text@),
{
    let chars = chars_of(text);
    for i in 0..chars.len()
        invariant
            chars@ == text@,
            forall|j: int| 0 <= j < i ==> (#[trigger] text@[j]) as u32 <= 0x7f,
    {
        if chars[i] as u32 > 0x7f {
            assert(text@[i as int] as u32 > 0x7f);
            return false;
        }
    }
    true
}

fn search_text(value: &String, utf8: &mut bool) -> (r: Result<String, Error>)
    ensures
        *final(utf8) == (*old(utf8) || !is_ascii_text(value@)),
        match r {
            Ok(text) => text@ == value@ && !value@.contains('\0'),
            Err(error) => error.reports(ErrorCode::InvalidRequest) && value@.contains('\0'),
        },
{
    let plain = ascii(value.as_str());
    *utf8 = *utf8 || !plain;
    if holds_char(value.as_str(), '\0') {
        return Err(Error::new(ErrorCode::InvalidRequest));
    }
    Ok(value.clone())
}

/// The key for a predicate; notes whether the command has to be in UTF-8.
pub fn search_key(predicate: &SearchPredicate, utf8: &mut bool) -> (r: Result<SearchKey, Error>)
    requires
        has_valid_date(*predicate),
    ensures
        *final(utf8) == (*old(utf8) || needs_utf8(*predicate)),
        match r {
            Ok(key) => is_sendable(*predicate) && asks_for(key, *predicate),
            Err(error) => error.reports(ErrorCode::InvalidRequest) && !is_sendable(*predicate),
        },
{
    match predicate {
        SearchPredicate::ReceivedAfter { date } => Ok(SearchKey::Since(date.date())),
        SearchPredicate::ReceivedBefore { date } => Ok(SearchKey::Before(date.date())),
        SearchPredicate::SentAfter { date } => Ok(SearchKey::SentSince(date.date())),
        SearchPredicate::SentBefore { date } => Ok(SearchKey::SentBefore(date.date())),
        SearchPredicate::From { value } => match search_text(value, utf8) {
            Ok(text) => Ok(SearchKey::From(text)),
            Err(error) => Err(error),
        },
        SearchPredicate::To { value } => match search_text(value, utf8) {
            Ok(text) => Ok(SearchKey::To(text)),
            Err(error) => Err(error),
        },
        SearchPredicate::Cc { value } => match search_text(value, utf8) {
            Ok(text) => Ok(SearchKey::Cc(text)),
            Err(error) => Err(error),
        },
        SearchPredicate::Bcc { value } => match search_text(value, utf8) {
            Ok(text) => Ok(SearchKey::Bcc(text)),
            Err(error) => Err(error),
        },
        SearchPredicate::Subject { value } => match search_text(value, utf8) {
            Ok(text) => Ok(SearchKey::Subject(text)),
            Err(error) => Err(error),
        },
        SearchPredicate::Text { value } => match search_text(value, utf8) {
            Ok(text) => Ok(SearchKey::Text(text)),
            Err(error) => Err(error),
        },
        SearchPredicate::RequiredFlag { flag } => Ok(
            match flag {
                StandardFlag::Answered => SearchKey::Answered,
                StandardFlag::Deleted => SearchKey::Deleted,
                StandardFlag::Draft => SearchKey::Draft,
                StandardFlag::Flagged => SearchKey::Flagged,
                StandardFlag::Recent => SearchKey::Recent,
                StandardFlag::Seen => SearchKey::Seen,
            },
        ),
        SearchPredicate::ForbiddenFlag { flag } => Ok(
            match flag {
                StandardFlag::Answered => SearchKey::Unanswered,
                StandardFlag::Deleted => SearchKey::Undeleted,
                StandardFlag::Draft => SearchKey::Undraft,
                StandardFlag::Flagged => SearchKey::Unflagged,
                StandardFlag::Recent => SearchKey::Old,
                StandardFlag::Seen => SearchKey::Unseen,
            },
        ),
    }
}

/// A SEARCH command over a range of UIDs.
#[derive(Debug)]
pub struct Query {
    pub first: u32,
    pub last: u32,
    pub keys: Vec<SearchKey>,
    pub utf8: bool,
}

pub open spec fn some_needs_utf8(terms: Seq<SearchPredicate>) -> bool {
    exists|i: int| 0 <= i < terms.len() && needs_utf8(#[trigger] terms[i])
}

/// The command for one window: every predicate becomes one key.
pub fn query(first: u32, last: u32, criteria: &SearchCriteria) -> (r: Result<Query, Error>)
    requires
        have_valid_dates(criteria.terms@),
    ensures
        match r {
            Ok(query) => {
                &&& first > 0 && last > 0
                &&& are_sendable(criteria.terms@)
                &&& query.first == first
                &&& query.last == last
                &&& query.keys@.len() == criteria.terms@.len()
                &&& forall|i: int|
                    0 <= i < query.keys@.len() ==> asks_for(
                        #[trigger] query.keys@[i],
                        criteria.terms@[i],
                    )
                &&& query.utf8 == some_needs_utf8(criteria.terms@)
            },
            Err(error) => error.reports(ErrorCode::InvalidRequest) && (first == 0 || last == 0
                || !are_sendable(criteria.terms@)),
        },
{
    if first == 0 || last == 0 {
        return Err(Error::new(ErrorCode::InvalidRequest));
    }
    let mut keys: Vec<SearchKey> = Vec::new();
    let mut utf8 = false;
    let terms = criteria.predicates();
    for i in 0..terms.len()
        invariant
            first > 0,
            last > 0,
            terms@ == criteria.terms@,
            have_valid_dates(terms@),
            keys@.len() == i,
            forall|k: int| 0 <= k < i ==> asks_for(#[trigger] keys@[k], terms@[k]),
            forall|k: int| 0 <= k < i ==> is_sendable(#[trigger] terms@[k]),
            utf8 == (exists|k: int| 0 <= k < i && needs_utf8(#[trigger] terms@[k])),
    {
        let ghost before = utf8;
        match search_key(&terms[i], &mut utf8) {
            Ok(key) => {
                keys.push(key);
            },
            Err(error) => {
                assert(!is_sendable(terms@[i as int]));
                return Err(error);
            },
        }
        proof {
            if needs_utf8(terms@[i as int]) {
                assert(exists|k: int| 0 <= k < i + 1 && needs_utf8(#[trigger] terms@[k]));
            } else if before {
                let k = choose|k: int| 0 <= k < i && needs_utf8(#[trigger] terms@[k]);
                assert(0 <= k < i + 1 && needs_utf8(terms@[k]));
            }
        }
    }
    Ok(Query { first, last, keys, utf8 })
}

/// The greatest UID of the mailbox, from the UID that comes next or from a search for the last one.
pub fn upper_uid(uid_next: Option<u32>, found: &Vec<u32>) -> (r: Result<u32, Error>)
    requires
        uid_next matches Some(next) ==> next > 0,
    ensures
        match uid_next {
            Some(next) => r == Ok::<u32, Error>((next - 1) as u32),
            None => match r {
                Ok(upper) => found@.len() <= 1 && upper == (if found@.len() == 1 {
                    found@[0]
                } else {
                    0
                }),
                Err(error) => error.reports(ErrorCode::ProviderUnavailable) && found@.len() > 1,
            },
        },
{
    if let Some(next) = uid_next {
        return Ok(next - 1);
    }
    if found.len() > 1 {
        return Err(Error::new(ErrorCode::ProviderUnavailable));
    }
    if found.len() == 1 {
        Ok(found[0])
    } else {
        Ok(0)
    }
}

/// The UIDs of a FETCH command in ascending order.
pub fn fetch_order(uids: &Vec<u32>) -> (r: Result<Vec<u32>, Error>)
    ensures
        match r {
            Ok(list) => {
                &&& !uids@.contains(0)
                &&& list@.to_multiset() == uids@.to_multiset()
                &&& forall|i: int, j: int|
                    0 <= i < j < list@.len() ==> #[trigger] list@[i] <= #[trigger] list@[j]
            },
            Err(error) => error.reports(ErrorCode::InvalidRequest) && uids@.contains(0),
        },
{
    for i in 0..uids.len()
        invariant
            forall|j: int| 0 <= j < i ==> uids@[j] != 0,
    {
        if uids[i] == 0 {
            assert(uids@[i as int] == 0);
            return Err(Error::new(ErrorCode::InvalidRequest));
        }
    }
    let mut list = uids.clone();
    assert(list@ =~= uids@);
    sort_numbers(&mut list);
    Ok(list)
}

/// No field that states when a message was sent is longer than any response can be.
pub open spec fn have_short_dates(items: Seq<Item>) -> bool {
    forall|i: int|
        0 <= i < items.len() ==> ((#[trigger] items[i]) matches Item::Envelope(envelope) ==> octets(
            envelope.date,
        ) <= 0x7fff_ffff)
}

/// The message that a row of the answer describes.
pub fn row(items: Vec<Item>) -> (r: Result<LocatedMessage, Error>)
    requires
        have_short_dates(items@),
    ensures
        match fault(items@) {
            Some(fault) => r matches Err(error) && error.reports(fault.reported()),
            None => if !is_full(items@) {
                r matches Err(error) && error.reports(ErrorCode::ProviderUnavailable)
            } else {
                &&& r matches Ok(message)
                &&& exists|row: Projection| #[trigger] row.taken_from(items@) && row.tells(message)
            },
        },
{
    match Projection::parse(items) {
        Ok(row) => {
            assert(row.taken_from(items@));
            assert(holds(items@, Item::Envelope(row.envelope)));
            Ok(row.message())
        },
        Err(error) => Err(error.report()),
    }
}

/// What a server finds by the key: a day stands among those since itself, and a key that names a flag
/// finds the messages that have it or, in its negative form, those that do not.
pub open spec fn is_found(key: SearchKey, message: SearchedMessage) -> bool {
    match key {
        SearchKey::Since(day) => !is_earlier(message.received, day),
        SearchKey::Before(day) => is_earlier(message.received, day),
        SearchKey::SentSince(day) => !is_earlier(message.sent, day),
        SearchKey::SentBefore(day) => is_earlier(message.sent, day),
        SearchKey::From(words) => mentions(message.from, words@),
        SearchKey::To(words) => mentions(message.to, words@),
        SearchKey::Cc(words) => mentions(message.cc, words@),
        SearchKey::Bcc(words) => mentions(message.bcc, words@),
        SearchKey::Subject(words) => mentions(message.subject, words@),
        SearchKey::Text(words) => mentions(message.text, words@),
        SearchKey::Answered => message.flags.contains("\\Answered"@),
        SearchKey::Deleted => message.flags.contains("\\Deleted"@),
        SearchKey::Draft => message.flags.contains("\\Draft"@),
        SearchKey::Flagged => message.flags.contains("\\Flagged"@),
        SearchKey::Recent => message.flags.contains("\\Recent"@),
        SearchKey::Seen => message.flags.contains("\\Seen"@),
        SearchKey::Unanswered => !message.flags.contains("\\Answered"@),
        SearchKey::Undeleted => !message.flags.contains("\\Deleted"@),
        SearchKey::Undraft => !message.flags.contains("\\Draft"@),
        SearchKey::Unflagged => !message.flags.contains("\\Flagged"@),
        SearchKey::Old => !message.flags.contains("\\Recent"@),
        SearchKey::Unseen => !message.flags.contains("\\Seen"@),
    }
}

/// The key of a predicate finds exactly the messages that meet the predicate.
pub proof fn keys_find_what_predicates_ask_for(
    key: SearchKey,
    predicate: SearchPredicate,
    message: SearchedMessage,
)
    requires
        asks_for(key, predicate),
        has_valid_date(predicate),
        is_calendar_day(message.received),
        is_calendar_day(message.sent),
    ensures
        is_found(key, message) == is_met(predicate, message),
{
    match key {
        SearchKey::Since(day) | SearchKey::Before(day) => {
            texts_are_ordered_by_day(message.received, day);
        },
        SearchKey::SentSince(day) | SearchKey::SentBefore(day) => {
            texts_are_ordered_by_day(message.sent, day);
        },
        _ => {},
    }
}

/// No message is found both by the key of a flag that must be set and by that of the same flag that must
/// not be.
pub proof fn flags_are_set_or_not(
    flag: StandardFlag,
    required: SearchKey,
    forbidden: SearchKey,
    message: SearchedMessage,
)
    requires
        asks_for(required, SearchPredicate::RequiredFlag { flag }),
        asks_for(forbidden, SearchPredicate::ForbiddenFlag { flag }),
    ensures
        is_found(required, message) == !is_found(forbidden, message),
        is_found(required, message) == message.flags.contains(flag_name(flag)),
{
}

/// A search by the keys of a list of predicates finds the messages that meet all of them.
pub proof fn queries_find_what_criteria_ask_for(
    keys: Seq<SearchKey>,
    terms: Seq<SearchPredicate>,
    message: SearchedMessage,
)
    requires
        keys.len() == terms.len(),
        forall|i: int| 0 <= i < keys.len() ==> asks_for(#[trigger] keys[i], terms[i]),
        have_valid_dates(terms),
        is_calendar_day(message.received),
        is_calendar_day(message.sent),
    ensures
        (forall|i: int| 0 <= i < keys.len() ==> is_found(#[trigger] keys[i], message)) == (forall|i: int|
            0 <= i < terms.len() ==> is_met(#[trigger] terms[i], message)),
{
    assert forall|i: int| 0 <= i < keys.len() implies is_found(#[trigger] keys[i], message) == is_met(
        terms[i],
        message,
    ) by {
        keys_find_what_predicates_ask_for(keys[i], terms[i], message);
    }
    if forall|i: int| 0 <= i < keys.len() ==> is_found(#[trigger] keys[i], message) {
        assert forall|i: int| 0 <= i < terms.len() implies is_met(#[trigger] terms[i], message) by {
            assert(is_found(keys[i], message));
        }
    }
}

/// A command is in UTF-8 exactly where some text that is searched for, in any field, has a character
/// beyond ASCII, and a text with a NUL cannot be sent.
pub proof fn texts_decide_the_charset(predicate: SearchPredicate, value: String)
    requires
        searches_for(predicate, value),
    ensures
        needs_utf8(predicate) == (exists|i: int| 0 <= i < value@.len() && (#[trigger] value@[i]) as u32 >= 0x80),
        is_sendable(predicate) == (forall|i: int| 0 <= i < value@.len() ==> #[trigger] value@[i] != '\0'),
{
    if value@.contains('\0') {
        let i = choose|i: int| 0 <= i < value@.len() && value@[i] == '\0';
        assert(value@[i] == '\0');
    }
}

/// The mailbox ends before the message that comes next; where the server does not say which that is, it
/// ends at the one message that a search for the last one finds, and is empty where it finds none.
pub proof fn mailboxes_end_before_the_next(uid_next: Option<u32>, found: Vec<u32>, r: Result<u32, Error>)
    requires
        uid_next matches Some(next) ==> next > 0,
        call_ensures(upper_uid, (uid_next, &found), r),
    ensures
        uid_next matches Some(next) ==> (r matches Ok(upper) && upper + 1 == next),
        uid_next is None && found@.len() == 0 ==> r == Ok::<u32, Error>(0),
        uid_next is None && found@.len() == 1 ==> r == Ok::<u32, Error>(found@[0]),
        uid_next is None && found@.len() > 1 ==> r is Err,
{
}

/// The messages that are asked for are those that were wanted, each as often, from the lowest on; a zero
/// among them is refused.
pub proof fn messages_are_asked_for_in_order(uids: Vec<u32>, r: Result<Vec<u32>, Error>, i: int)
    requires
        call_ensures(fetch_order, (&uids,), r),
    ensures
        uids@.contains(0) <==> r is Err,
        r matches Ok(list) ==> list@.len() == uids@.len() && (0 < i < list@.len() ==> list@[i - 1] <= list@[i]),
{
    if let Ok(list) = r {
        list@.to_multiset_ensures();
        uids@.to_multiset_ensures();
    }
}

/// The command that is sent for criteria finds the messages that meet all of them: where it can be sent at
/// all, it covers the range that was asked for, and a message is found by all of its keys exactly where it
/// meets all of the criteria.
pub proof fn commands_find_what_criteria_ask_for(
    first: u32,
    last: u32,
    criteria: SearchCriteria,
    r: Result<Query, Error>,
    message: SearchedMessage,
)
    requires
        have_valid_dates(criteria.terms@),
        call_ensures(query, (first, last, &criteria), r),
        is_calendar_day(message.received),
        is_calendar_day(message.sent),
    ensures
        r matches Ok(sent) ==> {
            &&& sent.first == first && sent.last == last && first > 0 && last > 0
            &&& (forall|i: int| 0 <= i < sent.keys@.len() ==> is_found(#[trigger] sent.keys@[i], message)) == (forall|
                i: int,
            | 0 <= i < criteria.terms@.len() ==> is_met(#[trigger] criteria.terms@[i], message))
        },
        first == 0 || last == 0 ==> r is Err,
        r matches Err(error) ==> error.code is InvalidRequest,
{
    if let Ok(sent) = r {
        queries_find_what_criteria_ask_for(sent.keys@, criteria.terms@, message);
    }
}

} // verus!
