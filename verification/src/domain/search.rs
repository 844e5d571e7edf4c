//! Typed AND-only search criteria and their canonical representation.
use chrono::Datelike;
use vstd::prelude::*;

use super::{Error, ErrorCode};
use crate::order::{
    comes_before, order_is_irreflexive, order_is_total, order_is_transitive, precedes,
};
use crate::text::{byte_len, decimal_digit, holds_char, lowered_text, same, utf8_len};

verus! {

#[derive(Debug)]
pub struct SearchMessagesInput {
    /// A mailbox reference returned by discovery in this installation.
    pub mailbox: String,
    pub criteria: SearchCriteria,
    pub limit: Option<usize>,
    pub cursor: Option<String>,
}

/// The text has between `min` and `max` bytes.
pub open spec fn is_bounded_text(text: Seq<char>, min: nat, max: nat) -> bool {
    min <= utf8_len(text) <= max
}

/// Whether the text has between `min` and `max` bytes.
pub fn bounded_text(text: &str, min: usize, max: usize) -> (r: bool)
    ensures
        r == is_bounded_text(text@, min as nat, max as nat),
{
    let length: usize = byte_len(text);
    min <= length && length <= max
}

/// The number of messages that a caller may ask for at once.
pub open spec fn is_page_limit(limit: Option<usize>) -> bool {
    limit matches Some(limit) ==> 1 <= limit <= 200
}

pub fn page_limit(limit: Option<usize>) -> (r: bool)
    ensures
        r == is_page_limit(limit),
{
    match limit {
        Some(limit) => 1 <= limit && limit <= 200,
        None => true,
    }
}

impl SearchMessagesInput {
    /// The references and the page size are within their bounds.
    pub open spec fn bounded(self) -> bool {
        &&& is_bounded_text(self.mailbox@, 1, 8192)
        &&& self.cursor matches Some(cursor) ==> is_bounded_text(cursor@, 1, 8192)
        &&& is_page_limit(self.limit)
    }

    pub fn is_bounded(&self) -> (r: bool)
        ensures
            r == self.bounded(),
    {
        bounded_text(self.mailbox.as_str(), 1, 8192) && page_limit(self.limit)
            && match &self.cursor {
            Some(cursor) => bounded_text(cursor.as_str(), 1, 8192),
            None => true,
        }
    }
}

/// A calendar day as year, month and day.
pub type Day = (i32, u32, u32);

/// The day that a text names in the form year, month and day with hyphens between them.
pub uninterp spec fn named_day(text: Seq<char>) -> Option<Day>;

/// `chrono::NaiveDate::parse_from_str` with the format `%Y-%m-%d`. The contract names the day that is
/// read; it exists, so its month and day are within those of the calendar.
#[verifier::external_body]
fn parse_day(text: &str) -> (r: Option<Day>)
    ensures
        r == named_day(text@),
        r matches Some((_, month, day)) ==> 1 <= month <= 12 && 1 <= day <= 31,
{
    let date = chrono::NaiveDate::parse_from_str(text, "%Y-%m-%d").ok()?;
    Some((date.year(), date.month(), date.day()))
}

/// The digit of a number at a power of ten.
pub open spec fn digit_at(value: int, power: int) -> char {
    decimal_digit(((value / power) % 10) as nat)
}

/// A day of the first ten thousand years in ten characters.
pub open spec fn iso_text(day: Day) -> Seq<char> {
    let (y, m, d) = (day.0 as int, day.1 as int, day.2 as int);
    seq![
        digit_at(y, 1000),
        digit_at(y, 100),
        digit_at(y, 10),
        digit_at(y, 1),
        '-',
        digit_at(m, 10),
        digit_at(m, 1),
        '-',
        digit_at(d, 10),
        digit_at(d, 1),
    ]
}

fn digit_char(value: u32) -> (r: char)
    ensures
        r == decimal_digit((value % 10) as nat),
{
    let digit: u8 = (value % 10) as u8;
    (0x30 + digit) as char
}

fn iso_day(day: Day) -> (r: String)
    requires
        1 <= day.0 <= 9999,
        day.1 <= 12,
        day.2 <= 31,
    ensures
        r@ == iso_text(day),
{
    let year: u32 = day.0 as u32;
    let mut text = String::new();
    text.push(digit_char(year / 1000));
    text.push(digit_char(year / 100));
    text.push(digit_char(year / 10));
    text.push(digit_char(year));
    text.push('-');
    text.push(digit_char(day.1 / 10));
    text.push(digit_char(day.1));
    text.push('-');
    text.push(digit_char(day.2 / 10));
    text.push(digit_char(day.2));
    assert(text@ =~= iso_text(day));
    text
}

/// A day in its canonical form.
#[derive(Debug, PartialEq, Eq)]
pub struct SearchDate {
    pub text: String,
}

/// The text is the canonical form of a day of the years one to 9999.
pub open spec fn is_search_date(text: Seq<char>) -> bool {
    named_day(text) matches Some(day) && 1 <= day.0 <= 9999 && 1 <= day.1 <= 12 && 1 <= day.2 <= 31
        && text == iso_text(day)
}

impl SearchDate {
    pub open spec fn valid(self) -> bool {
        is_search_date(self.text@)
    }

    pub fn as_str(&self) -> (r: &str)
        ensures
            r@ == self.text@,
    {
        self.text.as_str()
    }

    /// The day, as year, month and day.
    pub fn date(&self) -> (r: Day)
        requires
            self.valid(),
        ensures
            named_day(self.text@) == Some(r),
            self.text@ == iso_text(r),
    {
        match parse_day(self.text.as_str()) {
            Some(day) => day,
            None => (1, 1, 1),
        }
    }

    pub fn try_from(value: String) -> (r: Result<Self, Error>)
        ensures
            match r {
                Ok(date) => date.valid() && date.text@ == value@,
                Err(error) => error.reports(ErrorCode::InvalidRequest) && !is_search_date(value@),
            },
    {
        match parse_day(value.as_str()) {
            None => Err(Error::new(ErrorCode::InvalidRequest)),
            Some(day) => SearchDate::canonical(value, day),
        }
    }

    /// Accepts the text where it is the canonical form of the day that it names.
    pub fn canonical(value: String, day: Day) -> (r: Result<Self, Error>)
        requires
            1 <= day.1 <= 12,
            1 <= day.2 <= 31,
        ensures
            match r {
                Ok(date) => date.text@ == value@ && 1 <= day.0 <= 9999 && value@ == iso_text(day),
                Err(error) => error.reports(ErrorCode::InvalidRequest) && !(1 <= day.0 <= 9999
                    && value@ == iso_text(day)),
            },
    {
        if day.0 < 1 || day.0 > 9999 {
            return Err(Error::new(ErrorCode::InvalidRequest));
        }
        let text = iso_day(day);
        if !same(text.as_str(), value.as_str()) {
            return Err(Error::new(ErrorCode::InvalidRequest));
        }
        Ok(SearchDate { text: value })
    }
}

/// `a` is an earlier day than `b`.
pub open spec fn is_earlier(a: Day, b: Day) -> bool {
    a.0 < b.0 || (a.0 == b.0 && (a.1 < b.1 || (a.1 == b.1 && a.2 < b.2)))
}

/// The canonical texts of two days are ordered as the days are, so dates are compared by their texts.
#[verifier::spinoff_prover]
#[verifier::rlimit(40)]
pub proof fn texts_are_ordered_by_day(a: Day, b: Day)
    requires
        1 <= a.0 <= 9999 && 1 <= a.1 <= 12 && 1 <= a.2 <= 31,
        1 <= b.0 <= 9999 && 1 <= b.1 <= 12 && 1 <= b.2 <= 31,
    ensures
        precedes(iso_text(a), iso_text(b)) == is_earlier(a, b),
        (iso_text(a) == iso_text(b)) == (a == b),
{
    let s = iso_text(a);
    let t = iso_text(b);
    assert(s.skip(0) =~= s && t.skip(0) =~= t);
    skip_step(s, t, 0);
    skip_step(s, t, 1);
    skip_step(s, t, 2);
    skip_step(s, t, 3);
    skip_step(s, t, 4);
    skip_step(s, t, 5);
    skip_step(s, t, 6);
    skip_step(s, t, 7);
    skip_step(s, t, 8);
    skip_step(s, t, 9);
    assert(!precedes(s.skip(10), t.skip(10)));
    four_digits(a.0 as int, b.0 as int);
    four_digits(a.1 as int, b.1 as int);
    four_digits(a.2 as int, b.2 as int);
    if s == t {
        assert(s[0] == t[0] && s[1] == t[1] && s[2] == t[2] && s[3] == t[3] && s[5] == t[5] && s[6]
            == t[6] && s[8] == t[8] && s[9] == t[9]);
    }
}

/// The first digit that differs decides which of two numbers is smaller.
proof fn four_digits(x: int, y: int)
    requires
        0 <= x <= 9999,
        0 <= y <= 9999,
    ensures
        (x < y) == (if digit_at(x, 1000) != digit_at(y, 1000) {
            digit_at(x, 1000) < digit_at(y, 1000)
        } else if digit_at(x, 100) != digit_at(y, 100) {
            digit_at(x, 100) < digit_at(y, 100)
        } else if digit_at(x, 10) != digit_at(y, 10) {
            digit_at(x, 10) < digit_at(y, 10)
        } else {
            digit_at(x, 1) < digit_at(y, 1)
        }),
        (x == y) == (digit_at(x, 1000) == digit_at(y, 1000) && digit_at(x, 100) == digit_at(y, 100)
            && digit_at(x, 10) == digit_at(y, 10) && digit_at(x, 1) == digit_at(y, 1)),
        x < 100 ==> digit_at(x, 1000) == '0' && digit_at(x, 100) == '0',
        y < 100 ==> digit_at(y, 1000) == '0' && digit_at(y, 100) == '0',
{
    digits_of(x);
    digits_of(y);
}

#[verifier::spinoff_prover]
proof fn digits_of(x: int)
    requires
        0 <= x <= 9999,
    ensures
        x == 1000 * ((x / 1000) % 10) + 100 * ((x / 100) % 10) + 10 * ((x / 10) % 10) + (x / 1)
            % 10,
        digit_at(x, 1000) as u32 == 0x30 + (x / 1000) % 10,
        digit_at(x, 100) as u32 == 0x30 + (x / 100) % 10,
        digit_at(x, 10) as u32 == 0x30 + (x / 10) % 10,
        digit_at(x, 1) as u32 == 0x30 + (x / 1) % 10,
{
    let tens = x / 10;
    let hundreds = tens / 10;
    assert(x / 100 == hundreds);
    assert(x / 1000 == hundreds / 10);
    assert(x / 1 == x);
    assert(x == 10 * tens + x % 10);
    assert(tens == 10 * hundreds + tens % 10);
    assert(hundreds == 10 * (hundreds / 10) + hundreds % 10);
    assert((hundreds / 10) % 10 == hundreds / 10);
}

proof fn skip_step(s: Seq<char>, t: Seq<char>, i: int)
    requires
        0 <= i < s.len(),
        s.len() == t.len(),
    ensures
        precedes(s.skip(i), t.skip(i)) == (if s[i] == t[i] {
            precedes(s.skip(i + 1), t.skip(i + 1))
        } else {
            s[i] < t[i]
        }),
{
    assert(s.skip(i).drop_first() =~= s.skip(i + 1));
    assert(t.skip(i).drop_first() =~= t.skip(i + 1));
}

#[derive(Clone, Copy, Debug, PartialEq, Eq, Structural)]
pub enum StandardFlag {
    Answered,
    Deleted,
    Draft,
    Flagged,
    Recent,
    Seen,
}

impl StandardFlag {
    pub fn imap_name(self) -> (r: &'static str)
        ensures
            r@ == (match self {
                StandardFlag::Answered => "\\Answered"@,
                StandardFlag::Deleted => "\\Deleted"@,
                StandardFlag::Draft => "\\Draft"@,
                StandardFlag::Flagged => "\\Flagged"@,
                StandardFlag::Recent => "\\Recent"@,
                StandardFlag::Seen => "\\Seen"@,
            }),
    {
        match self {
            StandardFlag::Answered => "\\Answered",
            StandardFlag::Deleted => "\\Deleted",
            StandardFlag::Draft => "\\Draft",
            StandardFlag::Flagged => "\\Flagged",
            StandardFlag::Recent => "\\Recent",
            StandardFlag::Seen => "\\Seen",
        }
    }

    /// The place of the flag in the canonical order.
    pub open spec fn rank(self) -> int {
        match self {
            StandardFlag::Answered => 0,
            StandardFlag::Deleted => 1,
            StandardFlag::Draft => 2,
            StandardFlag::Flagged => 3,
            StandardFlag::Recent => 4,
            StandardFlag::Seen => 5,
        }
    }

    fn place(self) -> (r: u8)
        ensures
            r == self.rank(),
    {
        match self {
            StandardFlag::Answered => 0,
            StandardFlag::Deleted => 1,
            StandardFlag::Draft => 2,
            StandardFlag::Flagged => 3,
            StandardFlag::Recent => 4,
            StandardFlag::Seen => 5,
        }
    }
}

#[derive(Debug, PartialEq, Eq)]
pub enum SearchPredicate {
    ReceivedAfter { date: SearchDate },
    ReceivedBefore { date: SearchDate },
    SentAfter { date: SearchDate },
    SentBefore { date: SearchDate },
    From { value: String },
    To { value: String },
    Cc { value: String },
    Bcc { value: String },
    Subject { value: String },
    Text { value: String },
    RequiredFlag { flag: StandardFlag },
    ForbiddenFlag { flag: StandardFlag },
}

/// A search text of at most 4096 bytes without NUL.
pub open spec fn is_search_text(value: Seq<char>) -> bool {
    utf8_len(value) <= 4096 && !value.contains('\0')
}

pub fn search_text(value: &str) -> (r: bool)
    ensures
        r == is_search_text(value@),
{
    byte_len(value) <= 4096 && !holds_char(value, '\0')
}

impl SearchPredicate {
    /// The place of the field in the canonical order.
    pub open spec fn rank(self) -> int {
        match self {
            SearchPredicate::ReceivedAfter { .. } => 0,
            SearchPredicate::ReceivedBefore { .. } => 1,
            SearchPredicate::SentAfter { .. } => 2,
            SearchPredicate::SentBefore { .. } => 3,
            SearchPredicate::From { .. } => 4,
            SearchPredicate::To { .. } => 5,
            SearchPredicate::Cc { .. } => 6,
            SearchPredicate::Bcc { .. } => 7,
            SearchPredicate::Subject { .. } => 8,
            SearchPredicate::Text { .. } => 9,
            SearchPredicate::RequiredFlag { .. } => 10,
            SearchPredicate::ForbiddenFlag { .. } => 11,
        }
    }

    /// What the field is compared with.
    pub open spec fn operand(self) -> Seq<char> {
        match self {
            SearchPredicate::ReceivedAfter { date }
            | SearchPredicate::ReceivedBefore { date }
            | SearchPredicate::SentAfter { date }
            | SearchPredicate::SentBefore { date } => date.text@,
            SearchPredicate::From { value }
            | SearchPredicate::To { value }
            | SearchPredicate::Cc { value }
            | SearchPredicate::Bcc { value }
            | SearchPredicate::Subject { value }
            | SearchPredicate::Text { value } => value@,
            SearchPredicate::RequiredFlag { flag } | SearchPredicate::ForbiddenFlag { flag } =>
                seq![flag.rank() as char],
        }
    }

    /// The predicate comes before `other` in the canonical order.
    pub open spec fn before(self, other: SearchPredicate) -> bool {
        self.rank() < other.rank() || (self.rank() == other.rank() && precedes(
            self.operand(),
            other.operand(),
        ))
    }

    fn place(&self) -> (r: u8)
        ensures
            r == self.rank(),
    {
        match self {
            SearchPredicate::ReceivedAfter { .. } => 0,
            SearchPredicate::ReceivedBefore { .. } => 1,
            SearchPredicate::SentAfter { .. } => 2,
            SearchPredicate::SentBefore { .. } => 3,
            SearchPredicate::From { .. } => 4,
            SearchPredicate::To { .. } => 5,
            SearchPredicate::Cc { .. } => 6,
            SearchPredicate::Bcc { .. } => 7,
            SearchPredicate::Subject { .. } => 8,
            SearchPredicate::Text { .. } => 9,
            SearchPredicate::RequiredFlag { .. } => 10,
            SearchPredicate::ForbiddenFlag { .. } => 11,
        }
    }

    fn compared(&self) -> (r: String)
        ensures
            r@ == self.operand(),
    {
        match self {
            SearchPredicate::ReceivedAfter { date }
            | SearchPredicate::ReceivedBefore { date }
            | SearchPredicate::SentAfter { date }
            | SearchPredicate::SentBefore { date } => date.text.clone(),
            SearchPredicate::From { value }
            | SearchPredicate::To { value }
            | SearchPredicate::Cc { value }
            | SearchPredicate::Bcc { value }
            | SearchPredicate::Subject { value }
            | SearchPredicate::Text { value } => value.clone(),
            SearchPredicate::RequiredFlag { flag } | SearchPredicate::ForbiddenFlag { flag } => {
                let mut text = String::new();
                let place: u8 = flag.place();
                text.push(place as char);
                assert(text@ =~= seq![flag.rank() as char]);
                text
            },
        }
    }

    fn is_before(&self, other: &SearchPredicate) -> (r: bool)
        ensures
            r == self.before(*other),
    {
        let (mine, theirs) = (self.place(), other.place());
        if mine != theirs {
            return mine < theirs;
        }
        let left = self.compared();
        let right = other.compared();
        comes_before(left.as_str(), right.as_str())
    }

    /// The text is short and free of NUL.
    pub open spec fn well_formed(self) -> bool {
        match self {
            SearchPredicate::From { value }
            | SearchPredicate::To { value }
            | SearchPredicate::Cc { value }
            | SearchPredicate::Bcc { value }
            | SearchPredicate::Subject { value }
            | SearchPredicate::Text { value } => is_search_text(value@),
            _ => true,
        }
    }

    fn is_well_formed(&self) -> (r: bool)
        ensures
            r == self.well_formed(),
    {
        match self {
            SearchPredicate::From { value }
            | SearchPredicate::To { value }
            | SearchPredicate::Cc { value }
            | SearchPredicate::Bcc { value }
            | SearchPredicate::Subject { value }
            | SearchPredicate::Text { value } => search_text(value.as_str()),
            _ => true,
        }
    }

    /// No message can meet both: a flag that must and must not be set, or a span of days that ends
    /// before it begins.
    pub open spec fn contradicts(self, other: SearchPredicate) -> bool {
        match (self, other) {
            (
                SearchPredicate::RequiredFlag { flag },
                SearchPredicate::ForbiddenFlag { flag: forbidden },
            ) => flag == forbidden,
            (
                SearchPredicate::ReceivedAfter { date },
                SearchPredicate::ReceivedBefore { date: before },
            ) => !precedes(date.text@, before.text@),
            (SearchPredicate::SentAfter { date }, SearchPredicate::SentBefore { date: before }) =>
                !precedes(date.text@, before.text@),
            _ => false,
        }
    }

    fn opposes(&self, other: &SearchPredicate) -> (r: bool)
        ensures
            r == self.contradicts(*other),
    {
        match (self, other) {
            (
                SearchPredicate::RequiredFlag { flag },
                SearchPredicate::ForbiddenFlag { flag: forbidden },
            ) => *flag == *forbidden,
            (
                SearchPredicate::ReceivedAfter { date },
                SearchPredicate::ReceivedBefore { date: before },
            ) => !comes_before(date.text.as_str(), before.text.as_str()),
            (SearchPredicate::SentAfter { date }, SearchPredicate::SentBefore { date: before }) =>
                !comes_before(date.text.as_str(), before.text.as_str()),
            _ => false,
        }
    }
}

/// Canonical order preserves repeated fields as separate AND terms.
#[derive(Debug, PartialEq, Eq)]
pub struct SearchCriteria {
    pub terms: Vec<SearchPredicate>,
}

impl Default for SearchCriteria {
    fn default() -> (r: Self)
        ensures
            r.terms@.len() == 0,
            r.canonical(),
    {
        SearchCriteria { terms: Vec::new() }
    }
}

/// At most 32 well-formed terms, none of which contradicts another.
pub open spec fn are_consistent(terms: Seq<SearchPredicate>) -> bool {
    &&& terms.len() <= 32
    &&& forall|i: int| 0 <= i < terms.len() ==> (#[trigger] terms[i]).well_formed()
    &&& forall|i: int, j: int|
        0 <= i < terms.len() && 0 <= j < terms.len() ==> !(#[trigger] terms[i]).contradicts(
            #[trigger] terms[j],
        )
}

/// No term stands behind one that it comes before.
pub open spec fn are_in_order(terms: Seq<SearchPredicate>) -> bool {
    forall|i: int, j: int|
        0 <= i < j < terms.len() ==> !(#[trigger] terms[j]).before(#[trigger] terms[i])
}

fn consistent(terms: &Vec<SearchPredicate>) -> (r: bool)
    ensures
        r == are_consistent(terms@),
{
    if terms.len() > 32 {
        return false;
    }
    for i in 0..terms.len()
        invariant
            forall|a: int| 0 <= a < i ==> (#[trigger] terms@[a]).well_formed(),
            forall|a: int, b: int|
                0 <= a < i && 0 <= b < terms@.len() ==> !(#[trigger] terms@[a]).contradicts(
                    #[trigger] terms@[b],
                ),
    {
        if !terms[i].is_well_formed() {
            assert(!terms@[i as int].well_formed());
            return false;
        }
        for j in 0..terms.len()
            invariant
                i < terms@.len(),
                forall|b: int| 0 <= b < j ==> !terms@[i as int].contradicts(#[trigger] terms@[b]),
        {
            if terms[i].opposes(&terms[j]) {
                assert(terms@[i as int].contradicts(terms@[j as int]));
                return false;
            }
        }
    }
    true
}

proof fn before_is_transitive(a: SearchPredicate, b: SearchPredicate, c: SearchPredicate)
    requires
        !b.before(a),
        !c.before(b),
    ensures
        !c.before(a),
{
    order_is_total(a.operand(), b.operand());
    order_is_total(b.operand(), c.operand());
    order_is_total(a.operand(), c.operand());
    order_is_irreflexive(a.operand());
    if a.rank() == b.rank() && b.rank() == c.rank() && precedes(c.operand(), a.operand()) {
        if a.operand() != b.operand() && b.operand() != c.operand() {
            order_is_transitive(a.operand(), b.operand(), c.operand());
        }
    }
}

proof fn before_is_total(a: SearchPredicate, b: SearchPredicate)
    ensures
        !(a.before(b) && b.before(a)),
{
    order_is_total(a.operand(), b.operand());
}

fn sort_terms(terms: Vec<SearchPredicate>) -> (r: Vec<SearchPredicate>)
    ensures
        are_in_order(r@),
        r@.to_multiset() == terms@.to_multiset(),
{
    broadcast use vstd::seq_lib::group_to_multiset_ensures;

    let ghost all = terms@;
    let mut rest = terms;
    let mut sorted: Vec<SearchPredicate> = Vec::new();
    assert(all.take(all.len() as int) =~= all);
    assert(sorted@.to_multiset() =~= vstd::multiset::Multiset::empty());
    assert(rest@.to_multiset().add(sorted@.to_multiset()) =~= all.to_multiset());
    while rest.len() > 0
        invariant
            are_in_order(sorted@),
            rest@.to_multiset().add(sorted@.to_multiset()) == all.to_multiset(),
        decreases rest@.len(),
    {
        broadcast use vstd::seq_lib::group_to_multiset_ensures;

        let ghost rest_before = rest@;
        let ghost sorted_before = sorted@;
        let term = rest.remove(0);
        let ghost value = term;
        let mut at: usize = 0;
        while at < sorted.len() && !term.is_before(&sorted[at])
            invariant
                at <= sorted@.len(),
                sorted@ == sorted_before,
                forall|k: int| 0 <= k < at ==> !term.before(#[trigger] sorted@[k]),
            decreases sorted@.len() - at,
        {
            at = at + 1;
        }
        sorted.insert(at, term);
        proof {
            let after = sorted@;
            assert(after =~= sorted_before.insert(at as int, value));
            assert forall|i: int, j: int| 0 <= i < j < after.len() implies !(
            #[trigger] after[j]).before(#[trigger] after[i]) by {
                if i == at {
                    assert(after[j] == sorted_before[j - 1]);
                    before_is_total(value, sorted_before[at as int]);
                    if j - 1 > at {
                        assert(!sorted_before[j - 1].before(sorted_before[at as int]));
                        before_is_transitive(
                            value,
                            sorted_before[at as int],
                            sorted_before[j - 1],
                        );
                    }
                } else if j == at {
                    assert(after[i] == sorted_before[i]);
                } else {
                    let a = if i < at {
                        i
                    } else {
                        i - 1
                    };
                    let b = if j < at {
                        j
                    } else {
                        j - 1
                    };
                    assert(after[i] == sorted_before[a] && after[j] == sorted_before[b]);
                }
            }
            vstd::seq_lib::to_multiset_insert(sorted_before, at as int, value);
            vstd::seq_lib::to_multiset_remove(rest_before, 0);
            vstd::seq_lib::to_multiset_contains(rest_before, value);
            assert(rest@ =~= rest_before.remove(0));
            assert(rest_before.contains(value)) by {
                assert(rest_before[0] == value);
            }
            assert(rest@.to_multiset().add(sorted@.to_multiset()) =~= rest_before.to_multiset().add(
                sorted_before.to_multiset(),
            ));
        }
    }
    assert(rest@ =~= Seq::empty());
    assert(sorted@.to_multiset() =~= all.to_multiset());
    sorted
}

/// The date of a predicate, where it has one, is a valid one.
pub open spec fn has_valid_date(predicate: SearchPredicate) -> bool {
    match predicate {
        SearchPredicate::ReceivedAfter { date }
        | SearchPredicate::ReceivedBefore { date }
        | SearchPredicate::SentAfter { date }
        | SearchPredicate::SentBefore { date } => date.valid(),
        _ => true,
    }
}

/// Every date of the predicates is a valid one.
pub open spec fn have_valid_dates(predicates: Seq<SearchPredicate>) -> bool {
    forall|i: int| 0 <= i < predicates.len() ==> has_valid_date(#[trigger] predicates[i])
}

proof fn dates_stay_valid(before: Seq<SearchPredicate>, after: Seq<SearchPredicate>)
    requires
        after.to_multiset() == before.to_multiset(),
        have_valid_dates(before),
    ensures
        have_valid_dates(after),
{
    broadcast use vstd::seq_lib::group_to_multiset_ensures;

    assert forall|i: int| 0 <= i < after.len() implies has_valid_date(#[trigger] after[i]) by {
        assert(after.contains(after[i]));
        assert(before.to_multiset().count(after[i]) > 0);
        assert(before.contains(after[i]));
    }
}

impl SearchCriteria {
    /// The terms are consistent and in canonical order.
    pub open spec fn canonical(self) -> bool {
        are_consistent(self.terms@) && are_in_order(self.terms@)
    }

    pub fn predicates(&self) -> (r: &[SearchPredicate])
        ensures
            r@ == self.terms@,
    {
        self.terms.as_slice()
    }

    pub fn try_from(predicates: Vec<SearchPredicate>) -> (r: Result<Self, Error>)
        ensures
            match r {
                Ok(criteria) => {
                    &&& are_consistent(predicates@)
                    &&& criteria.canonical()
                    &&& criteria.terms@.to_multiset() == predicates@.to_multiset()
                    &&& have_valid_dates(predicates@) ==> have_valid_dates(criteria.terms@)
                },
                Err(error) => error.reports(ErrorCode::InvalidRequest) && !are_consistent(
                    predicates@,
                ),
            },
    {
        if !consistent(&predicates) {
            return Err(Error::new(ErrorCode::InvalidRequest));
        }
        let ghost given = predicates@;
        let criteria = SearchCriteria { terms: sort_terms(predicates) };
        proof {
            accepted_criteria_are_canonical(given, criteria);
            if have_valid_dates(given) {
                dates_stay_valid(given, criteria.terms@);
            }
        }
        Ok(criteria)
    }
}

/// Rearranging terms keeps them consistent, so accepted criteria are canonical.
pub proof fn accepted_criteria_are_canonical(
    given: Seq<SearchPredicate>,
    criteria: SearchCriteria,
)
    requires
        are_consistent(given),
        are_in_order(criteria.terms@),
        criteria.terms@.to_multiset() == given.to_multiset(),
    ensures
        criteria.canonical(),
{
    broadcast use vstd::seq_lib::group_to_multiset_ensures;

    let terms = criteria.terms@;
    assert(terms.len() == given.len()) by {
        vstd::seq_lib::to_multiset_len(terms);
        vstd::seq_lib::to_multiset_len(given);
    }
    assert forall|i: int| 0 <= i < terms.len() implies given.contains(#[trigger] terms[i]) by {
        vstd::seq_lib::to_multiset_contains(terms, terms[i]);
        vstd::seq_lib::to_multiset_contains(given, terms[i]);
        assert(terms.contains(terms[i]));
    }
    assert forall|i: int| 0 <= i < terms.len() implies (#[trigger] terms[i]).well_formed() by {
        assert(given.contains(terms[i]));
    }
    assert forall|i: int, j: int|
        0 <= i < terms.len() && 0 <= j < terms.len() implies !(#[trigger] terms[i]).contradicts(
        #[trigger] terms[j],
    ) by {
        assert(given.contains(terms[i]) && given.contains(terms[j]));
        let a = choose|a: int| 0 <= a < given.len() && given[a] == terms[i];
        let b = choose|b: int| 0 <= b < given.len() && given[b] == terms[j];
        assert(!given[a].contradicts(given[b]));
    }
}

#[derive(Debug, PartialEq, Eq)]
pub enum Metadata<T> {
    Present(T),
    Missing,
    Malformed,
}

impl<T> Metadata<T> {
    pub fn value(&self) -> (r: Option<&T>)
        ensures
            r == (match self {
                Metadata::Present(value) => Some(value),
                _ => None,
            }),
    {
        match self {
            Metadata::Present(value) => Some(value),
            _ => None,
        }
    }
}

#[derive(Debug, PartialEq, Eq)]
pub struct MessageAddress {
    pub name: Option<String>,
    pub address: String,
}

#[derive(Debug, PartialEq, Eq)]
pub struct MessageMetadata {
    pub subject: Metadata<String>,
    pub from: Metadata<Vec<MessageAddress>>,
    pub to: Metadata<Vec<MessageAddress>>,
    pub cc: Metadata<Vec<MessageAddress>>,
    pub received_date: String,
    pub sent_date: Metadata<String>,
    pub flags: Vec<String>,
    pub message_id: Metadata<String>,
    pub size: u32,
}

#[derive(Debug)]
pub struct MessageEnvelope {
    pub reference: String,
    pub metadata: MessageMetadata,
}

#[derive(Debug)]
pub struct MessageSearch {
    pub account_id: String,
    pub generation: u64,
    pub mailbox_reference: String,
    pub criteria: SearchCriteria,
    pub messages: Vec<MessageEnvelope>,
    pub complete: bool,
    pub next_cursor: Option<String>,
}

/// What a term compares: the field and the operand. Terms that compare the same are the same term.
pub type Meaning = (int, Seq<char>);

pub open spec fn meaning(term: SearchPredicate) -> Meaning {
    (term.rank(), term.operand())
}

pub open spec fn meanings(terms: Seq<SearchPredicate>) -> Seq<Meaning> {
    terms.map_values(|term: SearchPredicate| meaning(term))
}

/// `a` does not come behind `b` in the canonical order.
pub open spec fn is_no_later(a: Meaning, b: Meaning) -> bool {
    !(b.0 < a.0 || (b.0 == a.0 && precedes(b.1, a.1)))
}

proof fn meanings_are_ordered()
    ensures
        vstd::relations::total_ordering(|a: Meaning, b: Meaning| is_no_later(a, b)),
{
    let leq = |a: Meaning, b: Meaning| is_no_later(a, b);
    assert forall|a: Meaning| #[trigger] leq(a, a) by {
        order_is_irreflexive(a.1);
    }
    assert forall|a: Meaning, b: Meaning| #[trigger] leq(a, b) && #[trigger] leq(b, a) implies a == b by {
        order_is_total(a.1, b.1);
    }
    assert forall|a: Meaning, b: Meaning| #[trigger] leq(a, b) || #[trigger] leq(b, a) by {
        order_is_total(a.1, b.1);
    }
    assert forall|a: Meaning, b: Meaning, c: Meaning| #[trigger]
        leq(a, b) && #[trigger] leq(b, c) implies leq(a, c) by {
        if a.0 == b.0 && b.0 == c.0 && precedes(c.1, a.1) {
            order_is_total(a.1, b.1);
            order_is_total(b.1, c.1);
            if a.1 != b.1 && b.1 != c.1 {
                order_is_transitive(a.1, b.1, c.1);
                order_is_total(a.1, c.1);
            }
        }
    }
}

/// There is one canonical order: terms in order that compare the same, each as often, compare the same
/// one after the other.
pub proof fn canonical_order_is_unique(a: Seq<SearchPredicate>, b: Seq<SearchPredicate>)
    requires
        are_in_order(a),
        are_in_order(b),
        meanings(a).to_multiset() == meanings(b).to_multiset(),
    ensures
        meanings(a) == meanings(b),
{
    let leq = |x: Meaning, y: Meaning| is_no_later(x, y);
    meanings_are_ordered();
    assert forall|i: int, j: int| 0 <= i < j < meanings(a).len() implies #[trigger] leq(
        meanings(a)[i],
        meanings(a)[j],
    ) by {
        assert(!a[j].before(a[i]));
    }
    assert forall|i: int, j: int| 0 <= i < j < meanings(b).len() implies #[trigger] leq(
        meanings(b)[i],
        meanings(b)[j],
    ) by {
        assert(!b[j].before(b[i]));
    }
    vstd::seq_lib::lemma_sorted_unique(meanings(a), meanings(b), leq);
}

proof fn same_terms_mean_the_same(a: Seq<SearchPredicate>, b: Seq<SearchPredicate>)
    requires
        a.to_multiset() == b.to_multiset(),
    ensures
        meanings(a).to_multiset() == meanings(b).to_multiset(),
    decreases a.len(),
{
    broadcast use vstd::multiset::group_multiset_axioms;
    broadcast use vstd::seq_lib::group_to_multiset_ensures;

    vstd::seq_lib::to_multiset_len(a);
    vstd::seq_lib::to_multiset_len(b);
    if a.len() == 0 {
        assert(meanings(a) =~= meanings(b));
    } else {
        let last = a.last();
        assert(a.contains(last));
        vstd::seq_lib::to_multiset_contains(a, last);
        vstd::seq_lib::to_multiset_contains(b, last);
        let i = choose|i: int| 0 <= i < b.len() && b[i] == last;
        let fewer = a.drop_last();
        let rest = b.remove(i);
        assert(a =~= fewer.push(last));
        vstd::seq_lib::to_multiset_build(fewer, last);
        vstd::seq_lib::to_multiset_remove(b, i);
        assert(fewer.to_multiset() =~= rest.to_multiset());
        same_terms_mean_the_same(fewer, rest);
        assert(meanings(a) =~= meanings(fewer).push(meaning(last)));
        vstd::seq_lib::to_multiset_build(meanings(fewer), meaning(last));
        assert(meanings(rest) =~= meanings(b).remove(i));
        vstd::seq_lib::to_multiset_remove(meanings(b), i);
        assert(meanings(b).contains(meanings(b)[i]));
        vstd::seq_lib::to_multiset_contains(meanings(b), meaning(last));
        assert(meanings(a).to_multiset() =~= meanings(b).to_multiset());
    }
}

proof fn consistent_by_meaning(a: Seq<SearchPredicate>, b: Seq<SearchPredicate>)
    requires
        are_consistent(a),
        meanings(a) == meanings(b),
    ensures
        are_consistent(b),
{
    assert(meanings(a).len() == a.len() && meanings(b).len() == b.len());
    assert forall|i: int| 0 <= i < a.len() implies meaning(a[i]) == meaning(b[i]) by {
        assert(meanings(a)[i] == meaning(a[i]));
        assert(meanings(b)[i] == meaning(b[i]));
    }
    assert forall|i: int| 0 <= i < b.len() implies (#[trigger] b[i]).well_formed() by {
        assert(meaning(a[i]) == meaning(b[i]));
        assert(a[i].well_formed());
    }
    assert forall|i: int, j: int| 0 <= i < b.len() && 0 <= j < b.len() implies !(
    #[trigger] b[i]).contradicts(#[trigger] b[j]) by {
        assert(meaning(a[i]) == meaning(b[i]));
        assert(meaning(a[j]) == meaning(b[j]));
        assert(!a[i].contradicts(a[j]));
        match (b[i], b[j]) {
            (
                SearchPredicate::RequiredFlag { flag },
                SearchPredicate::ForbiddenFlag { flag: forbidden },
            ) => {
                assert(a[i].operand()[0] == b[i].operand()[0]);
                assert(a[j].operand()[0] == b[j].operand()[0]);
            },
            _ => {},
        }
    }
}

/// Canonical criteria are a fixed point: they have at most 32 terms, their own terms are accepted, and
/// what is made of those is the same criteria.
pub proof fn canonical_criteria_are_kept(
    criteria: SearchCriteria,
    given: Seq<SearchPredicate>,
    again: SearchCriteria,
)
    requires
        criteria.canonical(),
        meanings(given) == meanings(criteria.terms@),
        again.canonical(),
        again.terms@.to_multiset() == given.to_multiset(),
    ensures
        criteria.terms@.len() <= 32,
        are_consistent(given),
        meanings(again.terms@) == meanings(criteria.terms@),
{
    consistent_by_meaning(criteria.terms@, given);
    same_terms_mean_the_same(again.terms@, given);
    canonical_order_is_unique(again.terms@, criteria.terms@);
}

/// The order in which terms are given does not matter: either both arrangements are refused, or both
/// give the same criteria.
pub proof fn arrangement_does_not_matter(
    first: Seq<SearchPredicate>,
    second: Seq<SearchPredicate>,
    a: SearchCriteria,
    b: SearchCriteria,
)
    requires
        first.to_multiset() == second.to_multiset(),
        are_in_order(a.terms@),
        are_in_order(b.terms@),
        a.terms@.to_multiset() == first.to_multiset(),
        b.terms@.to_multiset() == second.to_multiset(),
    ensures
        are_consistent(first) == are_consistent(second),
        meanings(a.terms@) == meanings(b.terms@),
{
    same_terms_mean_the_same(a.terms@, b.terms@);
    canonical_order_is_unique(a.terms@, b.terms@);
    if are_consistent(first) {
        rearranged_terms_stay_consistent(first, second);
    }
    if are_consistent(second) {
        rearranged_terms_stay_consistent(second, first);
    }
}

proof fn rearranged_terms_stay_consistent(a: Seq<SearchPredicate>, b: Seq<SearchPredicate>)
    requires
        are_consistent(a),
        a.to_multiset() == b.to_multiset(),
    ensures
        are_consistent(b),
{
    broadcast use vstd::seq_lib::group_to_multiset_ensures;

    vstd::seq_lib::to_multiset_len(a);
    vstd::seq_lib::to_multiset_len(b);
    assert forall|i: int| 0 <= i < b.len() implies a.contains(#[trigger] b[i]) by {
        assert(b.contains(b[i]));
        vstd::seq_lib::to_multiset_contains(b, b[i]);
        vstd::seq_lib::to_multiset_contains(a, b[i]);
    }
}

/// A message as a search sees it: the days on which it was received and sent, its header texts, all of
/// its text, and the names of its flags.
pub struct SearchedMessage {
    pub received: Day,
    pub sent: Day,
    pub from: Seq<char>,
    pub to: Seq<char>,
    pub cc: Seq<char>,
    pub bcc: Seq<char>,
    pub subject: Seq<char>,
    pub text: Seq<char>,
    pub flags: Set<Seq<char>>,
}

pub open spec fn is_calendar_day(day: Day) -> bool {
    1 <= day.0 <= 9999 && 1 <= day.1 <= 12 && 1 <= day.2 <= 31
}

/// The words stand somewhere in the text, in upper or lower case.
pub open spec fn mentions(text: Seq<char>, words: Seq<char>) -> bool {
    exists|i: int|
        0 <= i <= text.len() - words.len() && lowered_text(#[trigger] text.subrange(i, i + words.len()))
            == lowered_text(words)
}

/// The name by which a mail server knows the flag.
pub open spec fn flag_name(flag: StandardFlag) -> Seq<char> {
    match flag {
        StandardFlag::Answered => "\\Answered"@,
        StandardFlag::Deleted => "\\Deleted"@,
        StandardFlag::Draft => "\\Draft"@,
        StandardFlag::Flagged => "\\Flagged"@,
        StandardFlag::Recent => "\\Recent"@,
        StandardFlag::Seen => "\\Seen"@,
    }
}

/// The message is one that the predicate asks for. Dates are compared by their canonical texts, and a
/// day stands among those after itself.
pub open spec fn is_met(predicate: SearchPredicate, message: SearchedMessage) -> bool {
    match predicate {
        SearchPredicate::ReceivedAfter { date } => !precedes(iso_text(message.received), date.text@),
        SearchPredicate::ReceivedBefore { date } => precedes(iso_text(message.received), date.text@),
        SearchPredicate::SentAfter { date } => !precedes(iso_text(message.sent), date.text@),
        SearchPredicate::SentBefore { date } => precedes(iso_text(message.sent), date.text@),
        SearchPredicate::From { value } => mentions(message.from, value@),
        SearchPredicate::To { value } => mentions(message.to, value@),
        SearchPredicate::Cc { value } => mentions(message.cc, value@),
        SearchPredicate::Bcc { value } => mentions(message.bcc, value@),
        SearchPredicate::Subject { value } => mentions(message.subject, value@),
        SearchPredicate::Text { value } => mentions(message.text, value@),
        SearchPredicate::RequiredFlag { flag } => message.flags.contains(flag_name(flag)),
        SearchPredicate::ForbiddenFlag { flag } => !message.flags.contains(flag_name(flag)),
    }
}

/// The names of the flags differ.
pub proof fn flags_have_names_of_their_own(a: StandardFlag, b: StandardFlag)
    ensures
        flag_name(a) == flag_name(b) ==> a == b,
{
    reveal_strlit("\\Answered");
    reveal_strlit("\\Deleted");
    reveal_strlit("\\Draft");
    reveal_strlit("\\Flagged");
    reveal_strlit("\\Recent");
    reveal_strlit("\\Seen");
    if flag_name(a) == flag_name(b) {
        assert(flag_name(a).len() == flag_name(b).len());
        assert(flag_name(a)[1] == flag_name(b)[1]);
        assert(flag_name(a)[2] == flag_name(b)[2]);
    }
}

/// The terms are of one span or one flag: the first a beginning or a flag that is asked for, the second
/// the end of the same span or a flag that is ruled out.
pub open spec fn are_opposed(a: SearchPredicate, b: SearchPredicate) -> bool {
    ||| a is ReceivedAfter && b is ReceivedBefore
    ||| a is SentAfter && b is SentBefore
    ||| a is RequiredFlag && b is ForbiddenFlag
}

/// Terms are refused as contradictory exactly where they leave no message to be found: none meets both
/// of two that contradict each other, and some message meets both of two opposed ones that do not.
pub proof fn contradictions_leave_nothing(a: SearchPredicate, b: SearchPredicate, message: SearchedMessage)
    requires
        has_valid_date(a),
        has_valid_date(b),
    ensures
        a.contradicts(b) ==> are_opposed(a, b) && !(is_met(a, message) && is_met(b, message)),
        are_opposed(a, b) && !a.contradicts(b) ==> exists|other: SearchedMessage|
            #![trigger is_met(a, other)]
            is_met(a, other) && is_met(b, other),
{
    match (a, b) {
        (SearchPredicate::RequiredFlag { flag }, SearchPredicate::ForbiddenFlag { flag: forbidden }) => {
            flags_have_names_of_their_own(flag, forbidden);
            if flag != forbidden {
                let other = SearchedMessage { flags: set![flag_name(flag)], ..message };
                assert(is_met(a, other) && is_met(b, other));
            }
        },
        (SearchPredicate::ReceivedAfter { date }, SearchPredicate::ReceivedBefore { date: before }) => {
            spans_are_open(date, before, message.received);
            let other = SearchedMessage { received: named_day(date.text@)->0, ..message };
            if precedes(date.text@, before.text@) {
                assert(is_met(a, other) && is_met(b, other));
            }
        },
        (SearchPredicate::SentAfter { date }, SearchPredicate::SentBefore { date: before }) => {
            spans_are_open(date, before, message.sent);
            let other = SearchedMessage { sent: named_day(date.text@)->0, ..message };
            if precedes(date.text@, before.text@) {
                assert(is_met(a, other) && is_met(b, other));
            }
        },
        _ => {},
    }
}

proof fn spans_are_open(from: SearchDate, until: SearchDate, day: Day)
    requires
        from.valid(),
        until.valid(),
    ensures
        !precedes(from.text@, until.text@) ==> !(!precedes(iso_text(day), from.text@) && precedes(
            iso_text(day),
            until.text@,
        )),
        iso_text(named_day(from.text@)->0) == from.text@,
        !precedes(from.text@, from.text@),
{
    let (x, a, b) = (iso_text(day), from.text@, until.text@);
    order_is_irreflexive(a);
    order_is_total(x, a);
    order_is_total(a, b);
    if !precedes(a, b) && precedes(x, b) && !precedes(x, a) {
        if precedes(a, x) {
            order_is_transitive(a, x, b);
        }
    }
}

/// Terms that compare the same field with the same operand are the same term.
pub proof fn meanings_tell_terms_apart(a: SearchPredicate, b: SearchPredicate)
    ensures
        meaning(a) == meaning(b) ==> {
            match (a, b) {
                (SearchPredicate::ReceivedAfter { date: x }, SearchPredicate::ReceivedAfter { date: y })
                | (SearchPredicate::ReceivedBefore { date: x }, SearchPredicate::ReceivedBefore { date: y })
                | (SearchPredicate::SentAfter { date: x }, SearchPredicate::SentAfter { date: y })
                | (SearchPredicate::SentBefore { date: x }, SearchPredicate::SentBefore { date: y }) => x.text@
                    == y.text@,
                (SearchPredicate::From { value: x }, SearchPredicate::From { value: y })
                | (SearchPredicate::To { value: x }, SearchPredicate::To { value: y })
                | (SearchPredicate::Cc { value: x }, SearchPredicate::Cc { value: y })
                | (SearchPredicate::Bcc { value: x }, SearchPredicate::Bcc { value: y })
                | (SearchPredicate::Subject { value: x }, SearchPredicate::Subject { value: y })
                | (SearchPredicate::Text { value: x }, SearchPredicate::Text { value: y }) => x@ == y@,
                (SearchPredicate::RequiredFlag { flag: x }, SearchPredicate::RequiredFlag { flag: y })
                | (SearchPredicate::ForbiddenFlag { flag: x }, SearchPredicate::ForbiddenFlag { flag: y }) =>
                    x == y,
                _ => false,
            }
        },
{
    if meaning(a) == meaning(b) {
        match (a, b) {
            (SearchPredicate::RequiredFlag { flag: x }, SearchPredicate::RequiredFlag { flag: y })
            | (SearchPredicate::ForbiddenFlag { flag: x }, SearchPredicate::ForbiddenFlag { flag: y }) => {
                assert(a.operand()[0] == b.operand()[0]);
            },
            _ => {},
        }
    }
}

/// The canonical order of the fields: the dates, the header texts, all text, and the flags.
pub proof fn fields_have_their_places(a: SearchPredicate, b: SearchPredicate)
    ensures
        a is ReceivedAfter && b is ReceivedBefore ==> a.before(b),
        a is ReceivedBefore && b is SentAfter ==> a.before(b),
        a is SentAfter && b is SentBefore ==> a.before(b),
        a is SentBefore && b is From ==> a.before(b),
        a is From && b is To ==> a.before(b),
        a is To && b is Cc ==> a.before(b),
        a is Cc && b is Bcc ==> a.before(b),
        a is Bcc && b is Subject ==> a.before(b),
        a is Subject && b is Text ==> a.before(b),
        a is Text && b is RequiredFlag ==> a.before(b),
        a is RequiredFlag && b is ForbiddenFlag ==> a.before(b),
        a.before(b) ==> !b.before(a),
{
    order_is_irreflexive(a.operand());
    if precedes(a.operand(), b.operand()) && precedes(b.operand(), a.operand()) {
        order_is_transitive(a.operand(), b.operand(), a.operand());
    }
}

/// The value of a decimal digit.
pub open spec fn digit_value(c: char) -> int {
    c as int - '0' as int
}

/// A canonical date reads back to the day that it was written from: four digits of the year, a hyphen,
/// two of the month, a hyphen, and two of the day.
#[verifier::spinoff_prover]
pub proof fn canonical_dates_read_back(day: Day)
    requires
        is_calendar_day(day),
    ensures
        ({
            let text = iso_text(day);
            &&& text.len() == 10
            &&& text[4] == '-' && text[7] == '-'
            &&& day.0 == 1000 * digit_value(text[0]) + 100 * digit_value(text[1]) + 10 * digit_value(text[2])
                + digit_value(text[3])
            &&& day.1 == 10 * digit_value(text[5]) + digit_value(text[6])
            &&& day.2 == 10 * digit_value(text[8]) + digit_value(text[9])
        }),
        forall|i: int|
            0 <= i < 10 && i != 4 && i != 7 ==> 0 <= digit_value(#[trigger] iso_text(day)[i]) <= 9,
{
    digits_of(day.0 as int);
    digits_of(day.1 as int);
    digits_of(day.2 as int);
    let text = iso_text(day);
    assert(digit_value(text[5]) == (day.1 as int / 10) % 10);
    assert(digit_value(text[8]) == (day.2 as int / 10) % 10);
    assert(digit_value(text[0]) == (day.0 as int / 1000) % 10);
    assert(digit_value(text[1]) == (day.0 as int / 100) % 10);
    assert(digit_value(text[2]) == (day.0 as int / 10) % 10);
}

/// The predicate searches some field for the text.
pub open spec fn searches_for(predicate: SearchPredicate, value: String) -> bool {
    ||| predicate == SearchPredicate::From { value }
    ||| predicate == SearchPredicate::To { value }
    ||| predicate == SearchPredicate::Cc { value }
    ||| predicate == SearchPredicate::Bcc { value }
    ||| predicate == SearchPredicate::Subject { value }
    ||| predicate == SearchPredicate::Text { value }
}

/// Criteria are accepted exactly where there are at most 32 terms, each text has at most 4096 bytes and no
/// NUL, and no two terms contradict each other.
pub proof fn limits_of_criteria(terms: Seq<SearchPredicate>)
    ensures
        terms.len() > 32 ==> !are_consistent(terms),
        (exists|i: int, j: int|
            0 <= i < terms.len() && 0 <= j < terms.len() && (#[trigger] terms[i]).contradicts(
                #[trigger] terms[j],
            )) ==> !are_consistent(terms),
        forall|i: int, value: String|
            0 <= i < terms.len() && #[trigger] searches_for(terms[i], value) && (utf8_len(value@) > 4096
                || value@.contains('\0')) ==> !are_consistent(terms),
        terms.len() <= 32 && (forall|i: int|
            0 <= i < terms.len() ==> utf8_len((#[trigger] terms[i]).operand()) <= 4096
                && !terms[i].operand().contains('\0')) && (forall|i: int, j: int|
            0 <= i < terms.len() && 0 <= j < terms.len() ==> !(#[trigger] terms[i]).contradicts(
                #[trigger] terms[j],
            )) ==> are_consistent(terms),
{
}

/// A page holds one to 200 messages where its size is given, and any other size is refused.
pub proof fn limits_of_pages(input: SearchMessagesInput)
    ensures
        input.bounded() <==> {
            &&& 1 <= utf8_len(input.mailbox@) <= 8192
            &&& input.cursor matches Some(cursor) ==> 1 <= utf8_len(cursor@) <= 8192
            &&& input.limit matches Some(limit) ==> 1 <= limit && limit <= 200
        },
{
}

/// A flag goes by the name that mail servers know it by.
pub proof fn flags_go_by_their_names(flag: StandardFlag, r: &'static str)
    requires
        call_ensures(StandardFlag::imap_name, (flag,), r),
    ensures
        r@ == flag_name(flag),
        r@.len() > 1 && r@[0] == '\\',
{
    reveal_strlit("\\Answered");
    reveal_strlit("\\Deleted");
    reveal_strlit("\\Draft");
    reveal_strlit("\\Flagged");
    reveal_strlit("\\Recent");
    reveal_strlit("\\Seen");
}

} // verus!
