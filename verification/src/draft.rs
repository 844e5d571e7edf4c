//! Bounded deterministic MIME shared by draft preparation and the IMAP adapter.
use crate::digest::{digest, sha256};
use crate::domain::draft::{dot_atom, is_dot_atom, DraftAddress};
use crate::domain::ErrorCode;
use crate::text::{
    alphanumeric, byte_len, chars_of, control, first_of, holds_char, is_alphanumeric, is_control,
    string_of, utf8_len,
};
use mail_builder::headers::address::Address;
use mail_builder::headers::message_id::MessageId;
use mail_builder::MessageBuilder;
use vstd::prelude::*;

verus! {

/// The largest MIME message that composition may be asked for.
pub const LARGEST_MESSAGE: usize = 8_388_608;

/// The largest header block of a composed message.
pub const LARGEST_HEADER: usize = 262_144;

/// The last second of the year 9999.
pub const LAST_SECOND: i64 = 253_402_300_799;

#[derive(Clone, Copy, Debug, PartialEq, Eq, Structural)]
pub enum Error {
    InvalidInput,
    Limit,
}

impl Error {
    /// What is told to a user.
    pub fn text(&self) -> (r: &'static str)
        ensures
            r@ == match *self {
                Error::InvalidInput => "Invalid draft composition"@,
                Error::Limit => "Draft composition exceeds its limit"@,
            },
    {
        match self {
            Error::InvalidInput => "Invalid draft composition",
            Error::Limit => "Draft composition exceeds its limit",
        }
    }

    /// How the application reports the failure.
    pub open spec fn reported(self) -> ErrorCode {
        match self {
            Error::InvalidInput => ErrorCode::InvalidRequest,
            Error::Limit => ErrorCode::ResponseTooLarge,
        }
    }

    pub fn report(&self) -> (r: crate::domain::Error)
        ensures
            r.reports(self.reported()),
    {
        crate::domain::Error::new(
            match self {
                Error::InvalidInput => ErrorCode::InvalidRequest,
                Error::Limit => ErrorCode::ResponseTooLarge,
            },
        )
    }
}

/// Deterministic plain-text draft composition. Addresses use ASCII addr-spec syntax.
/// Message-ID and reply identifiers use ASCII dot-atoms on both sides of `@`,
/// without angle brackets. Quoted identifiers and domain literals remain unsupported.
#[derive(Clone, Default)]
pub struct DraftInput {
    pub from: String,
    pub to: Vec<DraftAddress>,
    pub cc: Vec<DraftAddress>,
    pub bcc: Vec<DraftAddress>,
    pub subject: String,
    pub body: String,
    /// Message-ID without angle brackets; frozen by the draft operation owner.
    pub message_id: String,
    pub date_unix: i64,
    pub in_reply_to: Option<String>,
    pub references: Vec<String>,
}

/// A domain name: labels of letters, digits and inner hyphens, at most 63 characters each, with
/// single dots between them.
pub open spec fn is_domain(s: Seq<char>) -> bool {
    &&& s.len() > 0
    &&& is_letter_or_digit(s[0])
    &&& is_letter_or_digit(s.last())
    &&& forall|i: int|
        0 <= i < s.len() ==> (is_letter_or_digit(#[trigger] s[i]) || s[i] == '-' || s[i] == '.')
    &&& forall|i: int, j: int|
        0 <= i < s.len() && j == i + 1 && j < s.len() ==> {
            &&& #[trigger] s[i] == '.' ==> is_letter_or_digit(#[trigger] s[j])
            &&& s[j] == '.' ==> is_letter_or_digit(s[i])
        }
    &&& forall|i: int, j: int|
        0 <= i <= j <= s.len() && !(#[trigger] s.subrange(i, j)).contains('.') ==> j - i <= 63
}

/// An ASCII letter or digit.
pub open spec fn is_letter_or_digit(c: char) -> bool {
    c as u32 <= 0x7f && is_alphanumeric(c as u8)
}

fn letter_or_digit(c: char) -> (r: bool)
    ensures
        r == is_letter_or_digit(c),
{
    c as u32 <= 0x7f && alphanumeric(c as u8)
}

fn domain(chars: &Vec<char>) -> (r: bool)
    ensures
        r == is_domain(chars@),
{
    let count: usize = chars.len();
    if count == 0 || !letter_or_digit(chars[0]) || !letter_or_digit(chars[count - 1]) {
        return false;
    }
    let mut start: usize = 0;
    let mut i: usize = 0;
    while i < count
        invariant
            count == chars@.len(),
            count > 0,
            is_letter_or_digit(chars@[0]),
            is_letter_or_digit(chars@[count - 1]),
            0 <= start <= i <= count,
            i - start <= 63,
            start > 0 ==> chars@[start - 1] == '.',
            forall|k: int| start <= k < i ==> chars@[k] != '.',
            forall|k: int|
                0 <= k < i ==> (is_letter_or_digit(#[trigger] chars@[k]) || chars@[k] == '-'
                    || chars@[k] == '.'),
            forall|a: int, b: int|
                0 <= a < i && b == a + 1 && b < chars@.len() ==> {
                    &&& #[trigger] chars@[a] == '.' ==> is_letter_or_digit(#[trigger] chars@[b])
                    &&& chars@[b] == '.' ==> is_letter_or_digit(chars@[a])
                },
            forall|a: int, b: int|
                0 <= a <= b <= i && !(#[trigger] chars@.subrange(a, b)).contains('.') ==> b - a
                    <= 63,
        decreases count - i,
    {
        let c = chars[i];
        if !(letter_or_digit(c) || c == '-' || c == '.') {
            assert(!is_letter_or_digit(chars@[i as int]));
            return false;
        }
        if i + 1 < count {
            let next = chars[i + 1];
            if (c == '.' && !letter_or_digit(next)) || (next == '.' && !letter_or_digit(c)) {
                assert(chars@[i as int] == c && chars@[i + 1] == next);
                return false;
            }
        }
        if c == '.' {
            proof {
                assert forall|a: int, b: int|
                    0 <= a <= b <= i + 1 && !(#[trigger] chars@.subrange(a, b)).contains(
                        '.',
                    ) implies b - a <= 63 by {
                    if b == i + 1 && a <= i {
                        assert(chars@.subrange(a, b)[i - a] == '.');
                    }
                }
            }
            start = i + 1;
        } else {
            if i + 1 - start > 63 {
                proof {
                    let run = chars@.subrange(start as int, i + 1);
                    assert(!run.contains('.')) by {
                        assert forall|k: int| 0 <= k < run.len() implies run[k] != '.' by {
                            assert(run[k] == chars@[start + k]);
                        }
                    }
                }
                return false;
            }
            proof {
                assert forall|a: int, b: int|
                    0 <= a <= b <= i + 1 && !(#[trigger] chars@.subrange(a, b)).contains(
                        '.',
                    ) implies b - a <= 63 by {
                    if b == i + 1 && a < start {
                        assert(chars@.subrange(a, b)[start - 1 - a] == '.');
                    }
                }
            }
        }
        i = i + 1;
    }
    true
}

/// What is wrong with an address: it must be a dot-atom of at most 64 characters, `@` and a domain
/// name, together at most 254 bytes.
pub open spec fn address_fault(value: Seq<char>) -> Option<Error> {
    if utf8_len(value) > 254 {
        Some(Error::Limit)
    } else {
        match value.index_of_first('@') {
            Some(at) => if at <= 64 && is_dot_atom(value.take(at)) && is_domain(
                value.skip(at + 1),
            ) {
                None
            } else {
                Some(Error::InvalidInput)
            },
            None => Some(Error::InvalidInput),
        }
    }
}

/// Accepts an address in ASCII addr-spec syntax.
pub fn address(value: &str) -> (r: Result<(), Error>)
    ensures
        r == match address_fault(value@) {
            Some(error) => Err::<(), Error>(error),
            None => Ok(()),
        },
{
    if byte_len(value) > 254 {
        return Err(Error::Limit);
    }
    let chars = chars_of(value);
    match first_of(&chars, '@') {
        Some(at) => {
            let local = string_of(&chars, 0, at);
            let rest = string_of(&chars, at + 1, chars.len());
            proof {
                assert(local@ == value@.take(at as int));
                assert(rest@ == value@.skip(at + 1));
            }
            if at <= 64 && dot_atom(local.as_str()) && domain(&chars_of(rest.as_str())) {
                Ok(())
            } else {
                Err(Error::InvalidInput)
            }
        },
        None => Err(Error::InvalidInput),
    }
}

/// What is wrong with a message identifier: it must be two dot-atoms around the first `@`, together
/// at most 998 bytes.
pub open spec fn identifier_fault(value: Seq<char>) -> Option<Error> {
    if utf8_len(value) > 998 {
        Some(Error::Limit)
    } else {
        match value.index_of_first('@') {
            Some(at) => if is_dot_atom(value.take(at)) && is_dot_atom(value.skip(at + 1)) {
                None
            } else {
                Some(Error::InvalidInput)
            },
            None => Some(Error::InvalidInput),
        }
    }
}

/// Accepts a message identifier without angle brackets.
pub fn identifier(value: &str) -> (r: Result<(), Error>)
    ensures
        r == match identifier_fault(value@) {
            Some(error) => Err::<(), Error>(error),
            None => Ok(()),
        },
{
    if byte_len(value) > 998 {
        return Err(Error::Limit);
    }
    let chars = chars_of(value);
    match first_of(&chars, '@') {
        Some(at) => {
            let left = string_of(&chars, 0, at);
            let right = string_of(&chars, at + 1, chars.len());
            proof {
                assert(left@ == value@.take(at as int));
                assert(right@ == value@.skip(at + 1));
            }
            if dot_atom(left.as_str()) && dot_atom(right.as_str()) {
                Ok(())
            } else {
                Err(Error::InvalidInput)
            }
        },
        None => Err(Error::InvalidInput),
    }
}

/// Some character of `s` is a control character.
pub open spec fn holds_control(s: Seq<char>) -> bool {
    exists|i: int| 0 <= i < s.len() && is_control(#[trigger] s[i])
}

fn controlled(s: &str) -> (r: bool)
    ensures
        r == holds_control(s@),
{
    let chars = chars_of(s);
    for i in 0..chars.len()
        invariant
            chars@ == s@,
            forall|j: int| 0 <= j < i ==> !is_control(#[trigger] s@[j]),
    {
        if control(chars[i]) {
            assert(is_control(s@[i as int]));
            return true;
        }
    }
    false
}

/// What is wrong with a recipient: first its address, then a name that is over 1,024 bytes or holds
/// a control character.
pub open spec fn recipient_fault(value: DraftAddress) -> Option<Error> {
    match address_fault(value.address@) {
        Some(error) => Some(error),
        None => match value.name {
            Some(name) => if utf8_len(name@) > 1024 || holds_control(name@) {
                Some(Error::InvalidInput)
            } else {
                None
            },
            None => None,
        },
    }
}

fn recipient(value: &DraftAddress) -> (r: Result<(), Error>)
    ensures
        r == match recipient_fault(*value) {
            Some(error) => Err::<(), Error>(error),
            None => Ok(()),
        },
{
    match address(value.address.as_str()) {
        Err(error) => Err(error),
        Ok(()) => match &value.name {
            Some(name) => if byte_len(name.as_str()) > 1024 || controlled(name.as_str()) {
                Err(Error::InvalidInput)
            } else {
                Ok(())
            },
            None => Ok(()),
        },
    }
}

/// The first fault among the recipients, in their order.
pub open spec fn recipients_fault(list: Seq<DraftAddress>) -> Option<Error>
    decreases list.len(),
{
    if list.len() == 0 {
        None
    } else {
        match recipients_fault(list.drop_last()) {
            Some(error) => Some(error),
            None => recipient_fault(list.last()),
        }
    }
}

proof fn earlier_recipients_decide(list: Seq<DraftAddress>, count: int)
    requires
        0 <= count <= list.len(),
        recipients_fault(list.take(count)) is Some,
    ensures
        recipients_fault(list) == recipients_fault(list.take(count)),
    decreases list.len(),
{
    if count == list.len() {
        assert(list.take(count) =~= list);
    } else {
        assert(list.drop_last().take(count) =~= list.take(count));
        earlier_recipients_decide(list.drop_last(), count);
    }
}

fn check_recipients(list: &Vec<DraftAddress>) -> (r: Result<(), Error>)
    ensures
        r == match recipients_fault(list@) {
            Some(error) => Err::<(), Error>(error),
            None => Ok(()),
        },
{
    assert(list@.take(0) =~= Seq::<DraftAddress>::empty());
    for i in 0..list.len()
        invariant
            recipients_fault(list@.take(i as int)) is None,
    {
        proof {
            assert(list@.take(i + 1).drop_last() =~= list@.take(i as int));
            assert(list@.take(i + 1).last() == list@[i as int]);
        }
        match recipient(&list[i]) {
            Err(error) => {
                proof {
                    earlier_recipients_decide(list@, i + 1);
                }
                return Err(error);
            },
            Ok(()) => {},
        }
    }
    assert(list@.take(list@.len() as int) =~= list@);
    Ok(())
}

/// The first fault among the identifiers, in their order.
pub open spec fn identifiers_fault(list: Seq<String>) -> Option<Error>
    decreases list.len(),
{
    if list.len() == 0 {
        None
    } else {
        match identifiers_fault(list.drop_last()) {
            Some(error) => Some(error),
            None => identifier_fault(list.last()@),
        }
    }
}

proof fn earlier_identifiers_decide(list: Seq<String>, count: int)
    requires
        0 <= count <= list.len(),
        identifiers_fault(list.take(count)) is Some,
    ensures
        identifiers_fault(list) == identifiers_fault(list.take(count)),
    decreases list.len(),
{
    if count == list.len() {
        assert(list.take(count) =~= list);
    } else {
        assert(list.drop_last().take(count) =~= list.take(count));
        earlier_identifiers_decide(list.drop_last(), count);
    }
}

fn check_identifiers(list: &Vec<String>) -> (r: Result<(), Error>)
    ensures
        r == match identifiers_fault(list@) {
            Some(error) => Err::<(), Error>(error),
            None => Ok(()),
        },
{
    assert(list@.take(0) =~= Seq::<String>::empty());
    for i in 0..list.len()
        invariant
            identifiers_fault(list@.take(i as int)) is None,
    {
        proof {
            assert(list@.take(i + 1).drop_last() =~= list@.take(i as int));
            assert(list@.take(i + 1).last() == list@[i as int]);
        }
        match identifier(list[i].as_str()) {
            Err(error) => {
                proof {
                    earlier_identifiers_decide(list@, i + 1);
                }
                return Err(error);
            },
            Ok(()) => {},
        }
    }
    assert(list@.take(list@.len() as int) =~= list@);
    Ok(())
}

/// The first of two faults, where the first has one.
pub open spec fn or_else(first: Option<Error>, second: Option<Error>) -> Option<Error> {
    match first {
        Some(error) => Some(error),
        None => second,
    }
}

impl DraftInput {
    /// The draft is larger than a draft may be, with a body of at most `maximum` bytes.
    pub open spec fn oversized(self, maximum: nat) -> bool {
        ||| self.to@.len() + self.cc@.len() + self.bcc@.len() > 100
        ||| utf8_len(self.subject@) > 8192
        ||| utf8_len(self.body@) > maximum
        ||| self.references@.len() > 50
    }

    /// The first fault of the draft: the room asked for, the sizes, the sender, the recipients, the
    /// identifiers, and last the subject, the date and the body.
    pub open spec fn fault(self, maximum: nat) -> Option<Error> {
        if maximum == 0 || maximum > LARGEST_MESSAGE {
            Some(Error::InvalidInput)
        } else if self.oversized(maximum) {
            Some(Error::Limit)
        } else {
            or_else(
                address_fault(self.from@),
                or_else(
                    recipients_fault(self.to@),
                    or_else(
                        recipients_fault(self.cc@),
                        or_else(
                            recipients_fault(self.bcc@),
                            or_else(
                                identifier_fault(self.message_id@),
                                or_else(
                                    match self.in_reply_to {
                                        Some(value) => identifier_fault(value@),
                                        None => None,
                                    },
                                    or_else(
                                        identifiers_fault(self.references@),
                                        if holds_control(self.subject@) || !(0 <= self.date_unix
                                            <= LAST_SECOND) || self.body@.contains('\0') {
                                            Some(Error::InvalidInput)
                                        } else {
                                            None
                                        },
                                    ),
                                ),
                            ),
                        ),
                    ),
                ),
            )
        }
    }

    /// Accepts a draft that can be composed within `maximum` bytes.
    pub fn check(&self, maximum: usize) -> (r: Result<(), Error>)
        ensures
            r == match self.fault(maximum as nat) {
                Some(error) => Err::<(), Error>(error),
                None => Ok(()),
            },
    {
        if maximum == 0 || maximum > LARGEST_MESSAGE {
            return Err(Error::InvalidInput);
        }
        if self.to.len().saturating_add(self.cc.len()).saturating_add(self.bcc.len()) > 100
            || byte_len(self.subject.as_str()) > 8192 || byte_len(self.body.as_str()) > maximum
            || self.references.len() > 50 {
            return Err(Error::Limit);
        }
        address(self.from.as_str())?;
        check_recipients(&self.to)?;
        check_recipients(&self.cc)?;
        check_recipients(&self.bcc)?;
        identifier(self.message_id.as_str())?;
        match &self.in_reply_to {
            Some(value) => identifier(value.as_str())?,
            None => {},
        }
        check_identifiers(&self.references)?;
        if controlled(self.subject.as_str()) || !(0 <= self.date_unix && self.date_unix
            <= LAST_SECOND) || holds_char(self.body.as_str(), '\0') {
            return Err(Error::InvalidInput);
        }
        Ok(())
    }
}

/// A text with every line end written as a single line feed.
pub open spec fn normalized(s: Seq<char>) -> Seq<char>
    decreases s.len(),
{
    if s.len() == 0 {
        s
    } else if s.last() == '\r' {
        normalized(s.drop_last()).push('\n')
    } else if s.last() == '\n' && s.len() > 1 && s[s.len() - 2] == '\r' {
        normalized(s.drop_last())
    } else {
        normalized(s.drop_last()).push(s.last())
    }
}

/// Line ends become single line feeds.
pub fn normalize_body(body: &str) -> (r: String)
    ensures
        r@ == normalized(body@),
{
    let chars = chars_of(body);
    let mut out = String::new();
    assert(chars@.take(0) =~= Seq::<char>::empty());
    for i in 0..chars.len()
        invariant
            chars@ == body@,
            out@ == normalized(chars@.take(i as int)),
    {
        let ghost next = chars@.take(i + 1);
        proof {
            assert(next.drop_last() =~= chars@.take(i as int));
            assert(next.last() == chars@[i as int]);
            assert(i > 0 ==> next[next.len() - 2] == chars@[i - 1]);
        }
        let c = chars[i];
        if c == '\r' {
            out.push('\n');
        } else if c == '\n' && i > 0 && chars[i - 1] == '\r' {
        } else {
            out.push(c);
        }
    }
    assert(chars@.take(chars@.len() as int) =~= body@);
    out
}

/// A text without carriage returns keeps its form, and no form holds one: normalizing twice changes
/// nothing more.
pub proof fn normalized_texts_stay(s: Seq<char>)
    ensures
        !normalized(s).contains('\r'),
        !s.contains('\r') ==> normalized(s) == s,
        normalized(normalized(s)) == normalized(s),
    decreases s.len(),
{
    plain_texts_stay(s);
    holds_no_return(s);
    plain_texts_stay(normalized(s));
}

proof fn plain_texts_stay(s: Seq<char>)
    ensures
        !s.contains('\r') ==> normalized(s) == s,
    decreases s.len(),
{
    if s.len() > 0 && !s.contains('\r') {
        assert(s.contains(s.last()));
        if s.len() > 1 {
            assert(s.contains(s[s.len() - 2]));
        }
        assert(!s.drop_last().contains('\r')) by {
            if s.drop_last().contains('\r') {
                let k = choose|k: int|
                    0 <= k < s.drop_last().len() && s.drop_last()[k] == '\r';
                assert(s[k] == '\r');
            }
        }
        plain_texts_stay(s.drop_last());
        assert(s.drop_last().push(s.last()) =~= s);
    }
}

proof fn holds_no_return(s: Seq<char>)
    ensures
        !normalized(s).contains('\r'),
    decreases s.len(),
{
    if s.len() > 0 {
        holds_no_return(s.drop_last());
        let before = normalized(s.drop_last());
        assert forall|c: char| c != '\r' implies !(#[trigger] before.push(c)).contains('\r') by {
            if before.push(c).contains('\r') {
                let k = choose|k: int|
                    0 <= k < before.push(c).len() && before.push(c)[k] == '\r';
                assert(k < before.len());
                assert(before[k] == '\r');
            }
        }
    }
}

/// A recipient as the name, where there is one, and the address.
pub open spec fn mailbox_view(value: DraftAddress) -> (Option<Seq<char>>, Seq<char>) {
    (
        match value.name {
            Some(name) => Some(name@),
            None => None,
        },
        value.address@,
    )
}

/// A list of recipients, where a header for it is written.
pub open spec fn mailboxes_view(list: Option<Vec<DraftAddress>>) -> Option<
    Seq<(Option<Seq<char>>, Seq<char>)>,
> {
    match list {
        Some(list) => Some(list@.map_values(|value: DraftAddress| mailbox_view(value))),
        None => None,
    }
}

/// A text, where there is one.
pub open spec fn text_view(value: Option<String>) -> Option<Seq<char>> {
    match value {
        Some(value) => Some(value@),
        None => None,
    }
}

/// A list of identifiers, where a header for it is written.
pub open spec fn texts_view(list: Option<Vec<String>>) -> Option<Seq<Seq<char>>> {
    match list {
        Some(list) => Some(list@.map_values(|value: String| value@)),
        None => None,
    }
}

/// The bytes of the MIME message with one text body and these headers: `From`, `Subject`,
/// `Message-ID`, `Date`, and each of `To`, `Cc`, `Bcc`, `In-Reply-To` and `References` that is given.
pub uninterp spec fn mime_message(
    from: Seq<char>,
    subject: Seq<char>,
    message_id: Seq<char>,
    date: i64,
    body: Seq<char>,
    to: Option<Seq<(Option<Seq<char>>, Seq<char>)>>,
    cc: Option<Seq<(Option<Seq<char>>, Seq<char>)>>,
    bcc: Option<Seq<(Option<Seq<char>>, Seq<char>)>>,
    in_reply_to: Option<Seq<char>>,
    references: Option<Seq<Seq<char>>>,
) -> Seq<u8>;

/// `mail_builder::MessageBuilder::serialize`, on a builder that was given these headers in this order
/// and one text body. With a date and a message identifier of their own the bytes depend on nothing
/// but the headers and the body.
#[verifier::external_body]
fn serialize_message(
    from: String,
    subject: String,
    message_id: String,
    date: i64,
    body: String,
    to: Option<Vec<DraftAddress>>,
    cc: Option<Vec<DraftAddress>>,
    bcc: Option<Vec<DraftAddress>>,
    in_reply_to: Option<String>,
    references: Option<Vec<String>>,
) -> (r: Vec<u8>)
    ensures
        r@ == mime_message(
            from@,
            subject@,
            message_id@,
            date,
            body@,
            mailboxes_view(to),
            mailboxes_view(cc),
            mailboxes_view(bcc),
            text_view(in_reply_to),
            texts_view(references),
        ),
{
    let named = |one: DraftAddress| Address::new_address(one.name, one.address);
    let list = |all: Vec<DraftAddress>| Address::new_list(all.into_iter().map(named).collect());
    let mut bytes = Vec::new();
    let builder = MessageBuilder::new().from(from).subject(subject).message_id(message_id);
    let builder = builder.date(date).text_body(body);
    let builder = builder.headers("To", to.map(list)).headers("Cc", cc.map(list));
    let builder = builder.headers("Bcc", bcc.map(list));
    let builder = builder.headers("In-Reply-To", in_reply_to.map(MessageId::from));
    builder.headers("References", references.map(MessageId::from)).serialize(&mut bytes);
    bytes
}

/// A list, where it holds anything.
pub open spec fn unless_empty<T>(list: Vec<T>) -> Option<Vec<T>> {
    if list@.len() == 0 {
        None
    } else {
        Some(list)
    }
}

fn filled<T>(list: Vec<T>) -> (r: Option<Vec<T>>)
    ensures
        r == unless_empty(list),
{
    if list.len() == 0 {
        None
    } else {
        Some(list)
    }
}

impl DraftInput {
    /// The message that the draft describes. A header without recipients or references is left out.
    pub open spec fn message(self) -> Seq<u8> {
        mime_message(
            self.from@,
            self.subject@,
            self.message_id@,
            self.date_unix,
            normalized(self.body@),
            mailboxes_view(unless_empty(self.to)),
            mailboxes_view(unless_empty(self.cc)),
            mailboxes_view(unless_empty(self.bcc)),
            text_view(self.in_reply_to),
            texts_view(unless_empty(self.references)),
        )
    }
}

/// A blank line ends at `end`, counted in bytes.
pub open spec fn blank_line_ends(bytes: Seq<u8>, end: int) -> bool {
    &&& 4 <= end <= bytes.len()
    &&& bytes[end - 4] == 0x0d
    &&& bytes[end - 3] == 0x0a
    &&& bytes[end - 2] == 0x0d
    &&& bytes[end - 1] == 0x0a
}

/// The header block of a message takes `size` bytes: the first blank line ends there.
pub open spec fn is_header_size(bytes: Seq<u8>, size: int) -> bool {
    blank_line_ends(bytes, size) && forall|end: int|
        end < size ==> !(#[trigger] blank_line_ends(bytes, end))
}

/// The message has no header block: no blank line ends one.
pub open spec fn lacks_header(bytes: Seq<u8>) -> bool {
    forall|end: int| !(#[trigger] blank_line_ends(bytes, end))
}

fn header_size(bytes: &Vec<u8>) -> (r: Option<usize>)
    ensures
        match r {
            Some(size) => is_header_size(bytes@, size as int),
            None => lacks_header(bytes@),
        },
{
    let count: usize = bytes.len();
    let mut end: usize = 4;
    while end <= count
        invariant
            4 <= end,
            count == bytes@.len(),
            forall|e: int| e < end ==> !(#[trigger] blank_line_ends(bytes@, e)),
        decreases count + 1 - end,
    {
        if bytes[end - 4] == 0x0d && bytes[end - 3] == 0x0a && bytes[end - 2] == 0x0d && bytes[end
            - 1] == 0x0a {
            assert(blank_line_ends(bytes@, end as int));
            return Some(end);
        }
        if end == count {
            return None;
        }
        end = end + 1;
    }
    None
}

/// Frozen bounded MIME; composition never contacts a provider.
pub struct PreparedDraft {
    bytes: Vec<u8>,
    sha256: [u8; 32],
    header_bytes: usize,
}

impl PreparedDraft {
    /// The whole message.
    pub closed spec fn message(self) -> Seq<u8> {
        self.bytes@
    }

    /// The digest that was taken of it.
    pub closed spec fn digest(self) -> Seq<u8> {
        self.sha256@
    }

    /// How many bytes its header block takes.
    pub closed spec fn header(self) -> nat {
        self.header_bytes as nat
    }

    /// The draft holds `message`, its digest and the size of its header block.
    pub open spec fn holds(self, message: Seq<u8>) -> bool {
        &&& self.message() == message
        &&& self.digest() == sha256(message)
        &&& is_header_size(message, self.header() as int)
    }

    /// What becomes of a serialized message: it must fit `maximum` bytes and have a header block of
    /// at most `LARGEST_HEADER` bytes.
    pub open spec fn settled(message: Seq<u8>, maximum: nat, r: Result<Self, Error>) -> bool {
        match r {
            Ok(draft) => {
                &&& message.len() <= maximum
                &&& draft.holds(message)
                &&& draft.header() <= LARGEST_HEADER
            },
            Err(Error::InvalidInput) => message.len() <= maximum && lacks_header(message),
            Err(Error::Limit) => {
                ||| message.len() > maximum
                ||| exists|size: int|
                    #[trigger] is_header_size(message, size) && size > LARGEST_HEADER
            },
        }
    }

    /// Freezes a serialized message.
    pub fn freeze(message: Vec<u8>, max_mime_bytes: usize) -> (r: Result<Self, Error>)
        ensures
            Self::settled(message@, max_mime_bytes as nat, r),
    {
        if message.len() > max_mime_bytes {
            return Err(Error::Limit);
        }
        match header_size(&message) {
            None => Err(Error::InvalidInput),
            Some(header_bytes) => {
                if header_bytes > LARGEST_HEADER {
                    return Err(Error::Limit);
                }
                let sha256 = digest(message.as_slice());
                Ok(PreparedDraft { bytes: message, sha256, header_bytes })
            },
        }
    }

    /// Composes the message that `input` describes, within `max_mime_bytes` bytes.
    pub fn compose(input: DraftInput, max_mime_bytes: usize) -> (r: Result<Self, Error>)
        ensures
            match input.fault(max_mime_bytes as nat) {
                Some(error) => r == Err::<Self, Error>(error),
                None => Self::settled(input.message(), max_mime_bytes as nat, r),
            },
    {
        input.check(max_mime_bytes)?;
        let body = normalize_body(input.body.as_str());
        let message = serialize_message(
            input.from,
            input.subject,
            input.message_id,
            input.date_unix,
            body,
            filled(input.to),
            filled(input.cc),
            filled(input.bcc),
            input.in_reply_to,
            filled(input.references),
        );
        Self::freeze(message, max_mime_bytes)
    }

    pub fn header_bytes(&self) -> (r: usize)
        ensures
            r == self.header(),
    {
        self.header_bytes
    }

    pub fn bytes(&self) -> (r: &[u8])
        ensures
            r@ == self.message(),
    {
        self.bytes.as_slice()
    }

    pub fn sha256(&self) -> (r: [u8; 32])
        ensures
            r@ == self.digest(),
    {
        self.sha256
    }
}

/// Composition is deterministic: two drafts from equal inputs are the same message with the same
/// digest and the same header block.
pub proof fn equal_inputs_compose_equally(
    input: DraftInput,
    first_maximum: nat,
    second_maximum: nat,
    first: PreparedDraft,
    second: PreparedDraft,
)
    requires
        PreparedDraft::settled(input.message(), first_maximum, Ok(first)),
        PreparedDraft::settled(input.message(), second_maximum, Ok(second)),
    ensures
        first.message() == second.message(),
        first.digest() == second.digest(),
        first.header() == second.header(),
{
    let message = input.message();
    assert(blank_line_ends(message, first.header() as int));
    assert(blank_line_ends(message, second.header() as int));
}

/// The list names exactly these recipients, in this order.
pub open spec fn names_recipients(
    list: Seq<(Option<Seq<char>>, Seq<char>)>,
    recipients: Seq<DraftAddress>,
) -> bool {
    &&& list.len() == recipients.len()
    &&& forall|i: int|
        0 <= i < list.len() ==> {
            &&& (#[trigger] list[i]).1 == recipients[i].address@
            &&& match recipients[i].name {
                Some(name) => list[i].0 == Some(name@),
                None => list[i].0 is None,
            }
        }
}

/// Each header of a composed message is made of the field of the draft that it is called after: `To`
/// names those of `to`, `Cc` those of `cc`, `Bcc` those of `bcc` and nobody else. A header that would
/// name nobody is left out, and so is one that would refer to nothing.
pub proof fn headers_come_from_their_own_fields(
    input: DraftInput,
    to: Seq<(Option<Seq<char>>, Seq<char>)>,
    cc: Seq<(Option<Seq<char>>, Seq<char>)>,
    bcc: Seq<(Option<Seq<char>>, Seq<char>)>,
    reply: Option<Seq<char>>,
    references: Seq<Seq<char>>,
)
    requires
        names_recipients(to, input.to@),
        names_recipients(cc, input.cc@),
        names_recipients(bcc, input.bcc@),
        references.len() == input.references@.len(),
        forall|i: int| 0 <= i < references.len() ==> #[trigger] references[i] == input.references@[i]@,
        reply is Some <==> input.in_reply_to is Some,
        input.in_reply_to matches Some(id) ==> reply == Some(id@),
    ensures
        input.message() == mime_message(
            input.from@,
            input.subject@,
            input.message_id@,
            input.date_unix,
            normalized(input.body@),
            if input.to@.len() > 0 {
                Some(to)
            } else {
                None
            },
            if input.cc@.len() > 0 {
                Some(cc)
            } else {
                None
            },
            if input.bcc@.len() > 0 {
                Some(bcc)
            } else {
                None
            },
            reply,
            if input.references@.len() > 0 {
                Some(references)
            } else {
                None
            },
        ),
{
    let view = |value: DraftAddress| mailbox_view(value);
    assert(input.to@.map_values(view) =~= to) by {
        assert forall|i: int| 0 <= i < to.len() implies to[i] == mailbox_view(input.to@[i]) by {}
    }
    assert(input.cc@.map_values(view) =~= cc) by {
        assert forall|i: int| 0 <= i < cc.len() implies cc[i] == mailbox_view(input.cc@[i]) by {}
    }
    assert(input.bcc@.map_values(view) =~= bcc) by {
        assert forall|i: int| 0 <= i < bcc.len() implies bcc[i] == mailbox_view(input.bcc@[i]) by {}
    }
    assert(input.references@.map_values(|value: String| value@) =~= references);
}

/// The lines of a body stay, and only their ends are written anew: a carriage return with a line feed
/// and each of the two alone all end a line, and every other character is kept.
pub proof fn lines_are_kept(before: Seq<char>, end: Seq<char>, after: Seq<char>)
    requires
        end == seq!['\r', '\n'] || end == seq!['\n'] || end == seq!['\r'],
        end == seq!['\n'] ==> before.len() == 0 || before.last() != '\r',
        end == seq!['\r'] ==> after.len() == 0 || after[0] != '\n',
    ensures
        normalized(before + end + after) == normalized(before) + seq!['\n'] + normalized(after),
        (forall|i: int| 0 <= i < before.len() ==> #[trigger] before[i] != '\r') ==> normalized(before) == before,
{
    normalized_texts_stay(before);
    reveal_with_fuel(normalized, 3);
    if end == seq!['\r', '\n'] {
        assert(seq!['\r', '\n'].drop_last() =~= seq!['\r']);
        assert(seq!['\r'].drop_last() =~= Seq::<char>::empty());
        assert(normalized(end) =~= seq!['\n']);
    } else if end == seq!['\n'] {
        assert(seq!['\n'].drop_last() =~= Seq::<char>::empty());
        assert(normalized(end) =~= seq!['\n']);
    } else {
        assert(seq!['\r'].drop_last() =~= Seq::<char>::empty());
        assert(normalized(end) =~= seq!['\n']);
    }
    texts_are_normalized_apart(before, end);
    texts_are_normalized_apart(before + end, after);
    if forall|i: int| 0 <= i < before.len() ==> #[trigger] before[i] != '\r' {
        assert(!before.contains('\r'));
    }
}

proof fn texts_are_normalized_apart(a: Seq<char>, b: Seq<char>)
    requires
        !(a.len() > 0 && b.len() > 0 && a.last() == '\r' && b[0] == '\n'),
    ensures
        normalized(a + b) == normalized(a) + normalized(b),
    decreases b.len(),
{
    if b.len() == 0 {
        assert(a + b =~= a);
        assert(normalized(a) + normalized(b) =~= normalized(a));
    } else {
        let whole = a + b;
        let shorter = b.drop_last();
        texts_are_normalized_apart(a, shorter);
        assert(whole.drop_last() =~= a + shorter);
        assert(whole.last() == b.last());
        if b.len() > 1 {
            assert(whole[whole.len() - 2] == b[b.len() - 2]);
        } else if a.len() > 0 {
            assert(whole[whole.len() - 2] == a.last());
        }
        assert(normalized(whole) =~= normalized(a) + normalized(b));
    }
}

/// An address is accepted exactly where it is a dot-atom of at most 64 characters, an `@` and a domain
/// name, in at most 254 bytes.
pub proof fn addresses_have_two_sides(local: Seq<char>, host: Seq<char>)
    requires
        forall|i: int| 0 <= i < local.len() ==> #[trigger] local[i] != '@',
    ensures
        (address_fault(local + seq!['@'] + host) is None) == (local.len() <= 64 && is_dot_atom(local)
            && is_domain(host) && utf8_len(local + seq!['@'] + host) <= 254),
        utf8_len(local + seq!['@'] + host) > 254 ==> address_fault(local + seq!['@'] + host) == Some(
            Error::Limit,
        ),
        utf8_len(local) <= 254 ==> address_fault(local) == Some(Error::InvalidInput),
{
    sides_are_found(local, host);
}

proof fn sides_are_found(local: Seq<char>, host: Seq<char>)
    requires
        forall|i: int| 0 <= i < local.len() ==> #[trigger] local[i] != '@',
    ensures
        ({
            let value = local + seq!['@'] + host;
            &&& value.index_of_first('@') == Some(local.len() as int)
            &&& value.take(local.len() as int) == local
            &&& value.skip(local.len() as int + 1) == host
            &&& local.index_of_first('@') is None
        }),
{
    let value = local + seq!['@'] + host;
    value.index_of_first_ensures('@');
    local.index_of_first_ensures('@');
    assert(value[local.len() as int] == '@');
    assert(value.contains('@'));
    let at = value.index_of_first('@')->0;
    if at < local.len() {
        assert(value[at] == local[at]);
    }
    assert(value.take(local.len() as int) =~= local);
    assert(value.skip(local.len() as int + 1) =~= host);
}

/// A message identifier is accepted exactly where it is two dot-atoms around an `@`, in at most 998
/// bytes.
pub proof fn identifiers_have_two_sides(left: Seq<char>, right: Seq<char>)
    requires
        forall|i: int| 0 <= i < left.len() ==> #[trigger] left[i] != '@',
    ensures
        (identifier_fault(left + seq!['@'] + right) is None) == (is_dot_atom(left) && is_dot_atom(right)
            && utf8_len(left + seq!['@'] + right) <= 998),
        utf8_len(left) <= 998 ==> identifier_fault(left) == Some(Error::InvalidInput),
{
    sides_are_found(left, right);
}

/// A label of a domain name: letters, digits and inner hyphens, at most 63 of them.
pub open spec fn is_domain_label(label: Seq<char>) -> bool {
    &&& 1 <= label.len() <= 63
    &&& label[0] != '-' && label.last() != '-'
    &&& forall|i: int|
        0 <= i < label.len() ==> ('a' <= #[trigger] label[i] <= 'z' || 'A' <= label[i] <= 'Z' || '0'
            <= label[i] <= '9' || label[i] == '-')
}

proof fn ascii_fits(c: char)
    ensures
        is_letter_or_digit(c) == ('a' <= c <= 'z' || 'A' <= c <= 'Z' || '0' <= c <= '9'),
{
    assert(c as u32 == c as int);
    if c as int <= 0x7f {
        let d = c as int;
        assert(d as u8 == d);
    }
}

/// A domain name is made of labels with dots between them.
pub proof fn domains_are_made_of_labels(label: Seq<char>, host: Seq<char>)
    requires
        forall|i: int| 0 <= i < label.len() ==> #[trigger] label[i] != '.',
    ensures
        is_domain(label) == is_domain_label(label),
        is_domain(label + seq!['.'] + host) == (is_domain_label(label) && is_domain(host)),
{
    let whole = label + seq!['.'] + host;
    let n = label.len() as int;
    assert(whole.skip(n + 1) =~= host);
    assert(label.subrange(0, n) =~= label);
    assert(whole.subrange(0, n) =~= label);
    assert(forall|i: int| 0 <= i < label.len() ==> whole[i] == label[i]);
    assert(whole[n] == '.');
    assert(forall|i: int| 0 <= i < host.len() ==> whole[n + 1 + i] == #[trigger] host[i]);
    assert(is_domain(label) ==> is_domain_label(label)) by {
        if is_domain(label) {
            assert(!label.subrange(0, n).contains('.'));
            assert(n - 0 <= 63);
            assert forall|i: int| 0 <= i < label.len() implies ('a' <= #[trigger] label[i] <= 'z' || 'A'
                <= label[i] <= 'Z' || '0' <= label[i] <= '9' || label[i] == '-') by {
                let c = label[i];
                ascii_fits(c);
                assert(is_letter_or_digit(label[i]) || label[i] == '-' || label[i] == '.');
            }
        }
    }
    assert(is_domain_label(label) ==> is_domain(label)) by {
        if is_domain_label(label) {
            assert forall|i: int, j: int|
                0 <= i <= j <= label.len() && !(#[trigger] label.subrange(i, j)).contains('.') implies j - i
                <= 63 by {}
        }
    }
    if is_domain(whole) {
        if n > 0 {
            assert(whole[n - 1] == label[n - 1]);
            assert(whole[n] == '.');
        }
        assert(!whole.subrange(0, n).contains('.'));
        assert(host.len() > 0) by {
            assert(whole.last() != '.');
        }
        assert(whole[n + 1] == host[0]);
        assert(whole.last() == host.last());
        assert(is_domain_label(label)) by {
            assert forall|i: int| 0 <= i < label.len() implies ('a' <= #[trigger] label[i] <= 'z' || 'A'
                <= label[i] <= 'Z' || '0' <= label[i] <= '9' || label[i] == '-') by {
                assert(whole[i] == label[i]);
            }
            assert(whole[0] == label[0]);
        }
        assert forall|i: int, j: int| 0 <= i < host.len() && j == i + 1 && j < host.len() implies {
            &&& #[trigger] host[i] == '.' ==> is_letter_or_digit(#[trigger] host[j])
            &&& host[j] == '.' ==> is_letter_or_digit(host[i])
        } by {
            assert(whole[n + 1 + i] == host[i] && whole[n + 1 + j] == host[j]);
        }
        assert forall|i: int, j: int|
            0 <= i <= j <= host.len() && !(#[trigger] host.subrange(i, j)).contains('.') implies j - i <= 63 by {
            assert(whole.subrange(n + 1 + i, n + 1 + j) =~= host.subrange(i, j));
        }
        assert forall|i: int| 0 <= i < host.len() implies (is_letter_or_digit(#[trigger] host[i]) || host[i]
            == '-' || host[i] == '.') by {
            assert(whole[n + 1 + i] == host[i]);
        }
        assert(is_domain(host));
    }
    if is_domain_label(label) && is_domain(host) {
        assert(is_letter_or_digit(label[0]) && is_letter_or_digit(label.last()));
        assert(whole.last() == host.last());
        assert forall|i: int| 0 <= i < whole.len() implies (is_letter_or_digit(#[trigger] whole[i])
            || whole[i] == '-' || whole[i] == '.') by {
            if i < n {
                assert(whole[i] == label[i]);
            } else if i > n {
                assert(whole[i] == host[i - n - 1]);
            }
        }
        assert forall|i: int, j: int| 0 <= i < whole.len() && j == i + 1 && j < whole.len() implies {
            &&& #[trigger] whole[i] == '.' ==> is_letter_or_digit(#[trigger] whole[j])
            &&& whole[j] == '.' ==> is_letter_or_digit(whole[i])
        } by {
            if j < n {
                assert(whole[i] == label[i] && whole[j] == label[j]);
            } else if j == n {
                assert(whole[i] == label.last());
            } else if i == n {
                assert(whole[j] == host[0]);
            } else {
                assert(whole[i] == host[i - n - 1] && whole[j] == host[j - n - 1]);
            }
        }
        assert forall|i: int, j: int|
            0 <= i <= j <= whole.len() && !(#[trigger] whole.subrange(i, j)).contains('.') implies j - i <= 63 by {
            if i <= n < j {
                assert(whole.subrange(i, j)[n - i] == '.');
            } else if i > n {
                assert(host.subrange(i - n - 1, j - n - 1) =~= whole.subrange(i, j));
            }
        }
    }
}

/// A draft is accepted exactly where all of it is in order: the room asked for, at most a hundred
/// recipients, a subject and a body within their sizes and free of control characters and of NUL, at
/// most fifty references, sound addresses and identifiers, and a date that can be written.
pub proof fn sound_drafts_are_accepted(input: DraftInput, maximum: nat)
    ensures
        (input.fault(maximum) is None) == {
            &&& 1 <= maximum <= 8388608
            &&& input.to@.len() + input.cc@.len() + input.bcc@.len() <= 100
            &&& utf8_len(input.subject@) <= 8192
            &&& utf8_len(input.body@) <= maximum
            &&& input.references@.len() <= 50
            &&& address_fault(input.from@) is None
            &&& forall|i: int| 0 <= i < input.to@.len() ==> is_sound_recipient(#[trigger] input.to@[i])
            &&& forall|i: int| 0 <= i < input.cc@.len() ==> is_sound_recipient(#[trigger] input.cc@[i])
            &&& forall|i: int| 0 <= i < input.bcc@.len() ==> is_sound_recipient(#[trigger] input.bcc@[i])
            &&& identifier_fault(input.message_id@) is None
            &&& input.in_reply_to matches Some(id) ==> identifier_fault(id@) is None
            &&& forall|i: int|
                0 <= i < input.references@.len() ==> identifier_fault((#[trigger] input.references@[i])@)
                    is None
            &&& forall|i: int| 0 <= i < input.subject@.len() ==> !is_control(#[trigger] input.subject@[i])
            &&& 0 <= input.date_unix <= 253402300799
            &&& forall|i: int| 0 <= i < input.body@.len() ==> #[trigger] input.body@[i] != '\0'
        },
{
    recipients_are_sound(input.to@);
    recipients_are_sound(input.cc@);
    recipients_are_sound(input.bcc@);
    identifiers_are_sound(input.references@);
    if input.body@.contains('\0') {
        let i = choose|i: int| 0 <= i < input.body@.len() && input.body@[i] == '\0';
        assert(input.body@[i] == '\0');
    } else {
        assert forall|i: int| 0 <= i < input.body@.len() implies #[trigger] input.body@[i] != '\0' by {}
    }
}

/// A recipient with a sound address, and a name, if any, of at most 1024 bytes without control
/// characters.
pub open spec fn is_sound_recipient(recipient: DraftAddress) -> bool {
    &&& address_fault(recipient.address@) is None
    &&& recipient.name matches Some(name) ==> utf8_len(name@) <= 1024 && forall|i: int|
        0 <= i < name@.len() ==> !is_control(#[trigger] name@[i])
}

proof fn recipients_are_sound(list: Seq<DraftAddress>)
    ensures
        (recipients_fault(list) is None) == (forall|i: int|
            0 <= i < list.len() ==> is_sound_recipient(#[trigger] list[i])),
    decreases list.len(),
{
    if list.len() > 0 {
        recipients_are_sound(list.drop_last());
        assert(forall|i: int| 0 <= i < list.len() - 1 ==> list.drop_last()[i] == #[trigger] list[i]);
        assert((recipient_fault(list.last()) is None) == is_sound_recipient(list.last()));
        assert(list[list.len() - 1] == list.last());
        if forall|i: int| 0 <= i < list.len() ==> is_sound_recipient(#[trigger] list[i]) {
            assert forall|i: int| 0 <= i < list.drop_last().len() implies is_sound_recipient(
                #[trigger] list.drop_last()[i],
            ) by {
                assert(list[i] == list.drop_last()[i]);
            }
        }
    }
}

proof fn identifiers_are_sound(list: Seq<String>)
    ensures
        (identifiers_fault(list) is None) == (forall|i: int|
            0 <= i < list.len() ==> identifier_fault((#[trigger] list[i])@) is None),
    decreases list.len(),
{
    if list.len() > 0 {
        identifiers_are_sound(list.drop_last());
        assert(list[list.len() - 1] == list.last());
        if forall|i: int| 0 <= i < list.len() ==> identifier_fault((#[trigger] list[i])@) is None {
            assert forall|i: int| 0 <= i < list.drop_last().len() implies identifier_fault(
                (#[trigger] list.drop_last()[i])@,
            ) is None by {
                assert(list[i] == list.drop_last()[i]);
            }
        } else if identifier_fault(list.last()@) is None {
            let i = choose|i: int| 0 <= i < list.len() && identifier_fault((#[trigger] list[i])@) is Some;
            assert(list.drop_last()[i] == list[i]);
        }
    }
}

/// The headers of a message end with its first empty line: there is one place where they do, the line
/// stands right before it, and none stands earlier.
pub proof fn headers_end_at_the_first_empty_line(bytes: Seq<u8>, size: int, other: int)
    requires
        is_header_size(bytes, size),
    ensures
        4 <= size <= bytes.len(),
        bytes.subrange(size - 4, size) == seq![0x0du8, 0x0au8, 0x0du8, 0x0au8],
        is_header_size(bytes, other) ==> other == size,
        4 <= other < size ==> bytes.subrange(other - 4, other) != seq![0x0du8, 0x0au8, 0x0du8, 0x0au8],
        !lacks_header(bytes),
{
    assert(bytes.subrange(size - 4, size) =~= seq![0x0du8, 0x0au8, 0x0du8, 0x0au8]);
    assert(blank_line_ends(bytes, size));
    if 4 <= other < size {
        let line = bytes.subrange(other - 4, other);
        assert(!blank_line_ends(bytes, other));
        assert(line[0] == bytes[other - 4] && line[1] == bytes[other - 3] && line[2] == bytes[other - 2] && line[3]
            == bytes[other - 1]);
    }
    if is_header_size(bytes, other) {
        assert(blank_line_ends(bytes, other));
    }
}

/// A composed draft holds the message whose headers come from the fields of their names: nobody who only
/// stands among `bcc` stands in another header, and a list without recipients makes no header.
pub proof fn composed_drafts_name_their_recipients(
    input: DraftInput,
    maximum: usize,
    to: Seq<(Option<Seq<char>>, Seq<char>)>,
    cc: Seq<(Option<Seq<char>>, Seq<char>)>,
    bcc: Seq<(Option<Seq<char>>, Seq<char>)>,
    reply: Option<Seq<char>>,
    references: Seq<Seq<char>>,
    r: Result<PreparedDraft, Error>,
)
    requires
        call_ensures(PreparedDraft::compose, (input, maximum), r),
        names_recipients(to, input.to@),
        names_recipients(cc, input.cc@),
        names_recipients(bcc, input.bcc@),
        references.len() == input.references@.len(),
        forall|i: int| 0 <= i < references.len() ==> #[trigger] references[i] == input.references@[i]@,
        reply is Some <==> input.in_reply_to is Some,
        input.in_reply_to matches Some(id) ==> reply == Some(id@),
    ensures
        r matches Ok(draft) ==> draft.holds(
            mime_message(
                input.from@,
                input.subject@,
                input.message_id@,
                input.date_unix,
                normalized(input.body@),
                listed_unless_empty(to),
                listed_unless_empty(cc),
                listed_unless_empty(bcc),
                reply,
                if references.len() > 0 {
                    Some(references)
                } else {
                    None
                },
            ),
        ),
        input.fault(maximum as nat) matches Some(error) ==> r == Err::<PreparedDraft, Error>(error),
{
    headers_come_from_their_own_fields(input, to, cc, bcc, reply, references);
}

/// The recipients of a header, where there are any.
pub open spec fn listed_unless_empty(list: Seq<(Option<Seq<char>>, Seq<char>)>) -> Option<
    Seq<(Option<Seq<char>>, Seq<char>)>,
> {
    if list.len() == 0 {
        None
    } else {
        Some(list)
    }
}

/// A message is frozen where it fits and its headers end within 256 KiB; one without an end of its headers
/// is no message, and a longer one is too long.
pub proof fn messages_are_frozen_within_limits(message: Vec<u8>, maximum: usize, r: Result<PreparedDraft, Error>)
    requires
        call_ensures(PreparedDraft::freeze, (message, maximum), r),
    ensures
        message@.len() > maximum ==> r == Err::<PreparedDraft, Error>(Error::Limit),
        message@.len() <= maximum && lacks_header(message@) ==> r == Err::<PreparedDraft, Error>(Error::InvalidInput),
        forall|size: int|
            #[trigger] is_header_size(message@, size) && message@.len() <= maximum && size <= 256 * 1024 ==> (r
                matches Ok(draft) && draft.holds(message@)),
        forall|size: int|
            #[trigger] is_header_size(message@, size) && size > 256 * 1024 ==> r == Err::<PreparedDraft, Error>(
                Error::Limit,
            ),
{
    assert forall|size: int| #[trigger] is_header_size(message@, size) && message@.len() <= maximum && size <= 256
        * 1024 implies (r matches Ok(draft) && draft.holds(message@)) by {
        assert(blank_line_ends(message@, size));
        if r is Err && exists|other: int| #[trigger] is_header_size(message@, other) && other > LARGEST_HEADER {
            let other = choose|other: int| #[trigger] is_header_size(message@, other) && other > LARGEST_HEADER;
            headers_end_at_the_first_empty_line(message@, size, other);
        }
    }
    assert forall|size: int| #[trigger] is_header_size(message@, size) && size > 256 * 1024 implies r == Err::<
        PreparedDraft,
        Error,
    >(Error::Limit) by {
        assert(blank_line_ends(message@, size));
        if let Ok(draft) = r {
            headers_end_at_the_first_empty_line(message@, size, draft.header() as int);
        }
    }
}

/// A draft that is not sound is told as a wrong request, and one that is too large as too large.
pub proof fn faults_of_drafts_are_told_apart(error: Error)
    ensures
        error.reported() is InvalidRequest <==> error is InvalidInput,
        error.reported() is ResponseTooLarge <==> error is Limit,
{
}

} // verus!
