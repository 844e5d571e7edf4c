//! The envelope FETCH contract: requested fields, validation, and normalization.
use vstd::prelude::*;

use super::types::{Address, Envelope, Item};
use super::Error;
use crate::domain::draft::{dot_atom, is_dot_atom};
use crate::domain::search::{digit_at, digit_value, MessageAddress, MessageMetadata, Metadata};
use crate::order::{is_ascending, same_members, sorted_set};
use crate::search::LocatedMessage;
use crate::text::{
    ascii_space, chars_of, control, copy_range, decimal_digit, first_of, from_utf8_lossy,
    is_ascii_space, is_control, last_of, listed, lossy_text, spelled, string_of, text_of,
};

verus! {

/// The fields of one row, each of which was sent exactly once.
pub struct Projection {
    pub uid: u32,
    pub envelope: Envelope,
    pub flags: Vec<String>,
    pub internal_date: String,
    pub size: u32,
}

/// The place of a field among those that are asked for.
pub open spec fn field_of(item: Item) -> Option<int> {
    match item {
        Item::Uid(_) => Some(0),
        Item::Envelope(_) => Some(1),
        Item::Flags(_) => Some(2),
        Item::InternalDate(_) => Some(3),
        Item::Rfc822Size(_) => Some(4),
        _ => None,
    }
}

/// The field stands among the items.
pub open spec fn has_field(items: Seq<Item>, field: int) -> bool {
    exists|i: int| 0 <= i < items.len() && field_of(#[trigger] items[i]) == Some(field)
}

/// What is wrong with the first item that is unknown or sent twice.
pub open spec fn fault(items: Seq<Item>) -> Option<Error>
    decreases items.len(),
{
    if items.len() == 0 {
        None
    } else {
        match fault(items.drop_last()) {
            Some(error) => Some(error),
            None => match field_of(items.last()) {
                None => Some(Error::Unsupported),
                Some(field) => if has_field(items.drop_last(), field) {
                    Some(Error::Protocol)
                } else {
                    None
                },
            },
        }
    }
}

/// Every field that is asked for was sent.
pub open spec fn is_full(items: Seq<Item>) -> bool {
    has_field(items, 0) && has_field(items, 1) && has_field(items, 2) && has_field(items, 3)
        && has_field(items, 4)
}

/// The field of a parsed row is the one that the items hold.
pub open spec fn holds(items: Seq<Item>, item: Item) -> bool {
    items.contains(item)
}

impl Projection {
    /// The row gives back the items: each of its fields is one of them.
    pub open spec fn taken_from(self, items: Seq<Item>) -> bool {
        &&& holds(items, Item::Uid(self.uid))
        &&& holds(items, Item::Envelope(self.envelope))
        &&& holds(items, Item::Flags(self.flags))
        &&& holds(items, Item::InternalDate(self.internal_date))
        &&& holds(items, Item::Rfc822Size(self.size))
    }

    /// Rejects unknown, duplicate, and missing fields before the backend can merge rows.
    pub fn parse(items: Vec<Item>) -> (r: Result<Self, Error>)
        ensures
            match r {
                Ok(row) => fault(items@) is None && is_full(items@) && row.taken_from(items@),
                Err(error) => match fault(items@) {
                    Some(fault) => error == fault,
                    None => error == Error::Protocol && !is_full(items@),
                },
            },
    {
        let ghost all = items@;
        let mut rest = items;
        let mut uid: Option<u32> = None;
        let mut envelope: Option<Envelope> = None;
        let mut flags: Option<Vec<String>> = None;
        let mut internal_date: Option<String> = None;
        let mut size: Option<u32> = None;
        let ghost mut done: int = 0;
        assert(all.skip(0) =~= all);
        while rest.len() > 0
            invariant
                0 <= done <= all.len(),
                all == items@,
                rest@ == all.skip(done),
                fault(all.take(done)) is None,
                match uid {
                    Some(value) => has_field(all.take(done), 0) && all.contains(Item::Uid(value)),
                    None => !has_field(all.take(done), 0),
                },
                match envelope {
                    Some(value) => has_field(all.take(done), 1) && all.contains(
                        Item::Envelope(value),
                    ),
                    None => !has_field(all.take(done), 1),
                },
                match flags {
                    Some(value) => has_field(all.take(done), 2) && all.contains(Item::Flags(value)),
                    None => !has_field(all.take(done), 2),
                },
                match internal_date {
                    Some(value) => has_field(all.take(done), 3) && all.contains(
                        Item::InternalDate(value),
                    ),
                    None => !has_field(all.take(done), 3),
                },
                match size {
                    Some(value) => has_field(all.take(done), 4) && all.contains(
                        Item::Rfc822Size(value),
                    ),
                    None => !has_field(all.take(done), 4),
                },
            decreases rest@.len(),
        {
            let ghost before = all.take(done);
            let ghost after = all.take(done + 1);
            let item = rest.remove(0);
            proof {
                assert(item == all[done]);
                assert(all.contains(item));
                assert(after.drop_last() =~= before);
                assert(after.last() == item);
                assert(rest@ =~= all.skip(done + 1));
                grown_fields(before, item);
                assert(after =~= before.push(item));
                faults_stay(all, done + 1);
                done = done + 1;
            }
            match item {
                Item::Uid(value) => {
                    if uid.is_some() {
                        return Err(Error::Protocol);
                    }
                    uid = Some(value);
                },
                Item::Envelope(value) => {
                    if envelope.is_some() {
                        return Err(Error::Protocol);
                    }
                    envelope = Some(value);
                },
                Item::Flags(value) => {
                    if flags.is_some() {
                        return Err(Error::Protocol);
                    }
                    flags = Some(value);
                },
                Item::InternalDate(value) => {
                    if internal_date.is_some() {
                        return Err(Error::Protocol);
                    }
                    internal_date = Some(value);
                },
                Item::Rfc822Size(value) => {
                    if size.is_some() {
                        return Err(Error::Protocol);
                    }
                    size = Some(value);
                },
                _ => {
                    return Err(Error::Unsupported);
                },
            }
        }
        assert(all.take(done) =~= all);
        match (uid, envelope, flags, internal_date, size) {
            (Some(uid), Some(envelope), Some(flags), Some(internal_date), Some(size)) => Ok(
                Projection { uid, envelope, flags, internal_date, size },
            ),
            _ => Err(Error::Protocol),
        }
    }
}

proof fn grown_fields(items: Seq<Item>, item: Item)
    ensures
        forall|field: int| #[trigger]
            has_field(items.push(item), field) == (has_field(items, field) || field_of(item)
                == Some(field)),
{
    assert forall|field: int| #[trigger]
        has_field(items.push(item), field) == (has_field(items, field) || field_of(item) == Some(
            field,
        )) by {
        let more = items.push(item);
        if has_field(items, field) {
            let i = choose|i: int|
                0 <= i < items.len() && field_of(#[trigger] items[i]) == Some(field);
            assert(field_of(more[i]) == Some(field));
        }
        if field_of(item) == Some(field) {
            assert(field_of(more[items.len() as int]) == Some(field));
        }
        if has_field(more, field) {
            let i = choose|i: int|
                0 <= i < more.len() && field_of(#[trigger] more[i]) == Some(field);
            if i < items.len() {
                assert(field_of(items[i]) == Some(field));
            }
        }
    }
}

proof fn faults_stay(items: Seq<Item>, count: int)
    requires
        0 <= count <= items.len(),
    ensures
        fault(items.take(count)) matches Some(error) ==> fault(items) == Some(error),
    decreases items.len() - count,
{
    if count < items.len() {
        assert(items.take(count + 1).drop_last() =~= items.take(count));
        faults_stay(items, count + 1);
    } else {
        assert(items.take(count) =~= items);
    }
}

/// The bytes of an optional value.
pub open spec fn octets(value: Option<Vec<u8>>) -> nat {
    match value {
        Some(value) => value@.len(),
        None => 0,
    }
}

pub open spec fn address_octets(address: Address) -> nat {
    octets(address.name) + octets(address.route) + octets(address.mailbox) + octets(address.host)
}

pub open spec fn list_octets(list: Seq<Address>) -> nat
    decreases list.len(),
{
    if list.len() == 0 {
        0
    } else {
        list_octets(list.drop_last()) + address_octets(list.last())
    }
}

/// The source bytes of all fields of an envelope.
pub open spec fn envelope_octets(envelope: Envelope) -> nat {
    octets(envelope.date) + octets(envelope.subject) + octets(envelope.in_reply_to) + octets(
        envelope.message_id,
    ) + list_octets(envelope.from@) + list_octets(envelope.sender@) + list_octets(
        envelope.reply_to@,
    ) + list_octets(envelope.to@) + list_octets(envelope.cc@) + list_octets(envelope.bcc@)
}

fn spend(remaining: usize, value: &Option<Vec<u8>>) -> (r: Option<usize>)
    ensures
        r == (if octets(*value) <= remaining {
            Some((remaining - octets(*value)) as usize)
        } else {
            None
        }),
{
    match value {
        Some(value) => if value.len() <= remaining {
            Some(remaining - value.len())
        } else {
            None
        },
        None => Some(remaining),
    }
}

fn spend_address(remaining: usize, address: &Address) -> (r: Option<usize>)
    ensures
        r == (if address_octets(*address) <= remaining {
            Some((remaining - address_octets(*address)) as usize)
        } else {
            None
        }),
{
    let remaining: usize = match spend(remaining, &address.name) {
        Some(remaining) => remaining,
        None => {
            return None;
        },
    };
    let remaining: usize = match spend(remaining, &address.route) {
        Some(remaining) => remaining,
        None => {
            return None;
        },
    };
    let remaining: usize = match spend(remaining, &address.mailbox) {
        Some(remaining) => remaining,
        None => {
            return None;
        },
    };
    spend(remaining, &address.host)
}

fn spend_list(remaining: usize, list: &Vec<Address>) -> (r: Option<usize>)
    ensures
        r == (if list_octets(list@) <= remaining {
            Some((remaining - list_octets(list@)) as usize)
        } else {
            None
        }),
{
    let mut left: usize = remaining;
    for i in 0..list.len()
        invariant
            list_octets(list@.take(i as int)) <= remaining,
            left == remaining - list_octets(list@.take(i as int)),
    {
        assert(list@.take(i + 1).drop_last() =~= list@.take(i as int));
        left = match spend_address(left, &list[i]) {
            Some(left) => left,
            None => {
                proof {
                    lists_grow(list@, i + 1);
                }
                return None;
            },
        };
    }
    assert(list@.take(list@.len() as int) =~= list@);
    Some(left)
}

proof fn lists_grow(list: Seq<Address>, count: int)
    requires
        0 <= count <= list.len(),
    ensures
        list_octets(list.take(count)) <= list_octets(list),
    decreases list.len() - count,
{
    if count < list.len() {
        assert(list.take(count + 1).drop_last() =~= list.take(count));
        lists_grow(list, count + 1);
    } else {
        assert(list.take(count) =~= list);
    }
}

fn spend_envelope(maximum: usize, envelope: &Envelope) -> (r: Option<usize>)
    ensures
        r is Some <==> envelope_octets(*envelope) <= maximum,
{
    let left: usize = spend(maximum, &envelope.date)?;
    let left: usize = spend(left, &envelope.subject)?;
    let left: usize = spend(left, &envelope.in_reply_to)?;
    let left: usize = spend(left, &envelope.message_id)?;
    let left: usize = spend_list(left, &envelope.from)?;
    let left: usize = spend_list(left, &envelope.sender)?;
    let left: usize = spend_list(left, &envelope.reply_to)?;
    let left: usize = spend_list(left, &envelope.to)?;
    let left: usize = spend_list(left, &envelope.cc)?;
    spend_list(left, &envelope.bcc)
}

impl Projection {
    /// Bound source field octets before malformed/encoded metadata can shrink or grow.
    pub fn check_header_bytes(&self, maximum: usize) -> (r: Result<(), Error>)
        ensures
            r == (if envelope_octets(self.envelope) <= maximum {
                Ok::<(), Error>(())
            } else {
                Err(Error::Limit)
            }),
    {
        match spend_envelope(maximum, &self.envelope) {
            Some(_) => Ok(()),
            None => Err(Error::Limit),
        }
    }
}

/// The text of a header value without line breaks and encoded words: `None` where there is none.
pub uninterp spec fn unstructured_text(line: Seq<u8>) -> Option<Seq<char>>;

/// `MessageStream::parse_unstructured` of `mail_parser`. The contract names the text that it reads; the
/// only other answer that it gives is that the value is empty.
#[verifier::external_body]
fn parse_unstructured(line: &[u8]) -> (r: Option<String>)
    ensures
        match r {
            Some(text) => unstructured_text(line@) == Some(text@),
            None => unstructured_text(line@) is None,
        },
{
    match mail_parser::parsers::MessageStream::new(line).parse_unstructured() {
        mail_parser::HeaderValue::Text(text) => Some(text.into_owned()),
        _ => None,
    }
}

/// A line break is followed by white space that continues the line, and a carriage return by a line feed.
pub open spec fn is_folded(bytes: Seq<u8>) -> bool {
    forall|i: int|
        0 <= i < bytes.len() ==> {
            &&& #[trigger] bytes[i] == 0x0a ==> i + 1 < bytes.len() && (bytes[i + 1] == 0x20
                || bytes[i + 1] == 0x09)
            &&& bytes[i] == 0x0d ==> i + 1 < bytes.len() && bytes[i + 1] == 0x0a
        }
}

pub open spec fn is_header_char(c: char) -> bool {
    !is_control(c) || c == '\r' || c == '\n' || c == '\t'
}

/// The bytes are one header value: UTF-8 without control characters, folded as header lines are.
pub open spec fn is_header_value(bytes: Seq<u8>) -> bool {
    match spelled(bytes) {
        Some(text) => are_header_chars(text) && is_folded(bytes),
        None => false,
    }
}

pub open spec fn are_header_chars(text: Seq<char>) -> bool {
    forall|i: int| 0 <= i < text.len() ==> is_header_char(#[trigger] text[i])
}

pub open spec fn is_blank(bytes: Seq<u8>) -> bool {
    forall|i: int| 0 <= i < bytes.len() ==> is_ascii_space(#[trigger] bytes[i])
}

/// What a header value says, given what was read from it as one line.
pub open spec fn header_meaning(bytes: Seq<u8>, read: Option<Seq<char>>) -> Option<Seq<char>> {
    if !is_header_value(bytes) {
        None
    } else if read is Some {
        read
    } else if is_blank(bytes) {
        Some(Seq::empty())
    } else {
        None
    }
}

pub open spec fn header_line(bytes: Seq<u8>) -> Seq<u8> {
    bytes + seq![0x0du8, 0x0au8]
}

/// Whether the bytes are one header value.
pub fn header_value(bytes: &[u8]) -> (r: bool)
    ensures
        r == is_header_value(bytes@),
{
    let text = match text_of(bytes) {
        Some(text) => text,
        None => {
            return false;
        },
    };
    let chars = chars_of(text.as_str());
    for i in 0..chars.len()
        invariant
            chars@ == text@,
            spelled(bytes@) == Some(text@),
            forall|j: int| 0 <= j < i ==> is_header_char(#[trigger] text@[j]),
    {
        let c = chars[i];
        if control(c) && c != '\r' && c != '\n' && c != '\t' {
            assert(!is_header_char(text@[i as int]));
            return false;
        }
    }
    // A literal is one header value; an embedded new header is malformed metadata.
    for i in 0..bytes.len()
        invariant
            forall|j: int|
                0 <= j < i ==> {
                    &&& #[trigger] bytes@[j] == 0x0a ==> j + 1 < bytes@.len() && (bytes@[j + 1]
                        == 0x20 || bytes@[j + 1] == 0x09)
                    &&& bytes@[j] == 0x0d ==> j + 1 < bytes@.len() && bytes@[j + 1] == 0x0a
                },
    {
        let next: u8 = if i + 1 < bytes.len() {
            bytes[i + 1]
        } else {
            0
        };
        if bytes[i] == 0x0a && next != 0x20 && next != 0x09 {
            assert(bytes@[i as int] == 0x0a);
            return false;
        }
        if bytes[i] == 0x0d && next != 0x0a {
            assert(bytes@[i as int] == 0x0d);
            return false;
        }
    }
    true
}

/// What a header value says, given what was read from it as one line.
pub fn settle_header(bytes: &[u8], read: Option<String>) -> (r: Option<String>)
    ensures
        match r {
            Some(text) => header_meaning(
                bytes@,
                match read {
                    Some(read) => Some(read@),
                    None => None,
                },
            ) == Some(text@),
            None => header_meaning(
                bytes@,
                match read {
                    Some(read) => Some(read@),
                    None => None,
                },
            ) is None,
        },
{
    if !header_value(bytes) {
        return None;
    }
    match read {
        Some(text) => Some(text),
        None => {
            for i in 0..bytes.len()
                invariant
                    is_header_value(bytes@),
                    read is None,
                    forall|j: int| 0 <= j < i ==> is_ascii_space(#[trigger] bytes@[j]),
            {
                if !ascii_space(bytes[i]) {
                    assert(!is_ascii_space(bytes@[i as int]));
                    return None;
                }
            }
            let empty = String::new();
            assert(empty@ =~= Seq::<char>::empty());
            Some(empty)
        },
    }
}

/// The decoded text of a header value.
pub open spec fn header_says(bytes: Seq<u8>) -> Option<Seq<char>> {
    header_meaning(bytes, unstructured_text(header_line(bytes)))
}

pub fn header_text(bytes: &[u8]) -> (r: Option<String>)
    ensures
        match r {
            Some(text) => header_says(bytes@) == Some(text@),
            None => header_says(bytes@) is None,
        },
{
    if !header_value(bytes) {
        return None;
    }
    let mut line = copy_range(bytes, 0, bytes.len());
    line.push(0x0d);
    line.push(0x0a);
    assert(line@ =~= header_line(bytes@));
    let read = parse_unstructured(line.as_slice());
    settle_header(bytes, read)
}

/// A date as a message states it.
#[derive(Clone, Copy, Debug, PartialEq, Eq, Structural)]
pub struct SentDate {
    pub year: u16,
    pub month: u8,
    pub day: u8,
    pub hour: u8,
    pub minute: u8,
    pub second: u8,
    pub before_gmt: bool,
    pub zone_hour: u8,
    pub zone_minute: u8,
}

/// The date that a text states in the form of message headers.
pub uninterp spec fn stated_date(text: Seq<char>) -> Option<SentDate>;

/// `DateTime::parse_rfc822` of `mail_parser`. The contract names the date that it reads, field by field.
/// The length bound keeps its count of open comments from running over.
#[verifier::external_body]
fn parse_rfc822(text: &str) -> (r: Option<SentDate>)
    requires
        text@.len() <= 0x7fff_ffff,
    ensures
        r == stated_date(text@),
{
    let date = mail_parser::DateTime::parse_rfc822(text)?;
    Some(SentDate {
        year: date.year,
        month: date.month,
        day: date.day,
        hour: date.hour,
        minute: date.minute,
        second: date.second,
        before_gmt: date.tz_before_gmt,
        zone_hour: date.tz_hour,
        zone_minute: date.tz_minute,
    })
}

impl SentDate {
    /// Every field is within the range of a clock and a calendar of the last and the next centuries.
    pub open spec fn valid(self) -> bool {
        &&& 1900 <= self.year <= 3000
        &&& 1 <= self.month <= 12
        &&& 1 <= self.day <= 31
        &&& self.hour <= 23
        &&& self.minute <= 59
        &&& self.second <= 59
        &&& self.zone_hour <= 23
        &&& self.zone_minute <= 59
    }

    pub fn is_valid(&self) -> (r: bool)
        ensures
            r == self.valid(),
    {
        1900 <= self.year && self.year <= 3000 && 1 <= self.month && self.month <= 12 && 1
            <= self.day && self.day <= 31 && self.hour <= 23 && self.minute <= 59 && self.second
            <= 59 && self.zone_hour <= 23 && self.zone_minute <= 59
    }

    /// The date in the form `2001-02-03T04:05:06+07:08`, or with a `Z` where it is in universal time.
    pub open spec fn timestamp(self) -> Seq<char> {
        let zone = if self.zone_hour != 0 || self.zone_minute != 0 {
            seq![
                if self.before_gmt {
                    '-'
                } else {
                    '+'
                },
            ] + two_digits(self.zone_hour) + seq![':'] + two_digits(self.zone_minute)
        } else {
            seq!['Z']
        };
        seq![
            digit_at(self.year as int, 1000),
            digit_at(self.year as int, 100),
            digit_at(self.year as int, 10),
            digit_at(self.year as int, 1),
            '-',
        ] + two_digits(self.month) + seq!['-'] + two_digits(self.day) + seq!['T'] + two_digits(
            self.hour,
        ) + seq![':'] + two_digits(self.minute) + seq![':'] + two_digits(self.second) + zone
    }

    pub fn to_rfc3339(&self) -> (r: String)
        requires
            self.valid(),
        ensures
            r@ == self.timestamp(),
    {
        let mut out = String::new();
        push_digit(&mut out, self.year / 1000);
        push_digit(&mut out, self.year / 100);
        push_digit(&mut out, self.year / 10);
        push_digit(&mut out, self.year);
        out.push('-');
        push_two(&mut out, self.month);
        out.push('-');
        push_two(&mut out, self.day);
        out.push('T');
        push_two(&mut out, self.hour);
        out.push(':');
        push_two(&mut out, self.minute);
        out.push(':');
        push_two(&mut out, self.second);
        if self.zone_hour != 0 || self.zone_minute != 0 {
            out.push(
                if self.before_gmt {
                    '-'
                } else {
                    '+'
                },
            );
            push_two(&mut out, self.zone_hour);
            out.push(':');
            push_two(&mut out, self.zone_minute);
        } else {
            out.push('Z');
        }
        assert(out@ =~= self.timestamp());
        out
    }
}

/// A number below one hundred in two digits.
pub open spec fn two_digits(value: u8) -> Seq<char> {
    seq![digit_at(value as int, 10), digit_at(value as int, 1)]
}

fn push_digit(out: &mut String, value: u16)
    ensures
        final(out)@ == old(out)@.push(decimal_digit((value % 10) as nat)),
{
    let digit: u8 = (value % 10) as u8;
    out.push((0x30 + digit) as char);
}

fn push_two(out: &mut String, value: u8)
    ensures
        final(out)@ == old(out)@ + two_digits(value),
{
    let ghost before = out@;
    push_digit(out, (value / 10) as u16);
    push_digit(out, value as u16);
    assert(out@ =~= before + two_digits(value));
}

/// The date of a message in universal form, where the stated one is valid.
pub open spec fn date_says(bytes: Seq<u8>) -> Option<Seq<char>> {
    match spelled(bytes) {
        None => None,
        Some(text) => settled_date(stated_date(text)),
    }
}

pub open spec fn settled_date(date: Option<SentDate>) -> Option<Seq<char>> {
    match date {
        Some(date) => if date.valid() {
            Some(date.timestamp())
        } else {
            None
        },
        None => None,
    }
}

/// The date in universal form, where it is valid.
pub fn settle_date(date: Option<SentDate>) -> (r: Option<String>)
    ensures
        match r {
            Some(text) => settled_date(date) == Some(text@),
            None => settled_date(date) is None,
        },
{
    match date {
        Some(date) => if date.is_valid() {
            Some(date.to_rfc3339())
        } else {
            None
        },
        None => None,
    }
}

pub fn sent_date(bytes: &[u8]) -> (r: Option<String>)
    requires
        bytes@.len() <= 0x7fff_ffff,
    ensures
        match r {
            Some(text) => date_says(bytes@) == Some(text@),
            None => date_says(bytes@) is None,
        },
{
    match text_of(bytes) {
        None => None,
        Some(text) => {
            let chars = chars_of(text.as_str());
            if chars.len() > 0x7fff_ffff {
                proof {
                    characters_take_bytes(text@);
                }
                return None;
            }
            settle_date(parse_rfc822(text.as_str()))
        },
    }
}

proof fn characters_take_bytes(text: Seq<char>)
    ensures
        text.len() <= vstd::utf8::encode_utf8(text).len(),
    decreases text.len(),
{
    if text.len() > 0 {
        characters_take_bytes(text.drop_first());
    }
}

/// A dotted name, or an address literal in square brackets.
pub open spec fn is_domain(s: Seq<char>) -> bool {
    is_dot_atom(s) || (s.len() >= 3 && s[0] == '[' && s.last() == ']' && forall|i: int|
        1 <= i < s.len() - 1 ==> is_literal_char(#[trigger] s[i]))
}

pub open spec fn is_literal_char(c: char) -> bool {
    '!' <= c <= '~' && c != '[' && c != ']' && c != '\\'
}

pub fn domain(value: &str) -> (r: bool)
    ensures
        r == is_domain(value@),
{
    if dot_atom(value) {
        return true;
    }
    let chars = chars_of(value);
    if chars.len() < 3 || chars[0] != '[' || chars[chars.len() - 1] != ']' {
        return false;
    }
    for i in 1..chars.len() - 1
        invariant
            chars@ == value@,
            chars@.len() >= 3,
            !is_dot_atom(value@),
            forall|j: int| 1 <= j < i ==> is_literal_char(#[trigger] value@[j]),
    {
        let c = chars[i];
        if !('!' <= c && c <= '~' && c != '[' && c != ']' && c != '\\') {
            assert(!is_literal_char(value@[i as int]));
            return false;
        }
    }
    true
}

pub open spec fn is_fold_char(c: char) -> bool {
    c == ' ' || c == '\t' || c == '\r' || c == '\n'
}

/// Where the white space from `i` on ends.
pub open spec fn blanks_end(s: Seq<char>, i: int) -> int
    decreases s.len() - i,
{
    if 0 <= i < s.len() && is_fold_char(s[i]) {
        blanks_end(s, i + 1)
    } else {
        i
    }
}

/// Where the comment that is `depth` deep at `i` ends, if it does and is at most twenty deep.
pub open spec fn comment_end(s: Seq<char>, i: int, depth: int, escaped: bool) -> Option<int>
    decreases s.len() - i,
{
    if !(0 <= i < s.len()) {
        None
    } else if escaped {
        comment_end(s, i + 1, depth, false)
    } else if s[i] == '\\' {
        comment_end(s, i + 1, depth, true)
    } else if s[i] == '(' {
        if depth >= 20 {
            None
        } else {
            comment_end(s, i + 1, depth + 1, false)
        }
    } else if s[i] == ')' {
        if depth == 1 {
            Some(i + 1)
        } else {
            comment_end(s, i + 1, depth - 1, false)
        }
    } else {
        comment_end(s, i + 1, depth, false)
    }
}

proof fn comments_advance(s: Seq<char>, i: int, depth: int, escaped: bool)
    ensures
        comment_end(s, i, depth, escaped) matches Some(end) ==> i < end <= s.len(),
    decreases s.len() - i,
{
    if 0 <= i < s.len() {
        comments_advance(s, i + 1, depth, false);
        comments_advance(s, i + 1, depth, true);
        comments_advance(s, i + 1, depth + 1, false);
        comments_advance(s, i + 1, depth - 1, false);
    }
}

proof fn blanks_advance(s: Seq<char>, i: int)
    requires
        0 <= i <= s.len(),
    ensures
        i <= blanks_end(s, i) <= s.len(),
    decreases s.len() - i,
{
    if i < s.len() && is_fold_char(s[i]) {
        blanks_advance(s, i + 1);
    }
}

/// Where the white space and the comments from `i` on end, if every comment does.
pub open spec fn comments_end(s: Seq<char>, i: int) -> Option<int>
    decreases s.len() - i,
    when 0 <= i <= s.len()
    via comments_end_later
{
    let start = blanks_end(s, i);
    if start < s.len() && s[start] == '(' {
        match comment_end(s, start, 0, false) {
            Some(end) => comments_end(s, end),
            None => None,
        }
    } else {
        Some(start)
    }
}

#[via_fn]
proof fn comments_end_later(s: Seq<char>, i: int) {
    blanks_advance(s, i);
    comments_advance(s, blanks_end(s, i), 0, false);
}

/// Where the comment that starts at `start` ends.
fn skip_comment(chars: &Vec<char>, start: usize) -> (r: Option<usize>)
    requires
        start < chars@.len(),
        chars@[start as int] == '(',
    ensures
        match r {
            Some(end) => comment_end(chars@, start as int, 0, false) == Some(end as int) && start
                < end <= chars@.len(),
            None => comment_end(chars@, start as int, 0, false) is None,
        },
{
    let mut depth: usize = 0;
    let mut escaped = false;
    let mut i: usize = start;
    while i < chars.len()
        invariant
            start <= i <= chars@.len(),
            start < chars@.len(),
            chars@[start as int] == '(',
            depth <= 20,
            i == start ==> depth == 0 && !escaped,
            i > start ==> depth >= 1,
            comment_end(chars@, i as int, depth as int, escaped) == comment_end(
                chars@,
                start as int,
                0,
                false,
            ),
        decreases chars@.len() - i,
    {
        let c = chars[i];
        if escaped {
            escaped = false;
        } else if c == '\\' {
            escaped = true;
        } else if c == '(' {
            if depth >= 20 {
                return None;
            }
            depth = depth + 1;
        } else if c == ')' {
            if depth == 1 {
                return Some(i + 1);
            }
            depth = depth - 1;
        }
        i = i + 1;
    }
    None
}

/// Where the white space and the comments from `from` on end.
pub fn skip_comments(chars: &Vec<char>, from: usize) -> (r: Option<usize>)
    requires
        from <= chars@.len(),
    ensures
        match r {
            Some(end) => comments_end(chars@, from as int) == Some(end as int) && from <= end
                <= chars@.len(),
            None => comments_end(chars@, from as int) is None,
        },
{
    let mut i: usize = from;
    loop
        invariant
            from <= i <= chars@.len(),
            comments_end(chars@, i as int) == comments_end(chars@, from as int),
        decreases chars@.len() - i,
    {
        let ghost start = i;
        while i < chars.len() && (chars[i] == ' ' || chars[i] == '\t' || chars[i] == '\r'
            || chars[i] == '\n')
            invariant
                start <= i <= chars@.len(),
                blanks_end(chars@, i as int) == blanks_end(chars@, start as int),
            decreases chars@.len() - i,
        {
            i = i + 1;
        }
        if i >= chars.len() || chars[i] != '(' {
            return Some(i);
        }
        match skip_comment(chars, i) {
            Some(end) => {
                i = end;
            },
            None => {
                return None;
            },
        }
    }
}

/// The identifier of a message between angle brackets, with comments around it at most.
pub open spec fn identifier_of(s: Seq<char>) -> Option<Seq<char>> {
    match comments_end(s, 0) {
        Some(start) => if start < s.len() && s[start] == '<' {
            let rest = s.skip(start + 1);
            match rest.index_of_last('>') {
                Some(close) => {
                    let identifier = rest.take(close);
                    let tail = rest.skip(close + 1);
                    if comments_end(tail, 0) == Some(tail.len() as int) && is_identifier(
                        identifier,
                    ) {
                        Some(seq!['<'] + identifier + seq!['>'])
                    } else {
                        None
                    }
                },
                None => None,
            }
        } else {
            None
        },
        None => None,
    }
}

/// A dotted name, the first at-sign, and a domain.
pub open spec fn is_identifier(s: Seq<char>) -> bool {
    s.index_of_first('@') matches Some(at) && is_dot_atom(s.take(at)) && is_domain(s.skip(at + 1))
}

fn identifier(chars: &Vec<char>) -> (r: bool)
    ensures
        r == is_identifier(chars@),
{
    let count: usize = chars.len();
    match first_of(chars, '@') {
        Some(at) => {
            let local = string_of(chars, 0, at);
            let host = string_of(chars, at + 1, count);
            assert(local@ =~= chars@.take(at as int));
            assert(host@ =~= chars@.skip(at + 1));
            dot_atom(local.as_str()) && domain(host.as_str())
        },
        None => false,
    }
}

fn part(chars: &Vec<char>, first: usize, last: usize) -> (r: Vec<char>)
    requires
        first <= last <= chars@.len(),
    ensures
        r@ == chars@.subrange(first as int, last as int),
{
    let text = string_of(chars, first, last);
    chars_of(text.as_str())
}

/// What the bytes say as a message identifier.
pub open spec fn identifier_says(bytes: Seq<u8>) -> Option<Seq<char>> {
    match spelled(bytes) {
        Some(text) => identifier_of(text),
        None => None,
    }
}

pub fn message_id(bytes: &[u8]) -> (r: Option<String>)
    ensures
        match r {
            Some(text) => identifier_says(bytes@) == Some(text@),
            None => identifier_says(bytes@) is None,
        },
{
    let text = text_of(bytes)?;
    let chars = chars_of(text.as_str());
    let start: usize = skip_comments(&chars, 0)?;
    if start >= chars.len() || chars[start] != '<' {
        return None;
    }
    let rest = part(&chars, start + 1, chars.len());
    assert(rest@ =~= chars@.skip(start + 1));
    let close: usize = last_of(&rest, '>')?;
    let inner = part(&rest, 0, close);
    let tail = part(&rest, close + 1, rest.len());
    assert(inner@ =~= rest@.take(close as int));
    assert(tail@ =~= rest@.skip(close + 1));
    let end: usize = skip_comments(&tail, 0)?;
    if end != tail.len() || !identifier(&inner) {
        return None;
    }
    let mut out = String::new();
    out.push('<');
    let name = string_of(&inner, 0, inner.len());
    out.push_str(name.as_str());
    out.push('>');
    assert(name@ =~= inner@);
    assert(out@ =~= seq!['<'] + inner@ + seq!['>']);
    Some(out)
}

/// An address of a message: its display name, if it has one, and the address itself.
pub type AddressView = (Option<Seq<char>>, Seq<char>);

pub open spec fn address_view(address: MessageAddress) -> AddressView {
    (
        match address.name {
            Some(name) => Some(name@),
            None => None,
        },
        address.address@,
    )
}

pub open spec fn address_views(list: Seq<MessageAddress>) -> Seq<AddressView> {
    list.map_values(|address: MessageAddress| address_view(address))
}

/// The text with a backslash before every backslash and quotation mark.
pub open spec fn escaped(s: Seq<char>) -> Seq<char>
    decreases s.len(),
{
    if s.len() == 0 {
        Seq::empty()
    } else {
        let c = s.last();
        escaped(s.drop_last()) + (if c == '\\' || c == '"' {
            seq!['\\', c]
        } else {
            seq![c]
        })
    }
}

fn escape(text: &str) -> (r: String)
    ensures
        r@ == escaped(text@),
{
    let chars = chars_of(text);
    let mut out = String::new();
    assert(chars@.take(0) =~= Seq::<char>::empty());
    assert(out@ =~= Seq::<char>::empty());
    for i in 0..chars.len()
        invariant
            out@ == escaped(chars@.take(i as int)),
    {
        let ghost before = out@;
        assert(chars@.take(i + 1).drop_last() =~= chars@.take(i as int));
        assert(chars@.take(i + 1).last() == chars@[i as int]);
        let c = chars[i];
        if c == '\\' || c == '"' {
            out.push('\\');
            out.push(c);
            assert(out@ =~= before + seq!['\\', c]);
        } else {
            out.push(c);
            assert(out@ =~= before + seq![c]);
        }
    }
    assert(chars@.take(chars@.len() as int) =~= chars@);
    out
}

/// The local part as it stands in an address: quoted where it is more than atoms and dots.
pub open spec fn local_part(local: Seq<char>) -> Seq<char> {
    if is_dot_atom(local) {
        local
    } else {
        seq!['"'] + escaped(local) + seq!['"']
    }
}

pub open spec fn has_no_control(s: Seq<char>) -> bool {
    forall|i: int| 0 <= i < s.len() ==> !is_control(#[trigger] s[i])
}

/// The address of one sender or recipient, where it is well formed.
pub open spec fn address_says(
    name: Option<Vec<u8>>,
    mailbox: Seq<u8>,
    host: Seq<u8>,
) -> Option<AddressView> {
    match (spelled(mailbox), spelled(host)) {
        (Some(local), Some(host)) => if local.len() > 0 && has_no_control(local) && is_domain(
            host,
        ) {
            let address = local_part(local) + seq!['@'] + host;
            match name {
                None => Some((None, address)),
                Some(name) => match header_says(name@) {
                    Some(name) => Some((Some(name), address)),
                    None => None,
                },
            }
        } else {
            None
        },
        _ => None,
    }
}

fn no_control(text: &str) -> (r: bool)
    ensures
        r == has_no_control(text@),
{
    let chars = chars_of(text);
    for i in 0..chars.len()
        invariant
            chars@ == text@,
            forall|j: int| 0 <= j < i ==> !is_control(#[trigger] text@[j]),
    {
        if control(chars[i]) {
            assert(is_control(text@[i as int]));
            return false;
        }
    }
    true
}

fn parsed_address(name: &Option<Vec<u8>>, mailbox: &Vec<u8>, host: &Vec<u8>) -> (r: Option<
    MessageAddress,
>)
    ensures
        match r {
            Some(address) => address_says(*name, mailbox@, host@) == Some(address_view(address)),
            None => address_says(*name, mailbox@, host@) is None,
        },
{
    let local = text_of(mailbox.as_slice())?;
    let host = text_of(host.as_slice())?;
    let chars = chars_of(local.as_str());
    if chars.len() == 0 || !no_control(local.as_str()) || !domain(host.as_str()) {
        return None;
    }
    let mut address = String::new();
    if dot_atom(local.as_str()) {
        address.push_str(local.as_str());
    } else {
        address.push('"');
        let text = escape(local.as_str());
        address.push_str(text.as_str());
        address.push('"');
    }
    assert(address@ =~= local_part(local@));
    address.push('@');
    address.push_str(host.as_str());
    assert(address@ =~= local_part(local@) + seq!['@'] + host@);
    match name {
        None => Some(MessageAddress { name: None, address }),
        Some(name) => match header_text(name.as_slice()) {
            Some(name) => Some(MessageAddress { name: Some(name), address }),
            None => None,
        },
    }
}

/// The addresses so far and whether a group is open, or nothing where the list is malformed.
pub open spec fn gathered(list: Seq<Address>) -> Option<(bool, Seq<AddressView>)>
    decreases list.len(),
{
    if list.len() == 0 {
        Some((false, Seq::empty()))
    } else {
        match gathered(list.drop_last()) {
            None => None,
            Some((group, found)) => {
                let last = list.last();
                match (last.mailbox, last.host) {
                    (Some(name), None) => if !group && (spelled(name@) matches Some(name)
                        && name.len() > 0) {
                        Some((true, found))
                    } else {
                        None
                    },
                    (None, None) => if group {
                        Some((false, found))
                    } else {
                        None
                    },
                    (Some(mailbox), Some(host)) => match address_says(
                        last.name,
                        mailbox@,
                        host@,
                    ) {
                        Some(address) => Some((group, found.push(address))),
                        None => None,
                    },
                    (None, Some(_)) => None,
                }
            },
        }
    }
}

/// The addresses that a list names. Groups are left open to their members and must be closed.
pub open spec fn addresses_say(list: Seq<Address>) -> Metadata<Seq<AddressView>> {
    if list.len() == 0 {
        Metadata::Missing
    } else {
        match gathered(list) {
            Some((false, found)) => Metadata::Present(found),
            _ => Metadata::Malformed,
        }
    }
}

/// The metadata says what the view says.
pub open spec fn addresses_are(
    metadata: Metadata<Vec<MessageAddress>>,
    view: Metadata<Seq<AddressView>>,
) -> bool {
    match metadata {
        Metadata::Present(list) => view == Metadata::Present(address_views(list@)),
        Metadata::Missing => view is Missing,
        Metadata::Malformed => view is Malformed,
    }
}

proof fn malformed_stays(list: Seq<Address>, count: int)
    requires
        0 <= count <= list.len(),
        gathered(list.take(count)) is None,
    ensures
        gathered(list) is None,
    decreases list.len() - count,
{
    if count < list.len() {
        assert(list.take(count + 1).drop_last() =~= list.take(count));
        malformed_stays(list, count + 1);
    } else {
        assert(list.take(count) =~= list);
    }
}

pub fn parsed_addresses(values: &Vec<Address>) -> (r: Metadata<Vec<MessageAddress>>)
    ensures
        addresses_are(r, addresses_say(values@)),
{
    if values.len() == 0 {
        return Metadata::Missing;
    }
    let mut addresses: Vec<MessageAddress> = Vec::new();
    let mut group = false;
    assert(values@.take(0) =~= Seq::<Address>::empty());
    assert(address_views(addresses@) =~= Seq::<AddressView>::empty());
    for i in 0..values.len()
        invariant
            values@.len() > 0,
            gathered(values@.take(i as int)) == Some((group, address_views(addresses@))),
    {
        let ghost next = values@.take(i + 1);
        let ghost earlier = address_views(addresses@);
        assert(next.drop_last() =~= values@.take(i as int));
        assert(next.last() == values@[i as int]);
        let value = &values[i];
        match (&value.mailbox, &value.host) {
            (Some(name), None) => {
                let named = match text_of(name.as_slice()) {
                    Some(name) => chars_of(name.as_str()).len() > 0,
                    None => false,
                };
                if group || !named {
                    proof {
                        malformed_stays(values@, i + 1);
                    }
                    return Metadata::Malformed;
                }
                group = true;
            },
            (None, None) => {
                if !group {
                    proof {
                        malformed_stays(values@, i + 1);
                    }
                    return Metadata::Malformed;
                }
                group = false;
            },
            (Some(mailbox), Some(host)) => match parsed_address(&value.name, mailbox, host) {
                Some(address) => {
                    let ghost view = address_view(address);
                    addresses.push(address);
                    assert(address_views(addresses@) =~= earlier.push(view));
                },
                None => {
                    proof {
                        malformed_stays(values@, i + 1);
                    }
                    return Metadata::Malformed;
                },
            },
            (None, Some(_)) => {
                proof {
                    malformed_stays(values@, i + 1);
                }
                return Metadata::Malformed;
            },
        }
    }
    assert(values@.take(values@.len() as int) =~= values@);
    if group {
        Metadata::Malformed
    } else {
        Metadata::Present(addresses)
    }
}

/// What a field says, by how its bytes are read.
pub open spec fn field_says(value: Option<Vec<u8>>, read: Option<Seq<char>>) -> Metadata<Seq<char>> {
    match value {
        None => Metadata::Missing,
        Some(_) => match read {
            Some(text) => Metadata::Present(text),
            None => Metadata::Malformed,
        },
    }
}

pub open spec fn text_is(metadata: Metadata<String>, view: Metadata<Seq<char>>) -> bool {
    match metadata {
        Metadata::Present(text) => view == Metadata::Present(text@),
        Metadata::Missing => view is Missing,
        Metadata::Malformed => view is Malformed,
    }
}

fn metadata(read: Option<String>) -> (r: Metadata<String>)
    ensures
        match read {
            Some(text) => r == Metadata::Present(text),
            None => r is Malformed,
        },
{
    match read {
        Some(text) => Metadata::Present(text),
        None => Metadata::Malformed,
    }
}

pub open spec fn subject_says(value: Option<Vec<u8>>) -> Metadata<Seq<char>> {
    field_says(
        value,
        match value {
            Some(value) => header_says(value@),
            None => None,
        },
    )
}

pub open spec fn sent_says(value: Option<Vec<u8>>) -> Metadata<Seq<char>> {
    field_says(
        value,
        match value {
            Some(value) => date_says(value@),
            None => None,
        },
    )
}

pub open spec fn id_says(value: Option<Vec<u8>>) -> Metadata<Seq<char>> {
    field_says(
        value,
        match value {
            Some(value) => identifier_says(value@),
            None => None,
        },
    )
}

/// The text of a value that may be missing.
pub open spec fn shows(text: Option<String>, value: Option<Vec<u8>>) -> bool {
    match value {
        Some(value) => text matches Some(text) && text@ == lossy_text(value@),
        None => text is None,
    }
}

fn string(value: &Option<Vec<u8>>) -> (r: Option<String>)
    ensures
        shows(r, *value),
{
    match value {
        Some(value) => Some(from_utf8_lossy(value.as_slice())),
        None => None,
    }
}

/// The texts of the addresses, in their order.
pub open spec fn shows_addresses(texts: Seq<super::Address>, values: Seq<Address>) -> bool {
    &&& texts.len() == values.len()
    &&& forall|i: int|
        0 <= i < values.len() ==> {
            &&& shows((#[trigger] texts[i]).name, values[i].name)
            &&& shows(texts[i].mailbox, values[i].mailbox)
            &&& shows(texts[i].host, values[i].host)
        }
}

fn addresses(values: &Vec<Address>) -> (r: Vec<super::Address>)
    ensures
        shows_addresses(r@, values@),
{
    let mut texts: Vec<super::Address> = Vec::new();
    for i in 0..values.len()
        invariant
            shows_addresses(texts@, values@.take(i as int)),
    {
        let value = &values[i];
        texts.push(
            super::Address {
                name: string(&value.name),
                mailbox: string(&value.mailbox),
                host: string(&value.host),
            },
        );
        assert(values@.take(i + 1).drop_last() =~= values@.take(i as int));
    }
    assert(values@.take(values@.len() as int) =~= values@);
    texts
}

impl Projection {
    /// The row in text, each field as it was sent.
    pub fn normalize(self) -> (r: super::Envelope)
        ensures
            r.uid == self.uid,
            shows(r.subject, self.envelope.subject),
            shows_addresses(r.from@, self.envelope.from@),
            shows_addresses(r.to@, self.envelope.to@),
            shows_addresses(r.cc@, self.envelope.cc@),
            r.received_date == Some(self.internal_date),
            shows(r.sent_date, self.envelope.date),
            r.flags == self.flags,
            shows(r.message_id, self.envelope.message_id),
            r.size == Some(self.size),
    {
        super::Envelope {
            uid: self.uid,
            subject: string(&self.envelope.subject),
            from: addresses(&self.envelope.from),
            to: addresses(&self.envelope.to),
            cc: addresses(&self.envelope.cc),
            received_date: Some(self.internal_date),
            sent_date: string(&self.envelope.date),
            flags: self.flags,
            message_id: string(&self.envelope.message_id),
            size: Some(self.size),
        }
    }

    /// What the row says of a message, with malformed metadata marked as such.
    pub open spec fn tells(self, r: LocatedMessage) -> bool {
        &&& r.uid == self.uid
        &&& text_is(r.metadata.subject, subject_says(self.envelope.subject))
        &&& addresses_are(r.metadata.from, addresses_say(self.envelope.from@))
        &&& addresses_are(r.metadata.to, addresses_say(self.envelope.to@))
        &&& addresses_are(r.metadata.cc, addresses_say(self.envelope.cc@))
        &&& r.metadata.received_date@ == self.internal_date@
        &&& text_is(r.metadata.sent_date, sent_says(self.envelope.date))
        &&& is_ascending(r.metadata.flags@)
        &&& same_members(r.metadata.flags@, self.flags@)
        &&& text_is(r.metadata.message_id, id_says(self.envelope.message_id))
        &&& r.metadata.size == self.size
    }

    /// The message that the row describes.
    pub fn message(self) -> (r: LocatedMessage)
        requires
            octets(self.envelope.date) <= 0x7fff_ffff,
        ensures
            self.tells(r),
    {
        let subject = match &self.envelope.subject {
            Some(value) => metadata(header_text(value.as_slice())),
            None => Metadata::Missing,
        };
        let sent_date = match &self.envelope.date {
            Some(value) => metadata(sent_date(value.as_slice())),
            None => Metadata::Missing,
        };
        let message_id = match &self.envelope.message_id {
            Some(value) => metadata(message_id(value.as_slice())),
            None => Metadata::Missing,
        };
        let from = parsed_addresses(&self.envelope.from);
        let to = parsed_addresses(&self.envelope.to);
        let cc = parsed_addresses(&self.envelope.cc);
        let flags = sorted_set(&self.flags);
        LocatedMessage {
            uid: self.uid,
            metadata: MessageMetadata {
                subject,
                from,
                to,
                cc,
                received_date: self.internal_date,
                sent_date,
                flags,
                message_id,
                size: self.size,
            },
        }
    }
}

/// The minutes by which the local time of a date is ahead of universal time.
pub open spec fn stated_offset(date: SentDate) -> int {
    let minutes = 60 * date.zone_hour + date.zone_minute;
    if date.before_gmt {
        -minutes
    } else {
        minutes
    }
}

/// The minutes ahead of universal time that stand at the end of a timestamp.
pub open spec fn read_offset(text: Seq<char>) -> int {
    if text[19] == 'Z' {
        0
    } else {
        let minutes = 60 * read_pair(text, 20) + read_pair(text, 23);
        if text[19] == '-' {
            -minutes
        } else {
            minutes
        }
    }
}

/// The number that two digits of a text spell.
pub open spec fn read_pair(text: Seq<char>, at: int) -> int {
    10 * digit_value(text[at]) + digit_value(text[at + 1])
}

/// A timestamp reads back to the date that it was written from: the same local time, and the same
/// distance from universal time, with a minus sign exactly where the zone is behind it and not zero.
#[verifier::spinoff_prover]
pub proof fn timestamps_read_back(date: SentDate)
    requires
        date.valid(),
    ensures
        ({
            let text = date.timestamp();
            &&& text.len() == (if stated_offset(date) == 0 {
                20int
            } else {
                25int
            })
            &&& text[4] == '-' && text[7] == '-' && text[10] == 'T' && text[13] == ':' && text[16] == ':'
            &&& date.year == 100 * read_pair(text, 0) + read_pair(text, 2)
            &&& date.month == read_pair(text, 5)
            &&& date.day == read_pair(text, 8)
            &&& date.hour == read_pair(text, 11)
            &&& date.minute == read_pair(text, 14)
            &&& date.second == read_pair(text, 17)
            &&& read_offset(text) == stated_offset(date)
            &&& text[19] == 'Z' <==> stated_offset(date) == 0
            &&& text[19] == '-' <==> stated_offset(date) < 0
            &&& text[19] == '+' <==> stated_offset(date) > 0
            &&& text[19] != 'Z' ==> text[22] == ':'
        }),
{
    let text = date.timestamp();
    let y = date.year as int;
    assert(text[0] == digit_at(y, 1000) && text[1] == digit_at(y, 100) && text[2] == digit_at(y, 10)
        && text[3] == digit_at(y, 1));
    four_digits_read_back(date.year);
    two_digits_read_back(date.month);
    two_digits_read_back(date.day);
    two_digits_read_back(date.hour);
    two_digits_read_back(date.minute);
    two_digits_read_back(date.second);
    two_digits_read_back(date.zone_hour);
    two_digits_read_back(date.zone_minute);
    assert(text[5] == two_digits(date.month)[0] && text[6] == two_digits(date.month)[1]);
    assert(text[8] == two_digits(date.day)[0] && text[9] == two_digits(date.day)[1]);
    assert(text[11] == two_digits(date.hour)[0] && text[12] == two_digits(date.hour)[1]);
    assert(text[14] == two_digits(date.minute)[0] && text[15] == two_digits(date.minute)[1]);
    assert(text[17] == two_digits(date.second)[0] && text[18] == two_digits(date.second)[1]);
    if date.zone_hour != 0 || date.zone_minute != 0 {
        assert(text[20] == two_digits(date.zone_hour)[0] && text[21] == two_digits(date.zone_hour)[1]);
        assert(text[23] == two_digits(date.zone_minute)[0] && text[24] == two_digits(date.zone_minute)[1]);
    }
}

/// Two dates with the same timestamp are at the same local time and the same distance from universal
/// time, so they name one instant.
pub proof fn timestamps_tell_dates_apart(a: SentDate, b: SentDate)
    requires
        a.valid(),
        b.valid(),
        a.timestamp() == b.timestamp(),
    ensures
        stated_offset(a) == stated_offset(b),
        a.year == b.year && a.month == b.month && a.day == b.day,
        a.hour == b.hour && a.minute == b.minute && a.second == b.second,
{
    timestamps_read_back(a);
    timestamps_read_back(b);
}

#[verifier::spinoff_prover]
proof fn two_digits_read_back(value: u8)
    requires
        value <= 99,
    ensures
        two_digits(value).len() == 2,
        10 * digit_value(two_digits(value)[0]) + digit_value(two_digits(value)[1]) == value,
{
    let x = value as int;
    assert((x / 10) % 10 == x / 10);
    assert(digit_value(digit_at(x, 10)) == x / 10);
    assert(digit_value(digit_at(x, 1)) == x % 10);
}

#[verifier::spinoff_prover]
proof fn four_digits_read_back(value: u16)
    requires
        value <= 9999,
    ensures
        ({
            let x = value as int;
            1000 * digit_value(digit_at(x, 1000)) + 100 * digit_value(digit_at(x, 100)) + 10 * digit_value(
                digit_at(x, 10),
            ) + digit_value(digit_at(x, 1)) == x
        }),
{
    let x = value as int;
    let tens = x / 10;
    let hundreds = tens / 10;
    assert(x / 100 == hundreds);
    assert(x / 1000 == hundreds / 10);
    assert((x / 1000) % 10 == x / 1000);
    assert(digit_value(digit_at(x, 1000)) == hundreds / 10);
    assert(digit_value(digit_at(x, 100)) == hundreds % 10);
    assert(digit_value(digit_at(x, 10)) == tens % 10);
    assert(digit_value(digit_at(x, 1)) == x % 10);
}

/// A stated date is given exactly where it lies in the years 1900 to 3000 and every field is one that a
/// calendar, a clock or a zone can show; otherwise the field counts as malformed.
pub proof fn impossible_dates_are_malformed(date: SentDate)
    ensures
        settled_date(None) is None,
        settled_date(Some(date)) is None <==> {
            ||| date.year < 1900
            ||| date.year > 3000
            ||| date.month == 0
            ||| date.month > 12
            ||| date.day == 0
            ||| date.day > 31
            ||| date.hour >= 24
            ||| date.minute >= 60
            ||| date.second >= 60
            ||| date.zone_hour >= 24
            ||| date.zone_minute >= 60
        },
        settled_date(Some(date)) matches Some(text) ==> text == date.timestamp(),
{
}

/// A row is refused exactly where it holds an item that was not asked for, or two of one kind.
pub proof fn rows_hold_each_field_once(items: Seq<Item>)
    ensures
        fault(items) is None <==> {
            &&& forall|i: int| 0 <= i < items.len() ==> is_asked_for(#[trigger] items[i])
            &&& forall|i: int, j: int|
                0 <= i < j < items.len() ==> !are_of_one_kind(#[trigger] items[i], #[trigger] items[j])
        },
        fault(items) == Some(Error::Unsupported) ==> exists|i: int|
            0 <= i < items.len() && !is_asked_for(#[trigger] items[i]),
        fault(items) is Some ==> fault(items) == Some(Error::Unsupported) || fault(items) == Some(
            Error::Protocol,
        ),
    decreases items.len(),
{
    if items.len() > 0 {
        let shorter = items.drop_last();
        rows_hold_each_field_once(shorter);
        assert(forall|i: int| 0 <= i < shorter.len() ==> shorter[i] == #[trigger] items[i]);
        let n = items.len() - 1;
        assert(items[n] == items.last());
        assert(forall|a: Item, b: Item|
            is_asked_for(a) && is_asked_for(b) ==> (are_of_one_kind(a, b) <==> #[trigger] field_of(a)
                == #[trigger] field_of(b)));
        assert(forall|a: Item| is_asked_for(a) == (#[trigger] field_of(a) is Some));
        if fault(shorter) is None {
            if let Some(field) = field_of(items.last()) {
                if has_field(shorter, field) {
                    let i = choose|i: int| 0 <= i < shorter.len() && field_of(#[trigger] shorter[i]) == Some(field);
                    assert(items[i] == shorter[i]);
                    assert(are_of_one_kind(items[i], items[n]));
                } else {
                    assert forall|i: int, j: int| 0 <= i < j < items.len() implies !are_of_one_kind(
                        #[trigger] items[i],
                        #[trigger] items[j],
                    ) by {
                        assert(items[i] == shorter[i]);
                        if j < n {
                            assert(items[j] == shorter[j]);
                        } else {
                            assert(field_of(shorter[i]) != Some(field));
                        }
                    }
                }
            }
        } else {
            if exists|i: int| 0 <= i < shorter.len() && !is_asked_for(#[trigger] shorter[i]) {
                let i = choose|i: int| 0 <= i < shorter.len() && !is_asked_for(#[trigger] shorter[i]);
                assert(items[i] == shorter[i]);
            } else {
                let (i, j) = choose|i: int, j: int|
                    0 <= i < j < shorter.len() && are_of_one_kind(#[trigger] shorter[i], #[trigger] shorter[j]);
                assert(items[i] == shorter[i] && items[j] == shorter[j]);
            }
        }
    }
}

pub open spec fn is_asked_for(item: Item) -> bool {
    item is Uid || item is Envelope || item is Flags || item is InternalDate || item is Rfc822Size
}

pub open spec fn are_of_one_kind(a: Item, b: Item) -> bool {
    ||| a is Uid && b is Uid
    ||| a is Envelope && b is Envelope
    ||| a is Flags && b is Flags
    ||| a is InternalDate && b is InternalDate
    ||| a is Rfc822Size && b is Rfc822Size
}

/// The bytes of every field of an envelope count towards its size, and nothing else does.
pub proof fn every_field_counts(envelope: Envelope)
    ensures
        ({
            let texts = octets(envelope.date) + octets(envelope.subject) + octets(envelope.in_reply_to)
                + octets(envelope.message_id);
            let people = list_octets(envelope.from@) + list_octets(envelope.sender@) + list_octets(
                envelope.reply_to@,
            );
            let recipients = list_octets(envelope.to@) + list_octets(envelope.cc@) + list_octets(
                envelope.bcc@,
            );
            envelope_octets(envelope) == texts + people + recipients
        }),
{
}

/// An address counts with its name, its route, its mailbox and its host, and the addresses of a list
/// add up.
pub proof fn addresses_add_up(before: Seq<Address>, after: Seq<Address>, address: Address)
    ensures
        list_octets(before + after) == list_octets(before) + list_octets(after),
        list_octets(seq![address]) == octets(address.name) + octets(address.route) + octets(address.mailbox)
            + octets(address.host),
        octets(None) == 0,
    decreases after.len(),
{
    reveal_with_fuel(list_octets, 2);
    assert(seq![address].drop_last() =~= Seq::<Address>::empty());
    if after.len() == 0 {
        assert(before + after =~= before);
    } else {
        addresses_add_up(before, after.drop_last(), address);
        assert((before + after).drop_last() =~= before + after.drop_last());
    }
}

/// A field of a described message is missing exactly where the server sent none, and the rest of the
/// description is what the server sent in the field of that name.
pub proof fn descriptions_keep_to_their_fields(row: Projection, message: LocatedMessage)
    requires
        row.tells(message),
    ensures
        message.uid == row.uid,
        message.metadata.size == row.size,
        message.metadata.received_date@ == row.internal_date@,
        message.metadata.subject is Missing <==> row.envelope.subject is None,
        message.metadata.sent_date is Missing <==> row.envelope.date is None,
        message.metadata.message_id is Missing <==> row.envelope.message_id is None,
        message.metadata.from is Missing <==> row.envelope.from@.len() == 0,
        message.metadata.to is Missing <==> row.envelope.to@.len() == 0,
        message.metadata.cc is Missing <==> row.envelope.cc@.len() == 0,
        forall|text: Seq<char>| #[trigger]
            listed(row.flags@, text) == listed(message.metadata.flags@, text),
{
}

/// What a backslash stands before is read for itself, as in a quoted string.
pub open spec fn unescaped(s: Seq<char>) -> Seq<char>
    decreases s.len(),
{
    if s.len() == 0 {
        Seq::empty()
    } else if s[0] == '\\' && s.len() >= 2 {
        seq![s[1]] + unescaped(s.skip(2))
    } else {
        seq![s[0]] + unescaped(s.skip(1))
    }
}

proof fn escapes_are_apart(a: Seq<char>, b: Seq<char>)
    ensures
        escaped(a + b) == escaped(a) + escaped(b),
    decreases b.len(),
{
    if b.len() == 0 {
        assert(a + b =~= a);
        assert(escaped(a) + escaped(b) =~= escaped(a));
    } else {
        escapes_are_apart(a, b.drop_last());
        assert((a + b).drop_last() =~= a + b.drop_last());
        assert((a + b).last() == b.last());
        assert(escaped(a + b) =~= escaped(a) + escaped(b));
    }
}

proof fn escapes_read_back(s: Seq<char>)
    ensures
        unescaped(escaped(s)) == s,
    decreases s.len(),
{
    if s.len() > 0 {
        let first = s.take(1);
        let rest = s.skip(1);
        assert(s =~= first + rest);
        escapes_are_apart(first, rest);
        escapes_read_back(rest);
        reveal_with_fuel(escaped, 2);
        assert(first.drop_last() =~= Seq::<char>::empty());
        let c = s[0];
        let whole = escaped(s);
        if c == '\\' || c == '"' {
            assert(escaped(first) =~= seq!['\\', c]);
            assert(whole[0] == '\\' && whole[1] == c);
            assert(whole.skip(2) =~= escaped(rest));
        } else {
            assert(escaped(first) =~= seq![c]);
            assert(whole[0] == c);
            assert(whole.skip(1) =~= escaped(rest));
        }
        assert(unescaped(whole) =~= s);
    }
}

/// The local part of an address reads back from the address: it stands there as it is where it is made
/// of atoms and dots, and else in quotation marks, with a backslash before what would end or change it.
pub proof fn local_parts_read_back(local: Seq<char>)
    ensures
        is_dot_atom(local) ==> local_part(local) == local,
        !is_dot_atom(local) ==> {
            let text = local_part(local);
            &&& text.len() >= 2 && text[0] == '"' && text.last() == '"'
            &&& unescaped(text.subrange(1, text.len() - 1)) == local
        },
{
    escapes_read_back(local);
    let text = local_part(local);
    if !is_dot_atom(local) {
        assert(text.subrange(1, text.len() - 1) =~= escaped(local));
    }
}

/// An address is its local part, an at-sign and its host, and its display name is the one that was sent.
pub proof fn addresses_are_written_in_full(name: Option<Vec<u8>>, mailbox: Seq<u8>, host: Seq<u8>)
    ensures
        address_says(name, mailbox, host) matches Some((shown, address)) ==> {
            &&& spelled(mailbox) matches Some(local) && spelled(host) matches Some(domain) && {
                &&& local.len() > 0
                &&& address.len() > domain.len() + 1
                &&& address[address.len() - domain.len() - 1] == '@'
                &&& address.skip(address.len() - domain.len()) == domain
                &&& address.take(address.len() - domain.len() - 1) == local_part(local)
            }
            &&& shown is Some <==> name is Some
            &&& name matches Some(bytes) ==> shown == header_says(bytes@)
        },
        spelled(mailbox) is None || spelled(host) is None ==> address_says(name, mailbox, host) is None,
        spelled(mailbox) matches Some(local) ==> local.len() == 0 ==> address_says(name, mailbox, host) is None,
{
    if let (Some(local), Some(domain)) = (spelled(mailbox), spelled(host)) {
        let address = local_part(local) + seq!['@'] + domain;
        assert(address.skip(address.len() - domain.len()) =~= domain);
        assert(address.take(address.len() - domain.len() - 1) =~= local_part(local));
        if is_dot_atom(local) {
            assert(local_part(local).len() > 0);
        }
    }
}

/// A member of an address list that is an address of its own.
pub open spec fn is_member(value: Address) -> bool {
    value.mailbox is Some && value.host is Some
}

pub open spec fn member_says(value: Address) -> Option<AddressView> {
    match (value.mailbox, value.host) {
        (Some(mailbox), Some(host)) => address_says(value.name, mailbox@, host@),
        _ => None,
    }
}

/// A list without groups gives its addresses in their order, each of them, or is malformed as a whole.
pub proof fn lists_are_given_in_order(list: Seq<Address>)
    requires
        list.len() > 0,
        forall|i: int| 0 <= i < list.len() ==> is_member(#[trigger] list[i]),
    ensures
        match addresses_say(list) {
            Metadata::Present(found) => {
                &&& found.len() == list.len()
                &&& forall|i: int| 0 <= i < list.len() ==> member_says(#[trigger] list[i]) == Some(found[i])
            },
            Metadata::Missing => false,
            Metadata::Malformed => exists|i: int| 0 <= i < list.len() && member_says(#[trigger] list[i]) is None,
        },
{
    members_are_gathered(list);
}

proof fn members_are_gathered(list: Seq<Address>)
    requires
        forall|i: int| 0 <= i < list.len() ==> is_member(#[trigger] list[i]),
    ensures
        match gathered(list) {
            Some((group, found)) => {
                &&& !group
                &&& found.len() == list.len()
                &&& forall|i: int| 0 <= i < list.len() ==> member_says(#[trigger] list[i]) == Some(found[i])
            },
            None => exists|i: int| 0 <= i < list.len() && member_says(#[trigger] list[i]) is None,
        },
    decreases list.len(),
{
    if list.len() > 0 {
        let shorter = list.drop_last();
        assert(forall|i: int| 0 <= i < shorter.len() ==> shorter[i] == #[trigger] list[i]);
        members_are_gathered(shorter);
        assert(is_member(list[list.len() - 1]));
        match gathered(shorter) {
            None => {
                let i = choose|i: int| 0 <= i < shorter.len() && member_says(#[trigger] shorter[i]) is None;
                assert(member_says(list[i]) is None);
            },
            Some((group, found)) => {
                let n = list.len() - 1;
                assert(list[n] == list.last());
                if member_says(list.last()) is None {
                    assert(member_says(list[n]) is None);
                }
            },
        }
    }
}

/// The beginning of a group has a name and no host, its end neither: the members in between are given
/// as if they stood alone. A group that is not closed makes the list malformed.
pub proof fn groups_give_their_members(start: Address, members: Seq<Address>, end: Address)
    requires
        start.mailbox matches Some(name) && spelled(name@) matches Some(text) && text.len() > 0,
        start.host is None,
        end.mailbox is None && end.host is None,
        forall|i: int|
            0 <= i < members.len() ==> is_member(#[trigger] members[i]) && member_says(members[i]) is Some,
    ensures
        addresses_say(seq![start] + members) is Malformed,
        addresses_say(seq![start] + members + seq![end]) matches Metadata::Present(found) && {
            &&& found.len() == members.len()
            &&& forall|i: int| 0 <= i < members.len() ==> Some(found[i]) == member_says(#[trigger] members[i])
        },
        addresses_say(seq![end] + members) is Malformed,
{
    members_of_a_group(start, members);
    let open = seq![start] + members;
    let closed = open + seq![end];
    assert(closed.drop_last() =~= open);
    assert(closed.last() == end);
    nothing_follows_a_stray_end(end, members);
}

proof fn nothing_follows_a_stray_end(end: Address, members: Seq<Address>)
    requires
        end.mailbox is None && end.host is None,
    ensures
        gathered(seq![end] + members) is None,
    decreases members.len(),
{
    let list = seq![end] + members;
    reveal_with_fuel(gathered, 2);
    if members.len() == 0 {
        assert(list.drop_last() =~= Seq::<Address>::empty());
        assert(list.last() == end);
    } else {
        nothing_follows_a_stray_end(end, members.drop_last());
        assert(list.drop_last() =~= seq![end] + members.drop_last());
    }
}

proof fn members_of_a_group(start: Address, members: Seq<Address>)
    requires
        start.mailbox matches Some(name) && spelled(name@) matches Some(text) && text.len() > 0,
        start.host is None,
        forall|i: int|
            0 <= i < members.len() ==> is_member(#[trigger] members[i]) && member_says(members[i]) is Some,
    ensures
        gathered(seq![start] + members) matches Some((group, found)) && {
            &&& group
            &&& found.len() == members.len()
            &&& forall|i: int| 0 <= i < members.len() ==> Some(found[i]) == member_says(#[trigger] members[i])
        },
    decreases members.len(),
{
    let list = seq![start] + members;
    reveal_with_fuel(gathered, 2);
    if members.len() == 0 {
        assert(list.drop_last() =~= Seq::<Address>::empty());
        assert(list.last() == start);
    } else {
        let shorter = members.drop_last();
        assert(forall|i: int| 0 <= i < shorter.len() ==> shorter[i] == #[trigger] members[i]);
        members_of_a_group(start, shorter);
        assert(list.drop_last() =~= seq![start] + shorter);
        let n = members.len() - 1;
        assert(list.last() == members[n]);
        assert(is_member(members[n]));
    }
}

/// A header value that holds another line, a lone carriage return or a control character is malformed,
/// whatever is read from it; one that is sound says what is read.
pub proof fn headers_stay_on_their_line(bytes: Seq<u8>, read: Option<Seq<char>>, i: int)
    requires
        0 <= i < bytes.len(),
    ensures
        bytes[i] == 0x0a && (i + 1 == bytes.len() || (bytes[i + 1] != 0x20 && bytes[i + 1] != 0x09))
            ==> header_meaning(bytes, read) is None,
        bytes[i] == 0x0d && (i + 1 == bytes.len() || bytes[i + 1] != 0x0a) ==> header_meaning(bytes, read)
            is None,
        spelled(bytes) is None ==> header_meaning(bytes, read) is None,
        spelled(bytes) matches Some(text) ==> forall|k: int|
            0 <= k < text.len() && is_control(#[trigger] text[k]) && text[k] != '\r' && text[k] != '\n'
                && text[k] != '\t' ==> header_meaning(bytes, read) is None,
        header_meaning(bytes, read) is Some && read is Some ==> header_meaning(bytes, read) == read,
        header_meaning(bytes, None) is Some ==> header_meaning(bytes, None)->0.len() == 0 && is_ascii_space(
            bytes[i],
        ),
{
}

/// A message identifier reads back from its angle brackets, with blanks around them: two dotted names
/// around an at-sign. It is given with its brackets.
pub proof fn message_ids_read_back(before: Seq<char>, left: Seq<char>, right: Seq<char>, after: Seq<char>)
    requires
        forall|i: int| 0 <= i < before.len() ==> is_blank_char(#[trigger] before[i]),
        forall|i: int| 0 <= i < after.len() ==> is_blank_char(#[trigger] after[i]),
        is_dot_atom(left),
        is_dot_atom(right),
    ensures
        identifier_of(before + (seq!['<'] + left + seq!['@'] + right + seq!['>']) + after) == Some(
            seq!['<'] + left + seq!['@'] + right + seq!['>'],
        ),
{
    let id = left + seq!['@'] + right;
    let inner = seq!['<'] + left + seq!['@'] + right + seq!['>'];
    let s = before + inner + after;
    let start = before.len() as int;
    assert(s[start] == '<');
    blanks_are_passed(s, 0, start);
    assert(comments_end(s, 0) == Some(start));
    let rest = s.skip(start + 1);
    assert(rest =~= id + seq!['>'] + after);
    let close = id.len() as int;
    rest.index_of_last_ensures('>');
    assert(rest[close] == '>');
    assert(rest.contains('>'));
    let last = rest.index_of_last('>')->0;
    if last > close {
        assert(rest[last] == after[last - close - 1]);
    }
    assert(last == close);
    assert(rest.take(close) =~= id);
    let tail = rest.skip(close + 1);
    assert(tail =~= after);
    blanks_are_passed(after, 0, after.len() as int);
    id.index_of_first_ensures('@');
    assert(id[left.len() as int] == '@');
    assert(id.contains('@'));
    let at = id.index_of_first('@')->0;
    if at < left.len() {
        assert(id[at] == left[at]);
        assert(left[at] == '.' || crate::domain::draft::is_atom_char(left[at]));
    }
    assert(id.take(left.len() as int) =~= left);
    assert(id.skip(left.len() as int + 1) =~= right);
    assert(seq!['<'] + id + seq!['>'] =~= inner);
}

pub open spec fn is_blank_char(c: char) -> bool {
    c == ' ' || c == '\t' || c == '\r' || c == '\n'
}

proof fn blanks_are_passed(s: Seq<char>, i: int, end: int)
    requires
        0 <= i <= end <= s.len(),
        forall|k: int| i <= k < end ==> is_blank_char(#[trigger] s[k]),
        end < s.len() ==> !is_blank_char(s[end]) && s[end] != '(',
    ensures
        blanks_end(s, i) == end,
        comments_end(s, i) == Some(end),
    decreases end - i,
{
    if i < end {
        assert(is_blank_char(s[i]));
        blanks_are_passed(s, i + 1, end);
    }
}

/// What is given as a message identifier stands between angle brackets and has an at-sign.
pub proof fn message_ids_have_their_form(s: Seq<char>)
    ensures
        identifier_of(s) matches Some(id) ==> id.len() > 2 && id[0] == '<' && id.last() == '>' && is_identifier(
            id.subrange(1, id.len() - 1),
        ),
{
    if let Some(id) = identifier_of(s) {
        let start = comments_end(s, 0)->0;
        let rest = s.skip(start + 1);
        let close = rest.index_of_last('>')->0;
        let inner = rest.take(close);
        assert(id.subrange(1, id.len() - 1) =~= inner);
        inner.index_of_first_ensures('@');
    }
}

/// A domain is a dotted name, or an address between square brackets without blanks, brackets and
/// backslashes.
pub proof fn domains_are_names_or_literals(name: Seq<char>, literal: Seq<char>)
    requires
        literal.len() > 0,
    ensures
        is_dot_atom(name) ==> is_domain(name),
        !is_dot_atom(name) && is_domain(name) ==> name.len() > 2 && name[0] == '[' && name.last() == ']',
        (forall|i: int|
            0 <= i < literal.len() ==> '!' <= #[trigger] literal[i] <= '~' && literal[i] != '[' && literal[i] != ']'
                && literal[i] != '\\') ==> is_domain(seq!['['] + literal + seq![']']),
        !is_domain(Seq::empty()),
{
    let whole = seq!['['] + literal + seq![']'];
    if forall|i: int|
        0 <= i < literal.len() ==> '!' <= #[trigger] literal[i] <= '~' && literal[i] != '[' && literal[i] != ']'
            && literal[i] != '\\' {
        assert forall|i: int| 1 <= i < whole.len() - 1 implies is_literal_char(#[trigger] whole[i]) by {
            assert(whole[i] == literal[i - 1]);
        }
    }
}

/// What is written of a date reads back to the same local time and the same distance from universal time.
pub proof fn written_dates_read_back(date: SentDate, r: String)
    requires
        date.valid(),
        call_ensures(SentDate::to_rfc3339, (&date,), r),
    ensures
        read_offset(r@) == stated_offset(date),
        100 * read_pair(r@, 0) + read_pair(r@, 2) == date.year && read_pair(r@, 5) == date.month && read_pair(r@, 8)
            == date.day,
        read_pair(r@, 11) == date.hour && read_pair(r@, 14) == date.minute && read_pair(r@, 17) == date.second,
        r@[19] == '-' <==> date.before_gmt && (date.zone_hour > 0 || date.zone_minute > 0),
{
    timestamps_read_back(date);
}

} // verus!
