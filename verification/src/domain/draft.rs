//! Caller-retained draft identity, composition, and journal receipts.
use vstd::prelude::*;

use super::search::{bounded_text, is_bounded_text};
use crate::text::{alphanumeric, chars_of, is_alphanumeric, utf8_len};

verus! {

/// The account and the operation that a draft belongs to. Identifiers are UUIDs as numbers.
#[derive(Clone, Copy, Debug, PartialEq, Eq, Structural)]
pub struct DraftIdentity {
    pub account_id: u128,
    pub account_generation: u64,
    pub operation_id: u128,
}

#[derive(Clone, Debug)]
pub struct DraftAddress {
    pub address: String,
    pub name: Option<String>,
}

impl DraftAddress {
    /// An address without a display name.
    pub fn bare(address: String) -> (r: Self)
        ensures
            r.address@ == address@,
            r.name is None,
    {
        DraftAddress { address, name: None }
    }

    pub open spec fn bounded(self) -> bool {
        &&& is_bounded_text(self.address@, 1, 254)
        &&& self.name matches Some(name) ==> is_bounded_text(name@, 1, 1024)
    }

    pub fn is_bounded(&self) -> (r: bool)
        ensures
            r == self.bounded(),
    {
        bounded_text(self.address.as_str(), 1, 254) && match &self.name {
            Some(name) => bounded_text(name.as_str(), 1, 1024),
            None => true,
        }
    }
}

#[derive(Debug)]
pub struct DraftContent {
    pub from: Option<String>,
    pub to: Vec<DraftAddress>,
    pub cc: Vec<DraftAddress>,
    pub bcc: Vec<DraftAddress>,
    pub subject: String,
    pub body: String,
    pub in_reply_to: Option<String>,
    pub references: Vec<String>,
}

/// At most 100 recipients, each within its bounds.
pub open spec fn are_bounded_recipients(list: Seq<DraftAddress>) -> bool {
    list.len() <= 100 && forall|i: int| 0 <= i < list.len() ==> (#[trigger] list[i]).bounded()
}

fn bounded_recipients(list: &Vec<DraftAddress>) -> (r: bool)
    ensures
        r == are_bounded_recipients(list@),
{
    if list.len() > 100 {
        return false;
    }
    for i in 0..list.len()
        invariant
            forall|j: int| 0 <= j < i ==> (#[trigger] list@[j]).bounded(),
    {
        if !list[i].is_bounded() {
            assert(!list@[i as int].bounded());
            return false;
        }
    }
    true
}

/// At most 50 message identifiers of at most 998 bytes each.
pub open spec fn are_bounded_references(list: Seq<String>) -> bool {
    list.len() <= 50 && forall|i: int|
        0 <= i < list.len() ==> is_bounded_text((#[trigger] list[i])@, 1, 998)
}

fn bounded_references(list: &Vec<String>) -> (r: bool)
    ensures
        r == are_bounded_references(list@),
{
    if list.len() > 50 {
        return false;
    }
    for i in 0..list.len()
        invariant
            forall|j: int| 0 <= j < i ==> is_bounded_text((#[trigger] list@[j])@, 1, 998),
    {
        if !bounded_text(list[i].as_str(), 1, 998) {
            assert(!is_bounded_text(list@[i as int]@, 1, 998));
            return false;
        }
    }
    true
}

impl DraftContent {
    /// Every field is within the bounds of a request.
    pub open spec fn bounded(self) -> bool {
        &&& self.from matches Some(from) ==> is_bounded_text(from@, 1, 254)
        &&& are_bounded_recipients(self.to@)
        &&& are_bounded_recipients(self.cc@)
        &&& are_bounded_recipients(self.bcc@)
        &&& is_bounded_text(self.subject@, 0, 8192)
        &&& is_bounded_text(self.body@, 0, 8388608)
        &&& self.in_reply_to matches Some(id) ==> is_bounded_text(id@, 1, 998)
        &&& are_bounded_references(self.references@)
    }

    pub fn is_bounded(&self) -> (r: bool)
        ensures
            r == self.bounded(),
    {
        let from = match &self.from {
            Some(from) => bounded_text(from.as_str(), 1, 254),
            None => true,
        };
        let reply = match &self.in_reply_to {
            Some(id) => bounded_text(id.as_str(), 1, 998),
            None => true,
        };
        from && reply && bounded_recipients(&self.to) && bounded_recipients(&self.cc)
            && bounded_recipients(&self.bcc) && bounded_text(self.subject.as_str(), 0, 8192)
            && bounded_text(self.body.as_str(), 0, 8388608) && bounded_references(&self.references)
    }
}

impl Default for DraftContent {
    fn default() -> (r: Self)
        ensures
            r.from is None,
            r.to@.len() == 0 && r.cc@.len() == 0 && r.bcc@.len() == 0,
            r.subject@.len() == 0 && r.body@.len() == 0,
            r.in_reply_to is None,
            r.references@.len() == 0,
    {
        DraftContent {
            from: None,
            to: Vec::new(),
            cc: Vec::new(),
            bcc: Vec::new(),
            subject: String::new(),
            body: String::new(),
            in_reply_to: None,
            references: Vec::new(),
        }
    }
}

#[derive(Debug)]
pub struct SaveDraftInput {
    pub mailbox: String,
    pub account_id: u128,
    pub account_generation: u64,
    pub operation_id: u128,
    pub draft: Box<DraftContent>,
}

impl SaveDraftInput {
    pub fn identity(&self) -> (r: DraftIdentity)
        ensures
            r == (DraftIdentity {
                account_id: self.account_id,
                account_generation: self.account_generation,
                operation_id: self.operation_id,
            }),
    {
        DraftIdentity {
            account_id: self.account_id,
            account_generation: self.account_generation,
            operation_id: self.operation_id,
        }
    }

    pub open spec fn bounded(self) -> bool {
        is_bounded_text(self.mailbox@, 1, 1024) && self.draft.bounded()
    }

    pub fn is_bounded(&self) -> (r: bool)
        ensures
            r == self.bounded(),
    {
        bounded_text(self.mailbox.as_str(), 1, 1024) && self.draft.is_bounded()
    }
}

#[derive(Debug)]
pub struct DraftStatusInput {
    pub mailbox: String,
    pub account_id: u128,
    pub account_generation: u64,
    pub operation_id: u128,
    pub reconcile: bool,
}

impl DraftStatusInput {
    pub fn identity(&self) -> (r: DraftIdentity)
        ensures
            r == (DraftIdentity {
                account_id: self.account_id,
                account_generation: self.account_generation,
                operation_id: self.operation_id,
            }),
    {
        DraftIdentity {
            account_id: self.account_id,
            account_generation: self.account_generation,
            operation_id: self.operation_id,
        }
    }

    pub open spec fn bounded(self) -> bool {
        is_bounded_text(self.mailbox@, 1, 1024)
    }

    pub fn is_bounded(&self) -> (r: bool)
        ensures
            r == self.bounded(),
    {
        bounded_text(self.mailbox.as_str(), 1, 1024)
    }
}

#[derive(Clone, Copy, Debug, PartialEq, Eq, Structural)]
pub enum DraftState {
    Prepared,
    InFlight,
    Created,
    Rejected,
    OutcomeUnknown,
}

#[derive(Debug)]
pub struct DraftReceipt {
    pub account_id: u128,
    pub account_generation: u64,
    pub operation_id: u128,
    pub mailbox: String,
    pub uid_validity: u32,
    pub state: DraftState,
    pub dispatched: bool,
    pub content_sha256: String,
}

/// A character of an atom: a letter, a digit, or one of a few signs.
pub open spec fn is_atom_char(c: char) -> bool {
    (c as u32 <= 0x7f && is_alphanumeric(c as u8)) || c == '!' || c == '#' || c == '$' || c == '%'
        || c == '&' || c == '\'' || c == '*' || c == '+' || c == '-' || c == '/' || c == '='
        || c == '?' || c == '^' || c == '_' || c == '`' || c == '{' || c == '|' || c == '}' || c
        == '~'
}

pub fn atom_char(c: char) -> (r: bool)
    ensures
        r == is_atom_char(c),
{
    (c as u32 <= 0x7f && alphanumeric(c as u8)) || c == '!' || c == '#' || c == '$' || c == '%'
        || c == '&' || c == '\'' || c == '*' || c == '+' || c == '-' || c == '/' || c == '='
        || c == '?' || c == '^' || c == '_' || c == '`' || c == '{' || c == '|' || c == '}' || c
        == '~'
}

/// Atoms with single dots between them: no dot stands at an end or beside another.
pub open spec fn is_dot_atom(s: Seq<char>) -> bool {
    &&& s.len() > 0
    &&& s[0] != '.'
    &&& s.last() != '.'
    &&& forall|i: int| 0 <= i < s.len() ==> (#[trigger] s[i] == '.' || is_atom_char(s[i]))
    &&& forall|i: int, j: int|
        0 <= i < s.len() && j == i + 1 && j < s.len() ==> !(#[trigger] s[i] == '.'
            && #[trigger] s[j] == '.')
}

pub fn dot_atom(value: &str) -> (r: bool)
    ensures
        r == is_dot_atom(value@),
{
    let chars = chars_of(value);
    if chars.len() == 0 || chars[0] == '.' || chars[chars.len() - 1] == '.' {
        return false;
    }
    for i in 0..chars.len()
        invariant
            chars@ == value@,
            chars@.len() > 0,
            forall|k: int| 0 <= k < i ==> (#[trigger] chars@[k] == '.' || is_atom_char(chars@[k])),
            forall|a: int, b: int|
                0 <= a < i && b == a + 1 && b < chars@.len() ==> !(#[trigger] chars@[a] == '.'
                    && #[trigger] chars@[b] == '.'),
    {
        let c = chars[i];
        if c != '.' && !atom_char(c) {
            assert(!(value@[i as int] == '.' || is_atom_char(value@[i as int])));
            return false;
        }
        if c == '.' && i + 1 < chars.len() && chars[i + 1] == '.' {
            assert(value@[i as int] == '.' && value@[i + 1] == '.');
            return false;
        }
    }
    true
}

/// A character of an atom is a letter, a digit or one of the signs that mail addresses allow.
pub proof fn atoms_hold_what_addresses_allow(c: char)
    ensures
        is_atom_char(c) <==> ('0' <= c <= '9') || ('a' <= c <= 'z') || ('A' <= c <= 'Z')
            || "!#$%&'*+-/=?^_`{|}~"@.contains(c),
{
    reveal_strlit("!#$%&'*+-/=?^_`{|}~");
    let signs = "!#$%&'*+-/=?^_`{|}~"@;
    assert(c as u32 == c as int);
    if c as int <= 0x7f {
        let d = c as int;
        assert(d as u8 == d);
    }
    if signs.contains(c) {
        let i = choose|i: int| 0 <= i < signs.len() && signs[i] == c;
        assert(signs[i] == c);
    }
    assert(signs[0] == '!' && signs[1] == '#' && signs[2] == '$' && signs[3] == '%' && signs[4] == '&'
        && signs[5] == '\'' && signs[6] == '*' && signs[7] == '+' && signs[8] == '-' && signs[9] == '/');
    assert(signs[10] == '=' && signs[11] == '?' && signs[12] == '^' && signs[13] == '_' && signs[14] == '`'
        && signs[15] == '{' && signs[16] == '|' && signs[17] == '}' && signs[18] == '~');
}

/// Atoms with dots between them are atoms of one character or more, each followed by a dot and the next.
pub proof fn dot_atoms_are_made_of_atoms(atom: Seq<char>, rest: Seq<char>)
    requires
        forall|i: int| 0 <= i < atom.len() ==> #[trigger] atom[i] != '.',
    ensures
        is_dot_atom(atom) <==> atom.len() > 0 && forall|i: int| 0 <= i < atom.len() ==> is_atom_char(#[trigger] atom[i]),
        is_dot_atom(atom + seq!['.'] + rest) <==> is_dot_atom(atom) && is_dot_atom(rest),
{
    let whole = atom + seq!['.'] + rest;
    let n = atom.len() as int;
    assert(whole[n] == '.');
    assert(!is_atom_char('.')) by {
        atoms_hold_what_addresses_allow('.');
        reveal_strlit("!#$%&'*+-/=?^_`{|}~");
    }
    assert(forall|i: int| 0 <= i < n ==> whole[i] == #[trigger] atom[i]);
    assert(forall|i: int| 0 <= i < rest.len() ==> whole[n + 1 + i] == #[trigger] rest[i]);
    if is_dot_atom(whole) {
        assert(n > 0);
        assert(rest.len() > 0);
        assert(whole[n + 1] == rest[0]);
        assert(whole.last() == rest.last());
        assert forall|i: int| 0 <= i < n implies is_atom_char(#[trigger] atom[i]) by {
            assert(whole[i] == atom[i]);
        }
        assert forall|i: int| 0 <= i < rest.len() implies (#[trigger] rest[i] == '.' || is_atom_char(rest[i])) by {
            assert(whole[n + 1 + i] == rest[i]);
        }
        assert forall|i: int, j: int| 0 <= i < rest.len() && j == i + 1 && j < rest.len() implies !(#[trigger] rest[i]
            == '.' && #[trigger] rest[j] == '.') by {
            assert(whole[n + 1 + i] == rest[i] && whole[n + 1 + j] == rest[j]);
        }
    }
    if is_dot_atom(atom) && is_dot_atom(rest) {
        assert(whole.last() == rest.last());
        assert forall|i: int| 0 <= i < whole.len() implies (#[trigger] whole[i] == '.' || is_atom_char(whole[i])) by {
            if i < n {
                assert(whole[i] == atom[i]);
            } else if i > n {
                assert(whole[i] == rest[i - n - 1]);
            }
        }
        assert forall|i: int, j: int| 0 <= i < whole.len() && j == i + 1 && j < whole.len() implies !(
        #[trigger] whole[i] == '.' && #[trigger] whole[j] == '.') by {
            if i < n {
                assert(whole[i] == atom[i]);
            } else if i == n {
                assert(whole[j] == rest[0]);
            } else {
                assert(whole[i] == rest[i - n - 1] && whole[j] == rest[j - n - 1]);
            }
        }
    }
}

/// A draft in a request is within its bounds exactly where each of its fields is: the recipients of each
/// header are at most a hundred, and the references at most fifty.
pub proof fn drafts_are_bounded_by_field(input: SaveDraftInput)
    ensures
        input.bounded() <==> {
            &&& 1 <= utf8_len(input.mailbox@) <= 1024
            &&& input.draft.from matches Some(from) ==> 1 <= utf8_len(from@) <= 254
            &&& input.draft.to@.len() <= 100 && input.draft.cc@.len() <= 100 && input.draft.bcc@.len() <= 100
            &&& forall|i: int| 0 <= i < input.draft.to@.len() ==> is_short_recipient(#[trigger] input.draft.to@[i])
            &&& forall|i: int| 0 <= i < input.draft.cc@.len() ==> is_short_recipient(#[trigger] input.draft.cc@[i])
            &&& forall|i: int| 0 <= i < input.draft.bcc@.len() ==> is_short_recipient(#[trigger] input.draft.bcc@[i])
            &&& utf8_len(input.draft.subject@) <= 8 * 1024
            &&& utf8_len(input.draft.body@) <= 8 * 1024 * 1024
            &&& input.draft.in_reply_to matches Some(id) ==> 1 <= utf8_len(id@) <= 998
            &&& input.draft.references@.len() <= 50
            &&& forall|i: int|
                0 <= i < input.draft.references@.len() ==> 1 <= utf8_len((#[trigger] input.draft.references@[i])@)
                    <= 998
        },
{
    let d = input.draft;
    assert(forall|r: DraftAddress| is_short_recipient(r) == #[trigger] r.bounded());
    if input.bounded() {
        assert forall|i: int| 0 <= i < d.to@.len() implies is_short_recipient(#[trigger] d.to@[i]) by {
            assert(d.to@[i].bounded());
        }
        assert forall|i: int| 0 <= i < d.cc@.len() implies is_short_recipient(#[trigger] d.cc@[i]) by {
            assert(d.cc@[i].bounded());
        }
        assert forall|i: int| 0 <= i < d.bcc@.len() implies is_short_recipient(#[trigger] d.bcc@[i]) by {
            assert(d.bcc@[i].bounded());
        }
    }
}

/// A recipient with an address of one to 254 bytes and a name, if any, of one to 1024.
pub open spec fn is_short_recipient(recipient: DraftAddress) -> bool {
    &&& 1 <= utf8_len(recipient.address@) <= 254
    &&& recipient.name matches Some(name) ==> 1 <= utf8_len(name@) <= 1024
}

/// A draft that was saved and a request for its status name the same operation exactly where they agree on
/// the account, its generation and the operation.
pub proof fn drafts_are_named_by_their_operation(
    save: SaveDraftInput,
    status: DraftStatusInput,
    saved: DraftIdentity,
    asked: DraftIdentity,
)
    requires
        call_ensures(SaveDraftInput::identity, (&save,), saved),
        call_ensures(DraftStatusInput::identity, (&status,), asked),
    ensures
        saved == asked <==> save.account_id == status.account_id && save.account_generation
            == status.account_generation && save.operation_id == status.operation_id,
        saved.account_id == save.account_id && saved.operation_id == save.operation_id,
{
}

} // verus!
