//! Discovery of the mailboxes of an allowlist, one LIST command for each.
use base64::Engine;
use vstd::prelude::*;

use super::{mailbox, mailbox_verdict, Error, Limits};
use crate::order::{
    comes_before, is_ascending, order_is_total, order_is_transitive, precedes, same_list,
    same_members, sorted_set,
};
use crate::text::{
    chars_of, listed, lowered_text, same, same_text_ignoring_case, spelled, text_of,
};

verus! {

#[derive(Debug)]
pub struct Mailbox {
    pub name: String,
    pub selectable: bool,
    pub attributes: Vec<String>,
}

/// The name by which a mailbox is known: the inbox has one whatever its case.
pub open spec fn identity_of(name: Seq<char>) -> Seq<char> {
    if lowered_text(name) == lowered_text("INBOX"@) {
        "INBOX"@
    } else {
        name
    }
}

pub fn mailbox_identity(name: &str) -> (r: String)
    ensures
        r@ == identity_of(name@),
{
    if same_text_ignoring_case(name, "INBOX") {
        "INBOX".to_owned()
    } else {
        name.to_owned()
    }
}

/// One mailbox to ask for: its identity, and the name under which it is listed.
#[derive(Debug)]
pub struct Sought {
    pub identity: String,
    pub name: String,
}

/// Entries in the order of their identities, each of which occurs once.
pub open spec fn are_sorted(list: Seq<Sought>) -> bool {
    forall|i: int, j: int|
        0 <= i < j < list.len() ==> precedes(
            (#[trigger] list[i]).identity@,
            (#[trigger] list[j]).identity@,
        )
}

/// The entry holds the last name of the allowlist with its identity.
pub open spec fn stands_for(entry: Sought, names: Seq<String>) -> bool {
    exists|i: int| #[trigger] is_last(entry, names, i)
}

pub open spec fn is_last(entry: Sought, names: Seq<String>, i: int) -> bool {
    &&& 0 <= i < names.len()
    &&& entry.name@ == names[i]@
    &&& entry.identity@ == identity_of(names[i]@)
    &&& forall|j: int| i < j < names.len() ==> identity_of((#[trigger] names[j])@) != entry.identity@
}

/// The identity has an entry.
pub open spec fn is_planned(list: Seq<Sought>, identity: Seq<char>) -> bool {
    exists|i: int| 0 <= i < list.len() && (#[trigger] list[i]).identity@ == identity
}

/// The plan covers the allowlist: sorted, and with one entry for each identity.
pub open spec fn is_plan(list: Seq<Sought>, names: Seq<String>) -> bool {
    &&& are_sorted(list)
    &&& forall|i: int| 0 <= i < list.len() ==> stands_for(#[trigger] list[i], names)
    &&& forall|i: int|
        0 <= i < names.len() ==> is_planned(list, identity_of((#[trigger] names[i])@))
}

/// Why an allowlist cannot be discovered, if it cannot.
pub open spec fn plan_refusal(names: Seq<String>, limits: Limits) -> Option<Error> {
    if !limits.valid() {
        Some(Error::InvalidInput)
    } else if names.len() > limits.max_mailboxes {
        Some(Error::Limit)
    } else {
        first_bad_name(names)
    }
}

pub open spec fn first_bad_name(names: Seq<String>) -> Option<Error>
    decreases names.len(),
{
    if names.len() == 0 {
        None
    } else {
        match first_bad_name(names.drop_last()) {
            Some(error) => Some(error),
            None => match mailbox_verdict(names.last()@) {
                Ok(()) => None,
                Err(error) => Some(error),
            },
        }
    }
}

proof fn bad_names_stay(names: Seq<String>, count: int)
    requires
        0 <= count <= names.len(),
    ensures
        first_bad_name(names.take(count)) matches Some(error) ==> first_bad_name(names) == Some(
            error,
        ),
    decreases names.len() - count,
{
    if count < names.len() {
        assert(names.take(count + 1).drop_last() =~= names.take(count));
        bad_names_stay(names, count + 1);
    } else {
        assert(names.take(count) =~= names);
    }
}

/// The mailboxes to ask for, in order.
pub fn plan(allowlist: &Vec<String>, limits: &Limits) -> (r: Result<Vec<Sought>, Error>)
    ensures
        match plan_refusal(allowlist@, *limits) {
            Some(error) => r == Err::<Vec<Sought>, Error>(error),
            None => r matches Ok(list) && is_plan(list@, allowlist@),
        },
{
    match limits.validate() {
        Ok(()) => {},
        Err(error) => {
            return Err(error);
        },
    }
    if allowlist.len() > limits.max_mailboxes {
        return Err(Error::Limit);
    }
    for i in 0..allowlist.len()
        invariant
            limits.valid(),
            allowlist@.len() <= limits.max_mailboxes,
            first_bad_name(allowlist@.take(i as int)) is None,
    {
        assert(allowlist@.take(i + 1).drop_last() =~= allowlist@.take(i as int));
        assert(allowlist@.take(i + 1).last() == allowlist@[i as int]);
        match mailbox(allowlist[i].as_str()) {
            Ok(()) => {},
            Err(error) => {
                proof {
                    bad_names_stay(allowlist@, i + 1);
                }
                return Err(error);
            },
        }
    }
    assert(allowlist@.take(allowlist@.len() as int) =~= allowlist@);
    let mut list: Vec<Sought> = Vec::new();
    for i in 0..allowlist.len()
        invariant
            is_plan(list@, allowlist@.take(i as int)),
    {
        let ghost earlier = allowlist@.take(i as int);
        let ghost now = allowlist@.take(i + 1);
        assert(now =~= earlier.push(allowlist@[i as int]));
        put(&mut list, allowlist[i].as_str(), Ghost(earlier), Ghost(allowlist@[i as int]));
    }
    Ok(list)
}

/// Puts a name into the plan; an earlier name with the same identity is replaced.
fn put(list: &mut Vec<Sought>, name: &str, Ghost(names): Ghost<Seq<String>>, Ghost(added): Ghost<String>)
    requires
        is_plan(old(list)@, names),
        added@ == name@,
    ensures
        is_plan(final(list)@, names.push(added)),
{
    let identity = mailbox_identity(name);
    let ghost before = list@;
    let ghost more = names.push(added);
    let mut at: usize = 0;
    while at < list.len() && comes_before(list[at].identity.as_str(), identity.as_str())
        invariant
            at <= list@.len(),
            list@ == before,
            forall|k: int| 0 <= k < at ==> precedes((#[trigger] before[k]).identity@, identity@),
        decreases list@.len() - at,
    {
        at = at + 1;
    }
    let entry = Sought { identity, name: name.to_owned() };
    let ghost value = entry;
    assert(is_last(value, more, names.len() as int));
    let replace = at < list.len() && same(list[at].identity.as_str(), entry.identity.as_str());
    proof {
        assert forall|k: int|
            0 <= k < before.len() && (#[trigger] before[k]).identity@
                != value.identity@ implies stands_for(before[k], more) by {
            assert(stands_for(before[k], names));
            let i = choose|i: int| #[trigger] is_last(before[k], names, i);
            assert(is_last(before[k], more, i)) by {
                assert forall|j: int| i < j < more.len() implies identity_of(
                    (#[trigger] more[j])@,
                ) != before[k].identity@ by {
                    if j < names.len() {
                        assert(more[j] == names[j]);
                    }
                }
                assert(more[i] == names[i]);
            }
        }
        if at < before.len() {
            order_is_total(before[at as int].identity@, value.identity@);
        }
    }
    if replace {
        list.set(at, entry);
        proof {
            let after = list@;
            assert(after =~= before.update(at as int, value));
            assert forall|i: int, j: int| 0 <= i < j < after.len() implies precedes(
                (#[trigger] after[i]).identity@,
                (#[trigger] after[j]).identity@,
            ) by {
                assert(precedes(before[i].identity@, before[j].identity@));
            }
            assert forall|i: int| 0 <= i < after.len() implies stands_for(
                #[trigger] after[i],
                more,
            ) by {
                if i != at {
                    order_distinguishes(before, i, at as int);
                    assert(stands_for(before[i], more));
                }
            }
            assert forall|k: int| 0 <= k < before.len() implies is_planned(
                after,
                (#[trigger] before[k]).identity@,
            ) by {
                assert(after[k].identity@ == before[k].identity@);
            }
            assert(after[at as int].identity@ == value.identity@);
            covered(before, after, names, added);
        }
    } else {
        list.insert(at, entry);
        proof {
            let after = list@;
            assert(after =~= before.insert(at as int, value));
            assert forall|i: int, j: int| 0 <= i < j < after.len() implies precedes(
                (#[trigger] after[i]).identity@,
                (#[trigger] after[j]).identity@,
            ) by {
                let a = if i < at {
                    i
                } else {
                    i - 1
                };
                let b = if j < at {
                    j
                } else {
                    j - 1
                };
                if i == at {
                    assert(after[j] == before[j - 1]);
                    if j - 1 > at {
                        assert(precedes(before[at as int].identity@, before[j - 1].identity@));
                        order_is_transitive(
                            value.identity@,
                            before[at as int].identity@,
                            before[j - 1].identity@,
                        );
                    }
                } else if j == at {
                    assert(after[i] == before[i]);
                } else {
                    assert(after[i] == before[a] && after[j] == before[b]);
                    assert(precedes(before[a].identity@, before[b].identity@));
                }
            }
            assert forall|i: int| 0 <= i < after.len() implies stands_for(
                #[trigger] after[i],
                more,
            ) by {
                if i != at {
                    let k = if i < at {
                        i
                    } else {
                        i - 1
                    };
                    assert(after[i] == before[k]);
                    if k < at {
                        crate::order::order_is_irreflexive(value.identity@);
                    } else if k > at {
                        assert(precedes(before[at as int].identity@, before[k].identity@));
                        order_is_transitive(
                            value.identity@,
                            before[at as int].identity@,
                            before[k].identity@,
                        );
                        crate::order::order_is_irreflexive(value.identity@);
                    }
                    assert(before[k].identity@ != value.identity@);
                    assert(stands_for(before[k], more));
                }
            }
            assert forall|k: int| 0 <= k < before.len() implies is_planned(
                after,
                (#[trigger] before[k]).identity@,
            ) by {
                let i = if k < at {
                    k
                } else {
                    k + 1
                };
                assert(after[i].identity@ == before[k].identity@);
            }
            assert(after[at as int].identity@ == value.identity@);
            covered(before, after, names, added);
        }
    }
}

proof fn order_distinguishes(list: Seq<Sought>, i: int, j: int)
    requires
        are_sorted(list),
        0 <= i < list.len(),
        0 <= j < list.len(),
        i != j,
    ensures
        list[i].identity@ != list[j].identity@,
{
    if i < j {
        assert(precedes(list[i].identity@, list[j].identity@));
    } else {
        assert(precedes(list[j].identity@, list[i].identity@));
    }
    crate::order::order_is_irreflexive(list[i].identity@);
}

proof fn covered(before: Seq<Sought>, after: Seq<Sought>, names: Seq<String>, added: String)
    requires
        is_plan(before, names),
        forall|k: int|
            0 <= k < before.len() ==> is_planned(after, (#[trigger] before[k]).identity@),
        is_planned(after, identity_of(added@)),
    ensures
        forall|i: int|
            0 <= i < names.push(added).len() ==> is_planned(
                after,
                identity_of((#[trigger] names.push(added)[i])@),
            ),
{
    let more = names.push(added);
    assert forall|i: int| 0 <= i < more.len() implies is_planned(
        after,
        identity_of((#[trigger] more[i])@),
    ) by {
        if i < names.len() {
            assert(more[i] == names[i]);
            let k = choose|k: int|
                0 <= k < before.len() && (#[trigger] before[k]).identity@ == identity_of(
                    names[i]@,
                );
            assert(is_planned(after, before[k].identity@));
        }
    }
}

/// One row of the answer to a LIST command: the bytes of the name, and its attributes.
#[derive(Debug)]
pub struct ListRow {
    pub name: Vec<u8>,
    pub attributes: Vec<String>,
}

/// The row names the mailbox that was asked for.
pub open spec fn names_it(row: ListRow, identity: Seq<char>) -> bool {
    match spelled(row.name@) {
        Some(name) => identity_of(name) == identity,
        None => false,
    }
}

/// Every row names the mailbox, and all agree on its attributes.
pub open spec fn rows_agree(rows: Seq<ListRow>, identity: Seq<char>) -> bool {
    &&& forall|i: int| 0 <= i < rows.len() ==> names_it(#[trigger] rows[i], identity)
    &&& forall|i: int|
        0 <= i < rows.len() ==> same_members((#[trigger] rows[i]).attributes@, rows[0].attributes@)
}

/// Some attribute says that the mailbox cannot be selected.
pub open spec fn is_closed(attributes: Seq<String>) -> bool {
    exists|i: int|
        0 <= i < attributes.len() && lowered_text((#[trigger] attributes[i])@) == lowered_text(
            "\\Noselect"@,
        )
}

/// The mailbox of that identity with these attributes.
pub open spec fn describes(mailbox: Mailbox, identity: Seq<char>, attributes: Seq<String>) -> bool {
    &&& mailbox.name@ == identity
    &&& is_ascending(mailbox.attributes@)
    &&& same_members(mailbox.attributes@, attributes)
    &&& mailbox.selectable == !is_closed(attributes)
}

fn closed_to_selection(attributes: &Vec<String>) -> (r: bool)
    ensures
        r == is_closed(attributes@),
{
    for i in 0..attributes.len()
        invariant
            forall|j: int|
                0 <= j < i ==> lowered_text((#[trigger] attributes@[j])@) != lowered_text(
                    "\\Noselect"@,
                ),
    {
        if same_text_ignoring_case(attributes[i].as_str(), "\\Noselect") {
            assert(lowered_text(attributes@[i as int]@) == lowered_text("\\Noselect"@));
            return true;
        }
    }
    false
}

proof fn members_decide(a: Seq<String>, b: Seq<String>)
    requires
        same_members(a, b),
    ensures
        is_closed(a) == is_closed(b),
{
    if is_closed(a) {
        let i = choose|i: int|
            0 <= i < a.len() && lowered_text((#[trigger] a[i])@) == lowered_text("\\Noselect"@);
        assert(listed(a, a[i]@));
        assert(listed(b, a[i]@));
    }
    if is_closed(b) {
        let i = choose|i: int|
            0 <= i < b.len() && lowered_text((#[trigger] b[i])@) == lowered_text("\\Noselect"@);
        assert(listed(b, b[i]@));
        assert(listed(a, b[i]@));
    }
}

proof fn members_chain(a: Seq<String>, b: Seq<String>, c: Seq<String>)
    requires
        same_members(a, b),
        same_members(b, c),
    ensures
        same_members(a, c),
{
    assert forall|wanted: Seq<char>| #[trigger] listed(a, wanted) == listed(c, wanted) by {
        assert(listed(a, wanted) == listed(b, wanted));
        assert(listed(b, wanted) == listed(c, wanted));
    }
}

/// So many rows in all, as far as they can be counted.
pub open spec fn counted(earlier: usize, rows: nat) -> usize {
    if earlier + rows > usize::MAX {
        usize::MAX
    } else {
        (earlier + rows) as usize
    }
}

/// Takes the rows for one mailbox, after `earlier` rows for others, of which `maximum` are allowed.
pub fn listed_mailbox(identity: &str, rows: &Vec<ListRow>, earlier: usize, maximum: usize) -> (r:
    Result<(usize, Option<Mailbox>), Error>)
    ensures
        if counted(earlier, rows@.len()) > maximum {
            r == Err::<(usize, Option<Mailbox>), Error>(Error::Limit)
        } else if !rows_agree(rows@, identity@) {
            r == Err::<(usize, Option<Mailbox>), Error>(Error::Protocol)
        } else {
            &&& r matches Ok((count, found))
            &&& count == counted(earlier, rows@.len())
            &&& match found {
                Some(mailbox) => rows@.len() > 0 && describes(
                    mailbox,
                    identity@,
                    rows@[0].attributes@,
                ),
                None => rows@.len() == 0,
            }
        },
{
    let count: usize = earlier.saturating_add(rows.len());
    if count > maximum {
        return Err(Error::Limit);
    }
    let mut found: Option<Mailbox> = None;
    for i in 0..rows.len()
        invariant
            count <= maximum,
            count == counted(earlier, rows@.len()),
            forall|j: int| 0 <= j < i ==> names_it(#[trigger] rows@[j], identity@),
            forall|j: int|
                0 <= j < i ==> same_members(
                    (#[trigger] rows@[j]).attributes@,
                    rows@[0].attributes@,
                ),
            match found {
                Some(mailbox) => i > 0 && describes(mailbox, identity@, rows@[0].attributes@),
                None => i == 0,
            },
    {
        let row = &rows[i];
        let named = match text_of(row.name.as_slice()) {
            Some(name) => {
                let returned = mailbox_identity(name.as_str());
                same(returned.as_str(), identity)
            },
            None => false,
        };
        if !named {
            assert(!names_it(rows@[i as int], identity@));
            return Err(Error::Protocol);
        }
        let attributes = sorted_set(&row.attributes);
        let selectable = !closed_to_selection(&attributes);
        proof {
            members_decide(attributes@, row.attributes@);
        }
        let mailbox = Mailbox { name: identity.to_owned(), selectable, attributes };
        if let Some(previous) = &found {
            if !same_list(&previous.attributes, &mailbox.attributes) {
                proof {
                    if same_members(rows@[i as int].attributes@, rows@[0].attributes@) {
                        members_chain(
                            previous.attributes@,
                            rows@[0].attributes@,
                            rows@[i as int].attributes@,
                        );
                        members_chain(
                            previous.attributes@,
                            rows@[i as int].attributes@,
                            mailbox.attributes@,
                        );
                    }
                }
                return Err(Error::Protocol);
            }
            proof {
                members_chain(mailbox.attributes@, previous.attributes@, rows@[0].attributes@);
                members_chain(
                    rows@[i as int].attributes@,
                    mailbox.attributes@,
                    rows@[0].attributes@,
                );
                members_decide(rows@[i as int].attributes@, rows@[0].attributes@);
            }
        }
        found = Some(mailbox);
    }
    Ok((count, found))
}

/// The UTF-16 form of a character, the more significant byte of each unit first.
pub open spec fn utf16_bytes(c: char) -> Seq<u8> {
    let code = c as u32;
    if code < 0x10000 {
        seq![(code / 256) as u8, (code % 256) as u8]
    } else {
        let high = 0xd800 + (code - 0x10000) / 0x400;
        let low = 0xdc00 + (code - 0x10000) % 0x400;
        seq![(high / 256) as u8, (high % 256) as u8, (low / 256) as u8, (low % 256) as u8]
    }
}

pub open spec fn utf16_of(s: Seq<char>) -> Seq<u8>
    decreases s.len(),
{
    if s.len() == 0 {
        Seq::empty()
    } else {
        utf16_of(s.drop_last()) + utf16_bytes(s.last())
    }
}

fn push_utf16(out: &mut Vec<u8>, c: char)
    ensures
        final(out)@ == old(out)@ + utf16_bytes(c),
{
    let ghost before = out@;
    let code: u32 = c as u32;
    if code < 0x10000 {
        out.push((code / 256) as u8);
        out.push((code % 256) as u8);
    } else {
        let high: u32 = 0xd800 + (code - 0x10000) / 0x400;
        let low: u32 = 0xdc00 + (code - 0x10000) % 0x400;
        out.push((high / 256) as u8);
        out.push((high % 256) as u8);
        out.push((low / 256) as u8);
        out.push((low % 256) as u8);
    }
    assert(out@ =~= before + utf16_bytes(c));
}

/// Base64 in the alphabet of mailbox names, without padding.
pub uninterp spec fn mailbox_base64(bytes: Seq<u8>) -> Seq<char>;

/// `Engine::encode` of `base64` with the alphabet `IMAP_MUTF7` and without padding. The contract names
/// the text.
#[verifier::external_body]
fn encode_base64(bytes: &[u8]) -> (r: String)
    ensures
        r@ == mailbox_base64(bytes@),
{
    base64::engine::general_purpose::GeneralPurpose::new(
        &base64::alphabet::IMAP_MUTF7,
        base64::engine::general_purpose::NO_PAD,
    ).encode(bytes)
}

/// Where the run of characters beyond ASCII from `i` on ends.
pub open spec fn run_end(s: Seq<char>, i: int) -> int
    decreases s.len() - i,
{
    if 0 <= i < s.len() && s[i] as u32 > 0x7f {
        run_end(s, i + 1)
    } else {
        i
    }
}

proof fn runs_advance(s: Seq<char>, i: int)
    requires
        0 <= i <= s.len(),
    ensures
        i <= run_end(s, i) <= s.len(),
        i < s.len() && s[i] as u32 > 0x7f ==> i < run_end(s, i),
    decreases s.len() - i,
{
    if i < s.len() && s[i] as u32 > 0x7f {
        runs_advance(s, i + 1);
    }
}

/// The wire form of the name from `i` on: runs beyond ASCII stand in base64 between `&` and `-`, and a
/// plain `&` has a `-` behind it.
pub open spec fn pattern_from(s: Seq<char>, i: int) -> Seq<char>
    decreases s.len() - i,
    when 0 <= i <= s.len()
    via patterns_advance
{
    if i >= s.len() {
        Seq::empty()
    } else if s[i] as u32 > 0x7f {
        let end = run_end(s, i);
        seq!['&'] + mailbox_base64(utf16_of(s.subrange(i, end))) + seq!['-'] + pattern_from(s, end)
    } else if s[i] == '&' {
        seq!['&', '-'] + pattern_from(s, i + 1)
    } else {
        seq![s[i]] + pattern_from(s, i + 1)
    }
}

#[via_fn]
proof fn patterns_advance(s: Seq<char>, i: int) {
    runs_advance(s, i);
}

/// The LIST pattern that names exactly this mailbox.
pub fn mailbox_pattern(name: &str) -> (r: String)
    ensures
        r@ == pattern_from(name@, 0),
{
    let chars = chars_of(name);
    let mut out = String::new();
    let mut i: usize = 0;
    assert(out@ + pattern_from(name@, 0) =~= pattern_from(name@, 0));
    while i < chars.len()
        invariant
            chars@ == name@,
            i <= chars@.len(),
            out@ + pattern_from(name@, i as int) == pattern_from(name@, 0),
        decreases chars@.len() - i,
    {
        let ghost before = out@;
        let ghost start = i as int;
        let c = chars[i];
        if c as u32 > 0x7f {
            let mut bytes: Vec<u8> = Vec::new();
            assert(name@.subrange(start, start) =~= Seq::<char>::empty());
            assert(bytes@ =~= Seq::<u8>::empty());
            while i < chars.len() && chars[i] as u32 > 0x7f
                invariant
                    chars@ == name@,
                    0 <= start <= i <= chars@.len(),
                    run_end(name@, i as int) == run_end(name@, start),
                    bytes@ == utf16_of(name@.subrange(start, i as int)),
                decreases chars@.len() - i,
            {
                push_utf16(&mut bytes, chars[i]);
                assert(name@.subrange(start, i + 1).drop_last() =~= name@.subrange(
                    start,
                    i as int,
                ));
                i = i + 1;
            }
            let text = encode_base64(bytes.as_slice());
            out.push('&');
            out.push_str(text.as_str());
            out.push('-');
            proof {
                runs_advance(name@, start);
                assert(out@ =~= before + (seq!['&'] + text@ + seq!['-']));
                assert(out@ + pattern_from(name@, i as int) =~= before + pattern_from(
                    name@,
                    start,
                ));
            }
        } else {
            out.push(c);
            if c == '&' {
                out.push('-');
            }
            i = i + 1;
            assert(out@ + pattern_from(name@, i as int) =~= before + pattern_from(name@, start));
        }
    }
    assert(out@ + pattern_from(name@, i as int) =~= out@);
    out
}

/// A name within ASCII and without `&` is its own pattern.
pub proof fn plain_names_are_their_own_pattern(s: Seq<char>, i: int)
    requires
        0 <= i <= s.len(),
        forall|k: int| 0 <= k < s.len() ==> (#[trigger] s[k]) as u32 <= 0x7f && s[k] != '&',
    ensures
        pattern_from(s, i) == s.skip(i),
    decreases s.len() - i,
{
    if i < s.len() {
        plain_names_are_their_own_pattern(s, i + 1);
        assert(seq![s[i]] + s.skip(i + 1) =~= s.skip(i));
    } else {
        assert(s.skip(i) =~= Seq::<char>::empty());
    }
}

/// The inbox goes by one name in any case, and every other mailbox by its own as it is written.
pub proof fn only_the_inbox_ignores_case(name: Seq<char>, other: Seq<char>)
    ensures
        lowered_text(name) == seq!['i', 'n', 'b', 'o', 'x'] ==> identity_of(name) == seq!['I', 'N', 'B', 'O', 'X'],
        lowered_text(name) != seq!['i', 'n', 'b', 'o', 'x'] ==> identity_of(name) == name,
        identity_of(identity_of(name)) == identity_of(name),
        identity_of(name) == identity_of(other) <==> name == other || (lowered_text(name) == lowered_text(other)
            && lowered_text(name) == seq!['i', 'n', 'b', 'o', 'x']),
{
    reveal_strlit("INBOX");
    assert("INBOX"@ =~= seq!['I', 'N', 'B', 'O', 'X']);
    assert(lowered_text("INBOX"@) =~= seq!['i', 'n', 'b', 'o', 'x']);
}

/// A mailbox can be selected unless one of its attributes says that it cannot, in any case.
pub proof fn closed_mailboxes_say_so(mailbox: Mailbox, identity: Seq<char>, attributes: Seq<String>)
    requires
        describes(mailbox, identity, attributes),
    ensures
        mailbox.name@ == identity,
        !mailbox.selectable <==> exists|i: int|
            0 <= i < attributes.len() && lowered_text((#[trigger] attributes[i])@) == "\\noselect"@,
        forall|text: Seq<char>| #[trigger] listed(attributes, text) == listed(mailbox.attributes@, text),
{
    reveal_strlit("\\Noselect");
    reveal_strlit("\\noselect");
    assert(lowered_text("\\Noselect"@) =~= "\\noselect"@);
}

/// A list of names is accepted exactly where there are not too many and each is a plain one.
pub proof fn every_name_is_examined(names: Seq<String>, limits: Limits)
    ensures
        first_bad_name(names) is None <==> forall|i: int|
            0 <= i < names.len() ==> mailbox_verdict((#[trigger] names[i])@) is Ok,
        plan_refusal(names, limits) is None <==> limits.valid() && names.len() <= limits.max_mailboxes && forall|
            i: int,
        |
            0 <= i < names.len() ==> mailbox_verdict((#[trigger] names[i])@) is Ok,
    decreases names.len(),
{
    if names.len() > 0 {
        let shorter = names.drop_last();
        every_name_is_examined(shorter, limits);
        let n = names.len() - 1;
        assert(names[n] == names.last());
        assert(forall|i: int| 0 <= i < n ==> shorter[i] == #[trigger] names[i]);
        if forall|i: int| 0 <= i < names.len() ==> mailbox_verdict((#[trigger] names[i])@) is Ok {
            assert forall|i: int| 0 <= i < shorter.len() implies mailbox_verdict((#[trigger] shorter[i])@) is Ok by {
                assert(names[i] == shorter[i]);
            }
        } else if mailbox_verdict(names.last()@) is Ok {
            let i = choose|i: int| 0 <= i < names.len() && mailbox_verdict((#[trigger] names[i])@) is Err;
            assert(shorter[i] == names[i]);
        }
    }
}

/// Characters in UTF-16 read back: two bytes with the higher one first, or two such pairs of which the
/// first lies in the high and the second in the low half of the surrogates.
pub proof fn wide_characters_read_back(c: char)
    ensures
        ({
            let bytes = utf16_bytes(c);
            let first = 256 * bytes[0] + bytes[1];
            let second = 256 * bytes[2] + bytes[3];
            &&& c as int <= 0xffff ==> bytes.len() == 2 && first == c as int
            &&& c as int > 0xffff ==> bytes.len() == 4 && 0xd800 <= first <= 0xdbff && 0xdc00 <= second <= 0xdfff
                && 0x10000 + 1024 * (first - 0xd800) + (second - 0xdc00) == c as int
        }),
{
    assert(c as u32 == c as int);
    assert(c as int <= 0x10ffff);
}

/// In a pattern a plain character stands for itself, an ampersand is followed by a hyphen, and a run of
/// other characters stands between an ampersand and a hyphen.
pub proof fn patterns_are_written_piece_by_piece(s: Seq<char>, i: int)
    requires
        0 <= i < s.len(),
    ensures
        s[i] == '&' ==> pattern_from(s, i) == seq!['&', '-'] + pattern_from(s, i + 1),
        (s[i] as int) < 0x80 && s[i] != '&' ==> pattern_from(s, i) == seq![s[i]] + pattern_from(s, i + 1),
        s[i] as int >= 0x80 ==> pattern_from(s, i)[0] == '&',
{
    let c: char = s[i];
    plain_characters_are_small(c);
}

proof fn plain_characters_are_small(c: char)
    ensures
        c as u32 <= 0x7f <==> (c as int) < 0x80,
{
}

/// A plan asks for each allowed mailbox once, in the order of their identities, and for no other.
pub proof fn plans_cover_the_allowlist(list: Seq<Sought>, names: Seq<String>, i: int, j: int)
    requires
        is_plan(list, names),
    ensures
        0 <= i < names.len() ==> exists|k: int|
            0 <= k < list.len() && (#[trigger] list[k]).identity@ == identity_of(names[i]@),
        0 <= i < list.len() ==> exists|k: int|
            0 <= k < names.len() && (#[trigger] names[k])@ == list[i].name@ && identity_of(names[k]@) == list[i].identity@,
        0 <= i < list.len() && 0 <= j < list.len() && list[i].identity@ == list[j].identity@ ==> i == j,
        0 <= i < j < list.len() ==> precedes(list[i].identity@, list[j].identity@),
{
    if 0 <= i < names.len() {
        assert(is_planned(list, identity_of(names[i]@)));
    }
    if 0 <= i < list.len() {
        assert(stands_for(list[i], names));
        let k = choose|k: int| #[trigger] is_last(list[i], names, k);
        assert(names[k]@ == list[i].name@);
    }
    if 0 <= i < list.len() && 0 <= j < list.len() && list[i].identity@ == list[j].identity@ {
        crate::order::order_is_irreflexive(list[i].identity@);
        if i < j {
            assert(precedes(list[i].identity@, list[j].identity@));
        } else if j < i {
            assert(precedes(list[j].identity@, list[i].identity@));
        }
    }
}

} // verus!
