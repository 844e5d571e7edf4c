//! Transfer encodings of a body: which bytes are well-formed, and what survives of the others.
use vstd::prelude::*;

use crate::imap::attachment::decoder::{base64_char, base64_form, escaped_form, hex_char};
use crate::text::{alphanumeric, ascii_space, is_alphanumeric, is_ascii_space};

verus! {

pub const EQUALS: u8 = 0x3d;

/// A byte of the base64 alphabet.
pub open spec fn is_sextet(b: u8) -> bool {
    is_alphanumeric(b) || b == 0x2b || b == 0x2f
}

/// The number that a byte of the base64 alphabet stands for.
pub open spec fn sextet(b: u8) -> int {
    if 0x41 <= b <= 0x5a {
        b - 0x41
    } else if 0x61 <= b <= 0x7a {
        b - 0x61 + 26
    } else if 0x30 <= b <= 0x39 {
        b - 0x30 + 52
    } else if b == 0x2b {
        62
    } else {
        63
    }
}

pub fn base64_alphabet(b: u8) -> (r: bool)
    ensures
        r == is_sextet(b),
{
    alphanumeric(b) || b == 0x2b || b == 0x2f
}

pub fn base64_value(b: u8) -> (r: Option<u8>)
    ensures
        match r {
            Some(value) => is_sextet(b) && value == sextet(b) && value < 64,
            None => !is_sextet(b),
        },
{
    if 0x41 <= b && b <= 0x5a {
        Some(b - 0x41)
    } else if 0x61 <= b && b <= 0x7a {
        Some(b - 0x61 + 26)
    } else if 0x30 <= b && b <= 0x39 {
        Some(b - 0x30 + 52)
    } else if b == 0x2b {
        Some(62)
    } else if b == 0x2f {
        Some(63)
    } else {
        None
    }
}

/// Four bytes that encode one to three octets without loose bits.
pub open spec fn is_quartet(q: Seq<u8>) -> bool {
    &&& q.len() == 4
    &&& is_sextet(q[0]) && is_sextet(q[1])
    &&& {
        ||| is_sextet(q[2]) && is_sextet(q[3])
        ||| is_sextet(q[2]) && q[3] == EQUALS && sextet(q[2]) % 4 == 0
        ||| q[2] == EQUALS && q[3] == EQUALS && sextet(q[1]) % 16 == 0
    }
}

/// The four bytes end the encoding.
pub open spec fn is_padded(q: Seq<u8>) -> bool {
    q[2] == EQUALS || q[3] == EQUALS
}

pub fn valid_base64_quartet(q: &Vec<u8>) -> (r: bool)
    requires
        q@.len() == 4,
    ensures
        r == is_quartet(q@),
{
    match (base64_value(q[0]), base64_value(q[1]), base64_value(q[2]), base64_value(q[3])) {
        (Some(_), Some(_), Some(_), Some(_)) => true,
        (Some(_), Some(_), Some(third), None) => q[3] == EQUALS && third % 4 == 0,
        (Some(_), Some(second), None, None) => q[2] == EQUALS && q[3] == EQUALS && second % 16 == 0,
        _ => false,
    }
}

/// The bytes that are not white space.
pub open spec fn significant(wire: Seq<u8>) -> Seq<u8>
    decreases wire.len(),
{
    if wire.len() == 0 {
        Seq::empty()
    } else {
        let before = significant(wire.drop_last());
        if is_ascii_space(wire.last()) {
            before
        } else {
            before.push(wire.last())
        }
    }
}

pub open spec fn quartet(s: Seq<u8>, k: int) -> Seq<u8> {
    s.subrange(4 * k, 4 * k + 4)
}

/// The bytes are whole quartets, and only the last one may be padded.
pub open spec fn are_quanta(s: Seq<u8>) -> bool {
    &&& s.len() % 4 == 0
    &&& forall|k: int|
        0 <= k < s.len() / 4 ==> is_quartet(#[trigger] quartet(s, k)) && (is_padded(quartet(s, k))
            ==> k == s.len() / 4 - 1)
}

/// The encoding is complete and canonical, white space aside.
pub open spec fn is_base64(wire: Seq<u8>) -> bool {
    are_quanta(significant(wire))
}

/// The first `length` bytes are complete on their own and end with a byte of the encoding.
pub open spec fn is_clean_prefix(wire: Seq<u8>, length: int) -> bool {
    &&& 0 <= length <= wire.len()
    &&& length == 0 || !is_ascii_space(wire[length - 1])
    &&& is_base64(wire.take(length))
}

/// Whatever follows, the encoding is not well-formed any more.
pub open spec fn is_spoiled(s: Seq<u8>) -> bool {
    ||| exists|p: int| 0 <= p < s.len() && !is_sextet(#[trigger] s[p]) && s[p] != EQUALS
    ||| exists|k: int| 0 <= k && 4 * k + 4 <= s.len() && !is_quartet(#[trigger] quartet(s, k))
    ||| exists|k: int|
        0 <= k && 4 * k + 4 < s.len() && is_padded(#[trigger] quartet(s, k)) && is_quartet(
            quartet(s, k),
        )
}

proof fn spoiled_stays(s: Seq<u8>, longer: Seq<u8>)
    requires
        is_spoiled(s),
        s.is_prefix_of(longer),
    ensures
        !are_quanta(longer),
{
    if are_quanta(longer) {
        if exists|p: int| 0 <= p < s.len() && !is_sextet(#[trigger] s[p]) && s[p] != EQUALS {
            let p = choose|p: int|
                0 <= p < s.len() && !is_sextet(#[trigger] s[p]) && s[p] != EQUALS;
            let k = p / 4;
            assert(longer[p] == s[p]);
            assert(is_quartet(quartet(longer, k)));
            assert(quartet(longer, k)[p - 4 * k] == longer[p]);
        } else if exists|k: int|
            0 <= k && 4 * k + 4 <= s.len() && !is_quartet(#[trigger] quartet(s, k)) {
            let k = choose|k: int|
                0 <= k && 4 * k + 4 <= s.len() && !is_quartet(#[trigger] quartet(s, k));
            assert(quartet(longer, k) =~= quartet(s, k));
        } else {
            let k = choose|k: int|
                0 <= k && 4 * k + 4 < s.len() && is_padded(#[trigger] quartet(s, k)) && is_quartet(
                    quartet(s, k),
                );
            assert(quartet(longer, k) =~= quartet(s, k));
        }
    }
}

proof fn significant_grows(wire: Seq<u8>, few: int, many: int)
    requires
        0 <= few <= many <= wire.len(),
    ensures
        significant(wire.take(few)).is_prefix_of(significant(wire.take(many))),
    decreases many,
{
    if few < many {
        significant_grows(wire, few, many - 1);
        assert(wire.take(many).drop_last() =~= wire.take(many - 1));
    }
}

proof fn spoiled_from(wire: Seq<u8>, i: int)
    requires
        0 <= i <= wire.len(),
        is_spoiled(significant(wire.take(i))),
    ensures
        !is_base64(wire),
        forall|length: int| i <= length ==> !#[trigger] is_clean_prefix(wire, length),
{
    assert(wire.take(wire.len() as int) =~= wire);
    significant_grows(wire, i, wire.len() as int);
    spoiled_stays(significant(wire.take(i)), significant(wire));
    assert forall|length: int| i <= length implies !#[trigger] is_clean_prefix(wire, length) by {
        if is_clean_prefix(wire, length) {
            significant_grows(wire, i, length);
            spoiled_stays(significant(wire.take(i)), significant(wire.take(length)));
        }
    }
}

/// What is known of a base64 body after its first `i` bytes.
pub open spec fn scanned_to(
    wire: Seq<u8>,
    i: int,
    whole: int,
    open: Seq<u8>,
    padded: bool,
    complete: int,
) -> bool {
    let s = significant(wire.take(i));
    &&& 0 <= whole && whole % 4 == 0 && whole + open.len() == s.len() && open.len() < 4
    &&& open == s.subrange(whole, s.len() as int)
    &&& forall|p: int| 0 <= p < s.len() ==> is_sextet(#[trigger] s[p]) || s[p] == EQUALS
    &&& forall|k: int| 0 <= k < whole / 4 ==> is_quartet(#[trigger] quartet(s, k))
    &&& forall|k: int|
        0 <= k < whole / 4 && is_padded(#[trigger] quartet(s, k)) ==> padded && k == whole / 4 - 1
    &&& padded ==> open.len() == 0 && whole > 0 && is_padded(quartet(s, whole / 4 - 1))
    &&& is_clean_prefix(wire, complete)
    &&& complete <= i
    &&& forall|length: int|
        length <= i && #[trigger] is_clean_prefix(wire, length) ==> length <= complete
}

/// The longest clean prefix, and whether the whole is well-formed.
fn scan_base64(wire: &[u8]) -> (r: (usize, bool))
    ensures
        is_clean_prefix(wire@, r.0 as int),
        forall|length: int| #[trigger] is_clean_prefix(wire@, length) ==> length <= r.0,
        r.1 == is_base64(wire@),
{
    let mut complete: usize = 0;
    let mut open: Vec<u8> = Vec::new();
    let mut padded = false;
    let ghost mut whole: int = 0;
    assert(scanned_to(wire@, 0, 0, open@, false, 0)) by {
        assert(wire@.take(0).len() == 0);
        let s = significant(wire@.take(0));
        assert(s =~= Seq::<u8>::empty());
        assert(open@ =~= s.subrange(0, 0));
        assert(is_clean_prefix(wire@, 0));
    }
    let mut i: usize = 0;
    while i < wire.len()
        invariant
            i <= wire@.len(),
            complete <= wire@.len(),
            scanned_to(wire@, i as int, whole, open@, padded, complete as int),
        decreases wire@.len() - i,
    {
        let byte = wire[i];
        let ghost before = significant(wire@.take(i as int));
        let ghost after = significant(wire@.take(i + 1));
        assert(wire@.take(i + 1).drop_last() =~= wire@.take(i as int));
        assert(wire@.take(i + 1).last() == byte);
        if ascii_space(byte) {
            assert(after == before);
            assert(scanned_to(wire@, i + 1, whole, open@, padded, complete as int));
        } else {
            assert(after == before.push(byte));
            if padded || !(base64_alphabet(byte) || byte == EQUALS) {
                proof {
                    if padded {
                        let k = whole / 4 - 1;
                        assert(quartet(after, k) =~= quartet(before, k));
                    } else {
                        assert(after[before.len() as int] == byte);
                    }
                    assert(is_spoiled(after));
                    spoiled_from(wire@, i + 1);
                }
                return (complete, false);
            }
            open.push(byte);
            assert(open@ =~= after.subrange(whole, after.len() as int));
            assert forall|k: int| 0 <= k < whole / 4 implies #[trigger] quartet(after, k)
                == quartet(before, k) by {
                assert(quartet(after, k) =~= quartet(before, k));
            }
            assert forall|p: int| 0 <= p < after.len() implies is_sextet(#[trigger] after[p])
                || after[p] == EQUALS by {
                if p < before.len() {
                    assert(after[p] == before[p]);
                }
            }
            if open.len() == 4 {
                let ghost k = whole / 4;
                assert(quartet(after, k) =~= open@);
                if !valid_base64_quartet(&open) {
                    proof {
                        assert(is_spoiled(after));
                        spoiled_from(wire@, i + 1);
                    }
                    return (complete, false);
                }
                padded = open[2] == EQUALS || open[3] == EQUALS;
                complete = i + 1;
                proof {
                    assert(are_quanta(after)) by {
                        assert forall|j: int| 0 <= j < after.len() / 4 implies is_quartet(
                            #[trigger] quartet(after, j),
                        ) && (is_padded(quartet(after, j)) ==> j == after.len() / 4 - 1) by {
                            if j < k {
                                assert(quartet(after, j) == quartet(before, j));
                            }
                        }
                    }
                    whole = whole + 4;
                }
                open.clear();
                assert(open@ =~= after.subrange(whole, after.len() as int));
                assert(scanned_to(wire@, i + 1, whole, open@, padded, complete as int));
            } else {
                assert(!is_clean_prefix(wire@, i + 1));
                assert(scanned_to(wire@, i + 1, whole, open@, padded, complete as int));
            }
        }
        i = i + 1;
    }
    assert(wire@.take(wire@.len() as int) =~= wire@);
    (complete, open.len() == 0)
}

pub fn well_formed_base64(wire: &[u8]) -> (r: bool)
    ensures
        r == is_base64(wire@),
{
    scan_base64(wire).1
}

/// The length of the longest clean prefix.
pub fn complete_base64_quanta(wire: &[u8]) -> (r: usize)
    ensures
        is_clean_prefix(wire@, r as int),
        forall|length: int| #[trigger] is_clean_prefix(wire@, length) ==> length <= r,
{
    scan_base64(wire).0
}

pub open spec fn is_hex(b: u8) -> bool {
    0x30 <= b <= 0x39 || 0x41 <= b <= 0x46 || 0x61 <= b <= 0x66
}

fn hexadecimal(b: u8) -> (r: bool)
    ensures
        r == is_hex(b),
{
    (0x30 <= b && b <= 0x39) || (0x41 <= b && b <= 0x46) || (0x61 <= b && b <= 0x66)
}

/// The length of the unit of quoted-printable text that starts at byte `i`: a plain byte, a soft
/// line break, or an escaped octet.
pub open spec fn unit_at(wire: Seq<u8>, i: int) -> Option<int> {
    if !(0 <= i < wire.len()) {
        None
    } else if wire[i] != EQUALS {
        Some(1)
    } else if i + 2 < wire.len() && ((wire[i + 1] == 0x0d && wire[i + 2] == 0x0a) || (is_hex(
        wire[i + 1],
    ) && is_hex(wire[i + 2]))) {
        Some(3)
    } else {
        None
    }
}

/// Where the first run of well-formed units from byte `i` on ends.
pub open spec fn units_end(wire: Seq<u8>, i: int) -> int
    decreases wire.len() - i,
{
    match unit_at(wire, i) {
        Some(length) if length > 0 => units_end(wire, i + length),
        _ => i,
    }
}

/// All of the text is well-formed units.
pub open spec fn is_quoted_printable(wire: Seq<u8>) -> bool {
    units_end(wire, 0) == wire.len()
}

pub fn quoted_printable_prefix_len(wire: &[u8]) -> (r: usize)
    ensures
        r == units_end(wire@, 0),
        r <= wire@.len(),
{
    let mut i: usize = 0;
    while i < wire.len()
        invariant_except_break
            i <= wire@.len(),
            units_end(wire@, i as int) == units_end(wire@, 0),
        ensures
            i <= wire@.len(),
            i == units_end(wire@, 0),
        decreases wire@.len() - i,
    {
        if wire[i] != EQUALS {
            assert(unit_at(wire@, i as int) == Some(1int));
            i = i + 1;
        } else if wire.len() - i > 2 && ((wire[i + 1] == 0x0d && wire[i + 2] == 0x0a) || (
        hexadecimal(wire[i + 1]) && hexadecimal(wire[i + 2]))) {
            assert(unit_at(wire@, i as int) == Some(3int));
            i = i + 3;
        } else {
            assert(unit_at(wire@, i as int) is None);
            break;
        }
    }
    i
}

pub fn well_formed_quoted_printable(wire: &[u8]) -> (r: bool)
    ensures
        r == is_quoted_printable(wire@),
{
    quoted_printable_prefix_len(wire) == wire.len()
}

/// What the base64 decoder makes of a body; nothing where it refuses the body as a whole.
pub uninterp spec fn base64_decoded(wire: Seq<u8>) -> Option<Seq<u8>>;

/// `mail_parser::decoders::base64::base64_decode`, whose result the contract names.
#[verifier::external_body]
fn decode_base64_wholly(wire: &[u8]) -> (r: Option<Vec<u8>>)
    ensures
        match r {
            Some(bytes) => base64_decoded(wire@) == Some(bytes@),
            None => base64_decoded(wire@) is None,
        },
{
    mail_parser::decoders::base64::base64_decode(wire)
}

/// What the quoted-printable decoder makes of a body; nothing where it refuses the body as a whole.
pub uninterp spec fn quoted_printable_decoded(wire: Seq<u8>) -> Option<Seq<u8>>;

/// `mail_parser::decoders::quoted_printable::quoted_printable_decode`, whose result the contract
/// names.
#[verifier::external_body]
fn decode_quoted_printable_wholly(wire: &[u8]) -> (r: Option<Vec<u8>>)
    ensures
        match r {
            Some(bytes) => quoted_printable_decoded(wire@) == Some(bytes@),
            None => quoted_printable_decoded(wire@) is None,
        },
{
    mail_parser::decoders::quoted_printable::quoted_printable_decode(wire)
}

/// The octets that stand for a body, and whether something of the body was lost: the decoded whole,
/// or else what was recovered from its well-formed beginning.
pub open spec fn settled(
    decoded: Option<Seq<u8>>,
    well_formed: bool,
    recovered: Option<Seq<u8>>,
) -> (Seq<u8>, bool) {
    match decoded {
        Some(bytes) => (bytes, !well_formed),
        None => match recovered {
            Some(bytes) => (bytes, true),
            None => (Seq::empty(), true),
        },
    }
}

pub open spec fn optional_bytes(bytes: Option<Vec<u8>>) -> Option<Seq<u8>> {
    match bytes {
        Some(bytes) => Some(bytes@),
        None => None,
    }
}

/// Chooses between the decoded whole and what was recovered from the beginning.
pub fn settle(decoded: Option<Vec<u8>>, well_formed: bool, recovered: Option<Vec<u8>>) -> (r: (
    Vec<u8>,
    bool,
))
    ensures
        (r.0@, r.1) == settled(optional_bytes(decoded), well_formed, optional_bytes(recovered)),
{
    match decoded {
        Some(bytes) => (bytes, !well_formed),
        None => match recovered {
            Some(bytes) => (bytes, true),
            None => {
                let none: Vec<u8> = Vec::new();
                assert(none@ =~= Seq::<u8>::empty());
                (none, true)
            },
        },
    }
}

/// The length of the longest clean prefix of a base64 body.
pub open spec fn clean_length(wire: Seq<u8>) -> int {
    choose|length: int|
        is_clean_prefix(wire, length) && forall|other: int| #[trigger]
            is_clean_prefix(wire, other) ==> other <= length
}

/// The octets of a base64 body, and whether something of it was lost.
pub open spec fn base64_octets(wire: Seq<u8>) -> (Seq<u8>, bool) {
    settled(base64_decoded(wire), is_base64(wire), base64_decoded(wire.take(clean_length(wire))))
}

/// The decoder rejects an invalid byte wholesale. Keep the complete MIME quanta before that byte,
/// which are independently decodable, and make the loss visible to the caller.
pub fn decode_base64(wire: &[u8]) -> (r: (Vec<u8>, bool))
    ensures
        (r.0@, r.1) == base64_octets(wire@),
{
    let well_formed = well_formed_base64(wire);
    let decoded = decode_base64_wholly(wire);
    let complete: usize = complete_base64_quanta(wire);
    let prefix = vstd::slice::slice_subrange(wire, 0, complete);
    assert(clean_length(wire@) == complete) by {
        let length = clean_length(wire@);
        assert(is_clean_prefix(wire@, complete as int));
        assert(is_clean_prefix(wire@, length));
    }
    assert(prefix@ =~= wire@.take(complete as int));
    let recovered = if decoded.is_none() {
        decode_base64_wholly(prefix)
    } else {
        None
    };
    settle(decoded, well_formed, recovered)
}

/// The octets of a quoted-printable body, and whether something of it was lost.
pub open spec fn quoted_printable_octets(wire: Seq<u8>) -> (Seq<u8>, bool) {
    settled(
        quoted_printable_decoded(wire),
        is_quoted_printable(wire),
        quoted_printable_decoded(wire.take(units_end(wire, 0))),
    )
}

pub fn decode_quoted_printable(wire: &[u8]) -> (r: (Vec<u8>, bool))
    ensures
        (r.0@, r.1) == quoted_printable_octets(wire@),
{
    let well_formed = well_formed_quoted_printable(wire);
    let decoded = decode_quoted_printable_wholly(wire);
    let length: usize = quoted_printable_prefix_len(wire);
    let prefix = vstd::slice::slice_subrange(wire, 0, length);
    assert(prefix@ =~= wire@.take(length as int));
    let recovered = if decoded.is_none() {
        decode_quoted_printable_wholly(prefix)
    } else {
        None
    };
    settle(decoded, well_formed, recovered)
}

/// A clean prefix of a well-formed body that ends with its last byte of the encoding is the whole
/// of it: nothing is cut off from a body that is well-formed.
pub proof fn well_formed_bodies_are_kept(wire: Seq<u8>)
    requires
        is_base64(wire),
        wire.len() > 0,
        !is_ascii_space(wire.last()),
    ensures
        is_clean_prefix(wire, wire.len() as int),
        clean_length(wire) == wire.len(),
{
    assert(wire.take(wire.len() as int) =~= wire);
    assert(is_clean_prefix(wire, wire.len() as int));
    let length = clean_length(wire);
    assert(is_clean_prefix(wire, length));
}

/// Octets written in base64 are well-formed base64, with any white space among the letters.
pub proof fn written_base64_is_well_formed(octets: Seq<u8>, wire: Seq<u8>)
    requires
        significant(wire) == base64_form(octets),
    ensures
        is_base64(wire),
{
    forms_are_quanta(octets);
}

/// White space is left out of account, and nothing else is.
pub proof fn white_space_is_insignificant(before: Seq<u8>, b: u8, after: Seq<u8>)
    ensures
        significant(before + after) == significant(before) + significant(after),
        significant(seq![b]) == (if b == 32 || b == 9 || b == 10 || b == 12 || b == 13 {
            Seq::empty()
        } else {
            seq![b]
        }),
    decreases after.len(),
{
    reveal_with_fuel(significant, 2);
    assert(seq![b].drop_last() =~= Seq::<u8>::empty());
    assert(Seq::<u8>::empty().push(b) =~= seq![b]);
    if after.len() == 0 {
        assert(before + after =~= before);
        assert(significant(before) + significant(after) =~= significant(before));
    } else {
        white_space_is_insignificant(before, b, after.drop_last());
        assert((before + after).drop_last() =~= before + after.drop_last());
        assert((before + after).last() == after.last());
        assert(significant(before + after) =~= significant(before) + significant(after));
    }
}

proof fn letters_are_sextets(value: int)
    requires
        0 <= value < 64,
    ensures
        is_sextet(base64_char(value)),
        sextet(base64_char(value)) == value,
        base64_char(value) != EQUALS,
{
    reveal(base64_char);
}

proof fn forms_are_quanta(octets: Seq<u8>)
    ensures
        are_quanta(base64_form(octets)),
    decreases octets.len(),
{
    let form = base64_form(octets);
    if octets.len() == 0 {
    } else if octets.len() == 1 {
        let bits = octets[0] * 0x10;
        letters_are_sextets(bits / 64);
        letters_are_sextets(bits % 64);
        assert(form.len() == 4);
        assert(quartet(form, 0) =~= form);
        assert((bits % 64) % 16 == 0);
    } else if octets.len() == 2 {
        let bits = octets[0] * 0x400 + octets[1] * 4;
        letters_are_sextets(bits / 4096);
        letters_are_sextets(bits / 64 % 64);
        letters_are_sextets(bits % 64);
        assert(form.len() == 4);
        assert(quartet(form, 0) =~= form);
        assert((bits % 64) % 4 == 0);
    } else {
        let bits = octets[0] * 0x1_0000 + octets[1] * 0x100 + octets[2];
        letters_are_sextets(bits / 0x4_0000);
        letters_are_sextets(bits / 4096 % 64);
        letters_are_sextets(bits / 64 % 64);
        letters_are_sextets(bits % 64);
        let rest = base64_form(octets.skip(3));
        forms_are_quanta(octets.skip(3));
        let head = seq![
            base64_char(bits / 0x4_0000),
            base64_char(bits / 4096 % 64),
            base64_char(bits / 64 % 64),
            base64_char(bits % 64),
        ];
        assert(form =~= head + rest);
        assert(quartet(form, 0) =~= head);
        assert forall|k: int| 0 <= k < form.len() / 4 implies is_quartet(#[trigger] quartet(form, k)) && (is_padded(
            quartet(form, k),
        ) ==> k == form.len() / 4 - 1) by {
            if k > 0 {
                assert(quartet(form, k) =~= quartet(rest, k - 1));
            }
        }
    }
}

/// A body is whole exactly where its encoding is well formed and was decoded; what else is recovered of it
/// counts as damaged, and where nothing can be, nothing is given.
pub proof fn damage_is_told(decoded: Option<Seq<u8>>, well_formed: bool, recovered: Option<Seq<u8>>)
    ensures
        settled(decoded, well_formed, recovered).1 <==> (decoded is None || !well_formed),
        decoded matches Some(bytes) ==> settled(decoded, well_formed, recovered).0 == bytes,
        decoded is None ==> match recovered {
            Some(bytes) => settled(decoded, well_formed, recovered).0 == bytes,
            None => settled(decoded, well_formed, recovered).0.len() == 0,
        },
{
}

/// Octets written as `=` and two hexadecimal digits are well-formed quoted-printable, and so is any text
/// without `=`; an `=` that neither two hexadecimal digits nor a line break follow is not.
pub proof fn written_escapes_are_well_formed(wire: Seq<u8>, octets: Seq<u8>, capital: bool)
    ensures
        is_quoted_printable(escaped_form(octets, capital)),
        !wire.contains(EQUALS) ==> is_quoted_printable(wire),
        !is_quoted_printable(seq![EQUALS]),
{
    escapes_are_units(octets, capital, 0);
    if !wire.contains(EQUALS) {
        plain_bytes_are_units(wire, 0);
    }
    reveal_with_fuel(units_end, 2);
}

proof fn plain_bytes_are_units(wire: Seq<u8>, i: int)
    requires
        !wire.contains(EQUALS),
        0 <= i <= wire.len(),
    ensures
        units_end(wire, i) == wire.len(),
    decreases wire.len() - i,
{
    if i < wire.len() {
        assert(wire[i] != EQUALS);
        plain_bytes_are_units(wire, i + 1);
    }
}

proof fn escapes_have_three_bytes(octets: Seq<u8>, capital: bool, k: int)
    requires
        0 <= k < octets.len(),
    ensures
        escaped_form(octets, capital).len() == 3 * octets.len(),
        escaped_form(octets, capital)[3 * k] == EQUALS,
        is_hex(escaped_form(octets, capital)[3 * k + 1]),
        is_hex(escaped_form(octets, capital)[3 * k + 2]),
    decreases octets.len(),
{
    let shorter = octets.drop_last();
    let before = escaped_form(shorter, capital);
    let last = octets.last() as int;
    let added = seq![0x3du8, hex_char(last / 16, capital), hex_char(last % 16, capital)];
    if shorter.len() > 0 {
        escapes_have_three_bytes(
            shorter,
            capital,
            if k < shorter.len() {
                k
            } else {
                0
            },
        );
    } else {
        reveal_with_fuel(escaped_form, 2);
        assert(before.len() == 0);
    }
    assert(escaped_form(octets, capital) == before + added);
    assert(before.len() == 3 * shorter.len());
    if k < shorter.len() {
        assert((before + added)[3 * k] == before[3 * k]);
        assert((before + added)[3 * k + 1] == before[3 * k + 1]);
        assert((before + added)[3 * k + 2] == before[3 * k + 2]);
    } else {
        assert((before + added)[3 * k] == added[0]);
        assert((before + added)[3 * k + 1] == added[1]);
        assert((before + added)[3 * k + 2] == added[2]);
    }
}

proof fn escapes_are_units(octets: Seq<u8>, capital: bool, k: int)
    requires
        0 <= k <= octets.len(),
    ensures
        units_end(escaped_form(octets, capital), 3 * k) == escaped_form(octets, capital).len(),
    decreases octets.len() - k,
{
    let wire = escaped_form(octets, capital);
    if k < octets.len() {
        escapes_have_three_bytes(octets, capital, k);
        escapes_are_units(octets, capital, k + 1);
        assert(unit_at(wire, 3 * k) == Some(3int));
    } else if octets.len() > 0 {
        escapes_have_three_bytes(octets, capital, 0);
    }
}

} // verus!
