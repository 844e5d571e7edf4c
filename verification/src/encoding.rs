//! Shared allocation bounds for JSON parsing and serialization.
use vstd::prelude::*;

use crate::domain::{Error, ErrorCode};

verus! {

pub const QUOTE: u8 = 0x22;

pub const BACKSLASH: u8 = 0x5c;

pub const COMMA: u8 = 0x2c;

pub const COLON: u8 = 0x3a;

pub const LEFT_BRACKET: u8 = 0x5b;

pub const RIGHT_BRACKET: u8 = 0x5d;

pub const LEFT_BRACE: u8 = 0x7b;

pub const RIGHT_BRACE: u8 = 0x7d;

/// What a JSON scanner knows after some bytes: whether it is inside a string, how deep the
/// next byte is nested, and how many keys and values the text has opened so far.
pub struct Scan {
    pub quoted: bool,
    pub escaped: bool,
    pub depth: nat,
    pub nodes: nat,
}

pub open spec fn opens(byte: u8) -> bool {
    byte == LEFT_BRACE || byte == LEFT_BRACKET
}

pub open spec fn closes(byte: u8) -> bool {
    byte == RIGHT_BRACE || byte == RIGHT_BRACKET
}

/// The byte starts another key or value.
pub open spec fn separates(byte: u8) -> bool {
    opens(byte) || byte == COMMA || byte == COLON
}

/// The scanner after the first `count` bytes.
pub open spec fn scanned(bytes: Seq<u8>, count: int) -> Scan
    decreases count,
{
    if count <= 0 {
        Scan { quoted: false, escaped: false, depth: 0, nodes: 1 }
    } else {
        let before = scanned(bytes, count - 1);
        let byte = bytes[count - 1];
        if before.quoted {
            if before.escaped {
                Scan { escaped: false, ..before }
            } else if byte == BACKSLASH {
                Scan { escaped: true, ..before }
            } else {
                Scan { quoted: byte != QUOTE, ..before }
            }
        } else {
            Scan {
                quoted: byte == QUOTE,
                escaped: before.escaped,
                depth: if opens(byte) {
                    before.depth + 1
                } else if closes(byte) && before.depth > 0 {
                    (before.depth - 1) as nat
                } else {
                    before.depth
                },
                nodes: if separates(byte) {
                    before.nodes + 1
                } else {
                    before.nodes
                },
            }
        }
    }
}

/// The byte at `i` stands outside of strings.
pub open spec fn structural(bytes: Seq<u8>, i: int) -> bool {
    !scanned(bytes, i).quoted
}

/// No bracket outside of strings is nested deeper than `maximum`.
pub open spec fn depth_fits(bytes: Seq<u8>, maximum: nat) -> bool {
    forall|i: int|
        0 <= i < bytes.len() && #[trigger] structural(bytes, i) && opens(bytes[i]) ==> scanned(
            bytes,
            i + 1,
        ).depth <= maximum
}

/// No separator outside of strings starts a key or value past the first `maximum`.
pub open spec fn nodes_fit(bytes: Seq<u8>, maximum: nat) -> bool {
    forall|i: int|
        0 <= i < bytes.len() && #[trigger] structural(bytes, i) && separates(bytes[i]) ==> scanned(
            bytes,
            i + 1,
        ).nodes <= maximum
}

proof fn scan_bound(bytes: Seq<u8>, count: int)
    requires
        0 <= count,
    ensures
        scanned(bytes, count).depth <= count,
        1 <= scanned(bytes, count).nodes <= count + 1,
    decreases count,
{
    if count > 0 {
        scan_bound(bytes, count - 1);
    }
}

/// Check nesting before the JSON decoder allocates nested values.
pub fn validate_json_depth(bytes: &[u8], maximum_depth: usize) -> (r: Result<(), Error>)
    ensures
        r is Ok <==> depth_fits(bytes@, maximum_depth as nat),
        r matches Err(error) ==> error.reports(ErrorCode::InvalidRequest),
{
    let mut depth: usize = 0;
    let mut quoted = false;
    let mut escaped = false;
    for i in 0..bytes.len()
        invariant
            scanned(bytes@, i as int).depth == depth,
            scanned(bytes@, i as int).quoted == quoted,
            scanned(bytes@, i as int).escaped == escaped,
            forall|j: int|
                0 <= j < i && #[trigger] structural(bytes@, j) && opens(bytes@[j]) ==> scanned(
                    bytes@,
                    j + 1,
                ).depth <= maximum_depth,
    {
        let byte = bytes[i];
        assert(structural(bytes@, i as int) == !quoted);
        if quoted {
            if escaped {
                escaped = false;
            } else if byte == BACKSLASH {
                escaped = true;
            } else if byte == QUOTE {
                quoted = false;
            }
        } else if byte == QUOTE {
            quoted = true;
        } else if byte == LEFT_BRACE || byte == LEFT_BRACKET {
            if depth >= maximum_depth {
                assert(scanned(bytes@, i + 1).depth > maximum_depth);
                return Err(Error::new(ErrorCode::InvalidRequest));
            }
            depth = depth + 1;
        } else if byte == RIGHT_BRACE || byte == RIGHT_BRACKET {
            depth = depth.saturating_sub(1);
        }
    }
    Ok(())
}

/// Bound nesting and structural nodes before the JSON decoder allocates values.
pub fn validate_json_bounds(bytes: &[u8], maximum_depth: usize, maximum_nodes: usize) -> (r: Result<
    (),
    Error,
>)
    ensures
        r is Ok <==> depth_fits(bytes@, maximum_depth as nat) && nodes_fit(
            bytes@,
            maximum_nodes as nat,
        ),
        r matches Err(error) ==> error.reports(ErrorCode::InvalidRequest),
{
    let mut depth: usize = 0;
    let mut nodes: usize = 1;
    let mut quoted = false;
    let mut escaped = false;
    for i in 0..bytes.len()
        invariant
            scanned(bytes@, i as int).depth == depth,
            scanned(bytes@, i as int).nodes == nodes,
            scanned(bytes@, i as int).quoted == quoted,
            scanned(bytes@, i as int).escaped == escaped,
            forall|j: int|
                0 <= j < i && #[trigger] structural(bytes@, j) && opens(bytes@[j]) ==> scanned(
                    bytes@,
                    j + 1,
                ).depth <= maximum_depth,
            forall|j: int|
                0 <= j < i && #[trigger] structural(bytes@, j) && separates(bytes@[j]) ==> scanned(
                    bytes@,
                    j + 1,
                ).nodes <= maximum_nodes,
    {
        let byte = bytes[i];
        assert(structural(bytes@, i as int) == !quoted);
        if quoted {
            if escaped {
                escaped = false;
            } else if byte == BACKSLASH {
                escaped = true;
            } else if byte == QUOTE {
                quoted = false;
            }
        } else {
            if byte == QUOTE {
                quoted = true;
            } else if byte == LEFT_BRACE || byte == LEFT_BRACKET {
                if depth >= maximum_depth {
                    assert(scanned(bytes@, i + 1).depth > maximum_depth);
                    return Err(Error::new(ErrorCode::InvalidRequest));
                }
                depth = depth + 1;
            } else if byte == RIGHT_BRACE || byte == RIGHT_BRACKET {
                depth = depth.saturating_sub(1);
            }
            if byte == LEFT_BRACE || byte == LEFT_BRACKET || byte == COMMA || byte == COLON {
                if nodes >= maximum_nodes {
                    assert(scanned(bytes@, i + 1).nodes > maximum_nodes);
                    return Err(Error::new(ErrorCode::InvalidRequest));
                }
                nodes = nodes + 1;
            }
        }
    }
    Ok(())
}

/// A text within some bounds stays within any wider ones.
pub proof fn wider_bounds_accept(bytes: Seq<u8>, depth: nat, nodes: nat, deeper: nat, more: nat)
    requires
        depth_fits(bytes, depth),
        nodes_fit(bytes, nodes),
        depth <= deeper,
        nodes <= more,
    ensures
        depth_fits(bytes, deeper),
        nodes_fit(bytes, more),
{
}

/// A text never nests deeper, nor opens more keys and values, than it has bytes, so bounds as
/// large as the text accept every text.
pub proof fn long_bounds_accept(bytes: Seq<u8>)
    ensures
        depth_fits(bytes, bytes.len()),
        nodes_fit(bytes, bytes.len() + 1),
{
    assert forall|i: int|
        0 <= i < bytes.len() && #[trigger] structural(bytes, i) && opens(
            bytes[i],
        ) implies scanned(bytes, i + 1).depth <= bytes.len() by {
        scan_bound(bytes, i + 1);
    }
    assert forall|i: int|
        0 <= i < bytes.len() && #[trigger] structural(bytes, i) && separates(
            bytes[i],
        ) implies scanned(bytes, i + 1).nodes <= bytes.len() + 1 by {
        scan_bound(bytes, i + 1);
    }
}

pub open spec fn hex_digit(value: int) -> char {
    if value < 10 {
        (0x30 + value) as char
    } else {
        (0x57 + value) as char
    }
}

/// Two lower case hexadecimal digits for each byte.
pub open spec fn hex_text(bytes: Seq<u8>) -> Seq<char> {
    Seq::new(
        2 * bytes.len(),
        |i: int|
            if i % 2 == 0 {
                hex_digit(bytes[i / 2] as int / 16)
            } else {
                hex_digit(bytes[i / 2] as int % 16)
            },
    )
}

pub(crate) fn digit_of(value: u8) -> (r: char)
    requires
        value < 16,
    ensures
        r == hex_digit(value as int),
{
    if value < 10 {
        (0x30 + value) as char
    } else {
        (0x57 + value) as char
    }
}

pub fn hex(bytes: &[u8]) -> (r: String)
    ensures
        r@ == hex_text(bytes@),
{
    let mut encoded = String::new();
    for i in 0..bytes.len()
        invariant
            encoded@ == hex_text(bytes@).take(2 * i),
    {
        let byte = bytes[i];
        encoded.push(digit_of(byte / 16));
        encoded.push(digit_of(byte % 16));
        assert(encoded@ =~= hex_text(bytes@).take(2 * (i + 1))) by {
            assert((2 * i) / 2 == i);
            assert((2 * i + 1) / 2 == i);
        }
    }
    assert(hex_text(bytes@).take(2 * bytes@.len() as int) =~= hex_text(bytes@));
    encoded
}

/// Bytes of one owned string descriptor.
pub const DESCRIPTOR_BYTES: usize = 24;

/// Bytes of the owned fields of one decoded request.
pub const OWNED_BYTES: usize = 262544;

/// The least power of two, from `power` on, that is not below `count`.
pub open spec fn power_from(count: nat, power: nat) -> nat
    decreases 2 * count - power,
{
    if power >= count || power == 0 {
        power
    } else {
        power_from(count, 2 * power)
    }
}

pub open spec fn least(a: nat, b: nat) -> nat {
    if a < b {
        a
    } else {
        b
    }
}

/// Bytes reserved while a request of `length` bytes is decoded: the text and the scratch for its
/// escapes, its owned fields, and descriptors for as many fields as the text can hold.
pub open spec fn request_buffer_size(length: nat) -> nat {
    length * 2 + least(length, OWNED_BYTES as nat) + power_from(least(length / 3, 256), 1)
        * DESCRIPTOR_BYTES as nat
}

proof fn power_bound(count: nat, power: nat)
    requires
        count <= 256,
        power == 1 || power == 2 || power == 4 || power == 8 || power == 16 || power == 32 || power
            == 64 || power == 128 || power == 256,
    ensures
        power <= power_from(count, power) <= 256,
    decreases 2 * count - power,
{
    if power < count {
        power_bound(count, 2 * power);
    }
}

pub proof fn request_buffer_bound(length: nat)
    ensures
        request_buffer_size(length) <= length * 2 + 268688,
        length * 2 <= request_buffer_size(length),
{
    power_bound(least(length / 3, 256), 1);
}

pub fn request_buffer_bytes(length: usize) -> (r: usize)
    requires
        length * 2 + 268688 <= usize::MAX,
    ensures
        r == request_buffer_size(length as nat),
{
    let owned: usize = if length < OWNED_BYTES {
        length
    } else {
        OWNED_BYTES
    };
    let fields: usize = if length / 3 < 256 {
        length / 3
    } else {
        256
    };
    let mut power: usize = 1;
    while power < fields
        invariant
            fields <= 256,
            power == 1 || power == 2 || power == 4 || power == 8 || power == 16 || power == 32
                || power == 64 || power == 128 || power == 256,
            power_from(fields as nat, power as nat) == power_from(fields as nat, 1),
        decreases 2 * fields - power,
    {
        power = power * 2;
    }
    length * 2 + owned + power * DESCRIPTOR_BYTES
}

/// Bytes that a response may still take.
pub struct OutputBudget {
    pub remaining: usize,
}

impl OutputBudget {
    pub fn new(remaining: usize) -> (r: Self)
        ensures
            r.remaining == remaining,
    {
        OutputBudget { remaining }
    }

    /// Takes `bytes` from the budget, or leaves it alone when they do not fit.
    pub fn reserve(&mut self, bytes: usize) -> (r: Result<(), Error>)
        ensures
            r is Ok <==> bytes <= old(self).remaining,
            r is Ok ==> final(self).remaining == old(self).remaining - bytes,
            r is Err ==> final(self).remaining == old(self).remaining,
            r matches Err(error) ==> error.reports(ErrorCode::ResponseTooLarge),
    {
        if bytes > self.remaining {
            return Err(Error::new(ErrorCode::ResponseTooLarge));
        }
        self.remaining = self.remaining - bytes;
        Ok(())
    }
}

/// The bytes that a character takes in a JSON string.
pub open spec fn json_char_size(c: char) -> nat {
    let code = c as u32;
    if c == '"' || c == '\\' {
        2
    } else if code < 0x20 {
        if code == 0x08 || code == 0x09 || code == 0x0a || code == 0x0c || code == 0x0d {
            2
        } else {
            6
        }
    } else if code < 0x80 {
        1
    } else if code < 0x800 {
        2
    } else if code < 0x10000 {
        3
    } else {
        4
    }
}

pub open spec fn json_chars_size(text: Seq<char>) -> nat
    decreases text.len(),
{
    if text.len() == 0 {
        0
    } else {
        json_chars_size(text.drop_last()) + json_char_size(text.last())
    }
}

/// The bytes of a text as a JSON string.
pub open spec fn json_text_bytes(text: Seq<char>) -> nat {
    json_chars_size(text) + 2
}

/// The bytes of the strings of a list, with a separator behind each.
pub open spec fn json_items_size(list: Seq<String>) -> nat
    decreases list.len(),
{
    if list.len() == 0 {
        0
    } else {
        json_items_size(list.drop_last()) + json_text_bytes(list.last()@) + 1
    }
}

/// The bytes of a list of texts as a JSON array.
pub open spec fn json_list_bytes(list: Seq<String>) -> nat {
    if list.len() == 0 {
        2
    } else {
        json_items_size(list) + 1
    }
}

/// A number as far as a machine word reaches.
pub open spec fn clamped(value: nat) -> usize {
    if value <= usize::MAX {
        value as usize
    } else {
        usize::MAX
    }
}

fn char_size(c: char) -> (r: usize)
    ensures
        r == json_char_size(c),
{
    let code: u32 = c as u32;
    if c == '"' || c == '\\' {
        2
    } else if code < 0x20 {
        if code == 0x08 || code == 0x09 || code == 0x0a || code == 0x0c || code == 0x0d {
            2
        } else {
            6
        }
    } else if code < 0x80 {
        1
    } else if code < 0x800 {
        2
    } else if code < 0x10000 {
        3
    } else {
        4
    }
}

/// The bytes that a text takes as a JSON string.
pub fn json_text_size(text: &str) -> (r: usize)
    ensures
        r == clamped(json_text_bytes(text@)),
{
    let chars = crate::text::chars_of(text);
    let mut size: usize = 0;
    for i in 0..chars.len()
        invariant
            chars@ == text@,
            size == clamped(json_chars_size(text@.take(i as int))),
    {
        assert(text@.take(i + 1).drop_last() =~= text@.take(i as int));
        size = size.saturating_add(char_size(chars[i]));
    }
    assert(text@.take(text@.len() as int) =~= text@);
    size.saturating_add(2)
}

/// The bytes that a list of texts takes as a JSON array.
pub fn json_list_size(list: &Vec<String>) -> (r: usize)
    ensures
        r == clamped(json_list_bytes(list@)),
{
    if list.len() == 0 {
        return 2;
    }
    let mut size: usize = 0;
    for i in 0..list.len()
        invariant
            size == clamped(json_items_size(list@.take(i as int))),
    {
        assert(list@.take(i + 1).drop_last() =~= list@.take(i as int));
        size = size.saturating_add(json_text_size(list[i].as_str())).saturating_add(1);
    }
    assert(list@.take(list@.len() as int) =~= list@);
    size.saturating_add(1)
}

/// The value of a lower case hexadecimal digit.
pub open spec fn hex_digit_value(c: char) -> int {
    if c <= '9' {
        c as int - '0' as int
    } else {
        c as int - 'a' as int + 10
    }
}

/// Bytes in hexadecimal read back: two lower case digits for each, the higher one first.
pub proof fn hexadecimal_bytes_read_back(bytes: Seq<u8>, i: int)
    requires
        0 <= i < bytes.len(),
    ensures
        hex_text(bytes).len() == 2 * bytes.len(),
        16 * hex_digit_value(hex_text(bytes)[2 * i]) + hex_digit_value(hex_text(bytes)[2 * i + 1]) == bytes[i],
{
    let text = hex_text(bytes);
    assert((2 * i) / 2 == i && (2 * i + 1) / 2 == i && (2 * i) % 2 == 0 && (2 * i + 1) % 2 == 1);
    assert(text[2 * i] == hex_digit(bytes[i] as int / 16));
    assert(text[2 * i + 1] == hex_digit(bytes[i] as int % 16));
}

/// A character as JSON writes it within a string: quotation marks and backslashes behind a backslash,
/// the usual control characters by a letter, the others by their number, and the rest as they are.
pub open spec fn json_form(c: char) -> Seq<char> {
    if c == '"' || c == '\\' {
        seq!['\\', c]
    } else if c == '\u{8}' {
        seq!['\\', 'b']
    } else if c == '\t' {
        seq!['\\', 't']
    } else if c == '\n' {
        seq!['\\', 'n']
    } else if c == '\u{c}' {
        seq!['\\', 'f']
    } else if c == '\r' {
        seq!['\\', 'r']
    } else if ' ' > c {
        seq!['\\', 'u', '0', '0', hex_digit(c as int / 16), hex_digit(c as int % 16)]
    } else {
        seq![c]
    }
}

/// The size of a character is that of its written form.
pub proof fn sizes_are_of_the_written_form(c: char)
    ensures
        json_char_size(c) == vstd::utf8::encode_utf8(json_form(c)).len(),
{
    let form = json_form(c);
    assert(c as u32 == c as int);
    if c == '"' || c == '\\' || c == '\u{8}' || c == '\t' || c == '\n' || c == '\u{c}' || c == '\r' || ' ' > c {
        assert forall|i: int| 0 <= i < form.len() implies (#[trigger] form[i]) as u32 <= 0x7f by {}
        ascii_takes_one_byte_each(form);
    } else {
        reveal_with_fuel(vstd::utf8::encode_utf8, 2);
        assert(form.drop_first() =~= Seq::<char>::empty());
        assert(vstd::utf8::encode_utf8(form) =~= vstd::utf8::encode_scalar(c as u32));
    }
}

proof fn ascii_takes_one_byte_each(s: Seq<char>)
    requires
        forall|i: int| 0 <= i < s.len() ==> (#[trigger] s[i]) as u32 <= 0x7f,
    ensures
        vstd::utf8::encode_utf8(s).len() == s.len(),
    decreases s.len(),
{
    if s.len() > 0 {
        let rest = s.drop_first();
        assert forall|i: int| 0 <= i < rest.len() implies (#[trigger] rest[i]) as u32 <= 0x7f by {
            assert(rest[i] == s[i + 1]);
        }
        ascii_takes_one_byte_each(rest);
        assert(s[0] as u32 <= 0x7f);
    }
}

/// A text is written between quotation marks, and a list between brackets with commas between its items.
pub proof fn texts_and_lists_add_up(text: Seq<char>, c: char, list: Seq<String>, item: String)
    ensures
        json_text_bytes(Seq::empty()) == 2,
        json_text_bytes(text.push(c)) == json_text_bytes(text) + json_char_size(c),
        json_list_bytes(Seq::empty()) == 2,
        json_list_bytes(seq![item]) == 2 + json_text_bytes(item@),
        list.len() > 0 ==> json_list_bytes(list.push(item)) == json_list_bytes(list) + 1 + json_text_bytes(item@),
{
    assert(text.push(c).drop_last() =~= text);
    assert(list.push(item).drop_last() =~= list);
    reveal_with_fuel(json_items_size, 2);
    assert(seq![item].drop_last() =~= Seq::<String>::empty());
}

/// Depth is that of brackets and braces: as many opening ones as stand in a row need a bound of that many,
/// and a row within the bound is accepted.
pub proof fn depth_counts_open_brackets(bytes: Seq<u8>, maximum: nat)
    requires
        forall|i: int| 0 <= i < bytes.len() ==> #[trigger] bytes[i] == 0x5b || bytes[i] == 0x7b,
    ensures
        depth_fits(bytes, maximum) <==> bytes.len() <= maximum,
{
    if bytes.len() > 0 {
        brackets_add_up(bytes, bytes.len() as int);
        brackets_add_up(bytes, bytes.len() - 1);
        assert(structural(bytes, bytes.len() - 1));
    }
    if bytes.len() <= maximum {
        assert forall|i: int| 0 <= i < bytes.len() && #[trigger] structural(bytes, i) && opens(
            bytes[i],
        ) implies scanned(bytes, i + 1).depth <= maximum by {
            brackets_add_up(bytes, i + 1);
        }
    }
}

proof fn brackets_add_up(bytes: Seq<u8>, count: int)
    requires
        forall|i: int| 0 <= i < bytes.len() ==> #[trigger] bytes[i] == 0x5b || bytes[i] == 0x7b,
        0 <= count <= bytes.len(),
    ensures
        scanned(bytes, count).depth == count,
        !scanned(bytes, count).quoted,
        !scanned(bytes, count).escaped,
        scanned(bytes, count).nodes == count + 1,
    decreases count,
{
    if count > 0 {
        brackets_add_up(bytes, count - 1);
        assert(bytes[count - 1] == 0x5b || bytes[count - 1] == 0x7b);
    }
}

/// What stands within quotation marks counts for nothing: neither the depth nor the nodes change there,
/// and a quotation mark behind a backslash does not end it.
pub proof fn quoted_text_counts_for_nothing(bytes: Seq<u8>, count: int)
    requires
        0 < count <= bytes.len(),
        scanned(bytes, count - 1).quoted,
    ensures
        scanned(bytes, count).depth == scanned(bytes, count - 1).depth,
        scanned(bytes, count).nodes == scanned(bytes, count - 1).nodes,
        bytes[count - 1] == 0x22 && !scanned(bytes, count - 1).escaped ==> !scanned(bytes, count).quoted,
        bytes[count - 1] != 0x22 || scanned(bytes, count - 1).escaped ==> scanned(bytes, count).quoted,
        bytes[count - 1] == 0x5c && !scanned(bytes, count - 1).escaped ==> scanned(bytes, count).escaped,
{
}

/// Outside quotation marks each bracket and brace opens or closes a level, and each opening one, comma
/// and colon adds a node.
pub proof fn structure_counts(bytes: Seq<u8>, count: int)
    requires
        0 < count <= bytes.len(),
        !scanned(bytes, count - 1).quoted,
    ensures
        ({
            let (before, after, byte) = (scanned(bytes, count - 1), scanned(bytes, count), bytes[count - 1]);
            &&& byte == 0x5b || byte == 0x7b ==> after.depth == before.depth + 1 && after.nodes == before.nodes + 1
            &&& (byte == 0x5d || byte == 0x7d) && before.depth > 0 ==> after.depth == before.depth - 1
                && after.nodes == before.nodes
            &&& byte == 0x2c || byte == 0x3a ==> after.nodes == before.nodes + 1 && after.depth == before.depth
            &&& byte == 0x22 ==> after.quoted && after.depth == before.depth && after.nodes == before.nodes
        }),
{
}

/// The room for fields is the least power of two that holds them.
pub proof fn room_is_a_power_of_two(count: nat)
    requires
        count <= 256,
    ensures
        power_from(count, 1) >= count,
        count > 1 ==> power_from(count, 1) < 2 * count,
        power_from(count, 1) == 1 || power_from(count, 1) == 2 || power_from(count, 1) == 4 || power_from(count, 1)
            == 8 || power_from(count, 1) == 16 || power_from(count, 1) == 32 || power_from(count, 1) == 64
            || power_from(count, 1) == 128 || power_from(count, 1) == 256,
{
    reveal_with_fuel(power_from, 10);
}

} // verus!
