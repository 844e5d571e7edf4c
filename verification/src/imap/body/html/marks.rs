//! Marks that keep joining characters apart, so that every character of a line takes the columns
//! that it takes alone.
use vstd::prelude::*;

use crate::text::{chars_of, decimal};

verus! {

/// A mark of no width. No character has this code point.
pub const WIDTH_MARK: char = '\u{fff0}';

/// A character before which another one takes other columns than alone: a variation selector, a
/// joiner, the second half of a ligature, a letter that is written below another one, or a skin tone.
/// The renderer counts columns with `unicode-width`, which looks back from these characters.
pub open spec fn is_joining(code: nat) -> bool {
    ||| code == 0x200d
    ||| code == 0xfe01
    ||| code == 0xfe0e
    ||| code == 0xfe0f
    ||| 0x622 <= code <= 0x627
    ||| 0x671 <= code <= 0x675
    ||| 0x773 <= code <= 0x774
    ||| 0x870 <= code <= 0x882
    ||| 0x1780 <= code <= 0x17af
    ||| 0x2d31 <= code <= 0x2d6f
    ||| 0xa4fc <= code <= 0xa4fd
    ||| 0x16d67 <= code <= 0x16d68
    ||| 0x1f3fb <= code <= 0x1f3ff
}

fn joining(code: u32) -> (r: bool)
    ensures
        r == is_joining(code as nat),
{
    code == 0x200d || code == 0xfe01 || code == 0xfe0e || code == 0xfe0f || (0x622 <= code && code
        <= 0x627) || (0x671 <= code && code <= 0x675) || (0x773 <= code && code <= 0x774) || (0x870
        <= code && code <= 0x882) || (0x1780 <= code && code <= 0x17af) || (0x2d31 <= code && code
        <= 0x2d6f) || (0xa4fc <= code && code <= 0xa4fd) || (0x16d67 <= code && code <= 0x16d68)
        || (0x1f3fb <= code && code <= 0x1f3ff)
}

/// The value of a digit to a base, if the character is one.
pub open spec fn digit_of(c: char, base: nat) -> Option<nat> {
    if '0' <= c <= '9' {
        Some((c as u32 - 0x30) as nat)
    } else if base == 16 && 'a' <= c <= 'f' {
        Some((c as u32 - 0x57) as nat)
    } else if base == 16 && 'A' <= c <= 'F' {
        Some((c as u32 - 0x37) as nat)
    } else {
        None
    }
}

fn digit(c: char, base: u32) -> (r: Option<u32>)
    requires
        base == 10 || base == 16,
    ensures
        match r {
            Some(value) => digit_of(c, base as nat) == Some(value as nat) && value < base,
            None => digit_of(c, base as nat) is None,
        },
{
    if '0' <= c && c <= '9' {
        Some(c as u32 - 0x30)
    } else if base == 16 && 'a' <= c && c <= 'f' {
        Some(c as u32 - 0x57)
    } else if base == 16 && 'A' <= c && c <= 'F' {
        Some(c as u32 - 0x37)
    } else {
        None
    }
}

/// The number that the digits at the front of a text continue.
pub open spec fn number_on(text: Seq<char>, base: nat, before: nat) -> nat
    decreases text.len(),
{
    if text.len() == 0 {
        before
    } else {
        match digit_of(text[0], base) {
            Some(value) => number_on(text.drop_first(), base, before * base + value),
            None => before,
        }
    }
}

/// The character to which the reference that stands behind `&#` refers.
pub open spec fn referred(text: Seq<char>) -> nat {
    if text.len() > 0 && (text[0] == 'x' || text[0] == 'X') {
        number_on(text.drop_first(), 16, 0)
    } else {
        number_on(text, 10, 0)
    }
}

/// A joining character stands at a place of a document, itself or as a reference.
pub open spec fn joins_at(text: Seq<char>, index: int) -> bool {
    ||| is_joining(text[index] as u32 as nat)
    ||| text[index] == '&' && index + 1 < text.len() && text[index + 1] == '#' && is_joining(
        referred(text.skip(index + 2)),
    )
    ||| text[index] == '&' && index + 5 <= text.len() && text.subrange(index, index + 5)
        == seq!['&', 'z', 'w', 'j', ';']
}

/// The first `count` characters of a document with a mark before each joining character.
pub open spec fn marked_to(text: Seq<char>, count: int) -> Seq<char>
    decreases count,
{
    if count <= 0 {
        Seq::empty()
    } else if joins_at(text, count - 1) {
        marked_to(text, count - 1).push(WIDTH_MARK).push(text[count - 1])
    } else {
        marked_to(text, count - 1).push(text[count - 1])
    }
}

/// A document with a mark before each joining character.
pub open spec fn marked(text: Seq<char>) -> Seq<char> {
    marked_to(text, text.len() as int)
}

/// A text without marks.
pub open spec fn unmarked(text: Seq<char>) -> Seq<char> {
    text.filter(|c: char| c != WIDTH_MARK)
}

pub(crate) proof fn marks_add_little(text: Seq<char>, count: int)
    requires
        0 <= count <= text.len(),
    ensures
        count <= marked_to(text, count).len() <= 2 * count,
    decreases count,
{
    if count > 0 {
        marks_add_little(text, count - 1);
    }
}

/// A document in which no character joins is rendered as it is.
pub proof fn marks_stand_at_joining_characters(text: Seq<char>)
    requires
        forall|i: int| 0 <= i < text.len() ==> !joins_at(text, i),
    ensures
        marked(text) == text,
{
    marks_stop_at_nothing(text, text.len() as int);
    assert(text.take(text.len() as int) =~= text);
}

proof fn marks_stop_at_nothing(text: Seq<char>, count: int)
    requires
        0 <= count <= text.len(),
        forall|i: int| 0 <= i < text.len() ==> !joins_at(text, i),
    ensures
        marked_to(text, count) == text.take(count),
    decreases count,
{
    if count > 0 {
        marks_stop_at_nothing(text, count - 1);
        assert(text.take(count - 1).push(text[count - 1]) =~= text.take(count));
    } else {
        assert(text.take(0) =~= Seq::<char>::empty());
    }
}

/// Marking a text that holds no marks and taking the marks out again gives the text.
pub proof fn marks_leave_no_trace(text: Seq<char>)
    requires
        !text.contains(WIDTH_MARK),
    ensures
        unmarked(marked(text)) == text,
{
    marks_come_out(text, text.len() as int);
    assert(text.take(text.len() as int) =~= text);
}

proof fn marks_come_out(text: Seq<char>, count: int)
    requires
        !text.contains(WIDTH_MARK),
        0 <= count <= text.len(),
    ensures
        unmarked(marked_to(text, count)) == text.take(count),
    decreases count,
{
    reveal(Seq::filter);
    if count > 0 {
        let last = text[count - 1];
        let before = marked_to(text, count - 1);
        marks_come_out(text, count - 1);
        assert(last != WIDTH_MARK) by {
            assert(text.contains(last));
        }
        assert(before.push(WIDTH_MARK).drop_last() =~= before);
        assert(before.push(WIDTH_MARK).push(last).drop_last() =~= before.push(WIDTH_MARK));
        assert(before.push(last).drop_last() =~= before);
        assert(unmarked(before.push(WIDTH_MARK)) == unmarked(before));
        assert(text.take(count - 1).push(last) =~= text.take(count));
    } else {
        assert(text.take(0) =~= Seq::<char>::empty());
    }
}

proof fn numbers_only_grow(text: Seq<char>, base: nat, before: nat)
    requires
        base == 10 || base == 16,
        before >= 0x110000,
    ensures
        number_on(text, base, before) >= 0x110000,
    decreases text.len(),
{
    if text.len() > 0 {
        match digit_of(text[0], base) {
            Some(value) => {
                assert(before * base + value >= 0x110000) by (nonlinear_arith)
                    requires
                        before >= 0x110000,
                        base >= 1,
                ;
                numbers_only_grow(text.drop_first(), base, before * base + value);
            },
            None => {},
        }
    }
}

/// The number that the digits from a place on stand for, or one beyond every character.
fn number_at(chars: &Vec<char>, first: usize, base: u32) -> (r: u32)
    requires
        first <= chars@.len(),
        base == 10 || base == 16,
    ensures
        r == number_on(chars@.skip(first as int), base as nat, 0) || (r >= 0x110000 && number_on(
            chars@.skip(first as int),
            base as nat,
            0,
        ) >= 0x110000),
{
    let ghost whole = number_on(chars@.skip(first as int), base as nat, 0);
    let mut number: u32 = 0;
    let mut i: usize = first;
    while i < chars.len()
        invariant
            first <= i <= chars@.len(),
            base == 10 || base == 16,
            number < 0x110000,
            whole == number_on(chars@.skip(first as int), base as nat, 0),
            whole == number_on(chars@.skip(i as int), base as nat, number as nat),
        decreases chars@.len() - i,
    {
        let ghost rest = chars@.skip(i as int);
        assert(rest[0] == chars@[i as int]);
        assert(rest.drop_first() =~= chars@.skip(i + 1));
        match digit(chars[i], base) {
            Some(value) => {
                assert(number * base + value <= 0x1100000) by (nonlinear_arith)
                    requires
                        number < 0x110000,
                        base == 10 || base == 16,
                        value < base,
                ;
                number = number * base + value;
                if number >= 0x110000 {
                    proof {
                        numbers_only_grow(rest.drop_first(), base as nat, number as nat);
                    }
                    return number;
                }
            },
            None => {
                return number;
            },
        }
        i = i + 1;
    }
    number
}

/// Whether a joining character stands at a place of a document, itself or as a reference.
fn joins(chars: &Vec<char>, index: usize) -> (r: bool)
    requires
        index < chars@.len(),
    ensures
        r == joins_at(chars@, index as int),
{
    let c = chars[index];
    if joining(c as u32) {
        return true;
    }
    if c != '&' {
        return false;
    }
    let left: usize = chars.len() - index;
    if left >= 2 && chars[index + 1] == '#' {
        let ghost rest = chars@.skip(index + 2);
        let hexadecimal = left >= 3 && (chars[index + 2] == 'x' || chars[index + 2] == 'X');
        let number = if hexadecimal {
            assert(rest.drop_first() =~= chars@.skip(index + 3));
            number_at(chars, index + 3, 16)
        } else {
            number_at(chars, index + 2, 10)
        };
        assert(is_joining(number as nat) == is_joining(referred(rest)));
        if joining(number) {
            return true;
        }
    }
    let named = left >= 5 && chars[index + 1] == 'z' && chars[index + 2] == 'w' && chars[index + 3]
        == 'j' && chars[index + 4] == ';';
    proof {
        if left >= 5 {
            let part = chars@.subrange(index as int, index + 5);
            let wanted = seq!['&', 'z', 'w', 'j', ';'];
            assert(part.len() == 5 && wanted.len() == 5);
            if named {
                assert(part =~= wanted);
            } else if part == wanted {
                assert(part[1] == wanted[1] && part[2] == wanted[2] && part[3] == wanted[3]
                    && part[4] == wanted[4]);
            }
        }
    }
    named
}

pub(crate) fn mark(text: &str) -> (r: String)
    ensures
        r@ == marked(text@),
{
    let chars = chars_of(text);
    let mut out = String::new();
    assert(out@ =~= marked_to(text@, 0));
    for i in 0..chars.len()
        invariant
            chars@ == text@,
            out@ == marked_to(text@, i as int),
    {
        if joins(&chars, i) {
            out.push(WIDTH_MARK);
        }
        out.push(chars[i]);
    }
    out
}

pub(crate) fn unmark(text: &str) -> (r: String)
    ensures
        r@ == unmarked(text@),
{
    let chars = chars_of(text);
    let mut out = String::new();
    proof {
        reveal(Seq::filter);
        assert(text@.take(0) =~= Seq::<char>::empty());
        assert(out@ =~= unmarked(text@.take(0)));
    }
    for i in 0..chars.len()
        invariant
            chars@ == text@,
            out@ == unmarked(text@.take(i as int)),
    {
        proof {
            reveal(Seq::filter);
            assert(text@.take(i + 1).drop_last() =~= text@.take(i as int));
            assert(text@.take(i + 1).last() == chars@[i as int]);
        }
        if chars[i] != WIDTH_MARK {
            out.push(chars[i]);
        }
    }
    assert(text@.take(text@.len() as int) =~= text@);
    out
}

/// A character reference names the character of its number, in decimal digits or behind an `x` in
/// hexadecimal ones, and ends at the first character that is no digit.
pub proof fn references_read_back(value: nat, after: Seq<char>)
    requires
        after.len() > 0 ==> digit_of(after[0], 10) is None,
    ensures
        referred(decimal(value) + after) == value,
{
    let text = decimal(value) + after;
    decimals_are_digits(value);
    assert('0' <= text[0] <= '9');
    decimals_are_read(value, after);
}

proof fn decimals_are_digits(value: nat)
    ensures
        decimal(value).len() > 0,
        forall|i: int| 0 <= i < decimal(value).len() ==> '0' <= #[trigger] decimal(value)[i] <= '9',
    decreases value,
{
    if value >= 10 {
        decimals_are_digits(value / 10);
    }
}

proof fn decimals_are_read(value: nat, after: Seq<char>)
    requires
        after.len() > 0 ==> digit_of(after[0], 10) is None,
    ensures
        number_on(decimal(value) + after, 10, 0) == value,
{
    decimals_are_digits(value);
    digits_are_read(decimal(value), after, 0);
    tens_add_up(value);
}

/// The number that decimal digits spell.
spec fn spelled_in_tens(digits: Seq<char>, before: nat) -> nat
    decreases digits.len(),
{
    if digits.len() == 0 {
        before
    } else {
        spelled_in_tens(digits.drop_last(), before) * 10 + (digits.last() as u32 - 0x30) as nat
    }
}

proof fn digits_are_read(digits: Seq<char>, after: Seq<char>, before: nat)
    requires
        forall|i: int| 0 <= i < digits.len() ==> '0' <= #[trigger] digits[i] <= '9',
        after.len() > 0 ==> digit_of(after[0], 10) is None,
    ensures
        number_on(digits + after, 10, before) == spelled_in_tens(digits, before),
    decreases digits.len(),
{
    if digits.len() == 0 {
        assert(digits + after =~= after);
    } else {
        let rest = digits.drop_first();
        let first = (digits[0] as u32 - 0x30) as nat;
        assert forall|i: int| 0 <= i < rest.len() implies '0' <= #[trigger] rest[i] <= '9' by {
            assert(rest[i] == digits[i + 1]);
        }
        digits_are_read(rest, after, before * 10 + first);
        assert((digits + after).drop_first() =~= rest + after);
        assert((digits + after)[0] == digits[0]);
        the_first_digit_is_read(digits, before);
    }
}

proof fn the_first_digit_is_read(digits: Seq<char>, before: nat)
    requires
        digits.len() > 0,
    ensures
        spelled_in_tens(digits, before) == spelled_in_tens(
            digits.drop_first(),
            before * 10 + (digits[0] as u32 - 0x30) as nat,
        ),
    decreases digits.len(),
{
    if digits.len() == 1 {
        assert(digits.drop_last() =~= Seq::<char>::empty());
        assert(digits.drop_first() =~= Seq::<char>::empty());
        reveal_with_fuel(spelled_in_tens, 2);
    } else {
        let shorter = digits.drop_last();
        the_first_digit_is_read(shorter, before);
        assert(digits.drop_first().drop_last() =~= shorter.drop_first());
        assert(digits.drop_first().last() == digits.last());
        assert(shorter[0] == digits[0]);
    }
}

proof fn tens_add_up(value: nat)
    ensures
        spelled_in_tens(decimal(value), 0) == value,
    decreases value,
{
    if value < 10 {
        assert(decimal(value).drop_last() =~= Seq::<char>::empty());
        reveal_with_fuel(spelled_in_tens, 2);
    } else {
        tens_add_up(value / 10);
        assert(decimal(value).drop_last() =~= decimal(value / 10));
    }
}

/// The characters that join others: the joiner and the selectors of a variant, and the modifiers of a
/// colour of skin; plain characters never do.
pub proof fn plain_characters_do_not_join(code: nat)
    ensures
        code < 0x622 ==> !is_joining(code),
        code == 0x200d || code == 0xfe0e || code == 0xfe0f ==> is_joining(code),
        0x1f3fb <= code <= 0x1f3ff ==> is_joining(code),
        code > 0x1f3ff ==> !is_joining(code),
{
}

} // verus!
