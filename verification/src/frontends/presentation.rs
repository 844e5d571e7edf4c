//! Terminal presentation of semantic operation results.
use vstd::prelude::*;

use crate::encoding::hex_digit;
use crate::text::{chars_of, control, is_control};

verus! {

/// A character that a terminal would act on instead of showing it, or that reorders what it shows.
pub open spec fn is_unsafe(c: char) -> bool {
    ||| is_control(c)
    ||| c == '\u{061c}'
    ||| c == '\u{200e}'
    ||| c == '\u{200f}'
    ||| c == '\u{2028}'
    ||| c == '\u{2029}'
    ||| '\u{202a}' <= c <= '\u{202e}'
    ||| '\u{2066}' <= c <= '\u{2069}'
}

pub fn unsafe_character(character: char) -> (r: bool)
    ensures
        r == is_unsafe(character),
{
    control(character) || character == '\u{061c}' || character == '\u{200e}' || character
        == '\u{200f}' || character == '\u{2028}' || character == '\u{2029}' || ('\u{202a}'
        <= character && character <= '\u{202e}') || ('\u{2066}' <= character && character
        <= '\u{2069}')
}

/// The visible form of an unsafe character, such as `\u{001b}`.
pub open spec fn visible(c: char) -> Seq<char> {
    let code = c as u32 as int;
    seq![
        '\\',
        'u',
        '{',
        hex_digit(code / 4096),
        hex_digit(code / 256 % 16),
        hex_digit(code / 16 % 16),
        hex_digit(code % 16),
        '}',
    ]
}

fn hex_char(value: u32) -> (r: char)
    requires
        value < 16,
    ensures
        r == hex_digit(value as int),
{
    let digit: u8 = value as u8;
    if digit < 10 {
        (0x30 + digit) as char
    } else {
        (0x57 + digit) as char
    }
}

fn push_visible(output: &mut String, character: char)
    requires
        is_unsafe(character),
    ensures
        final(output)@ == old(output)@ + visible(character),
{
    let ghost before = output@;
    let code: u32 = character as u32;
    output.push('\\');
    output.push('u');
    output.push('{');
    output.push(hex_char(code / 4096));
    output.push(hex_char(code / 256 % 16));
    output.push(hex_char(code / 16 % 16));
    output.push(hex_char(code % 16));
    output.push('}');
    assert(output@ =~= before + visible(character));
}

/// The text with unsafe characters in their visible form. Line feeds stay: they lay the text out.
pub open spec fn neutralized(text: Seq<char>) -> Seq<char>
    decreases text.len(),
{
    if text.len() == 0 {
        Seq::empty()
    } else {
        let c = text.last();
        neutralized(text.drop_last()) + (if c != '\n' && is_unsafe(c) {
            visible(c)
        } else {
            seq![c]
        })
    }
}

pub fn metadata_text(text: &str) -> (r: String)
    ensures
        r@ == neutralized(text@),
{
    // Literal newlines belong to JSON layout; string newlines are already escaped.
    let chars = chars_of(text);
    let mut output = String::new();
    assert(chars@.take(0) =~= Seq::<char>::empty());
    assert(output@ =~= Seq::<char>::empty());
    for i in 0..chars.len()
        invariant
            chars@ == text@,
            output@ == neutralized(text@.take(i as int)),
    {
        let ghost before = output@;
        assert(text@.take(i + 1).drop_last() =~= text@.take(i as int));
        let c = chars[i];
        if c != '\n' && unsafe_character(c) {
            push_visible(&mut output, c);
        } else {
            output.push(c);
            assert(output@ =~= before + seq![c]);
        }
    }
    assert(text@.take(text@.len() as int) =~= text@);
    output
}

/// Where a control sequence ends whose parameters start at `i`: behind its final character, or with the
/// text.
pub open spec fn csi_end(s: Seq<char>, i: int) -> int
    decreases s.len() - i,
{
    if !(0 <= i < s.len()) {
        i
    } else if '@' <= s[i] <= '~' {
        i + 1
    } else {
        csi_end(s, i + 1)
    }
}

/// Where a control string ends that starts at `i`: behind its terminator, or with the text.
pub open spec fn string_end(s: Seq<char>, i: int, osc: bool) -> int
    decreases s.len() - i,
{
    if !(0 <= i < s.len()) {
        i
    } else if s[i] == '\u{009c}' || (osc && s[i] == '\u{7}') {
        i + 1
    } else if s[i] == '\u{1b}' && i + 1 < s.len() && s[i + 1] == '\\' {
        i + 2
    } else {
        string_end(s, i + 1, osc)
    }
}

proof fn ends_advance(s: Seq<char>, i: int, osc: bool)
    requires
        0 <= i <= s.len(),
    ensures
        i <= csi_end(s, i) <= s.len(),
        i <= string_end(s, i, osc) <= s.len(),
    decreases s.len() - i,
{
    if i < s.len() {
        ends_advance(s, i + 1, osc);
    }
}

/// What stands for the body from `i` on: where its rendering starts, and what comes first.
pub open spec fn next_part(s: Seq<char>, i: int) -> (int, Seq<char>) {
    let c = s[i];
    if c == '\r' {
        (
            if i + 1 < s.len() && s[i + 1] == '\n' {
                i + 2
            } else {
                i + 1
            },
            seq!['\n'],
        )
    } else if c == '\n' {
        (i + 1, seq!['\n'])
    } else if c == '\t' {
        (i + 1, seq![' ', ' ', ' ', ' '])
    } else if c == '\u{1b}' {
        if i + 1 < s.len() && s[i + 1] == '[' {
            (csi_end(s, i + 2), Seq::empty())
        } else if i + 1 < s.len() && (s[i + 1] == ']' || s[i + 1] == 'P' || s[i + 1] == 'X' || s[i
            + 1] == '^' || s[i + 1] == '_') {
            (string_end(s, i + 2, s[i + 1] == ']'), Seq::empty())
        } else {
            (i + 1, visible(c))
        }
    } else if c == '\u{009b}' {
        (csi_end(s, i + 1), Seq::empty())
    } else if c == '\u{009d}' {
        (string_end(s, i + 1, true), Seq::empty())
    } else if c == '\u{0090}' || c == '\u{0098}' || c == '\u{009e}' || c == '\u{009f}' {
        (string_end(s, i + 1, false), Seq::empty())
    } else if is_unsafe(c) {
        (i + 1, visible(c))
    } else {
        (i + 1, seq![c])
    }
}

proof fn parts_advance(s: Seq<char>, i: int)
    requires
        0 <= i < s.len(),
    ensures
        i < next_part(s, i).0 <= s.len(),
{
    if i + 1 < s.len() {
        ends_advance(s, i + 2, s[i + 1] == ']');
    }
    ends_advance(s, i + 1, true);
    ends_advance(s, i + 1, false);
}

/// The body of a message from `i` on, laid out for a terminal: line ends become line feeds, tabs become
/// spaces, control sequences are left out, and other unsafe characters are made visible.
pub open spec fn body_from(s: Seq<char>, i: int) -> Seq<char>
    decreases s.len() - i,
    when 0 <= i <= s.len()
    via bodies_advance
{
    if i >= s.len() {
        Seq::empty()
    } else {
        let (next, part) = next_part(s, i);
        part + body_from(s, next)
    }
}

#[via_fn]
proof fn bodies_advance(s: Seq<char>, i: int) {
    if i < s.len() {
        parts_advance(s, i);
    }
}

fn skip_csi(chars: &Vec<char>, from: usize) -> (r: usize)
    requires
        from <= chars@.len(),
    ensures
        r == csi_end(chars@, from as int),
        from <= r <= chars@.len(),
{
    // Consume through the final byte; incomplete sequences end at the page boundary.
    let mut i: usize = from;
    while i < chars.len()
        invariant
            from <= i <= chars@.len(),
            csi_end(chars@, i as int) == csi_end(chars@, from as int),
        decreases chars@.len() - i,
    {
        let c = chars[i];
        if '@' <= c && c <= '~' {
            return i + 1;
        }
        i = i + 1;
    }
    i
}

fn skip_string(chars: &Vec<char>, from: usize, osc: bool) -> (r: usize)
    requires
        from <= chars@.len(),
    ensures
        r == string_end(chars@, from as int, osc),
        from <= r <= chars@.len(),
{
    let mut i: usize = from;
    while i < chars.len()
        invariant
            from <= i <= chars@.len(),
            string_end(chars@, i as int, osc) == string_end(chars@, from as int, osc),
        decreases chars@.len() - i,
    {
        let c = chars[i];
        if c == '\u{009c}' || (osc && c == '\u{7}') {
            return i + 1;
        }
        if c == '\u{1b}' && i + 1 < chars.len() && chars[i + 1] == '\\' {
            return i + 2;
        }
        i = i + 1;
    }
    i
}

/// Appends the body of a message as a terminal may show it.
pub fn append_body(output: &mut String, text: &str)
    ensures
        final(output)@ == old(output)@ + body_from(text@, 0),
{
    let chars = chars_of(text);
    let ghost start = output@;
    let mut i: usize = 0;
    while i < chars.len()
        invariant
            chars@ == text@,
            i <= chars@.len(),
            output@ + body_from(text@, i as int) == start + body_from(text@, 0),
        decreases chars@.len() - i,
    {
        let ghost before = output@;
        let ghost at = i as int;
        proof {
            parts_advance(text@, at);
        }
        let c = chars[i];
        let peeked = if i + 1 < chars.len() {
            chars[i + 1]
        } else {
            '\0'
        };
        if c == '\r' {
            i = if peeked == '\n' {
                i + 2
            } else {
                i + 1
            };
            output.push('\n');
        } else if c == '\n' {
            i = i + 1;
            output.push('\n');
        } else if c == '\t' {
            i = i + 1;
            output.push(' ');
            output.push(' ');
            output.push(' ');
            output.push(' ');
        } else if c == '\u{1b}' {
            if peeked == '[' {
                i = skip_csi(&chars, i + 2);
            } else if peeked == ']' || peeked == 'P' || peeked == 'X' || peeked == '^' || peeked
                == '_' {
                i = skip_string(&chars, i + 2, peeked == ']');
            } else {
                i = i + 1;
                push_visible(output, c);
            }
        } else if c == '\u{009b}' {
            i = skip_csi(&chars, i + 1);
        } else if c == '\u{009d}' {
            i = skip_string(&chars, i + 1, true);
        } else if c == '\u{0090}' || c == '\u{0098}' || c == '\u{009e}' || c == '\u{009f}' {
            i = skip_string(&chars, i + 1, false);
        } else if unsafe_character(c) {
            i = i + 1;
            push_visible(output, c);
        } else {
            i = i + 1;
            output.push(c);
        }
        proof {
            let (next, part) = next_part(text@, at);
            assert(i == next);
            assert(output@ =~= before + part);
            assert(output@ + body_from(text@, next) =~= before + body_from(text@, at));
        }
    }
    assert(output@ + body_from(text@, i as int) =~= output@);
}

/// What a person is shown of a result: its metadata and, for a message, its body.
pub open spec fn shown(metadata: Seq<char>, body: Option<Seq<char>>) -> Seq<char> {
    match body {
        Some(body) => neutralized(metadata) + "\n\nBody:\n"@ + body_from(body, 0),
        None => neutralized(metadata),
    }
}

pub fn human(metadata: &str, body: Option<&str>) -> (r: String)
    ensures
        r@ == shown(
            metadata@,
            match body {
                Some(body) => Some(body@),
                None => None,
            },
        ),
{
    let mut output = metadata_text(metadata);
    if let Some(body) = body {
        output.push_str("\n\nBody:\n");
        append_body(&mut output, body);
    }
    output
}

/// Every character is a line feed or safe to show.
pub open spec fn is_inert(s: Seq<char>) -> bool {
    forall|i: int| 0 <= i < s.len() ==> #[trigger] s[i] == '\n' || !is_unsafe(s[i])
}

proof fn visible_is_inert(c: char)
    requires
        is_unsafe(c),
    ensures
        is_inert(visible(c)),
{
    let code = c as u32 as int;
    assert forall|i: int| 0 <= i < visible(c).len() implies #[trigger] visible(c)[i] == '\n'
        || !is_unsafe(visible(c)[i]) by {
        digits_are_safe(code / 4096);
        digits_are_safe(code / 256 % 16);
        digits_are_safe(code / 16 % 16);
        digits_are_safe(code % 16);
    }
}

proof fn digits_are_safe(value: int)
    requires
        0 <= value < 16,
    ensures
        !is_unsafe(hex_digit(value)),
{
}

proof fn inert_parts_join(a: Seq<char>, b: Seq<char>)
    requires
        is_inert(a),
        is_inert(b),
    ensures
        is_inert(a + b),
{
    let s = a + b;
    assert forall|i: int| 0 <= i < s.len() implies #[trigger] s[i] == '\n' || !is_unsafe(s[i]) by {
        if i < a.len() {
            assert(s[i] == a[i]);
        } else {
            assert(s[i] == b[i - a.len()]);
        }
    }
}

/// Metadata that is shown holds no character that a terminal would act on.
pub proof fn metadata_is_inert(text: Seq<char>)
    ensures
        is_inert(neutralized(text)),
    decreases text.len(),
{
    if text.len() > 0 {
        metadata_is_inert(text.drop_last());
        let c = text.last();
        if c != '\n' && is_unsafe(c) {
            visible_is_inert(c);
            inert_parts_join(neutralized(text.drop_last()), visible(c));
        } else {
            inert_parts_join(neutralized(text.drop_last()), seq![c]);
        }
    }
}

/// A body that is shown holds no character that a terminal would act on, whatever the message holds.
pub proof fn bodies_are_inert(s: Seq<char>, i: int)
    requires
        0 <= i <= s.len(),
    ensures
        is_inert(body_from(s, i)),
    decreases s.len() - i,
{
    if i < s.len() {
        parts_advance(s, i);
        let (next, part) = next_part(s, i);
        bodies_are_inert(s, next);
        if is_unsafe(s[i]) {
            visible_is_inert(s[i]);
        }
        inert_parts_join(part, body_from(s, next));
    }
}

/// Nothing that is shown holds a character that a terminal would act on.
pub proof fn output_is_inert(metadata: Seq<char>, body: Option<Seq<char>>)
    ensures
        is_inert(shown(metadata, body)),
{
    metadata_is_inert(metadata);
    if let Some(body) = body {
        reveal_strlit("\n\nBody:\n");
        bodies_are_inert(body, 0);
        inert_parts_join(neutralized(metadata), "\n\nBody:\n"@);
        inert_parts_join(neutralized(metadata) + "\n\nBody:\n"@, body_from(body, 0));
    }
}

/// Text that is safe to show stays as it is, paragraphs and all.
pub proof fn safe_text_is_kept(s: Seq<char>, i: int)
    requires
        0 <= i <= s.len(),
        is_inert(s),
    ensures
        body_from(s, i) == s.skip(i),
    decreases s.len() - i,
{
    if i < s.len() {
        safe_text_is_kept(s, i + 1);
        assert(next_part(s, i) == (i + 1, seq![s[i]]));
        assert(seq![s[i]] + s.skip(i + 1) =~= s.skip(i));
    } else {
        assert(s.skip(i) =~= Seq::<char>::empty());
    }
}

/// The value of a lower case hexadecimal digit.
pub open spec fn hex_value(c: char) -> int {
    if c <= '9' {
        c as int - '0' as int
    } else {
        c as int - 'a' as int + 10
    }
}

/// What is shown in place of a character that could act on a terminal is its number, so that the reader
/// can tell which one it was. Only control characters and those that change the direction or the lines of
/// a text are replaced.
pub proof fn escapes_name_their_character(c: char)
    ensures
        is_unsafe(c) <==> (c < ' ' || ('\u{7f}' <= c && c < '\u{a0}') || c == '\u{61c}' || c == '\u{200e}' || c
            == '\u{200f}' || ('\u{2028}' <= c && c <= '\u{202e}') || ('\u{2066}' <= c && c <= '\u{2069}')),
        is_unsafe(c) ==> {
            let text = visible(c);
            &&& text.len() == 8
            &&& text[0] == '\\' && text[1] == 'u' && text[2] == '{' && text[7] == '}'
            &&& 4096 * hex_value(text[3]) + 256 * hex_value(text[4]) + 16 * hex_value(text[5]) + hex_value(text[6])
                == c as int
        },
{
    if is_unsafe(c) {
        let code = c as int;
        assert(c as u32 == code);
        assert(0 <= code <= 0x2069);
        let (a, b, d, e) = (code / 4096, code / 256 % 16, code / 16 % 16, code % 16);
        digits_have_their_value(a);
        digits_have_their_value(b);
        digits_have_their_value(d);
        digits_have_their_value(e);
        assert(code == 4096 * a + 256 * b + 16 * d + e) by {
            let x = code / 16;
            let y = x / 16;
            assert(code / 256 == y && code / 4096 == y / 16);
        }
    }
}

proof fn digits_have_their_value(value: int)
    requires
        0 <= value < 16,
    ensures
        hex_value(hex_digit(value)) == value,
{
}

/// Metadata is shown piece by piece, and a line feed in it stays a line feed.
pub proof fn metadata_is_shown_in_order(before: Seq<char>, c: char)
    ensures
        neutralized(before.push(c)) == neutralized(before) + (if c == '\n' || !is_unsafe(c) {
            seq![c]
        } else {
            visible(c)
        }),
        neutralized(Seq::empty()).len() == 0,
{
    assert(before.push(c).drop_last() =~= before);
}

/// A control sequence that is introduced and ended vanishes with all that it holds, and the text goes on
/// behind it. It is introduced by an escape and a bracket, or by the one character for both.
pub proof fn control_sequences_vanish(s: Seq<char>, i: int, start: int, end: int)
    requires
        0 <= i < start <= end < s.len(),
        (s[i] == '\u{1b}' && s[i + 1] == '[' && start == i + 2) || (s[i] == '\u{9b}' && start == i + 1),
        forall|k: int| start <= k < end ==> !('@' <= #[trigger] s[k] <= '~'),
        '@' <= s[end] <= '~',
    ensures
        body_from(s, i) == body_from(s, end + 1),
{
    sequences_end(s, start, end);
    assert(next_part(s, i) == (end + 1, Seq::<char>::empty()));
    assert(Seq::<char>::empty() + body_from(s, end + 1) =~= body_from(s, end + 1));
}

proof fn sequences_end(s: Seq<char>, i: int, end: int)
    requires
        0 <= i <= end < s.len(),
        forall|k: int| i <= k < end ==> !('@' <= #[trigger] s[k] <= '~'),
        '@' <= s[end] <= '~',
    ensures
        csi_end(s, i) == end + 1,
    decreases end - i,
{
    if i < end {
        sequences_end(s, i + 1, end);
    }
}

/// A command string to the terminal, such as one that sets its title, vanishes with all that it holds up
/// to its terminator; a bell ends those that set something of the terminal's.
pub proof fn command_strings_vanish(s: Seq<char>, i: int, end: int)
    requires
        0 <= i,
        i + 2 <= end < s.len(),
        s[i] == '\u{1b}' && s[i + 1] == ']',
        forall|k: int|
            i + 2 <= k < end ==> #[trigger] s[k] != '\u{7}' && s[k] != '\u{9c}' && s[k] != '\u{1b}',
        s[end] == '\u{7}' || s[end] == '\u{9c}',
    ensures
        body_from(s, i) == body_from(s, end + 1),
{
    strings_end(s, i + 2, end);
    assert(next_part(s, i) == (end + 1, Seq::<char>::empty()));
    assert(Seq::<char>::empty() + body_from(s, end + 1) =~= body_from(s, end + 1));
}

proof fn strings_end(s: Seq<char>, i: int, end: int)
    requires
        0 <= i <= end < s.len(),
        forall|k: int| i <= k < end ==> #[trigger] s[k] != '\u{7}' && s[k] != '\u{9c}' && s[k] != '\u{1b}',
        s[end] == '\u{7}' || s[end] == '\u{9c}',
    ensures
        string_end(s, i, true) == end + 1,
    decreases end - i,
{
    if i < end {
        strings_end(s, i + 1, end);
    }
}

/// The ends of lines are shown as line feeds, however they were written, and a tab as four spaces.
pub proof fn lines_and_tabs_are_shown(s: Seq<char>, i: int)
    requires
        0 <= i < s.len(),
    ensures
        s[i] == '\n' ==> body_from(s, i) == seq!['\n'] + body_from(s, i + 1),
        s[i] == '\r' && i + 1 < s.len() && s[i + 1] == '\n' ==> body_from(s, i) == seq!['\n'] + body_from(s, i + 2),
        s[i] == '\r' && !(i + 1 < s.len() && s[i + 1] == '\n') ==> body_from(s, i) == seq!['\n'] + body_from(s, i + 1),
        s[i] == '\t' ==> body_from(s, i) == seq![' ', ' ', ' ', ' '] + body_from(s, i + 1),
        !is_unsafe(s[i]) ==> body_from(s, i) == seq![s[i]] + body_from(s, i + 1),
        s[i] == '\u{202e}' ==> body_from(s, i) == visible(s[i]) + body_from(s, i + 1),
{
}

} // verus!
