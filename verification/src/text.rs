//! Small string and byte operations with exact meanings.
use vstd::prelude::*;
use vstd::utf8::{decode_utf8, encode_utf8, encode_utf8_decode_utf8, valid_utf8};

verus! {

/// `str` equality: two strings are equal exactly when they hold the same characters.
pub assume_specification[ <str as PartialEq<str>>::eq ](a: &str, b: &str) -> (r: bool)
    ensures
        r == (a@ == b@),
;

/// `String::push` appends one character at the end.
pub assume_specification[ String::push ](s: &mut String, c: char)
    ensures
        final(s)@ == old(s)@.push(c),
;

/// `String::push_str` appends the characters of `t` at the end.
pub assume_specification[ String::push_str ](s: &mut String, t: &str)
    ensures
        final(s)@ == old(s)@ + t@,
;

/// `String::from_utf8` succeeds exactly on valid UTF-8 and keeps the bytes; where it fails, its error
/// gives the bytes back.
#[verifier::external_body]
pub(crate) fn string_from_utf8(bytes: Vec<u8>) -> (r: Result<String, Vec<u8>>)
    ensures
        match r {
            Ok(s) => valid_utf8(bytes@) && encode_utf8(s@) == bytes@,
            Err(kept) => !valid_utf8(bytes@) && kept@ == bytes@,
        },
{
    String::from_utf8(bytes).map_err(|error| error.into_bytes())
}

/// The text of `bytes` with each malformed sequence replaced.
pub uninterp spec fn lossy_text(bytes: Seq<u8>) -> Seq<char>;

/// `String::from_utf8_lossy` keeps valid UTF-8 as it is; what it makes of other bytes is named.
#[verifier::external_body]
pub(crate) fn from_utf8_lossy(bytes: &[u8]) -> (r: String)
    ensures
        r@ == lossy_text(bytes@),
        valid_utf8(bytes@) ==> r@ == decode_utf8(bytes@),
{
    String::from_utf8_lossy(bytes).into_owned()
}

/// Whether both strings hold the same characters.
pub fn same(a: &str, b: &str) -> (r: bool)
    ensures
        r == (a@ == b@),
{
    *a == *b
}

/// The number of bytes of the UTF-8 form of `s`.
pub open spec fn utf8_len(s: Seq<char>) -> nat {
    encode_utf8(s).len()
}

/// The number of bytes that `s` takes.
pub fn byte_len(s: &str) -> (r: usize)
    ensures
        r == utf8_len(s@),
{
    s.as_bytes().len()
}

/// Whether `s` holds the character `wanted`.
pub fn holds_char(s: &str, wanted: char) -> (r: bool)
    ensures
        r == s@.contains(wanted),
{
    let chars = chars_of(s);
    for i in 0..chars.len()
        invariant
            chars@ == s@,
            forall|j: int| 0 <= j < i ==> s@[j] != wanted,
    {
        if chars[i] == wanted {
            assert(s@[i as int] == wanted);
            return true;
        }
    }
    false
}

/// Where `wanted` stands first.
pub fn first_of(chars: &Vec<char>, wanted: char) -> (r: Option<usize>)
    ensures
        match r {
            Some(i) => chars@.index_of_first(wanted) == Some(i as int) && i < chars@.len(),
            None => chars@.index_of_first(wanted) is None,
        },
{
    proof {
        chars@.index_of_first_ensures(wanted);
    }
    for i in 0..chars.len()
        invariant
            forall|j: int| 0 <= j < i ==> chars@[j] != wanted,
            match chars@.index_of_first(wanted) {
                Some(index) => {
                    &&& 0 <= index < chars@.len()
                    &&& chars@[index] == wanted
                    &&& forall|j: int| 0 <= j < index ==> chars@[j] != wanted
                },
                None => !chars@.contains(wanted),
            },
    {
        if chars[i] == wanted {
            assert(chars@.contains(wanted));
            return Some(i);
        }
    }
    None
}

/// Where `wanted` stands last.
pub fn last_of(chars: &Vec<char>, wanted: char) -> (r: Option<usize>)
    ensures
        match r {
            Some(i) => chars@.index_of_last(wanted) == Some(i as int) && i < chars@.len(),
            None => chars@.index_of_last(wanted) is None,
        },
{
    proof {
        chars@.index_of_last_ensures(wanted);
    }
    let mut i: usize = chars.len();
    while i > 0
        invariant
            i <= chars@.len(),
            forall|j: int| i <= j < chars@.len() ==> chars@[j] != wanted,
            match chars@.index_of_last(wanted) {
                Some(index) => {
                    &&& 0 <= index < chars@.len()
                    &&& chars@[index] == wanted
                    &&& forall|j: int| index < j < chars@.len() ==> chars@[j] != wanted
                },
                None => !chars@.contains(wanted),
            },
        decreases i,
    {
        i = i - 1;
        if chars[i] == wanted {
            assert(chars@.contains(wanted));
            return Some(i);
        }
    }
    None
}

/// Some string of the list holds exactly the characters `wanted`.
pub open spec fn listed(list: Seq<String>, wanted: Seq<char>) -> bool {
    exists|i: int| 0 <= i < list.len() && (#[trigger] list[i])@ == wanted
}

/// No two strings of the list are equal.
pub open spec fn distinct(list: Seq<String>) -> bool {
    forall|i: int, j: int|
        0 <= i < j < list.len() ==> (#[trigger] list[i])@ != (#[trigger] list[j])@
}

/// Whether `wanted` is in the list.
pub fn is_listed(list: &Vec<String>, wanted: &str) -> (r: bool)
    ensures
        r == listed(list@, wanted@),
{
    for i in 0..list.len()
        invariant
            forall|j: int| 0 <= j < i ==> (#[trigger] list@[j])@ != wanted@,
    {
        if same(list[i].as_str(), wanted) {
            return true;
        }
    }
    false
}

/// Whether the strings of the list are pairwise different.
pub fn are_distinct(list: &Vec<String>) -> (r: bool)
    ensures
        r == distinct(list@),
{
    for j in 0..list.len()
        invariant
            forall|a: int, b: int|
                0 <= a < b < j ==> (#[trigger] list@[a])@ != (#[trigger] list@[b])@,
    {
        for i in 0..j
            invariant
                j < list@.len(),
                forall|a: int| 0 <= a < i ==> (#[trigger] list@[a])@ != list@[j as int]@,
        {
            if same(list[i].as_str(), list[j].as_str()) {
                return false;
            }
        }
    }
    true
}

/// The characters of `s` in order.
pub fn chars_of(s: &str) -> (r: Vec<char>)
    ensures
        r@ == s@,
{
    let mut out: Vec<char> = Vec::new();
    for c in it: s.chars()
        invariant
            out@ == it.seq().take(it.index()),
            it.seq() == s@,
    {
        assert(c == it.seq()[it.index()]);
        out.push(c);
    }
    out
}

/// The string made of `chars[first..last]`.
pub fn string_of(chars: &Vec<char>, first: usize, last: usize) -> (r: String)
    requires
        first <= last <= chars@.len(),
    ensures
        r@ == chars@.subrange(first as int, last as int),
{
    let mut out = String::new();
    let mut i: usize = first;
    while i < last
        invariant
            first <= i <= last <= chars@.len(),
            out@ == chars@.subrange(first as int, i as int),
        decreases last - i,
    {
        out.push(chars[i]);
        assert(chars@.subrange(first as int, i + 1) =~= chars@.subrange(
            first as int,
            i as int,
        ).push(chars@[i as int]));
        i = i + 1;
    }
    out
}

/// Whether both slices hold the same bytes.
pub fn same_bytes(a: &[u8], b: &[u8]) -> (r: bool)
    ensures
        r == (a@ == b@),
{
    if a.len() != b.len() {
        return false;
    }
    for i in 0..a.len()
        invariant
            a@.len() == b@.len(),
            forall|j: int| 0 <= j < i ==> a@[j] == b@[j],
    {
        if a[i] != b[i] {
            return false;
        }
    }
    assert(a@ =~= b@);
    true
}

/// The bytes `source[first..last]`.
pub fn copy_range(source: &[u8], first: usize, last: usize) -> (r: Vec<u8>)
    requires
        first <= last <= source@.len(),
    ensures
        r@ == source@.subrange(first as int, last as int),
{
    let mut out: Vec<u8> = Vec::new();
    let mut i: usize = first;
    while i < last
        invariant
            first <= i <= last <= source@.len(),
            out@ == source@.subrange(first as int, i as int),
        decreases last - i,
    {
        out.push(source[i]);
        assert(source@.subrange(first as int, i + 1) =~= source@.subrange(
            first as int,
            i as int,
        ).push(source@[i as int]));
        i = i + 1;
    }
    out
}

/// A control character of Unicode's general category Cc.
pub open spec fn is_control(c: char) -> bool {
    c as u32 <= 0x1f || 0x7f <= c as u32 <= 0x9f
}

/// Whether `c` is a control character.
pub fn control(c: char) -> (r: bool)
    ensures
        r == is_control(c),
{
    let code: u32 = c as u32;
    code <= 0x1f || (0x7f <= code && code <= 0x9f)
}

pub open spec fn is_digit(b: u8) -> bool {
    0x30 <= b <= 0x39
}

pub open spec fn is_alphanumeric(b: u8) -> bool {
    is_digit(b) || 0x41 <= b <= 0x5a || 0x61 <= b <= 0x7a
}

/// Whether `b` is an ASCII digit.
pub fn digit(b: u8) -> (r: bool)
    ensures
        r == is_digit(b),
{
    0x30 <= b && b <= 0x39
}

/// Whether `b` is an ASCII letter or digit.
pub fn alphanumeric(b: u8) -> (r: bool)
    ensures
        r == is_alphanumeric(b),
{
    digit(b) || (0x41 <= b && b <= 0x5a) || (0x61 <= b && b <= 0x7a)
}

/// ASCII white space.
pub open spec fn is_ascii_space(b: u8) -> bool {
    b == 0x20 || b == 0x09 || b == 0x0a || b == 0x0c || b == 0x0d
}

/// Whether `b` is ASCII white space.
pub fn ascii_space(b: u8) -> (r: bool)
    ensures
        r == is_ascii_space(b),
{
    b == 0x20 || b == 0x09 || b == 0x0a || b == 0x0c || b == 0x0d
}

/// `b` with ASCII upper case letters in lower case.
pub open spec fn lowered(b: u8) -> u8 {
    if 0x41 <= b <= 0x5a {
        (b + 0x20) as u8
    } else {
        b
    }
}

/// `b` with ASCII upper case letters in lower case.
pub fn lower(b: u8) -> (r: u8)
    ensures
        r == lowered(b),
{
    if 0x41 <= b && b <= 0x5a {
        b + 0x20
    } else {
        b
    }
}

/// Equality of byte strings up to the case of ASCII letters.
pub open spec fn equal_ignoring_case(a: Seq<u8>, b: Seq<u8>) -> bool {
    a.len() == b.len() && forall|i: int| 0 <= i < a.len() ==> lowered(#[trigger] a[i]) == lowered(b[i])
}

/// Whether both slices are equal up to the case of ASCII letters.
pub fn same_ignoring_case(a: &[u8], b: &[u8]) -> (r: bool)
    ensures
        r == equal_ignoring_case(a@, b@),
{
    if a.len() != b.len() {
        return false;
    }
    for i in 0..a.len()
        invariant
            a@.len() == b@.len(),
            forall|j: int| 0 <= j < i ==> lowered(#[trigger] a@[j]) == lowered(b@[j]),
    {
        if lower(a[i]) != lower(b[i]) {
            return false;
        }
    }
    true
}

/// The characters that `bytes` spell in UTF-8, where they are valid.
pub open spec fn spelled(bytes: Seq<u8>) -> Option<Seq<char>> {
    if valid_utf8(bytes) {
        Some(decode_utf8(bytes))
    } else {
        None
    }
}

/// The text that `bytes` spell in UTF-8, or nothing where they are not valid.
pub fn text_of(bytes: &[u8]) -> (r: Option<String>)
    ensures
        match r {
            Some(text) => spelled(bytes@) == Some(text@) && encode_utf8(text@) == bytes@,
            None => spelled(bytes@) is None,
        },
{
    broadcast use encode_utf8_decode_utf8;

    let copy = copy_range(bytes, 0, bytes.len());
    assert(copy@ =~= bytes@);
    match string_from_utf8(copy) {
        Ok(text) => Some(text),
        Err(_) => None,
    }
}

/// White space in the sense of Unicode's `White_Space` property.
pub open spec fn is_whitespace(c: char) -> bool {
    let code = c as u32;
    ||| 0x09 <= code <= 0x0d
    ||| code == 0x20
    ||| code == 0x85
    ||| code == 0xa0
    ||| code == 0x1680
    ||| 0x2000 <= code <= 0x200a
    ||| code == 0x2028
    ||| code == 0x2029
    ||| code == 0x202f
    ||| code == 0x205f
    ||| code == 0x3000
}

/// Whether `c` is white space.
pub fn whitespace(c: char) -> (r: bool)
    ensures
        r == is_whitespace(c),
{
    let code: u32 = c as u32;
    (0x09 <= code && code <= 0x0d) || code == 0x20 || code == 0x85 || code == 0xa0 || code == 0x1680
        || (0x2000 <= code && code <= 0x200a) || code == 0x2028 || code == 0x2029 || code == 0x202f
        || code == 0x205f || code == 0x3000
}

/// `s` without the white space that it starts with.
pub open spec fn trimmed_start(s: Seq<char>) -> Seq<char>
    decreases s.len(),
{
    if s.len() > 0 && is_whitespace(s[0]) {
        trimmed_start(s.drop_first())
    } else {
        s
    }
}

/// `s` without the white space that it ends with.
pub open spec fn trimmed_end(s: Seq<char>) -> Seq<char>
    decreases s.len(),
{
    if s.len() > 0 && is_whitespace(s.last()) {
        trimmed_end(s.drop_last())
    } else {
        s
    }
}

/// `s` without the white space at both ends.
pub open spec fn trimmed(s: Seq<char>) -> Seq<char> {
    trimmed_end(trimmed_start(s))
}

/// The text without the white space at both ends.
pub fn trim(text: &str) -> (r: String)
    ensures
        r@ == trimmed(text@),
{
    let chars = chars_of(text);
    let mut first: usize = 0;
    assert(text@.skip(0) =~= text@);
    while first < chars.len() && whitespace(chars[first])
        invariant
            chars@ == text@,
            first <= chars@.len(),
            trimmed_start(text@.skip(first as int)) == trimmed_start(text@),
        decreases chars@.len() - first,
    {
        assert(text@.skip(first as int).drop_first() =~= text@.skip(first + 1));
        first = first + 1;
    }
    let ghost rest = text@.skip(first as int);
    assert(trimmed_start(text@) == rest);
    let mut last: usize = chars.len();
    assert(chars@.subrange(first as int, last as int) =~= rest);
    while last > first && whitespace(chars[last - 1])
        invariant
            chars@ == text@,
            first <= last <= chars@.len(),
            trimmed_end(chars@.subrange(first as int, last as int)) == trimmed_end(rest),
        decreases last,
    {
        let ghost now = chars@.subrange(first as int, last as int);
        assert(now.last() == chars@[last - 1]);
        assert(now.drop_last() =~= chars@.subrange(first as int, last - 1));
        last = last - 1;
    }
    assert(trimmed_end(rest) == chars@.subrange(first as int, last as int)) by {
        let now = chars@.subrange(first as int, last as int);
        if last > first {
            assert(now.last() == chars@[last - 1]);
        }
    }
    string_of(&chars, first, last)
}

/// `c` with ASCII upper case letters in lower case.
pub open spec fn lowered_char(c: char) -> char {
    if 'A' <= c <= 'Z' {
        ((c as u8) + 0x20) as char
    } else {
        c
    }
}

/// `s` with ASCII upper case letters in lower case.
pub open spec fn lowered_text(s: Seq<char>) -> Seq<char> {
    Seq::new(s.len(), |i: int| lowered_char(s[i]))
}

/// `c` with ASCII upper case letters in lower case.
pub fn lower_char(c: char) -> (r: char)
    ensures
        r == lowered_char(c),
{
    if 'A' <= c && c <= 'Z' {
        ((c as u8) + 0x20) as char
    } else {
        c
    }
}

/// The text with ASCII upper case letters in lower case.
pub fn lower_text(text: &str) -> (r: String)
    ensures
        r@ == lowered_text(text@),
{
    let chars = chars_of(text);
    let mut out = String::new();
    for i in 0..chars.len()
        invariant
            chars@ == text@,
            out@ == lowered_text(text@).take(i as int),
    {
        out.push(lower_char(chars[i]));
        assert(lowered_text(text@).take(i + 1) =~= lowered_text(text@).take(i as int).push(
            lowered_char(text@[i as int]),
        ));
    }
    assert(lowered_text(text@).take(text@.len() as int) =~= lowered_text(text@));
    out
}

/// Whether both texts are equal up to the case of ASCII letters.
pub fn same_text_ignoring_case(a: &str, b: &str) -> (r: bool)
    ensures
        r == (lowered_text(a@) == lowered_text(b@)),
{
    let left = lower_text(a);
    let right = lower_text(b);
    same(left.as_str(), right.as_str())
}

/// The decimal digit of a number below ten.
pub open spec fn decimal_digit(value: nat) -> char {
    (0x30 + value) as char
}

/// The decimal form of a number, without leading zeros.
pub open spec fn decimal(value: nat) -> Seq<char>
    decreases value,
{
    if value < 10 {
        seq![decimal_digit(value)]
    } else {
        decimal(value / 10).push(decimal_digit(value % 10))
    }
}

/// The number that a run of decimal digits stands for.
pub open spec fn number_of(digits: Seq<char>) -> nat
    decreases digits.len(),
{
    if digits.len() == 0 {
        0
    } else {
        number_of(digits.drop_last()) * 10 + (digits.last() as u32 - 0x30) as nat
    }
}

pub open spec fn are_digits(s: Seq<char>) -> bool {
    s.len() > 0 && forall|i: int| 0 <= i < s.len() ==> '0' <= #[trigger] s[i] <= '9'
}

/// Writing a number down and reading it again gives the number.
pub proof fn decimals_read_back(value: nat)
    ensures
        are_digits(decimal(value)),
        number_of(decimal(value)) == value,
    decreases value,
{
    if value >= 10 {
        decimals_read_back(value / 10);
        assert(decimal(value).drop_last() =~= decimal(value / 10));
        assert(decimal(value).last() as u32 == 0x30 + value % 10);
    } else {
        assert(decimal(value).drop_last() =~= Seq::<char>::empty());
        assert(number_of(Seq::<char>::empty()) == 0);
        assert(decimal(value).last() as u32 == 0x30 + value);
    }
}

/// The decimal form of a number.
pub fn decimal_text(value: u32) -> (r: String)
    ensures
        r@ == decimal(value as nat),
    decreases value,
{
    let last: u8 = (value % 10) as u8;
    let digit = (0x30 + last) as char;
    if value < 10 {
        let mut out = String::new();
        out.push(digit);
        out
    } else {
        let mut out = decimal_text(value / 10);
        out.push(digit);
        out
    }
}

/// Lower case differs from upper case in the letters `A` to `Z` alone, each of which becomes the letter
/// thirty-two places on; what is in lower case stays.
pub proof fn letters_are_lowered(c: char, b: u8)
    ensures
        'A' <= c <= 'Z' ==> lowered_char(c) as int == c as int + 32 && 'a' <= lowered_char(c) <= 'z',
        !('A' <= c <= 'Z') ==> lowered_char(c) == c,
        lowered_char(lowered_char(c)) == lowered_char(c),
        0x41 <= b <= 0x5a ==> lowered(b) == b + 32,
        !(0x41 <= b <= 0x5a) ==> lowered(b) == b,
        lowered(lowered(b)) == lowered(b),
{
}

/// Texts that differ at most in the case of ASCII letters are equal but for case, and no others are.
pub proof fn case_is_all_that_is_ignored(a: Seq<u8>, b: Seq<u8>)
    ensures
        equal_ignoring_case(a, b) == equal_ignoring_case(b, a),
        equal_ignoring_case(a, a),
        equal_ignoring_case(a, b) == (a.len() == b.len() && forall|i: int|
            0 <= i < a.len() ==> #[trigger] a[i] == b[i] || (0x41 <= a[i] <= 0x5a && b[i] == a[i] + 32) || (0x41
                <= b[i] <= 0x5a && a[i] == b[i] + 32)),
{
    if a.len() == b.len() {
        assert forall|i: int| 0 <= i < a.len() implies ((lowered(#[trigger] a[i]) == lowered(b[i])) == (a[i]
            == b[i] || (0x41 <= a[i] <= 0x5a && b[i] == a[i] + 32) || (0x41 <= b[i] <= 0x5a && a[i] == b[i]
            + 32))) by {}
        if equal_ignoring_case(a, b) {
            assert forall|i: int| 0 <= i < b.len() implies lowered(#[trigger] b[i]) == lowered(a[i]) by {
                assert(lowered(a[i]) == lowered(b[i]));
            }
        }
        if equal_ignoring_case(b, a) {
            assert forall|i: int| 0 <= i < a.len() implies lowered(#[trigger] a[i]) == lowered(b[i]) by {
                assert(lowered(b[i]) == lowered(a[i]));
            }
        }
    }
}

/// Trimming takes white space off both ends and nothing else: what is left begins and ends with
/// something else, and what came off is white space.
pub proof fn only_white_space_is_trimmed(s: Seq<char>)
    ensures
        trimmed(s).len() > 0 ==> !is_whitespace(trimmed(s)[0]) && !is_whitespace(trimmed(s).last()),
        exists|from: int, until: int|
            0 <= from <= until <= s.len() && trimmed(s) == #[trigger] s.subrange(from, until) && (forall|i: int|
                0 <= i < from || until <= i < s.len() ==> is_whitespace(#[trigger] s[i])),
{
    let rest = trimmed_start(s);
    starts_are_trimmed(s);
    ends_are_trimmed(rest);
    let from = s.len() - rest.len();
    let until = from + trimmed(s).len();
    assert(rest =~= s.skip(from));
    assert(trimmed(s) =~= s.subrange(from, until));
    assert forall|i: int| 0 <= i < from || until <= i < s.len() implies is_whitespace(#[trigger] s[i]) by {
        if until <= i {
            assert(s[i] == rest[i - from]);
        }
    }
    if trimmed(s).len() > 0 {
        assert(trimmed(s)[0] == rest[0]);
    }
}

proof fn starts_are_trimmed(s: Seq<char>)
    ensures
        trimmed_start(s).len() <= s.len(),
        trimmed_start(s) == s.skip(s.len() - trimmed_start(s).len()),
        trimmed_start(s).len() > 0 ==> !is_whitespace(trimmed_start(s)[0]),
        forall|i: int| 0 <= i < s.len() - trimmed_start(s).len() ==> is_whitespace(#[trigger] s[i]),
    decreases s.len(),
{
    if s.len() > 0 && is_whitespace(s[0]) {
        let rest = s.drop_first();
        starts_are_trimmed(rest);
        let n = s.len() - trimmed_start(s).len();
        assert(trimmed_start(s) =~= s.skip(n));
        assert forall|i: int| 0 <= i < n implies is_whitespace(#[trigger] s[i]) by {
            if i > 0 {
                assert(s[i] == rest[i - 1]);
            }
        }
    } else {
        assert(s.skip(0) =~= s);
    }
}

proof fn ends_are_trimmed(s: Seq<char>)
    ensures
        trimmed_end(s).len() <= s.len(),
        trimmed_end(s) == s.take(trimmed_end(s).len() as int),
        trimmed_end(s).len() > 0 ==> !is_whitespace(trimmed_end(s).last()),
        forall|i: int| trimmed_end(s).len() <= i < s.len() ==> is_whitespace(#[trigger] s[i]),
    decreases s.len(),
{
    if s.len() > 0 && is_whitespace(s.last()) {
        let rest = s.drop_last();
        ends_are_trimmed(rest);
        assert(trimmed_end(s) =~= s.take(trimmed_end(s).len() as int));
        assert forall|i: int| trimmed_end(s).len() <= i < s.len() implies is_whitespace(#[trigger] s[i]) by {
            if i < rest.len() {
                assert(s[i] == rest[i]);
            }
        }
    } else {
        assert(s.take(s.len() as int) =~= s);
    }
}

/// The kinds of characters: control characters are those below the space and from DEL to the end of the
/// C1 block, and white space in bytes is the space, the tab, the line feed, the form feed and the
/// carriage return.
pub proof fn characters_have_their_kinds(c: char, b: u8)
    ensures
        is_control(c) <==> (c < ' ' || ('\u{7f}' <= c && c < '\u{a0}')),
        is_ascii_space(b) <==> (b == 32 || b == 9 || b == 10 || b == 12 || b == 13),
        is_digit(b) <==> (48 <= b && b < 58),
        is_alphanumeric(b) <==> (is_digit(b) || (97 <= lowered(b) && lowered(b) <= 122)),
        c == ' ' || c == '\t' || c == '\n' || c == '\r' || c == '\u{a0}' || c == '\u{3000}' ==> is_whitespace(c),
        '!' <= c <= '~' ==> !is_whitespace(c) && !is_control(c),
{
}

} // verus!
