//! Pages of a text, cut between characters.
use vstd::prelude::*;
use vstd::utf8::{
    encode_utf8, encode_utf8_valid_utf8, is_char_boundary,
    is_char_boundary_start_end_of_seq, length_of_first_scalar, pop_first_scalar, valid_utf8,
};

verus! {

/// The last character boundary of the bytes that is not behind `index`.
pub open spec fn boundary_before(bytes: Seq<u8>, index: int) -> int
    decreases index,
{
    if index <= 0 || is_char_boundary(bytes, index) {
        index
    } else {
        boundary_before(bytes, index - 1)
    }
}

/// Where the page that starts at `offset` ends.
pub open spec fn page_end(bytes: Seq<u8>, offset: int, maximum: int) -> int {
    if offset + maximum >= bytes.len() {
        bytes.len() as int
    } else {
        boundary_before(bytes, offset + maximum)
    }
}

proof fn boundary_before_is_one(bytes: Seq<u8>, index: int)
    requires
        valid_utf8(bytes),
        0 <= index,
    ensures
        0 <= boundary_before(bytes, index) <= index,
        is_char_boundary(bytes, boundary_before(bytes, index)),
        forall|other: int|
            boundary_before(bytes, index) < other <= index ==> !#[trigger] is_char_boundary(
                bytes,
                other,
            ),
    decreases index,
{
    is_char_boundary_start_end_of_seq(bytes);
    if index > 0 && !is_char_boundary(bytes, index) {
        boundary_before_is_one(bytes, index - 1);
    }
}

/// A character takes at most four bytes, so the next boundary is near.
proof fn next_boundary(bytes: Seq<u8>, index: int) -> (next: int)
    requires
        valid_utf8(bytes),
        is_char_boundary(bytes, index),
        0 <= index < bytes.len(),
    ensures
        index < next <= index + 4,
        is_char_boundary(bytes, next),
    decreases bytes.len(),
{
    let length = length_of_first_scalar(bytes);
    assert(1 <= length <= 4);
    if index == 0 {
        assert(is_char_boundary(pop_first_scalar(bytes), 0));
        assert(is_char_boundary(bytes, length));
        length
    } else {
        let tail = pop_first_scalar(bytes);
        assert(is_char_boundary(tail, index - length));
        assert(index >= length) by {
            reveal_with_fuel(is_char_boundary, 2);
        }
        let next = next_boundary(tail, index - length);
        assert(is_char_boundary(bytes, next + length)) by {
            reveal_with_fuel(is_char_boundary, 2);
        }
        next + length
    }
}

proof fn pages_advance(bytes: Seq<u8>, offset: int, maximum: int)
    requires
        valid_utf8(bytes),
        is_char_boundary(bytes, offset),
        0 <= offset < bytes.len(),
        maximum >= 4,
    ensures
        offset < page_end(bytes, offset, maximum) <= bytes.len(),
        is_char_boundary(bytes, page_end(bytes, offset, maximum)),
        page_end(bytes, offset, maximum) <= offset + maximum,
{
    is_char_boundary_start_end_of_seq(bytes);
    if offset + maximum < bytes.len() {
        boundary_before_is_one(bytes, offset + maximum);
        let next = next_boundary(bytes, offset);
    }
}

/// A page ends at or behind its start and holds no more than the maximum.
pub(crate) proof fn pages_are_cut_between_characters(text: Seq<char>, offset: int, maximum: int)
    requires
        maximum >= 4,
        offset == 0 || (is_char_boundary(encode_utf8(text), offset) && 0 <= offset < encode_utf8(
            text,
        ).len()),
    ensures
        offset <= page_end(encode_utf8(text), offset, maximum) <= encode_utf8(text).len(),
        page_end(encode_utf8(text), offset, maximum) - offset <= maximum,
{
    encode_utf8_valid_utf8(text);
    let bytes = encode_utf8(text);
    is_char_boundary_start_end_of_seq(bytes);
    if offset < bytes.len() {
        pages_advance(bytes, offset, maximum);
    }
}

/// The bytes of two texts joined are their bytes joined.
pub(crate) proof fn encodings_join(first: Seq<char>, second: Seq<char>)
    ensures
        encode_utf8(first + second) == encode_utf8(first) + encode_utf8(second),
    decreases first.len(),
{
    if first.len() == 0 {
        assert(first + second =~= second);
        assert(encode_utf8(first) =~= Seq::<u8>::empty());
    } else {
        let both = first + second;
        encodings_join(first.drop_first(), second);
        assert(both.drop_first() =~= first.drop_first() + second);
        assert(both[0] == first[0]);
    }
}

/// What the pages from `offset` on hold together.
pub open spec fn pages_from(bytes: Seq<u8>, offset: int, maximum: int) -> Seq<u8>
    decreases bytes.len() - offset,
{
    let end = page_end(bytes, offset, maximum);
    if offset < 0 || offset >= bytes.len() || end <= offset || end > bytes.len() {
        Seq::empty()
    } else {
        bytes.subrange(offset, end) + pages_from(bytes, end, maximum)
    }
}

/// Reading page after page gives the whole text, each byte once and in order: every page starts
/// where the one before it ended, and every page but an empty one makes progress.
pub proof fn pages_give_the_whole_text(text: Seq<char>, maximum: int)
    requires
        maximum >= 4,
    ensures
        pages_from(encode_utf8(text), 0, maximum) == encode_utf8(text),
{
    encode_utf8_valid_utf8(text);
    let bytes = encode_utf8(text);
    is_char_boundary_start_end_of_seq(bytes);
    pages_give_the_rest(bytes, 0, maximum);
    assert(bytes.skip(0) =~= bytes);
}

proof fn pages_give_the_rest(bytes: Seq<u8>, offset: int, maximum: int)
    requires
        valid_utf8(bytes),
        is_char_boundary(bytes, offset),
        0 <= offset <= bytes.len(),
        maximum >= 4,
    ensures
        pages_from(bytes, offset, maximum) == bytes.skip(offset),
    decreases bytes.len() - offset,
{
    if offset < bytes.len() {
        pages_advance(bytes, offset, maximum);
        let end = page_end(bytes, offset, maximum);
        pages_give_the_rest(bytes, end, maximum);
        assert(bytes.subrange(offset, end) + bytes.skip(end) =~= bytes.skip(offset));
    } else {
        assert(bytes.skip(offset) =~= Seq::<u8>::empty());
    }
}

/// The page that starts at `offset`, and where it ends.
pub fn cut_page(text: &str, offset: usize, maximum: usize) -> (r: (String, usize))
    requires
        maximum >= 4,
        is_char_boundary(encode_utf8(text@), offset as int),
        offset <= encode_utf8(text@).len(),
    ensures
        r.1 == page_end(encode_utf8(text@), offset as int, maximum as int),
        offset <= r.1 <= encode_utf8(text@).len(),
        is_char_boundary(encode_utf8(text@), r.1 as int),
        encode_utf8(r.0@) == encode_utf8(text@).subrange(offset as int, r.1 as int),
        offset < encode_utf8(text@).len() ==> offset < r.1,
{
    let ghost bytes = encode_utf8(text@);
    proof {
        encode_utf8_valid_utf8(text@);
        is_char_boundary_start_end_of_seq(bytes);
    }
    let length: usize = text.as_bytes().len();
    let end: usize = if maximum >= length - offset {
        length
    } else {
        let mut index: usize = offset + maximum;
        proof {
            boundary_before_is_one(bytes, index as int);
        }
        while index > 0 && !text.is_char_boundary(index)
            invariant
                bytes == encode_utf8(text@),
                index <= length == bytes.len(),
                boundary_before(bytes, index as int) == boundary_before(
                    bytes,
                    offset + maximum,
                ),
            decreases index,
        {
            index = index - 1;
        }
        index
    };
    proof {
        if offset < bytes.len() {
            pages_advance(bytes, offset as int, maximum as int);
        }
    }
    let (_before, rest) = text.split_at(offset);
    let ghost tail = encode_utf8(rest@);
    assert(tail =~= bytes.subrange(offset as int, bytes.len() as int));
    proof {
        encode_utf8_valid_utf8(rest@);
        boundary_in_tail(bytes, offset as int, end as int);
    }
    let (page, _after) = rest.split_at(end - offset);
    assert(tail.subrange(0, end - offset) =~= bytes.subrange(offset as int, end as int));
    (page.to_owned(), end)
}

proof fn boundary_in_tail(bytes: Seq<u8>, offset: int, end: int)
    requires
        valid_utf8(bytes),
        0 <= offset <= end <= bytes.len(),
        is_char_boundary(bytes, offset),
        is_char_boundary(bytes, end),
    ensures
        is_char_boundary(bytes.subrange(offset, bytes.len() as int), end - offset),
    decreases bytes.len(),
{
    vstd::utf8::valid_utf8_split(bytes, offset);
    if offset == 0 {
        assert(bytes.subrange(0, bytes.len() as int) =~= bytes);
    } else {
        let length = length_of_first_scalar(bytes);
        let tail = pop_first_scalar(bytes);
        assert(is_char_boundary(tail, offset - length));
        assert(is_char_boundary(tail, end - length));
        assert(offset >= length) by {
            reveal_with_fuel(is_char_boundary, 2);
        }
        boundary_in_tail(tail, offset - length, end - length);
        assert(tail.subrange(offset - length, tail.len() as int) =~= bytes.subrange(
            offset,
            bytes.len() as int,
        ));
    }
}

} // verus!
