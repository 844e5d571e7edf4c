//! The attributes of a document that are bounded before it is rendered.
use html2text::RcDom;
use vstd::prelude::*;

use super::document::{
    at, changes_are_found, count_elements, document_of, leads, named, open_element, optional_view,
    replaced, set_attribute, steps_lead_to_children, the_same_is_no_change, with_child, with_value,
    ElementView,
};
use super::measure::{
    cell, height, is_cell, leaves, next_child, own_size, size_of, sizes, tallest,
};
use crate::text::{are_digits, chars_of, decimal_digit, number_of, same};

verus! {

pub const HTML_TABLE_SPAN_LIMIT: usize = 8;

/// The largest number from which the items of a list are counted, so that every item of a document
/// has a number in sixty-four bits.
pub const HTML_START_LIMIT: u64 = 9223372036854771711;

/// The digits of a number that may be written with a plus sign.
pub open spec fn unsigned(s: Seq<char>) -> Seq<char> {
    if s.len() > 0 && s[0] == '+' {
        s.drop_first()
    } else {
        s
    }
}

/// The digits of a number that may be written with a sign.
pub open spec fn signed(s: Seq<char>) -> Seq<char> {
    if s.len() > 0 && (s[0] == '+' || s[0] == '-') {
        s.drop_first()
    } else {
        s
    }
}

/// The number of rows or columns that a cell covers: what is written, within bounds, or one where
/// no number is written.
pub open spec fn span_of(value: Seq<char>) -> nat {
    let digits = unsigned(value);
    if !are_digits(digits) || number_of(digits) > usize::MAX || number_of(digits) < 1 {
        1
    } else if number_of(digits) > HTML_TABLE_SPAN_LIMIT {
        HTML_TABLE_SPAN_LIMIT as nat
    } else {
        number_of(digits)
    }
}

/// A list can be counted from what is written.
pub open spec fn is_countable(value: Seq<char>) -> bool {
    are_digits(signed(value)) && number_of(signed(value)) <= HTML_START_LIMIT
}

/// The value with which an attribute is rendered: the span of a cell and the first number of a list
/// are bounded, and where no number can be counted from, a list begins at one.
pub open spec fn rendered_value(name: Option<Seq<char>>, attribute: (Seq<char>, Seq<char>)) -> Seq<
    char,
> {
    if is_cell(name) && (attribute.0 == "colspan"@ || attribute.0 == "rowspan"@) {
        seq![decimal_digit(span_of(attribute.1))]
    } else if name == Some("ol"@) && attribute.0 == "start"@ && !is_countable(attribute.1) {
        seq!['1']
    } else {
        attribute.1
    }
}

/// An element whose first `count` attributes have the values with which they are rendered.
pub open spec fn with_bounds(element: ElementView, count: int) -> ElementView {
    ElementView {
        attributes: Seq::new(
            element.attributes.len(),
            |i: int|
                if i < count {
                    (
                        element.attributes[i].0,
                        rendered_value(element.name, element.attributes[i]),
                    )
                } else {
                    element.attributes[i]
                },
        ),
        ..element
    }
}

/// An element with everything below it, its attributes as they are rendered.
pub open spec fn prepared(element: ElementView) -> ElementView
    decreases element,
{
    ElementView {
        children: all_prepared(element.children),
        ..with_bounds(element, element.attributes.len() as int)
    }
}

pub open spec fn all_prepared(children: Seq<ElementView>) -> Seq<ElementView>
    decreases children,
{
    if children.len() == 0 {
        Seq::empty()
    } else {
        all_prepared(children.drop_last()).push(prepared(children.last()))
    }
}

proof fn children_are_prepared(children: Seq<ElementView>)
    ensures
        all_prepared(children).len() == children.len(),
        forall|i: int|
            0 <= i < children.len() ==> #[trigger] all_prepared(children)[i] == prepared(
                children[i],
            ),
    decreases children.len(),
{
    if children.len() > 0 {
        children_are_prepared(children.drop_last());
        assert forall|i: int| 0 <= i < children.len() implies #[trigger] all_prepared(children)[i]
            == prepared(children[i]) by {
            if i < children.len() - 1 {
                assert(children.drop_last()[i] == children[i]);
            }
        }
    }
}

/// Preparing an element keeps its size and its height.
pub(crate) proof fn size_is_kept(element: ElementView)
    ensures
        size_of(prepared(element)) == size_of(element),
        height(prepared(element)) == height(element),
    decreases element, 1nat,
{
    assert(decreases_to!(element => element.children));
    sizes_are_kept(element.children);
    assert(leaves(prepared(element)) == leaves(element));
    assert(own_size(prepared(element)) == own_size(element));
}

proof fn sizes_are_kept(children: Seq<ElementView>)
    ensures
        sizes(all_prepared(children)) == sizes(children),
        tallest(all_prepared(children)) == tallest(children),
    decreases children, 0nat,
{
    if children.len() > 0 {
        sizes_are_kept(children.drop_last());
        assert(decreases_to!(children => children.last()));
        size_is_kept(children.last());
        assert(all_prepared(children).drop_last() =~= all_prepared(children.drop_last()));
    }
}

/// Every span and every first number of a list is bounded, at and below an element.
pub open spec fn is_bounded(element: ElementView) -> bool
    decreases element,
{
    &&& forall|i: int|
        0 <= i < element.attributes.len() ==> rendered_value(
            element.name,
            #[trigger] element.attributes[i],
        ) == element.attributes[i].1
    &&& forall|i: int|
        0 <= i < element.children.len() ==> is_bounded(#[trigger] element.children[i])
}

proof fn bounds_hold(name: Option<Seq<char>>, attribute: (Seq<char>, Seq<char>))
    ensures
        rendered_value(name, (attribute.0, rendered_value(name, attribute))) == rendered_value(
            name,
            attribute,
        ),
{
    let value = rendered_value(name, attribute);
    if value != attribute.1 {
        assert(value.len() == 1);
        assert(value.drop_last() =~= Seq::<char>::empty());
        assert(number_of(Seq::<char>::empty()) == 0);
        assert(unsigned(value) == value && signed(value) == value);
        assert(are_digits(value));
        reveal_strlit("colspan");
        reveal_strlit("rowspan");
        reveal_strlit("start");
    }
}

/// What is prepared is bounded.
pub(crate) proof fn prepared_is_bounded(element: ElementView)
    ensures
        is_bounded(prepared(element)),
    decreases element,
{
    let result = prepared(element);
    children_are_prepared(element.children);
    assert forall|i: int| 0 <= i < result.attributes.len() implies rendered_value(
        result.name,
        #[trigger] result.attributes[i],
    ) == result.attributes[i].1 by {
        bounds_hold(element.name, element.attributes[i]);
    }
    assert forall|i: int| 0 <= i < result.children.len() implies is_bounded(
        #[trigger] result.children[i],
    ) by {
        assert(decreases_to!(element => element.children));
        assert(decreases_to!(element.children => element.children[i]));
        prepared_is_bounded(element.children[i]);
    }
}

/// The number that the characters from `first` on stand for, unless it is none or too large to be
/// held.
fn parse_digits(chars: &Vec<char>, first: usize) -> (r: Option<u64>)
    requires
        first <= chars@.len(),
    ensures
        match r {
            Some(number) => are_digits(chars@.skip(first as int)) && number == number_of(
                chars@.skip(first as int),
            ),
            None => !are_digits(chars@.skip(first as int)) || number_of(chars@.skip(first as int))
                > u64::MAX,
        },
{
    let ghost digits = chars@.skip(first as int);
    if chars.len() == first {
        return None;
    }
    let mut number: u64 = 0;
    let mut huge = false;
    let mut i: usize = first;
    assert(digits.take(0) =~= Seq::<char>::empty());
    while i < chars.len()
        invariant
            first <= i <= chars@.len(),
            first < chars@.len(),
            digits == chars@.skip(first as int),
            forall|j: int| 0 <= j < i - first ==> '0' <= #[trigger] digits[j] <= '9',
            !huge ==> number == number_of(digits.take(i - first)),
            huge ==> number_of(digits.take(i - first)) > u64::MAX,
        decreases chars@.len() - i,
    {
        let c = chars[i];
        assert(digits[i - first] == c);
        if !('0' <= c && c <= '9') {
            return None;
        }
        let ghost now = digits.take(i - first + 1);
        assert(now.drop_last() =~= digits.take(i - first));
        assert(now.last() == c);
        let digit: u64 = (c as u32 - 0x30) as u64;
        if !huge {
            match number.checked_mul(10) {
                Some(shifted) => match shifted.checked_add(digit) {
                    Some(sum) => {
                        number = sum;
                    },
                    None => {
                        huge = true;
                    },
                },
                None => {
                    huge = true;
                },
            }
        }
        i = i + 1;
    }
    assert(digits.take(digits.len() as int) =~= digits);
    if huge {
        None
    } else {
        Some(number)
    }
}

fn span_text(value: &str) -> (r: String)
    ensures
        r@ == seq![decimal_digit(span_of(value@))],
{
    let chars = chars_of(value);
    let first: usize = if chars.len() > 0 && chars[0] == '+' {
        1
    } else {
        0
    };
    assert(unsigned(value@) =~= chars@.skip(first as int));
    let span: u64 = match parse_digits(&chars, first) {
        Some(number) => if number < 1 || number > usize::MAX as u64 {
            1
        } else if number > HTML_TABLE_SPAN_LIMIT as u64 {
            HTML_TABLE_SPAN_LIMIT as u64
        } else {
            number
        },
        None => 1,
    };
    assert(span == span_of(value@));
    let mut text = String::new();
    text.push((0x30 + span as u8) as char);
    assert(text@ =~= seq![decimal_digit(span_of(value@))]);
    text
}

/// The number from which a list is counted, without its sign, if there is one.
pub(crate) fn countable(value: &str) -> (r: Option<u64>)
    ensures
        match r {
            Some(number) => is_countable(value@) && number == number_of(signed(value@)),
            None => !is_countable(value@),
        },
{
    let chars = chars_of(value);
    let first: usize = if chars.len() > 0 && (chars[0] == '+' || chars[0] == '-') {
        1
    } else {
        0
    };
    assert(signed(value@) =~= chars@.skip(first as int));
    match parse_digits(&chars, first) {
        Some(number) => if number <= HTML_START_LIMIT {
            Some(number)
        } else {
            None
        },
        None => None,
    }
}

/// The value with which an attribute is rendered, if that is another one.
fn bounded_value(name: &Option<String>, attribute: &str, value: &str) -> (r: Option<String>)
    ensures
        match r {
            Some(text) => text@ == rendered_value(optional_view(*name), (attribute@, value@)),
            None => value@ == rendered_value(optional_view(*name), (attribute@, value@)),
        },
{
    if cell(name) && (same(attribute, "colspan") || same(attribute, "rowspan")) {
        return Some(span_text(value));
    }
    if named(name, "ol") && same(attribute, "start") && countable(value).is_none() {
        let mut text = String::new();
        text.push('1');
        assert(text@ =~= seq!['1']);
        return Some(text);
    }
    None
}

/// Bounds the attributes of the element at the end of a path and of everything below it.
pub(crate) fn prepare(dom: &mut RcDom, path: &mut Vec<usize>, levels: usize)
    requires
        leads(document_of(*old(dom)).root, old(path)@),
        height(at(document_of(*old(dom)).root, old(path)@)) <= levels,
    ensures
        final(path)@ == old(path)@,
        document_of(*final(dom)).source == document_of(*old(dom)).source,
        document_of(*final(dom)).root == replaced(
            document_of(*old(dom)).root,
            old(path)@,
            prepared(at(document_of(*old(dom)).root, old(path)@)),
        ),
    decreases levels,
{
    let ghost root = document_of(*dom).root;
    let ghost source = document_of(*dom).source;
    let ghost element = at(root, path@);
    let opened = match open_element(dom, path) {
        Some(opened) => opened,
        None => {
            return;
        },
    };
    let count: usize = count_elements(&opened.nodes);
    assert(with_bounds(element, 0).attributes =~= element.attributes);
    proof {
        the_same_is_no_change(root, path@);
    }
    let mut i: usize = 0;
    while i < opened.attributes.len()
        invariant
            i <= opened.attributes@.len(),
            opened.shows(element),
            leads(root, path@),
            path@ == old(path)@,
            element == at(root, path@),
            document_of(*dom).source == source,
            document_of(*dom).root == replaced(root, path@, with_bounds(element, i as int)),
        decreases opened.attributes@.len() - i,
    {
        let name = opened.attributes[i].0.as_str();
        let value = opened.attributes[i].1.as_str();
        assert(element.attributes[i as int] == (name@, value@));
        let ghost current = with_bounds(element, i as int);
        let ghost next = with_bounds(element, i + 1);
        proof {
            changes_are_found(root, path@, current, next);
        }
        match bounded_value(&opened.name, name, value) {
            Some(text) => {
                assert(with_value(current, i as int, text@).attributes =~= next.attributes);
                assert(with_value(current, i as int, text@) == next);
                set_attribute(dom, path, i, text);
            },
            None => {
                assert(current.attributes =~= next.attributes);
            },
        }
        i = i + 1;
    }
    let ghost bounded = with_bounds(element, element.attributes.len() as int);
    let ghost children = element.children;
    proof {
        children_are_prepared(children);
        assert(all_prepared(children.take(0)) + children.skip(0) =~= children);
    }
    let mut k: usize = 0;
    while k < count
        invariant
            k <= count,
            count == children.len(),
            children == element.children,
            bounded == with_bounds(element, element.attributes.len() as int),
            leads(root, path@),
            path@ == old(path)@,
            element == at(root, path@),
            height(element) <= levels,
            all_prepared(children).len() == children.len(),
            document_of(*dom).source == source,
            document_of(*dom).root == replaced(
                root,
                path@,
                ElementView {
                    children: all_prepared(children.take(k as int)) + children.skip(k as int),
                    ..bounded
                },
            ),
        decreases count - k,
    {
        let ghost current = ElementView {
            children: all_prepared(children.take(k as int)) + children.skip(k as int),
            ..bounded
        };
        let ghost next = ElementView {
            children: all_prepared(children.take(k + 1)) + children.skip(k + 1),
            ..bounded
        };
        let ghost here = document_of(*dom).root;
        proof {
            children_are_prepared(children.take(k as int));
            assert(children.take(k + 1).drop_last() =~= children.take(k as int));
            changes_are_found(root, path@, current, next);
            assert(at(here, path@) == current);
            assert(current.children[k as int] == children[k as int]);
            assert(with_child(current, k as int, prepared(children[k as int])).children
                =~= next.children);
            steps_lead_to_children(here, path@, (k + 1) as usize);
            next_child(children, k as int);
        }
        path.push(k + 1);
        prepare(dom, path, levels - 1);
        path.pop();
        assert(path@ =~= old(path)@);
        k = k + 1;
    }
    assert(children.take(count as int) =~= children);
    assert(all_prepared(children) + children.skip(count as int) =~= all_prepared(children));
}

/// A cell spans one to eight columns or rows: what states no number counts as one, and what states more
/// counts as eight.
pub proof fn cells_span_one_to_eight(value: Seq<char>)
    ensures
        1 <= span_of(value) <= 8,
        are_digits(value) && 1 <= number_of(value) <= 8 ==> span_of(value) == number_of(value),
        are_digits(value) && 8 < number_of(value) <= usize::MAX ==> span_of(value) == 8,
        are_digits(value) && number_of(value) == 0 ==> span_of(value) == 1,
        value.len() == 0 ==> span_of(value) == 1,
        value.len() > 0 && value[0] == '-' ==> span_of(value) == 1,
        are_digits(value) ==> span_of(seq!['+'] + value) == span_of(value),
{
    if are_digits(value) {
        assert('0' <= value[0] <= '9');
        assert((seq!['+'] + value).drop_first() =~= value);
    }
    if value.len() > 0 && value[0] == '-' {
        assert(!('0' <= value[0] <= '9'));
    }
}

/// Only what could take too much room is changed before a document is shown: the spans of cells, and the
/// first number of a list where it cannot be counted from. Every other attribute is kept.
pub proof fn other_attributes_are_kept(name: Option<Seq<char>>, attribute: (Seq<char>, Seq<char>))
    ensures
        name is None ==> rendered_value(name, attribute) == attribute.1,
        attribute.0 != "colspan"@ && attribute.0 != "rowspan"@ && attribute.0 != "start"@ ==> rendered_value(
            name,
            attribute,
        ) == attribute.1,
        name matches Some(word) ==> word != "td"@ && word != "th"@ && word != "ol"@ ==> rendered_value(name, attribute)
            == attribute.1,
        (name == Some("td"@) || name == Some("th"@)) && (attribute.0 == "colspan"@ || attribute.0 == "rowspan"@)
            ==> rendered_value(name, attribute).len() == 1 && '1' <= rendered_value(name, attribute)[0] <= '8',
        name == Some("ol"@) && attribute.0 == "start"@ && is_countable(attribute.1) ==> rendered_value(name, attribute)
            == attribute.1,
        name == Some("ol"@) && attribute.0 == "start"@ && !is_countable(attribute.1) ==> rendered_value(name, attribute)
            == seq!['1'],
{
    reveal_strlit("td");
    reveal_strlit("th");
    reveal_strlit("ol");
    assert("td"@[0] == 't' && "th"@[0] == 't' && "ol"@[0] == 'o');
    cells_span_one_to_eight(attribute.1);
}

/// A list can be counted from any whole number that leaves room to count on.
pub proof fn whole_numbers_can_be_counted_from(digits: Seq<char>)
    requires
        are_digits(digits),
    ensures
        is_countable(digits) <==> number_of(digits) <= HTML_START_LIMIT,
        is_countable(seq!['-'] + digits) <==> number_of(digits) <= HTML_START_LIMIT,
        is_countable(seq!['+'] + digits) <==> number_of(digits) <= HTML_START_LIMIT,
        !is_countable(Seq::empty()),
{
    assert('0' <= digits[0] <= '9');
    assert((seq!['-'] + digits).drop_first() =~= digits);
    assert((seq!['+'] + digits).drop_first() =~= digits);
}

} // verus!
