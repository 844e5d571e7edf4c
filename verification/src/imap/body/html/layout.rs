//! How far the elements of a document are set in.
use html2text::RcDom;
use vstd::prelude::*;

use super::bounds::{countable, is_countable, signed};
use super::document::{
    at, count_elements, document_of, leads, named, open_element, optional_view,
    steps_lead_to_children, ElementView, OpenedElement,
};
use super::measure::{height, next_child};
use crate::text::{are_digits, chars_of, decimal, number_of, same};

verus! {

/// The number from which a list is counted that is written so.
pub open spec fn start_of(value: Seq<char>) -> int {
    if !is_countable(value) {
        1
    } else if value[0] == '-' {
        -number_of(signed(value))
    } else {
        number_of(signed(value)) as int
    }
}

/// The number of the first item of a list with these attributes.
pub open spec fn first_number(attributes: Seq<(Seq<char>, Seq<char>)>) -> int
    decreases attributes.len(),
{
    if attributes.len() == 0 {
        1
    } else if attributes[0].0 == "start"@ {
        start_of(attributes[0].1)
    } else {
        first_number(attributes.drop_first())
    }
}

/// The number of list items among the child nodes of an element.
pub open spec fn items(nodes: Seq<Option<Seq<char>>>) -> nat
    decreases nodes.len(),
{
    if nodes.len() == 0 {
        0
    } else {
        items(nodes.drop_last()) + if nodes.last() == Some("li"@) {
            1nat
        } else {
            0nat
        }
    }
}

/// The columns that a number takes.
pub open spec fn number_width(value: int) -> nat {
    if value < 0 {
        1 + decimal((-value) as nat).len()
    } else {
        decimal(value as nat).len()
    }
}

/// The columns that the numbers of a list take: the wider of the first and the last, a dot and a
/// space.
pub open spec fn numbering_width(element: ElementView) -> nat {
    let first = first_number(element.attributes);
    let last = first + items(element.nodes) - 1;
    2 + if number_width(first) < number_width(last) {
        number_width(last)
    } else {
        number_width(first)
    }
}

/// The columns by which an element is set in from the one around it.
pub open spec fn own_indentation(element: ElementView) -> nat {
    match element.name {
        None => 0,
        Some(name) => if name == "ol"@ {
            numbering_width(element)
        } else if name == "ul"@ || name == "dd"@ || name == "blockquote"@ || name == "h1"@ {
            2
        } else if name == "h2"@ {
            3
        } else if name == "h3"@ {
            4
        } else if name == "h4"@ {
            5
        } else if name == "h5"@ {
            6
        } else if name == "h6"@ {
            7
        } else {
            0
        },
    }
}

/// The most columns by which something at or below an element is set in.
pub open spec fn indentation(element: ElementView) -> nat
    decreases element,
{
    own_indentation(element) + widest(element.children)
}

pub open spec fn widest(children: Seq<ElementView>) -> nat
    decreases children,
{
    if children.len() == 0 {
        0
    } else if widest(children.drop_last()) < indentation(children.last()) {
        indentation(children.last())
    } else {
        widest(children.drop_last())
    }
}

proof fn some_child_is_widest(children: Seq<ElementView>, index: int)
    requires
        0 <= index < children.len(),
    ensures
        indentation(children[index]) <= widest(children),
    decreases children.len(),
{
    if index < children.len() - 1 {
        some_child_is_widest(children.drop_last(), index);
    }
}

/// Ten to the power of `count`.
spec fn tens(count: nat) -> nat
    decreases count,
{
    if count == 0 {
        1
    } else {
        10 * tens((count - 1) as nat)
    }
}

proof fn decimals_are_short(value: nat, count: nat)
    requires
        value < tens(count),
        count > 0,
    ensures
        decimal(value).len() <= count,
    decreases count,
{
    if value >= 10 {
        assert(count > 1) by {
            reveal_with_fuel(tens, 2);
        }
        decimals_are_short(value / 10, (count - 1) as nat);
    }
}

fn decimal_width(value: u128) -> (r: usize)
    requires
        value < 100000000000000000000,
    ensures
        r == decimal(value as nat).len(),
        r <= 20,
    decreases value,
{
    proof {
        reveal_with_fuel(tens, 21);
        decimals_are_short(value as nat, 20);
    }
    if value < 10 {
        1
    } else {
        1 + decimal_width(value / 10)
    }
}

fn signed_width(value: i128) -> (r: usize)
    requires
        -100000000000000000000 < value < 100000000000000000000,
    ensures
        r == number_width(value as int),
        r <= 21,
{
    if value < 0 {
        1 + decimal_width((-value) as u128)
    } else {
        decimal_width(value as u128)
    }
}

fn list_start(attributes: &Vec<(String, String)>) -> (r: i128)
    ensures
        r == first_number(
            attributes@.map_values(|pair: (String, String)| (pair.0@, pair.1@)),
        ),
        -0x8000_0000_0000_0000 <= r <= 0x8000_0000_0000_0000,
{
    let ghost views = attributes@.map_values(|pair: (String, String)| (pair.0@, pair.1@));
    assert(views.skip(0) =~= views);
    for i in 0..attributes.len()
        invariant
            views == attributes@.map_values(|pair: (String, String)| (pair.0@, pair.1@)),
            first_number(views) == first_number(views.skip(i as int)),
    {
        let name = attributes[i].0.as_str();
        let value = attributes[i].1.as_str();
        assert(views.skip(i as int)[0] == (name@, value@));
        assert(views.skip(i as int).drop_first() =~= views.skip(i + 1));
        if same(name, "start") {
            return match countable(value) {
                Some(number) => {
                    let chars = chars_of(value);
                    if chars[0] == '-' {
                        -(number as i128)
                    } else {
                        number as i128
                    }
                },
                None => 1,
            };
        }
    }
    1
}

fn count_items(nodes: &Vec<Option<String>>) -> (r: usize)
    ensures
        r == items(nodes@.map_values(|name: Option<String>| optional_view(name))),
{
    let ghost views = nodes@.map_values(|name: Option<String>| optional_view(name));
    let mut count: usize = 0;
    for i in 0..nodes.len()
        invariant
            views == nodes@.map_values(|name: Option<String>| optional_view(name)),
            count == items(views.take(i as int)),
            count <= i,
    {
        assert(views.take(i + 1).drop_last() =~= views.take(i as int));
        assert(views.take(i + 1).last() == optional_view(nodes@[i as int]));
        if named(&nodes[i], "li") {
            count = count + 1;
        }
    }
    assert(views.take(nodes@.len() as int) =~= views);
    count
}

fn set_in(opened: &OpenedElement, Ghost(element): Ghost<ElementView>) -> (r: usize)
    requires
        opened.shows(element),
    ensures
        r == own_indentation(element),
{
    let name = &opened.name;
    if named(name, "ol") {
        let first = list_start(&opened.attributes);
        let last = first + count_items(&opened.nodes) as i128 - 1;
        let a = signed_width(first);
        let b = signed_width(last);
        2 + if a < b {
            b
        } else {
            a
        }
    } else if named(name, "ul") || named(name, "dd") || named(name, "blockquote") || named(
        name,
        "h1",
    ) {
        2
    } else if named(name, "h2") {
        3
    } else if named(name, "h3") {
        4
    } else if named(name, "h4") {
        5
    } else if named(name, "h5") {
        6
    } else if named(name, "h6") {
        7
    } else {
        0
    }
}

/// Whether nothing at or below the element at the end of a path is set in by `room` columns or
/// more.
pub(crate) fn has_room(dom: &RcDom, path: &mut Vec<usize>, levels: usize, room: usize) -> (r: bool)
    requires
        leads(document_of(*dom).root, old(path)@),
        height(at(document_of(*dom).root, old(path)@)) <= levels,
    ensures
        final(path)@ == old(path)@,
        r == (indentation(at(document_of(*dom).root, old(path)@)) < room),
    decreases levels,
{
    let ghost root = document_of(*dom).root;
    let ghost element = at(root, path@);
    let opened = match open_element(dom, path) {
        Some(opened) => opened,
        None => {
            return false;
        },
    };
    let count: usize = count_elements(&opened.nodes);
    let own = set_in(&opened, Ghost(element));
    if own >= room {
        return false;
    }
    assert(element.children.take(0) =~= Seq::<ElementView>::empty());
    let mut k: usize = 0;
    while k < count
        invariant
            k <= count,
            count == element.children.len(),
            root == document_of(*dom).root,
            leads(root, path@),
            element == at(root, path@),
            path@ == old(path)@,
            height(element) <= levels,
            own == own_indentation(element),
            own < room,
            own + widest(element.children.take(k as int)) < room,
        decreases count - k,
    {
        proof {
            steps_lead_to_children(root, path@, (k + 1) as usize);
            next_child(element.children, k as int);
            some_child_is_widest(element.children, k as int);
            assert(element.children.take(k + 1).drop_last() =~= element.children.take(k as int));
        }
        path.push(k + 1);
        let within = has_room(dom, path, levels - 1, room - own);
        path.pop();
        assert(path@ =~= old(path)@);
        if !within {
            return false;
        }
        k = k + 1;
    }
    assert(element.children.take(count as int) =~= element.children);
    true
}

/// Indentation goes by the element: headings by their level, lists and quotations by two, numbered lists
/// by their longest number and two more, and everything else not at all.
pub proof fn elements_are_indented_by_kind(element: ElementView)
    ensures
        element.name is None ==> own_indentation(element) == 0,
        element.name == Some("ul"@) || element.name == Some("dd"@) || element.name == Some("blockquote"@) || element.name
            == Some("h1"@) ==> own_indentation(element) == 2,
        element.name == Some("h2"@) ==> own_indentation(element) == 3,
        element.name == Some("h3"@) ==> own_indentation(element) == 4,
        element.name == Some("h4"@) ==> own_indentation(element) == 5,
        element.name == Some("h5"@) ==> own_indentation(element) == 6,
        element.name == Some("h6"@) ==> own_indentation(element) == 7,
        element.name == Some("p"@) || element.name == Some("div"@) || element.name == Some("li"@) || element.name
            == Some("table"@) ==> own_indentation(element) == 0,
        element.name == Some("ol"@) && element.attributes.len() == 0 && items(element.nodes) == 1 ==> own_indentation(
            element,
        ) == 3,
{
    reveal_strlit("ul");
    reveal_strlit("dd");
    reveal_strlit("blockquote");
    reveal_strlit("h1");
    reveal_strlit("h2");
    reveal_strlit("h3");
    reveal_strlit("h4");
    reveal_strlit("h5");
    reveal_strlit("h6");
    reveal_strlit("p");
    reveal_strlit("div");
    reveal_strlit("li");
    reveal_strlit("table");
    reveal_strlit("ol");
    assert("ul"@[0] == 'u' && "dd"@[0] == 'd' && "ol"@[0] == 'o' && "li"@[0] == 'l' && "h1"@[0] == 'h');
    assert("h1"@[1] == '1' && "h2"@[1] == '2' && "h3"@[1] == '3' && "h4"@[1] == '4' && "h5"@[1] == '5' && "h6"@[1]
        == '6');
    assert("p"@.len() == 1 && "div"@.len() == 3 && "table"@.len() == 5 && "blockquote"@.len() == 10);
    assert("ul"@.len() == 2 && "dd"@.len() == 2 && "h1"@.len() == 2 && "h2"@.len() == 2 && "h3"@.len() == 2
        && "h4"@.len() == 2 && "h5"@.len() == 2 && "h6"@.len() == 2 && "ol"@.len() == 2 && "li"@.len() == 2);
    assert("dd"@[1] == 'd' && "ul"@[1] == 'l' && "ol"@[1] == 'l');
}

/// What an element holds is indented by the element and by itself, and the deepest of it counts.
pub proof fn indentation_adds_up(element: ElementView, i: int)
    ensures
        element.children.len() == 0 ==> indentation(element) == own_indentation(element),
        0 <= i < element.children.len() ==> indentation(element) >= own_indentation(element) + indentation(
            element.children[i],
        ),
        element.children.len() > 0 ==> exists|k: int|
            0 <= k < element.children.len() && indentation(element) == own_indentation(element) + indentation(
                #[trigger] element.children[k],
            ),
{
    the_widest_counts(element.children, i);
}

proof fn the_widest_counts(children: Seq<ElementView>, i: int)
    ensures
        0 <= i < children.len() ==> widest(children) >= indentation(children[i]),
        children.len() > 0 ==> exists|k: int|
            0 <= k < children.len() && widest(children) == indentation(#[trigger] children[k]),
    decreases children.len(),
{
    if children.len() > 0 {
        let shorter = children.drop_last();
        the_widest_counts(shorter, i);
        let n = children.len() - 1;
        assert(children[n] == children.last());
        if 0 <= i < n {
            assert(shorter[i] == children[i]);
        }
        if shorter.len() > 0 && !(widest(shorter) < indentation(children.last())) {
            let k = choose|k: int| 0 <= k < shorter.len() && widest(shorter) == indentation(#[trigger] shorter[k]);
            assert(children[k] == shorter[k]);
        } else if shorter.len() == 0 && !(widest(shorter) < indentation(children.last())) {
            assert(widest(shorter) == 0);
            assert(indentation(children[n]) == 0);
        }
    }
}

/// A list begins at the number that its first such attribute states, forwards or backwards, and else at
/// one.
pub proof fn lists_begin_where_they_say(digits: Seq<char>)
    requires
        are_digits(digits),
        is_countable(digits),
    ensures
        start_of(digits) == number_of(digits),
        start_of(seq!['+'] + digits) == number_of(digits),
        start_of(seq!['-'] + digits) == -(number_of(digits) as int),
        start_of(Seq::empty()) == 1,
        first_number(Seq::empty()) == 1,
{
    assert('0' <= digits[0] <= '9');
    assert((seq!['-'] + digits).drop_first() =~= digits);
    assert((seq!['+'] + digits).drop_first() =~= digits);
}

} // verus!
