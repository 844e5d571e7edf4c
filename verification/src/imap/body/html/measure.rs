//! How much of a document there is.
use html2text::RcDom;
use vstd::prelude::*;

use super::document::{
    at, count_elements, document_of, elements, leads, named, open_element, optional_view,
    steps_lead_to_children, ElementView,
};
use crate::imap::Limits;

verus! {

pub const HTML_TABLE_CELL_LIMIT: usize = 128;

/// The most nodes that any limits allow.
pub const HTML_NODE_LIMIT: usize = 4096;

/// How much of a document there is: nodes, attributes and table cells.
pub struct Size {
    pub nodes: nat,
    pub attributes: nat,
    pub cells: nat,
}

pub open spec fn together(a: Size, b: Size) -> Size {
    Size {
        nodes: a.nodes + b.nodes,
        attributes: a.attributes + b.attributes,
        cells: a.cells + b.cells,
    }
}

pub open spec fn is_cell(name: Option<Seq<char>>) -> bool {
    name == Some("td"@) || name == Some("th"@)
}

/// The number of child nodes that are no elements.
pub open spec fn leaves(element: ElementView) -> nat {
    (element.nodes.len() - elements(element.nodes)) as nat
}

/// An element and those of its child nodes that are none.
pub open spec fn own_size(element: ElementView) -> Size {
    Size {
        nodes: 1 + leaves(element),
        attributes: element.attributes.len(),
        cells: if is_cell(element.name) {
            1
        } else {
            0
        },
    }
}

/// The size of an element with everything below it.
pub open spec fn size_of(element: ElementView) -> Size
    decreases element,
{
    together(own_size(element), sizes(element.children))
}

pub open spec fn sizes(children: Seq<ElementView>) -> Size
    decreases children,
{
    if children.len() == 0 {
        Size { nodes: 0, attributes: 0, cells: 0 }
    } else {
        together(sizes(children.drop_last()), size_of(children.last()))
    }
}

/// The number of levels of nodes at and below an element.
pub open spec fn height(element: ElementView) -> nat
    decreases element,
{
    let below = if leaves(element) > 0 && tallest(element.children) == 0 {
        1
    } else {
        tallest(element.children)
    };
    1 + below
}

pub open spec fn tallest(children: Seq<ElementView>) -> nat
    decreases children,
{
    if children.len() == 0 {
        0
    } else if tallest(children.drop_last()) < height(children.last()) {
        height(children.last())
    } else {
        tallest(children.drop_last())
    }
}

proof fn parts_stay_below(children: Seq<ElementView>, few: int, many: int)
    requires
        0 <= few <= many <= children.len(),
    ensures
        sizes(children.take(few)).nodes <= sizes(children.take(many)).nodes,
        sizes(children.take(few)).attributes <= sizes(children.take(many)).attributes,
        sizes(children.take(few)).cells <= sizes(children.take(many)).cells,
        tallest(children.take(few)) <= tallest(children.take(many)),
    decreases many,
{
    if few < many {
        parts_stay_below(children, few, many - 1);
        assert(children.take(many).drop_last() =~= children.take(many - 1));
    }
}

/// One more child: what the first `count + 1` add up to, and that this is part of all of them.
pub(crate) proof fn next_child(children: Seq<ElementView>, count: int)
    requires
        0 <= count < children.len(),
    ensures
        sizes(children.take(count + 1)) == together(
            sizes(children.take(count)),
            size_of(children[count]),
        ),
        tallest(children.take(count + 1)) >= height(children[count]),
        tallest(children.take(count + 1)) >= tallest(children.take(count)),
        tallest(children.take(count + 1)) == height(children[count]) || tallest(
            children.take(count + 1),
        ) == tallest(children.take(count)),
        sizes(children.take(count + 1)).nodes <= sizes(children).nodes,
        sizes(children.take(count + 1)).attributes <= sizes(children).attributes,
        sizes(children.take(count + 1)).cells <= sizes(children).cells,
        tallest(children.take(count + 1)) <= tallest(children),
{
    assert(children.take(count + 1).drop_last() =~= children.take(count));
    parts_stay_below(children, count + 1, children.len() as int);
    assert(children.take(children.len() as int) =~= children);
}

/// The number of nodes that a document may have.
pub open spec fn node_limit(limits: Limits) -> nat {
    let share = limits.max_decode_steps / 32;
    if share < 1 {
        1
    } else if share > HTML_NODE_LIMIT {
        HTML_NODE_LIMIT as nat
    } else {
        share as nat
    }
}

/// The document is small enough to be rendered.
pub open spec fn is_modest(root: ElementView, limits: Limits, work: nat) -> bool {
    &&& fits_in(size_of(root), node_limit(limits))
    &&& height(root) <= limits.max_nesting
    &&& work + size_of(root).nodes <= limits.max_decode_steps
}

/// There are at most `most` nodes, four attributes for each of as many, and few table cells.
pub open spec fn fits_in(size: Size, most: nat) -> bool {
    &&& size.nodes <= most
    &&& size.attributes <= 4 * most
    &&& size.cells <= HTML_TABLE_CELL_LIMIT
}

/// What has been counted of a document so far.
pub struct Tally {
    pub nodes: usize,
    pub attributes: usize,
    pub cells: usize,
}

impl View for Tally {
    type V = Size;

    open spec fn view(&self) -> Size {
        Size {
            nodes: self.nodes as nat,
            attributes: self.attributes as nat,
            cells: self.cells as nat,
        }
    }
}

pub(crate) fn cell(name: &Option<String>) -> (r: bool)
    ensures
        r == is_cell(optional_view(*name)),
{
    named(name, "td") || named(name, "th")
}

/// Counts the element at the end of a path with everything below it, as long as there are no more
/// than `most` nodes in all and no more than `levels` levels here.
pub(crate) fn measure(
    dom: &RcDom,
    path: &mut Vec<usize>,
    most: usize,
    levels: usize,
    tally: &mut Tally,
) -> (r: bool)
    requires
        leads(document_of(*dom).root, old(path)@),
        most <= HTML_NODE_LIMIT,
        fits_in(old(tally)@, most as nat),
    ensures
        final(path)@ == old(path)@,
        r == ({
            let element = at(document_of(*dom).root, old(path)@);
            fits_in(together(old(tally)@, size_of(element)), most as nat) && height(element)
                <= levels
        }),
        r ==> final(tally)@ == together(
            old(tally)@,
            size_of(at(document_of(*dom).root, old(path)@)),
        ),
    decreases levels,
{
    let ghost root = document_of(*dom).root;
    let ghost element = at(root, path@);
    let ghost before = tally@;
    let opened = match open_element(dom, path) {
        Some(opened) => opened,
        None => {
            return false;
        },
    };
    let count: usize = count_elements(&opened.nodes);
    let others: usize = opened.nodes.len() - count;
    assert(others == leaves(element));
    if levels == 0 || (others > 0 && levels < 2) || others >= most - tally.nodes
        || opened.attributes.len() > 4 * most - tally.attributes {
        return false;
    }
    tally.nodes = tally.nodes + 1 + others;
    tally.attributes = tally.attributes + opened.attributes.len();
    if cell(&opened.name) {
        if tally.cells >= HTML_TABLE_CELL_LIMIT {
            return false;
        }
        tally.cells = tally.cells + 1;
    }
    let ghost own = together(before, own_size(element));
    assert(tally@ == own);
    assert(element.children.take(0) =~= Seq::<ElementView>::empty());
    let mut k: usize = 0;
    while k < count
        invariant
            k <= count,
            count == element.children.len(),
            root == document_of(*dom).root,
            leads(root, path@),
            element == at(root, path@),
            path@ == old(path)@,
            most <= HTML_NODE_LIMIT,
            levels >= 1,
            leaves(element) > 0 ==> levels >= 2,
            own == together(before, own_size(element)),
            before == old(tally)@,
            fits_in(tally@, most as nat),
            tally@ == together(own, sizes(element.children.take(k as int))),
            tallest(element.children.take(k as int)) <= levels - 1,
        decreases count - k,
    {
        proof {
            steps_lead_to_children(root, path@, (k + 1) as usize);
            next_child(element.children, k as int);
        }
        path.push(k + 1);
        let within = measure(dom, path, most, levels - 1, tally);
        path.pop();
        assert(path@ =~= old(path)@);
        if !within {
            return false;
        }
        k = k + 1;
    }
    assert(element.children.take(count as int) =~= element.children);
    true
}

/// An element counts itself, what it holds, its attributes, and itself as a cell where it is one; and it
/// is one higher than the highest that it holds.
pub proof fn sizes_add_up(element: ElementView, i: int)
    requires
        elements(element.nodes) <= element.nodes.len(),
    ensures
        size_of(element).nodes >= 1,
        size_of(element).attributes >= element.attributes.len(),
        element.children.len() == 0 ==> size_of(element).nodes == 1 + element.nodes.len() - elements(element.nodes)
            && size_of(element).attributes == element.attributes.len(),
        element.name == Some("td"@) || element.name == Some("th"@) ==> size_of(element).cells >= 1,
        0 <= i < element.children.len() ==> {
            &&& size_of(element).nodes >= 1 + size_of(element.children[i]).nodes
            &&& size_of(element).attributes >= element.attributes.len() + size_of(element.children[i]).attributes
            &&& size_of(element).cells >= size_of(element.children[i]).cells
            &&& height(element) >= 1 + height(element.children[i])
        },
        element.children.len() == 0 ==> height(element) == (if elements(element.nodes) < element.nodes.len() {
            2nat
        } else {
            1nat
        }),
{
    each_child_counts(element.children, i);
}

proof fn each_child_counts(children: Seq<ElementView>, i: int)
    ensures
        0 <= i < children.len() ==> {
            &&& sizes(children).nodes >= size_of(children[i]).nodes
            &&& sizes(children).attributes >= size_of(children[i]).attributes
            &&& sizes(children).cells >= size_of(children[i]).cells
            &&& tallest(children) >= height(children[i])
        },
        children.len() > 0 ==> tallest(children) >= 1,
    decreases children.len(),
{
    if children.len() > 0 {
        let shorter = children.drop_last();
        each_child_counts(shorter, i);
        assert(children[children.len() - 1] == children.last());
        assert(height(children.last()) >= 1);
        if 0 <= i < shorter.len() {
            assert(shorter[i] == children[i]);
        }
    }
}

/// A document is modest within the limits on nodes, attributes, cells, depth and work.
pub proof fn modest_documents_are_bounded(root: ElementView, limits: Limits, work: nat)
    requires
        is_modest(root, limits, work),
    ensures
        size_of(root).nodes <= 4096,
        size_of(root).attributes <= 4 * 4096,
        size_of(root).cells <= 128,
        height(root) <= limits.max_nesting,
        work + size_of(root).nodes <= limits.max_decode_steps,
        size_of(root).nodes > 1 ==> 32 * size_of(root).nodes <= limits.max_decode_steps,
{
}

} // verus!
