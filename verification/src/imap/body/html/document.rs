//! A parsed HTML document, and the way from its root to each of its elements.
use html2text::config::plain;
use html2text::{Element, RcDom};
use vstd::prelude::*;

use crate::text::same;

verus! {

/// A parsed HTML document.
#[verifier::external_type_specification]
#[verifier::external_body]
pub struct ExRcDom(html2text::RcDom);

/// An element of a document, or the document itself, which has no name: its attributes, its child
/// nodes (the name of each that is an element), and those children that are elements.
pub struct ElementView {
    pub name: Option<Seq<char>>,
    pub attributes: Seq<(Seq<char>, Seq<char>)>,
    pub nodes: Seq<Option<Seq<char>>>,
    pub children: Seq<ElementView>,
}

/// A parsed document: the text it was parsed from, and its elements as they are now.
pub struct DocumentView {
    pub source: Seq<char>,
    pub root: ElementView,
}

/// The number of elements among the child nodes of one.
pub open spec fn elements(nodes: Seq<Option<Seq<char>>>) -> nat
    decreases nodes.len(),
{
    if nodes.len() == 0 {
        0
    } else {
        elements(nodes.drop_last()) + if nodes.last() is Some {
            1nat
        } else {
            0nat
        }
    }
}

/// A path leads from the document to one of its elements: each step is the place of an element
/// among its sibling elements, counted from one.
pub open spec fn leads(root: ElementView, path: Seq<usize>) -> bool
    decreases path.len(),
{
    path.len() == 0 || (leads(root, path.drop_last()) && 1 <= path.last() <= at(
        root,
        path.drop_last(),
    ).children.len())
}

/// The element to which a path leads.
pub open spec fn at(root: ElementView, path: Seq<usize>) -> ElementView
    decreases path.len(),
{
    if path.len() == 0 {
        root
    } else {
        at(root, path.drop_last()).children[path.last() - 1]
    }
}

/// The element with one of its children changed.
pub open spec fn with_child(element: ElementView, index: int, child: ElementView) -> ElementView {
    ElementView { children: element.children.update(index, child), ..element }
}

/// The element with the value of one of its attributes changed.
pub open spec fn with_value(element: ElementView, index: int, value: Seq<char>) -> ElementView {
    ElementView {
        attributes: element.attributes.update(index, (element.attributes[index].0, value)),
        ..element
    }
}

/// The document with the element at the end of a path changed.
pub open spec fn replaced(root: ElementView, path: Seq<usize>, element: ElementView) -> ElementView
    decreases path.len(),
{
    if path.len() == 0 {
        element
    } else {
        replaced(
            root,
            path.drop_last(),
            with_child(at(root, path.drop_last()), path.last() - 1, element),
        )
    }
}

/// What is put at the end of a path is found there, and only the last of two changes counts.
pub(crate) proof fn changes_are_found(
    root: ElementView,
    path: Seq<usize>,
    first: ElementView,
    then: ElementView,
)
    requires
        leads(root, path),
    ensures
        leads(replaced(root, path, first), path),
        at(replaced(root, path, first), path) == first,
        replaced(replaced(root, path, first), path, then) == replaced(root, path, then),
    decreases path.len(),
{
    if path.len() > 0 {
        let outer = path.drop_last();
        let k = path.last() - 1;
        let a = with_child(at(root, outer), k, first);
        let b = with_child(at(root, outer), k, then);
        changes_are_found(root, outer, a, b);
        assert(with_child(a, k, then).children =~= b.children);
        assert(with_child(a, k, then) == b);
    }
}

/// Nothing changes where an element is put in its own place.
pub(crate) proof fn the_same_is_no_change(root: ElementView, path: Seq<usize>)
    requires
        leads(root, path),
    ensures
        replaced(root, path, at(root, path)) == root,
    decreases path.len(),
{
    if path.len() > 0 {
        let outer = path.drop_last();
        let k = path.last() - 1;
        let element = at(root, outer);
        assert(with_child(element, k, element.children[k]).children =~= element.children);
        assert(with_child(element, k, element.children[k]) == element);
        the_same_is_no_change(root, outer);
    }
}

/// A step further on a path leads to a child.
pub(crate) proof fn steps_lead_to_children(root: ElementView, path: Seq<usize>, step: usize)
    requires
        leads(root, path),
        1 <= step <= at(root, path).children.len(),
    ensures
        leads(root, path.push(step)),
        at(root, path.push(step)) == at(root, path).children[step - 1],
        forall|element: ElementView|
            #[trigger] replaced(root, path.push(step), element) == replaced(
                root,
                path,
                with_child(at(root, path), step - 1, element),
            ),
{
    assert(path.push(step).drop_last() =~= path);
}

/// The elements of the document that a text in HTML is parsed to, or nothing where it cannot be
/// parsed.
pub uninterp spec fn html_tree(text: Seq<char>) -> Option<ElementView>;

/// What a parsed document holds.
pub uninterp spec fn document_of(dom: RcDom) -> DocumentView;

/// `html2text`'s `parse_html` in raw mode. The contract names the elements of the document. The
/// parser's buffers hold lengths in thirty-two bits, so the text is bounded.
#[verifier::external_body]
pub(crate) fn parse_html(text: &str) -> (r: Option<RcDom>)
    requires
        text@.len() <= 131072,
    ensures
        match r {
            Some(dom) => {
                &&& html_tree(text@) == Some(document_of(dom).root)
                &&& document_of(dom).source == text@
            },
            None => html_tree(text@) is None,
        },
{
    plain().raw_mode(true).parse_html(text.as_bytes()).ok()
}

/// An element of a parsed document, opened by one level.
pub struct OpenedElement {
    pub name: Option<String>,
    pub attributes: Vec<(String, String)>,
    pub nodes: Vec<Option<String>>,
}

pub open spec fn optional_view(text: Option<String>) -> Option<Seq<char>> {
    match text {
        Some(text) => Some(text@),
        None => None,
    }
}

impl OpenedElement {
    /// These are the name, the attributes and the child nodes of the element.
    pub open spec fn shows(self, element: ElementView) -> bool {
        &&& optional_view(self.name) == element.name
        &&& self.attributes@.map_values(|pair: (String, String)| (pair.0@, pair.1@))
            == element.attributes
        &&& self.nodes@.map_values(|name: Option<String>| optional_view(name)) == element.nodes
    }
}

/// `RcDom::get_node_by_path`, and what the node that it finds holds: its name and those of its
/// child nodes as `element_name` gives them, and its attributes. The contract claims that the path
/// counts elements alone, from one, and that there is one child element for each child node with a
/// name.
#[verifier::external_body]
pub(crate) fn open_element(dom: &RcDom, path: &Vec<usize>) -> (r: Option<OpenedElement>)
    ensures
        match r {
            Some(opened) => {
                let element = at(document_of(*dom).root, path@);
                &&& leads(document_of(*dom).root, path@)
                &&& opened.shows(element)
                &&& elements(element.nodes) == element.children.len()
            },
            None => !leads(document_of(*dom).root, path@),
        },
{
    let node = dom.get_node_by_path(path)?;
    let attributes = match &node.data {
        Element { attrs, .. } => attrs.borrow().iter().map(
            |attribute| (attribute.name.local.to_string(), attribute.value.to_string()),
        ).collect(),
        _ => vec![],
    };
    let nodes = node.children.borrow().iter().map(|child| child.element_name()).collect();
    Some(OpenedElement { name: node.element_name(), attributes, nodes })
}

/// `RcDom::get_node_by_path`, and the value of one attribute of the element that it finds. The
/// contract claims that this one value changes and nothing else of the document.
#[verifier::external_body]
pub(crate) fn set_attribute(dom: &mut RcDom, path: &Vec<usize>, index: usize, value: String)
    requires
        leads(document_of(*old(dom)).root, path@),
        index < at(document_of(*old(dom)).root, path@).attributes.len(),
    ensures
        document_of(*final(dom)).source == document_of(*old(dom)).source,
        document_of(*final(dom)).root == replaced(
            document_of(*old(dom)).root,
            path@,
            with_value(at(document_of(*old(dom)).root, path@), index as int, value@),
        ),
{
    if let Some(node) = dom.get_node_by_path(path) {
        if let Element { attrs, .. } = &node.data {
            attrs.borrow_mut()[index].value = value.into();
        }
    }
}

pub(crate) fn named(name: &Option<String>, wanted: &str) -> (r: bool)
    ensures
        r == (optional_view(*name) == Some(wanted@)),
{
    match name {
        Some(name) => same(name.as_str(), wanted),
        None => false,
    }
}

pub(crate) fn count_elements(nodes: &Vec<Option<String>>) -> (r: usize)
    ensures
        r == elements(nodes@.map_values(|name: Option<String>| optional_view(name))),
        r <= nodes@.len(),
{
    let ghost views = nodes@.map_values(|name: Option<String>| optional_view(name));
    let mut count: usize = 0;
    for i in 0..nodes.len()
        invariant
            views == nodes@.map_values(|name: Option<String>| optional_view(name)),
            count == elements(views.take(i as int)),
            count <= i,
    {
        assert(views.take(i + 1).drop_last() =~= views.take(i as int));
        assert(views.take(i + 1).last() == optional_view(nodes@[i as int]));
        if nodes[i].is_some() {
            count = count + 1;
        }
    }
    assert(views.take(nodes@.len() as int) =~= views);
    count
}

} // verus!
