//! HTML bodies: a document is measured and bounded before it is rendered as plain text.
use html2text::config::plain;
use html2text::RcDom;
use vstd::prelude::*;

use crate::imap::{Error, Limits};
use crate::text::{byte_len, chars_of, utf8_len};

pub mod bounds;
pub mod document;
pub mod layout;
pub mod marks;
pub mod measure;

use bounds::{
    is_bounded, prepare, prepared, prepared_is_bounded, size_is_kept, HTML_TABLE_SPAN_LIMIT,
};
use document::{at, document_of, html_tree, parse_html, DocumentView, ElementView};
use layout::{has_room, indentation};
use marks::{mark, marked, marks_add_little, unmark, unmarked};
use measure::{
    fits_in, height, is_modest, measure, size_of, Tally, HTML_NODE_LIMIT, HTML_TABLE_CELL_LIMIT,
};

verus! {

pub const HTML_RENDER_WIDTH: usize = 80;

/// The deepest nesting that any limits allow.
pub const HTML_DEPTH_LIMIT: usize = 40;

/// The plain text of a document, wrapped to a width.
pub uninterp spec fn html_text(document: DocumentView, width: nat) -> Option<Seq<char>>;

/// The text is that of some document with its marks.
pub open spec fn is_marked(source: Seq<char>) -> bool {
    exists|text: Seq<char>| source == #[trigger] marked(text)
}

/// The document can be laid out at this width: it is small, its spans and list numbers are bounded,
/// nothing is set in so far that no column is left for it, and no character takes other columns
/// beside its neighbours than alone.
pub open spec fn can_be_laid_out(document: DocumentView, width: nat) -> bool {
    &&& is_marked(document.source)
    &&& document.source.len() <= 131072
    &&& fits_in(size_of(document.root), HTML_NODE_LIMIT as nat)
    &&& height(document.root) <= HTML_DEPTH_LIMIT
    &&& is_bounded(document.root)
    &&& indentation(document.root) < width
}

/// `html2text`'s `dom_to_render_tree` and `render_to_string` in raw mode. The contract names the
/// text. The renderer adds up spans and list numbers without a check, walks the document by
/// recursion, loops on white space where a block is no column wide, and takes the columns of whole
/// strings away from a line that it filled by the columns of single characters. A mark before a
/// joining character keeps the two counts the same.
#[verifier::external_body]
fn render_document(dom: &RcDom, width: usize) -> (r: Option<String>)
    requires
        width <= HTML_RENDER_WIDTH,
        can_be_laid_out(document_of(*dom), width as nat),
    ensures
        match r {
            Some(text) => html_text(document_of(*dom), width as nat) == Some(text@),
            None => html_text(document_of(*dom), width as nat) is None,
        },
{
    let config = plain().raw_mode(true);
    let tree = config.dom_to_render_tree(dom).ok()?;
    config.render_to_string(tree, width).ok()
}

/// Walks a document before it is rendered: bounds its size, how far cells span and how far lists
/// count.
pub fn preflight_html(dom: &mut RcDom, limits: &Limits, work: usize) -> (r: Result<usize, Error>)
    requires
        limits.valid(),
        work <= limits.max_decode_steps,
    ensures
        document_of(*final(dom)).source == document_of(*old(dom)).source,
        match r {
            Ok(nodes) => {
                &&& is_modest(document_of(*old(dom)).root, *limits, work as nat)
                &&& nodes == size_of(document_of(*old(dom)).root).nodes
                &&& document_of(*final(dom)).root == prepared(document_of(*old(dom)).root)
            },
            Err(error) => {
                &&& error == Error::Limit
                &&& !is_modest(document_of(*old(dom)).root, *limits, work as nat)
                &&& document_of(*final(dom)).root == document_of(*old(dom)).root
            },
        },
{
    let share: usize = limits.max_decode_steps / 32;
    let most: usize = if share < 1 {
        1
    } else if share > HTML_NODE_LIMIT {
        HTML_NODE_LIMIT
    } else {
        share
    };
    let mut path: Vec<usize> = Vec::new();
    let mut tally = Tally { nodes: 0, attributes: 0, cells: 0 };
    if !measure(dom, &mut path, most, limits.max_nesting, &mut tally) {
        return Err(Error::Limit);
    }
    if tally.nodes > limits.max_decode_steps - work {
        return Err(Error::Limit);
    }
    prepare(dom, &mut path, limits.max_nesting);
    Ok(tally.nodes)
}

pub open spec fn count_of(s: Seq<char>, wanted: char) -> nat
    decreases s.len(),
{
    if s.len() == 0 {
        0
    } else {
        count_of(s.drop_last(), wanted) + if s.last() == wanted {
            1nat
        } else {
            0nat
        }
    }
}

fn count_markup(text: &str) -> (r: usize)
    ensures
        r == count_of(text@, '<'),
        r <= text@.len(),
{
    let chars = chars_of(text);
    let mut count: usize = 0;
    for i in 0..chars.len()
        invariant
            chars@ == text@,
            count == count_of(text@.take(i as int), '<'),
            count <= i,
    {
        assert(text@.take(i + 1).drop_last() =~= text@.take(i as int));
        if chars[i] == '<' {
            count = count + 1;
        }
    }
    assert(text@.take(text@.len() as int) =~= text@);
    count
}

/// The longest document that is rendered.
pub open spec fn source_limit(limits: Limits) -> nat {
    let share = limits.max_decoded_bytes / 16;
    if share < 65536 {
        share as nat
    } else {
        65536
    }
}

/// The most that rendering can write: the text at every level, a line for every node, and every
/// cell of a table.
pub open spec fn render_bound(length: nat, nodes: nat, limits: Limits) -> nat {
    length * limits.max_nesting as nat + nodes * 80 + 81920
}

/// What an HTML document is rendered to, and the work that this took, given its elements and its
/// text.
pub open spec fn html_rendering(
    text: Seq<char>,
    limits: Limits,
    work: nat,
    tree: Option<ElementView>,
    plain: Option<Seq<char>>,
) -> Result<(Seq<char>, nat), Error> {
    let length = utf8_len(text);
    let parsed = work + length * (count_of(text, '<') + 1);
    if source_limit(limits) == 0 || length > source_limit(limits) || parsed
        > limits.max_decode_steps {
        Err(Error::Limit)
    } else {
        match tree {
            None => Err(Error::Protocol),
            Some(root) => {
                let nodes = size_of(root).nodes;
                let bound = render_bound(length, nodes, limits);
                let walked = parsed + nodes;
                if !is_modest(root, limits, parsed) || bound > limits.max_decoded_bytes || walked
                    + bound > limits.max_decode_steps {
                    Err(Error::Limit)
                } else if indentation(prepared(root)) >= HTML_RENDER_WIDTH {
                    Err(Error::Protocol)
                } else {
                    match plain {
                        None => Err(Error::Protocol),
                        Some(plain) => if walked + bound + utf8_len(plain)
                            > limits.max_decode_steps {
                            Err(Error::Limit)
                        } else {
                            Ok((plain, walked + bound + utf8_len(plain)))
                        },
                    }
                }
            },
        }
    }
}

/// The plain text of a document whose elements are these, where it can be rendered: the marked
/// document is, and the marks are taken out again.
pub open spec fn plain_text(source: Seq<char>, tree: Option<ElementView>) -> Option<Seq<char>> {
    match tree {
        Some(root) => match html_text(
            DocumentView { source, root: prepared(root) },
            HTML_RENDER_WIDTH as nat,
        ) {
            Some(plain) => Some(unmarked(plain)),
            None => None,
        },
        None => None,
    }
}

/// What an HTML document is rendered to, and the work that this took.
pub open spec fn rendered_html(text: Seq<char>, limits: Limits, work: nat) -> Result<
    (Seq<char>, nat),
    Error,
> {
    let source = marked(text);
    html_rendering(text, limits, work, html_tree(source), plain_text(source, html_tree(source)))
}

pub open spec fn worked_view(found: Result<(String, usize), Error>) -> Result<
    (Seq<char>, nat),
    Error,
> {
    match found {
        Ok((text, work)) => Ok((text@, work as nat)),
        Err(error) => Err(error),
    }
}

proof fn text_is_shorter_than_its_bytes(text: Seq<char>)
    ensures
        text.len() <= utf8_len(text),
    decreases text.len(),
{
    if text.len() > 0 {
        text_is_shorter_than_its_bytes(text.drop_first());
        vstd::utf8::char_is_scalar(text[0]);
    }
}

pub fn render_html(text: &str, limits: &Limits, work: usize) -> (r: Result<(String, usize), Error>)
    requires
        limits.valid(),
        work <= limits.max_decode_steps,
    ensures
        worked_view(r) == rendered_html(text@, *limits, work as nat),
        r matches Ok((_, total)) ==> total <= limits.max_decode_steps,
{
    let length: usize = byte_len(text);
    let share: usize = limits.max_decoded_bytes / 16;
    let most: usize = if share < 65536 {
        share
    } else {
        65536
    };
    if most == 0 || length > most {
        return Err(Error::Limit);
    }
    let markup: usize = count_markup(text);
    proof {
        text_is_shorter_than_its_bytes(text@);
        assert(length * (markup + 1) <= 65536 * 65537) by (nonlinear_arith)
            requires
                length <= 65536,
                markup <= 65536,
        ;
        assert(length * (markup + 1) == utf8_len(text@) * (count_of(text@, '<') + 1));
    }
    let parse_work: u64 = length as u64 * (markup as u64 + 1);
    if parse_work > (limits.max_decode_steps - work) as u64 {
        return Err(Error::Limit);
    }
    let parsed: usize = work + parse_work as usize;
    let source = mark(text);
    proof {
        marks_add_little(text@, text@.len() as int);
    }
    let mut dom = match parse_html(source.as_str()) {
        Some(dom) => dom,
        None => {
            return Err(Error::Protocol);
        },
    };
    let ghost root = document_of(dom).root;
    let nodes: usize = match preflight_html(&mut dom, limits, parsed) {
        Ok(nodes) => nodes,
        Err(error) => {
            return Err(error);
        },
    };
    let walked: usize = parsed + nodes;
    proof {
        assert(length * limits.max_nesting <= 65536 * 40) by (nonlinear_arith)
            requires
                length <= 65536,
                limits.max_nesting <= 40,
        ;
    }
    let bound: usize = length * limits.max_nesting + nodes * HTML_RENDER_WIDTH
        + HTML_TABLE_CELL_LIMIT * HTML_TABLE_SPAN_LIMIT * HTML_RENDER_WIDTH;
    assert(bound == render_bound(length as nat, nodes as nat, *limits));
    if bound > limits.max_decoded_bytes || bound > limits.max_decode_steps - walked {
        return Err(Error::Limit);
    }
    let total: usize = walked + bound;
    proof {
        size_is_kept(root);
        prepared_is_bounded(root);
        assert(document_of(dom) == (DocumentView { source: source@, root: prepared(root) }));
        assert(source@ == marked(text@));
    }
    let mut path: Vec<usize> = Vec::new();
    if !has_room(&dom, &mut path, limits.max_nesting, HTML_RENDER_WIDTH) {
        return Err(Error::Protocol);
    }
    let plain = match render_document(&dom, HTML_RENDER_WIDTH) {
        Some(plain) => unmark(plain.as_str()),
        None => {
            return Err(Error::Protocol);
        },
    };
    let written: usize = byte_len(plain.as_str());
    if written > limits.max_decode_steps - total {
        return Err(Error::Limit);
    }
    Ok((plain, total + written))
}

/// A document is shown only within its limits: none where its source is too long or the steps do not
/// suffice, and the work that is told covers reading it, walking it and writing it out.
pub proof fn documents_are_shown_within_limits(
    text: Seq<char>,
    limits: Limits,
    work: nat,
    tree: Option<ElementView>,
    plain: Option<Seq<char>>,
)
    ensures
        html_rendering(text, limits, work, tree, plain) matches Ok((shown, total)) ==> {
            &&& plain == Some(shown)
            &&& total <= limits.max_decode_steps
            &&& total >= work + utf8_len(text) + utf8_len(shown)
            &&& utf8_len(text) <= 65536 && 16 * utf8_len(text) <= limits.max_decoded_bytes
            &&& tree matches Some(root) && indentation(prepared(root)) < 80 && size_of(root).nodes <= 4096
        },
        tree is None && html_rendering(text, limits, work, tree, plain) is Err ==> html_rendering(
            text,
            limits,
            work,
            tree,
            plain,
        ) == Err::<(Seq<char>, nat), Error>(Error::Protocol) || html_rendering(text, limits, work, tree, plain) == Err::<
            (Seq<char>, nat),
            Error,
        >(Error::Limit),
        utf8_len(text) > 65536 ==> html_rendering(text, limits, work, tree, plain) == Err::<(Seq<char>, nat), Error>(
            Error::Limit,
        ),
        tree is None ==> html_rendering(text, limits, work, tree, plain) is Err,
{
    let length = utf8_len(text) as int;
    let tags = count_of(text, '<') as int;
    assert(length * (tags + 1) >= length) by (nonlinear_arith)
        requires
            length >= 0,
            tags >= 0,
    ;
}

/// The tags of a text are counted one by one.
pub proof fn tags_are_counted(before: Seq<char>, after: Seq<char>, wanted: char)
    ensures
        count_of(before + after, wanted) == count_of(before, wanted) + count_of(after, wanted),
        count_of(seq![wanted], wanted) == 1,
        !after.contains(wanted) ==> count_of(after, wanted) == 0,
    decreases after.len(),
{
    reveal_with_fuel(count_of, 2);
    assert(seq![wanted].drop_last() =~= Seq::<char>::empty());
    if after.len() == 0 {
        assert(before + after =~= before);
    } else {
        tags_are_counted(before, after.drop_last(), wanted);
        assert((before + after).drop_last() =~= before + after.drop_last());
        assert((before + after).last() == after.last());
        if !after.contains(wanted) {
            assert forall|i: int| 0 <= i < after.drop_last().len() implies after.drop_last()[i] != wanted by {
                assert(after[i] == after.drop_last()[i]);
            }
            assert(after[after.len() - 1] != wanted);
        }
    }
}

} // verus!
