//! The HTML parser (`tl`) seen from verified code: parsing and reading the
//! parsed node arena into a `Document`.

use vstd::prelude::*;
use vstd::string::StringSliceAdditionalSpecFns;
use crate::document::{Document, DocumentView, HtmlNode, NodeView};

verus! {

#[verifier::external_type_specification]
#[verifier::external_body]
pub struct ExVDom<'a>(tl::VDom<'a>);

#[verifier::external_type_specification]
#[verifier::external_body]
pub struct ExParseError(tl::ParseError);

/// What `tl::parse` builds from an input: its top-level node indices and its
/// node arena, each node read as a `NodeView`.
pub uninterp spec fn parsed_html(html: Seq<char>) -> (Seq<u32>, Seq<NodeView>);

/// The top-level node indices that a parsed DOM holds.
pub uninterp spec fn dom_roots(dom: tl::VDom) -> Seq<u32>;

/// The node arena that a parsed DOM holds, each node read as a `NodeView`.
pub uninterp spec fn dom_nodes(dom: tl::VDom) -> Seq<NodeView>;

/// `tl::parse` with default options. Its source fails only with
/// `InvalidLength`, when the input is longer than `u32::MAX` bytes; the DOM it
/// returns is a function of the input alone.
#[verifier::external_body]
fn tl_parse(html: &str) -> (res: Result<tl::VDom<'_>, tl::ParseError>)
    ensures
        res is Ok <==> html.spec_bytes().len() <= u32::MAX,
        res matches Ok(dom) ==> (dom_roots(dom), dom_nodes(dom)) == parsed_html(html@),
{
    tl::parse(html, tl::ParserOptions::default())
}

/// `VDom::children`: the indices of the top-level nodes.
#[verifier::external_body]
fn dom_root_ids(dom: &tl::VDom) -> (res: Vec<u32>)
    ensures
        res@ == dom_roots(*dom),
{
    dom.children().iter().map(|handle| handle.get_inner()).collect()
}

/// `VDom::nodes().len()`: the size of the node arena.
#[verifier::external_body]
fn dom_node_count(dom: &tl::VDom) -> (res: usize)
    ensures
        res == dom_nodes(*dom).len(),
{
    dom.nodes().len()
}

/// `VDom::nodes()[index]` read as plain values: an element's name, the values
/// of its `href`, `src`, `alt` and `title` attributes (`Attributes::get`,
/// flattened) and its child indices; a raw text; or a comment.
#[verifier::external_body]
fn dom_node(dom: &tl::VDom, index: usize) -> (res: HtmlNode)
    requires
        index < dom_nodes(*dom).len(),
    ensures
        res@ == dom_nodes(*dom)[index as int],
{
    match &dom.nodes()[index] {
        tl::Node::Tag(tag) => {
            let attr = |key: &str| tag.attributes().get(key).flatten().map(|v| v.as_utf8_str().into_owned());
            HtmlNode::Element(crate::document::Element {
                name: tag.name().as_utf8_str().into_owned(),
                href: attr("href"), src: attr("src"), alt: attr("alt"), title: attr("title"),
                children: tag.children().top().iter().map(|h| h.get_inner()).collect(),
            })
        },
        tl::Node::Raw(raw) => HtmlNode::Text(raw.as_utf8_str().into_owned()),
        tl::Node::Comment(_) => HtmlNode::Comment,
    }
}

/// The document that `tl` parses from `html`.
pub open spec fn parsed_document(html: Seq<char>) -> DocumentView {
    DocumentView { roots: parsed_html(html).0, nodes: parsed_html(html).1 }
}

/// Parses `html` into a `Document`; fails when the input is longer than
/// `u32::MAX` bytes.
pub fn parse_document(html: &str) -> (res: Result<Document, tl::ParseError>)
    ensures
        res is Ok <==> html.spec_bytes().len() <= u32::MAX,
        res matches Ok(doc) ==> doc@ == parsed_document(html@),
{
    let dom = match tl_parse(html) {
        Ok(dom) => dom,
        Err(e) => return Err(e),
    };
    let roots = dom_root_ids(&dom);
    let count = dom_node_count(&dom);
    let mut nodes: Vec<HtmlNode> = Vec::new();
    let mut i: usize = 0;
    while i < count
        invariant
            i <= count,
            count == dom_nodes(dom).len(),
            nodes@.len() == i,
            forall|j: int| 0 <= j < i ==> #[trigger] nodes@[j]@ == dom_nodes(dom)[j],
        decreases count - i,
    {
        nodes.push(dom_node(&dom, i));
        i = i + 1;
    }
    let doc = Document { roots, nodes };
    assert(doc@.nodes =~= dom_nodes(dom));
    Ok(doc)
}

} // verus!
