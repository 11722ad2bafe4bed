//! A parsed HTML document held as plain values: an arena of nodes, each element
//! naming its children by index.

use vstd::prelude::*;

verus! {

/// An HTML element: its tag name as written, the attributes the converters
/// read (an attribute without a value counts as absent) and its children.
pub struct Element {
    pub name: String,
    pub href: Option<String>,
    pub src: Option<String>,
    pub alt: Option<String>,
    pub title: Option<String>,
    pub children: Vec<u32>,
}

/// The mathematical value of an `Element`.
pub struct ElementView {
    pub name: Seq<char>,
    pub href: Option<Seq<char>>,
    pub src: Option<Seq<char>>,
    pub alt: Option<Seq<char>>,
    pub title: Option<Seq<char>>,
    pub children: Seq<u32>,
}

/// The characters of an optional string.
pub open spec fn opt_view(s: Option<String>) -> Option<Seq<char>> {
    match s {
        Some(s) => Some(s@),
        None => None,
    }
}

impl View for Element {
    type V = ElementView;

    open spec fn view(&self) -> ElementView {
        ElementView {
            name: self.name@,
            href: opt_view(self.href),
            src: opt_view(self.src),
            alt: opt_view(self.alt),
            title: opt_view(self.title),
            children: self.children@,
        }
    }
}

/// A node of a document: an element, a run of raw text, or a comment.
pub enum HtmlNode {
    Element(Element),
    Text(String),
    Comment,
}

/// The mathematical value of an `HtmlNode`.
pub enum NodeView {
    Element(ElementView),
    Text(Seq<char>),
    Comment,
}

impl View for HtmlNode {
    type V = NodeView;

    open spec fn view(&self) -> NodeView {
        match self {
            HtmlNode::Element(e) => NodeView::Element(e@),
            HtmlNode::Text(t) => NodeView::Text(t@),
            HtmlNode::Comment => NodeView::Comment,
        }
    }
}

/// A document: the top-level nodes and the arena that every index refers to.
pub struct Document {
    pub roots: Vec<u32>,
    pub nodes: Vec<HtmlNode>,
}

/// The mathematical value of a `Document`.
pub struct DocumentView {
    pub roots: Seq<u32>,
    pub nodes: Seq<NodeView>,
}

impl View for Document {
    type V = DocumentView;

    open spec fn view(&self) -> DocumentView {
        DocumentView { roots: self.roots@, nodes: self.nodes@.map_values(|n: HtmlNode| n@) }
    }
}

impl DocumentView {
    /// Whether `id` names an element.
    pub open spec fn is_element(self, id: int) -> bool {
        0 <= id < self.nodes.len() && self.nodes[id] is Element
    }

    /// The children of node `id`; none for a text, a comment or a bad index.
    pub open spec fn children(self, id: int) -> Seq<u32> {
        if self.is_element(id) {
            self.nodes[id]->Element_0.children
        } else {
            Seq::empty()
        }
    }
}

} // verus!
