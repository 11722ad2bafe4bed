//! The context handed to visitors for one node of a traversal.

use std::collections::BTreeMap;
use vstd::prelude::*;
use crate::document::opt_view;

verus! {

/// Coarse classification of a node.
#[derive(Clone, Copy, Debug, PartialEq, Eq, Structural)]
pub enum NodeType {
    Text,
    Element,
    Heading,
    Paragraph,
    Div,
    Blockquote,
    Pre,
    Hr,
    List,
    ListItem,
    Link,
    Image,
    Strong,
    Em,
    Code,
    Table,
    TableRow,
    TableCell,
    Html,
    Head,
    Body,
    Custom,
}

/// What a visitor learns of a node: its kind, tag name, attributes, depth in
/// the tree, index among its siblings, parent's tag name and whether it is
/// treated as inline.
pub struct NodeContext {
    pub node_type: NodeType,
    pub tag_name: String,
    pub attributes: BTreeMap<String, String>,
    pub depth: usize,
    pub index_in_parent: usize,
    pub parent_tag: Option<String>,
    pub is_inline: bool,
}

/// The characters of an optional borrowed string.
pub open spec fn opt_str_view(s: Option<&str>) -> Option<Seq<char>> {
    match s {
        Some(s) => Some(s@),
        None => None,
    }
}

/// Builds a `NodeContext` that owns copies of the given name, attributes and
/// parent tag.
pub fn build_node_context(
    node_type: NodeType,
    tag_name: &str,
    attributes: &BTreeMap<String, String>,
    depth: usize,
    index_in_parent: usize,
    parent_tag: Option<&str>,
    is_inline: bool,
) -> (ctx: NodeContext)
    ensures
        ctx.node_type == node_type,
        ctx.tag_name@ == tag_name@,
        ctx.attributes@ == attributes@,
        ctx.depth == depth,
        ctx.index_in_parent == index_in_parent,
        opt_view(ctx.parent_tag) == opt_str_view(parent_tag),
        ctx.is_inline == is_inline,
{
    let parent = match parent_tag {
        Some(tag) => Some(tag.to_owned()),
        None => None,
    };
    NodeContext {
        node_type,
        tag_name: tag_name.to_owned(),
        attributes: attributes.clone(),
        depth,
        index_in_parent,
        parent_tag: parent,
        is_inline,
    }
}

} // verus!
