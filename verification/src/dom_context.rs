//! The DOM context: parent and child relations of a parsed document, the
//! sibling queries built on them, and node texts with a bounded cache.

use vstd::prelude::*;
use crate::chars::{chars_of, string_of, trim, trimmed};
use crate::document::{Document, DocumentView, Element, HtmlNode, NodeView};
use crate::tags::{TagInfo, ascii_lower, inline_like_name, block_level_name, tag_info_for};
use crate::text::{decode_entities, push_all};
use crate::text_cache::{TextCache, CacheEntries, cached, after_get, after_put, position_of, lemma_position_of};

verus! {

/// The children of a node: `len` entries of `child_handles` from `start` on.
#[derive(Clone, Copy)]
pub struct ChildRange {
    pub start: u32,
    pub len: u32,
}

/// Parent and child relations of a document, indexed by node, with a cache of
/// node texts.
pub struct DomContext {
    /// The parent of each node; `None` for a top-level node.
    pub parent_map: Vec<Option<u32>>,
    /// Where the children of each element lie in `child_handles`.
    pub children_map: Vec<Option<ChildRange>>,
    /// The children of all elements, element after element.
    pub child_handles: Vec<u32>,
    /// The index of each node among its siblings.
    pub sibling_index_map: Vec<Option<usize>>,
    /// The top-level nodes.
    pub root_children: Vec<u32>,
    /// The document the relations describe.
    pub document: Document,
    /// Texts of nodes already computed.
    pub text_cache: TextCache,
}

/// The text of node `id`: a raw text decoded, an element's children's texts
/// in order, nothing for a comment or an index outside the arena. A child
/// that does not come after its parent in the arena is passed over.
pub open spec fn text_of(d: DocumentView, id: nat) -> Seq<char>
    decreases d.nodes.len() - id, 1nat, 0nat,
{
    if id < d.nodes.len() {
        match d.nodes[id as int] {
            NodeView::Text(raw) => decode_entities(raw),
            NodeView::Element(_) => children_text(d, id, 0),
            NodeView::Comment => Seq::empty(),
        }
    } else {
        Seq::empty()
    }
}

/// The texts of the children of `p` from the `k`-th on, in order.
pub open spec fn children_text(d: DocumentView, p: nat, k: nat) -> Seq<char>
    decreases d.nodes.len() - p, 0nat, d.children(p as int).len() - k,
{
    let ch = d.children(p as int);
    if p < d.nodes.len() && k < ch.len() {
        let c = ch[k as int];
        (if p < c && c < d.nodes.len() {
            text_of(d, c as nat)
        } else {
            Seq::empty()
        }) + children_text(d, p, k + 1)
    } else {
        Seq::empty()
    }
}

/// Every cached text is the text of its node.
pub open spec fn cache_consistent(d: DocumentView, s: CacheEntries) -> bool {
    forall|i: int| 0 <= i < s.len() ==> #[trigger] s[i].1 == text_of(d, s[i].0 as nat)
}

/// What a sibling scan sees of a node: an element's normalized name, a raw
/// text, or nothing it stops at (a comment or an index outside the arena).
pub open spec fn scan_view(d: DocumentView, id: u32) -> Option<NodeView> {
    if (id as int) < d.nodes.len() {
        match d.nodes[id as int] {
            NodeView::Comment => None,
            n => Some(n),
        }
    } else {
        None
    }
}

/// Whether a raw text is blank.
pub open spec fn blank(t: Seq<char>) -> bool {
    trim(t).len() == 0
}

/// Scanning back from just before index `k` of `sibs`: whether the first
/// element met is inline-like; a non-blank text, or none met, gives false.
pub open spec fn scan_back_inline(d: DocumentView, sibs: Seq<u32>, k: int) -> bool
    decreases k,
{
    if k <= 0 || k > sibs.len() {
        false
    } else {
        match scan_view(d, sibs[k - 1]) {
            Some(NodeView::Element(e)) => inline_like_name(ascii_lower(e.name)),
            Some(NodeView::Text(t)) => if blank(t) {
                scan_back_inline(d, sibs, k - 1)
            } else {
                false
            },
            _ => scan_back_inline(d, sibs, k - 1),
        }
    }
}

/// Scanning forward from index `k` of `sibs`: whether the first element met is
/// inline-like; a non-blank text, or none met, gives false.
pub open spec fn scan_forward_inline(d: DocumentView, sibs: Seq<u32>, k: int) -> bool
    decreases sibs.len() - k,
{
    if k < 0 || k >= sibs.len() {
        false
    } else {
        match scan_view(d, sibs[k]) {
            Some(NodeView::Element(e)) => inline_like_name(ascii_lower(e.name)),
            Some(NodeView::Text(t)) => if blank(t) {
                scan_forward_inline(d, sibs, k + 1)
            } else {
                false
            },
            _ => scan_forward_inline(d, sibs, k + 1),
        }
    }
}

/// Scanning forward from index `k` of `sibs`: whether the first text or
/// element met is a blank text.
pub open spec fn scan_forward_blank(d: DocumentView, sibs: Seq<u32>, k: int) -> bool
    decreases sibs.len() - k,
{
    if k < 0 || k >= sibs.len() {
        false
    } else {
        match scan_view(d, sibs[k]) {
            Some(NodeView::Element(_)) => false,
            Some(NodeView::Text(t)) => blank(t),
            _ => scan_forward_blank(d, sibs, k + 1),
        }
    }
}

/// Scanning forward from index `k` of `sibs`: the first element met, unless a
/// non-blank text comes first.
pub open spec fn scan_forward_tag(d: DocumentView, sibs: Seq<u32>, k: int) -> Option<u32>
    decreases sibs.len() - k,
{
    if k < 0 || k >= sibs.len() {
        None
    } else {
        match scan_view(d, sibs[k]) {
            Some(NodeView::Element(_)) => Some(sibs[k]),
            Some(NodeView::Text(t)) => if blank(t) {
                scan_forward_tag(d, sibs, k + 1)
            } else {
                None
            },
            _ => scan_forward_tag(d, sibs, k + 1),
        }
    }
}

/// Index of the first `id` in `s`, if any.
pub open spec fn index_in(s: Seq<u32>, id: u32) -> Option<int>
    decreases s.len(),
{
    if s.len() == 0 {
        None
    } else if s[0] == id {
        Some(0)
    } else {
        match index_in(s.drop_first(), id) {
            Some(i) => Some(i + 1),
            None => None,
        }
    }
}

impl DomContext {
    /// The parent recorded for `id`.
    pub open spec fn parent_spec(&self, id: u32) -> Option<u32> {
        if (id as int) < self.parent_map@.len() {
            self.parent_map@[id as int]
        } else {
            None
        }
    }

    /// The children recorded for `id`, when their range lies in `child_handles`.
    pub open spec fn children_spec(&self, id: u32) -> Option<Seq<u32>> {
        if (id as int) < self.children_map@.len() {
            match self.children_map@[id as int] {
                Some(r) => if r.start + r.len <= self.child_handles@.len() {
                    Some(self.child_handles@.subrange(r.start as int, r.start + r.len))
                } else {
                    None
                },
                None => None,
            }
        } else {
            None
        }
    }

    /// The sibling index recorded for `id`.
    pub open spec fn sibling_index_spec(&self, id: u32) -> Option<usize> {
        if (id as int) < self.sibling_index_map@.len() {
            self.sibling_index_map@[id as int]
        } else {
            None
        }
    }

    /// The siblings of `id` (itself included): its parent's children, or the
    /// top-level nodes; `None` when the parent's children are not recorded.
    pub open spec fn siblings_spec(&self, id: u32) -> Option<Seq<u32>> {
        match self.parent_spec(id) {
            Some(p) => self.children_spec(p),
            None => Some(self.root_children@),
        }
    }

    /// The position of `id` among `sibs`: the recorded sibling index, else
    /// where `id` first occurs.
    pub open spec fn position_spec(&self, id: u32, sibs: Seq<u32>) -> Option<int> {
        match self.sibling_index_spec(id) {
            Some(i) => Some(i as int),
            None => index_in(sibs, id),
        }
    }

    /// The cache holds only true texts and is well formed.
    pub open spec fn wf(&self) -> bool {
        &&& self.text_cache.wf()
        &&& cache_consistent(self.document@, self.text_cache.contents())
    }

    /// The parent of `id`.
    pub fn parent_of(&self, id: u32) -> (res: Option<u32>)
        ensures
            res == self.parent_spec(id),
    {
        if (id as usize) < self.parent_map.len() {
            self.parent_map[id as usize]
        } else {
            None
        }
    }

    /// The node `id` of the document.
    pub fn node_handle(&self, id: u32) -> (res: Option<&HtmlNode>)
        ensures
            match res {
                Some(n) => (id as int) < self.document@.nodes.len() && n@ == self.document@.nodes[id as int],
                None => (id as int) >= self.document@.nodes.len(),
            },
    {
        if (id as usize) < self.document.nodes.len() {
            Some(&self.document.nodes[id as usize])
        } else {
            None
        }
    }

    /// The children of `id`.
    pub fn children_of(&self, id: u32) -> (res: Option<&[u32]>)
        ensures
            res matches Some(c) ==> self.children_spec(id) == Some(c@),
            res is None ==> self.children_spec(id) is None,
    {
        if (id as usize) >= self.children_map.len() {
            return None;
        }
        let range = match self.children_map[id as usize] {
            Some(r) => r,
            None => {
                return None;
            },
        };
        assert(self.children_map@[id as int] == Some(range));
        let start = range.start as usize;
        let len = range.len as usize;
        match start.checked_add(len) {
            Some(end) => if end <= self.child_handles.len() {
                let all = self.child_handles.as_slice();
                let sub = vstd::slice::slice_subrange(all, start, end);
                assert(end == range.start + range.len);
                assert(sub@ == self.child_handles@.subrange(range.start as int, range.start + range.len));
                Some(sub)
            } else {
                None
            },
            None => {
                let n = self.child_handles.len();
                assert(start + len > n);
                None
            },
        }
    }

    /// The index of `id` among its siblings.
    pub fn sibling_index(&self, id: u32) -> (res: Option<usize>)
        ensures
            res == self.sibling_index_spec(id),
    {
        if (id as usize) < self.sibling_index_map.len() {
            self.sibling_index_map[id as usize]
        } else {
            None
        }
    }

    /// The index of `id` among its siblings.
    pub fn get_sibling_index(&self, node_id: u32) -> (res: Option<usize>)
        ensures
            res == self.sibling_index_spec(node_id),
    {
        self.sibling_index(node_id)
    }

    /// The tag information of element `id` (see `tag_info_for`).
    pub fn build_tag_info(&self, id: u32) -> (res: Option<TagInfo>)
        ensures
            match res {
                Some(info) => self.document@.is_element(id as int) && {
                    let name = ascii_lower(self.document@.nodes[id as int]->Element_0.name);
                    &&& info.name.name() == name
                    &&& info.is_inline_like == inline_like_name(name)
                    &&& info.is_block == block_level_name(name)
                },
                None => !self.document@.is_element(id as int),
            },
    {
        match self.node_handle(id) {
            Some(HtmlNode::Element(e)) => Some(tag_info_for(e.name.as_str())),
            _ => None,
        }
    }

    /// The tag information of element `id`.
    pub fn tag_info(&self, id: u32) -> (res: Option<TagInfo>)
        ensures
            match res {
                Some(info) => self.document@.is_element(id as int) && {
                    let name = ascii_lower(self.document@.nodes[id as int]->Element_0.name);
                    &&& info.name.name() == name
                    &&& info.is_inline_like == inline_like_name(name)
                    &&& info.is_block == block_level_name(name)
                },
                None => !self.document@.is_element(id as int),
            },
    {
        self.build_tag_info(id)
    }

    /// The normalized tag name of element `id`.
    pub fn tag_name_for(&self, id: u32) -> (res: Option<String>)
        ensures
            match res {
                Some(name) => self.document@.is_element(id as int) && name@ == ascii_lower(
                    self.document@.nodes[id as int]->Element_0.name,
                ),
                None => !self.document@.is_element(id as int),
            },
    {
        match self.tag_info(id) {
            Some(info) => Some(info.name.as_str().to_owned()),
            None => None,
        }
    }

    /// The normalized tag name of the parent of `node_id`.
    pub fn parent_tag_name(&self, node_id: u32) -> (res: Option<String>)
        ensures
            match self.parent_spec(node_id) {
                Some(p) => match res {
                    Some(name) => self.document@.is_element(p as int) && name@ == ascii_lower(
                        self.document@.nodes[p as int]->Element_0.name,
                    ),
                    None => !self.document@.is_element(p as int),
                },
                None => res is None,
            },
    {
        let parent_id = match self.parent_of(node_id) {
            Some(p) => p,
            None => {
                return None;
            },
        };
        self.tag_name_for(parent_id)
    }
}

} // verus!

verus! {

/// Whether `raw` is blank (empty once trimmed).
fn is_blank(raw: &String) -> (res: bool)
    ensures
        res == blank(raw@),
{
    let chars = chars_of(raw.as_str());
    let t = trimmed(chars.as_slice());
    t.len() == 0
}

/// Index of the first `id` in `s`.
fn find_index(s: &[u32], id: u32) -> (res: Option<usize>)
    ensures
        match res {
            Some(i) => index_in(s@, id) == Some(i as int),
            None => index_in(s@, id) is None,
        },
{
    let mut i: usize = 0;
    assert(s@.skip(0) =~= s@);
    while i < s.len()
        invariant
            i <= s@.len(),
            index_in(s@, id) == match index_in(s@.skip(i as int), id) {
                Some(j) => Some(j + i),
                None => None,
            },
        decreases s@.len() - i,
    {
        assert(s@.skip(i as int)[0] == s@[i as int]);
        assert(s@.skip(i as int).drop_first() =~= s@.skip(i + 1));
        if s[i] == id {
            return Some(i);
        }
        i = i + 1;
    }
    None
}

impl DomContext {
    /// The siblings of `id`, itself included.
    fn siblings_of(&self, id: u32) -> (res: Option<&[u32]>)
        ensures
            res matches Some(s) ==> self.siblings_spec(id) == Some(s@),
            res is None ==> self.siblings_spec(id) is None,
    {
        match self.parent_of(id) {
            Some(parent_id) => self.children_of(parent_id),
            None => Some(self.root_children.as_slice()),
        }
    }

    /// The position of `id` among `sibs`.
    fn position_among(&self, id: u32, sibs: &[u32]) -> (res: Option<usize>)
        ensures
            match res {
                Some(i) => self.position_spec(id, sibs@) == Some(i as int),
                None => self.position_spec(id, sibs@) is None,
            },
    {
        match self.sibling_index(id) {
            Some(i) => Some(i),
            None => find_index(sibs, id),
        }
    }

    /// Whether the nearest element before `id` among its siblings (passing
    /// over blank texts and comments) is inline-like; false when a non-blank
    /// text comes first, when there is none, or when `id` cannot be placed.
    pub fn previous_inline_like(&self, id: u32) -> (res: bool)
        ensures
            res == match self.siblings_spec(id) {
                Some(sibs) => match self.position_spec(id, sibs) {
                    Some(p) => scan_back_inline(self.document@, sibs, if p < sibs.len() { p } else { sibs.len() as int }),
                    None => false,
                },
                None => false,
            },
    {
        let siblings = match self.siblings_of(id) {
            Some(s) => s,
            None => {
                return false;
            },
        };
        let position = match self.position_among(id, siblings) {
            Some(p) => p,
            None => {
                return false;
            },
        };
        let mut k: usize = if position < siblings.len() { position } else { siblings.len() };
        let ghost d = self.document@;
        let ghost k0 = k as int;
        while k > 0
            invariant
                k <= siblings@.len(),
                scan_back_inline(d, siblings@, k0) == scan_back_inline(d, siblings@, k as int),
                k0 == if position < siblings@.len() { position as int } else { siblings@.len() as int },
                d == self.document@,
                self.siblings_spec(id) == Some(siblings@),
                self.position_spec(id, siblings@) == Some(position as int),
            decreases k,
        {
            let sibling = siblings[k - 1];
            if let Some(info) = self.tag_info(sibling) {
                return info.is_inline_like;
            }
            if let Some(HtmlNode::Text(raw)) = self.node_handle(sibling) {
                if !is_blank(raw) {
                    return false;
                }
            }
            k = k - 1;
        }
        false
    }

    /// Whether the nearest element after `id` among its siblings (passing
    /// over blank texts and comments) is inline-like; false when a non-blank
    /// text comes first, when there is none, or when `id` cannot be placed.
    pub fn next_inline_like(&self, id: u32) -> (res: bool)
        ensures
            res == match self.siblings_spec(id) {
                Some(sibs) => match self.position_spec(id, sibs) {
                    Some(p) => scan_forward_inline(self.document@, sibs, p + 1),
                    None => false,
                },
                None => false,
            },
    {
        let siblings = match self.siblings_of(id) {
            Some(s) => s,
            None => {
                return false;
            },
        };
        let position = match self.position_among(id, siblings) {
            Some(p) => p,
            None => {
                return false;
            },
        };
        if position >= siblings.len() {
            return false;
        }
        let mut k: usize = position + 1;
        let ghost d = self.document@;
        while k < siblings.len()
            invariant
                position < k <= siblings@.len(),
                scan_forward_inline(d, siblings@, position + 1) == scan_forward_inline(d, siblings@, k as int),
                d == self.document@,
                self.siblings_spec(id) == Some(siblings@),
                self.position_spec(id, siblings@) == Some(position as int),
            decreases siblings@.len() - k,
        {
            let sibling = siblings[k];
            if let Some(info) = self.tag_info(sibling) {
                return info.is_inline_like;
            }
            if let Some(HtmlNode::Text(raw)) = self.node_handle(sibling) {
                if !is_blank(raw) {
                    return false;
                }
            }
            k = k + 1;
        }
        false
    }

    /// Whether, after `id` among its siblings and passing over comments, the
    /// first text or element is a blank text.
    pub fn next_whitespace_text(&self, id: u32) -> (res: bool)
        ensures
            res == match self.siblings_spec(id) {
                Some(sibs) => match self.position_spec(id, sibs) {
                    Some(p) => scan_forward_blank(self.document@, sibs, p + 1),
                    None => false,
                },
                None => false,
            },
    {
        let siblings = match self.siblings_of(id) {
            Some(s) => s,
            None => {
                return false;
            },
        };
        let position = match self.position_among(id, siblings) {
            Some(p) => p,
            None => {
                return false;
            },
        };
        if position >= siblings.len() {
            return false;
        }
        let mut k: usize = position + 1;
        let ghost d = self.document@;
        while k < siblings.len()
            invariant
                position < k <= siblings@.len(),
                scan_forward_blank(d, siblings@, position + 1) == scan_forward_blank(d, siblings@, k as int),
                d == self.document@,
                self.siblings_spec(id) == Some(siblings@),
                self.position_spec(id, siblings@) == Some(position as int),
            decreases siblings@.len() - k,
        {
            let sibling = siblings[k];
            match self.node_handle(sibling) {
                Some(HtmlNode::Text(raw)) => {
                    return is_blank(raw);
                },
                Some(HtmlNode::Element(_)) => {
                    return false;
                },
                _ => {},
            }
            k = k + 1;
        }
        false
    }

    /// The nearest element after `id` among its siblings, passing over blank
    /// texts and comments; none when a non-blank text comes first.
    pub fn next_tag_id(&self, id: u32) -> (res: Option<u32>)
        ensures
            res == match self.siblings_spec(id) {
                Some(sibs) => match self.position_spec(id, sibs) {
                    Some(p) => scan_forward_tag(self.document@, sibs, p + 1),
                    None => None,
                },
                None => None,
            },
    {
        let siblings = self.siblings_of(id)?;
        let position = self.position_among(id, siblings)?;
        if position >= siblings.len() {
            return None;
        }
        let mut k: usize = position + 1;
        let ghost d = self.document@;
        while k < siblings.len()
            invariant
                position < k <= siblings@.len(),
                scan_forward_tag(d, siblings@, position + 1) == scan_forward_tag(d, siblings@, k as int),
                d == self.document@,
                self.siblings_spec(id) == Some(siblings@),
                self.position_spec(id, siblings@) == Some(position as int),
            decreases siblings@.len() - k,
        {
            let sibling = siblings[k];
            if self.tag_info(sibling).is_some() {
                return Some(sibling);
            }
            if let Some(HtmlNode::Text(raw)) = self.node_handle(sibling) {
                if !is_blank(raw) {
                    return None;
                }
            }
            k = k + 1;
        }
        None
    }

    /// The element that `next_tag_id` finds.
    pub open spec fn next_tag_spec(&self, id: u32) -> Option<u32> {
        match self.siblings_spec(id) {
            Some(sibs) => match self.position_spec(id, sibs) {
                Some(p) => scan_forward_tag(self.document@, sibs, p + 1),
                None => None,
            },
            None => None,
        }
    }

    /// The normalized tag name of the element that `next_tag_id` finds.
    pub fn next_tag_name(&self, id: u32) -> (res: Option<String>)
        ensures
            match res {
                Some(name) => self.next_tag_spec(id) matches Some(next) && name@ == ascii_lower(
                    self.document@.nodes[next as int]->Element_0.name,
                ),
                None => self.next_tag_spec(id) is None,
            },
    {
        let next_id = self.next_tag_id(id)?;
        proof {
            let sibs = self.siblings_spec(id)->0;
            lemma_scan_forward_tag_is_element(self.document@, sibs, self.position_spec(id, sibs)->0 + 1);
        }
        self.tag_name_for(next_id)
    }
}

/// What the forward scan for a tag finds is an element.
proof fn lemma_scan_forward_tag_is_element(d: DocumentView, sibs: Seq<u32>, k: int)
    ensures
        scan_forward_tag(d, sibs, k) matches Some(t) ==> d.is_element(t as int),
    decreases sibs.len() - k,
{
    if 0 <= k < sibs.len() {
        lemma_scan_forward_tag_is_element(d, sibs, k + 1);
    }
}

} // verus!

verus! {

proof fn lemma_consistent_after_get(d: DocumentView, s: CacheEntries, id: u32)
    requires
        cache_consistent(d, s),
    ensures
        cache_consistent(d, after_get(s, id)),
        cached(s, id) matches Some(v) ==> v == text_of(d, id as nat),
{
    lemma_position_of(s, id);
    let p = position_of(s, id);
    if 0 <= p < s.len() {
        let r = after_get(s, id);
        assert forall|i: int| 0 <= i < r.len() implies #[trigger] r[i].1 == text_of(d, r[i].0 as nat) by {
            let oi = if i == r.len() - 1 { p } else if i < p { i } else { i + 1 };
            assert(r[i] == s[oi]);
        }
        assert(s[p].1 == text_of(d, s[p].0 as nat));
    }
}

proof fn lemma_consistent_after_put(d: DocumentView, s: CacheEntries, capacity: nat, id: u32, v: Seq<char>)
    requires
        cache_consistent(d, s),
        v == text_of(d, id as nat),
    ensures
        cache_consistent(d, after_put(s, capacity, id, v)),
{
    lemma_position_of(s, id);
    let p = position_of(s, id);
    let r = after_put(s, capacity, id, v);
    assert forall|i: int| 0 <= i < r.len() implies #[trigger] r[i].1 == text_of(d, r[i].0 as nat) by {
        if i < r.len() - 1 {
            let oi = if 0 <= p < s.len() {
                if i < p { i } else { i + 1 }
            } else if s.len() >= capacity && s.len() > 0 {
                i + 1
            } else {
                i
            };
            assert(r[i] == s[oi]);
        }
    }
}

impl DomContext {
    /// The sibling that `next_tag_id` finds is an element, so it has a tag name.
    pub proof fn law_next_tag_is_element(&self, id: u32)
        ensures
            self.next_tag_spec(id) matches Some(t) ==> self.document@.is_element(t as int),
    {
        if let Some(sibs) = self.siblings_spec(id) {
            if let Some(p) = self.position_spec(id, sibs) {
                lemma_scan_forward_tag_is_element(self.document@, sibs, p + 1);
            }
        }
    }

    /// All but the text cache equal those of `other`.
    pub open spec fn same_structure(&self, other: &DomContext) -> bool {
        &&& self.parent_map@ == other.parent_map@
        &&& self.children_map@ == other.children_map@
        &&& self.child_handles@ == other.child_handles@
        &&& self.sibling_index_map@ == other.sibling_index_map@
        &&& self.root_children@ == other.root_children@
        &&& self.document@ == other.document@
    }

    /// The text of node `id` (see `text_of`), taken from the cache when it is
    /// there and cached otherwise.
    pub fn text_content(&mut self, id: u32) -> (res: String)
        requires
            old(self).wf(),
        ensures
            final(self).wf(),
            final(self).same_structure(old(self)),
            res@ == text_of(old(self).document@, id as nat),
    {
        proof {
            lemma_consistent_after_get(self.document@, self.text_cache.contents(), id);
        }
        if let Some(value) = self.text_cache.get(id) {
            return value;
        }
        let value = self.text_content_uncached(id);
        let copy = value.clone();
        proof {
            lemma_consistent_after_put(
                self.document@,
                self.text_cache.contents(),
                self.text_cache.max_entries(),
                id,
                copy@,
            );
        }
        self.text_cache.put(id, copy);
        value
    }

    /// Appends the text of node `id` to `output`, taking it from the cache
    /// when it is there and caching it when it is not empty.
    pub fn append_text_content(&mut self, id: u32, output: &mut Vec<char>)
        requires
            old(self).wf(),
        ensures
            final(self).wf(),
            final(self).same_structure(old(self)),
            final(output)@ == old(output)@ + text_of(old(self).document@, id as nat),
        decreases old(self).document@.nodes.len() - id, 3nat,
    {
        proof {
            lemma_consistent_after_get(self.document@, self.text_cache.contents(), id);
        }
        if let Some(value) = self.text_cache.get(id) {
            let chars = chars_of(value.as_str());
            push_all(output, chars.as_slice());
            return;
        }
        let start = output.len();
        self.append_text_content_uncached(id, output);
        if output.len() > start {
            let added = crate::chars::copy_range(output.as_slice(), start, output.len());
            let text = string_of(added.as_slice());
            proof {
                assert(added@ =~= text_of(self.document@, id as nat));
                lemma_consistent_after_put(
                    self.document@,
                    self.text_cache.contents(),
                    self.text_cache.max_entries(),
                    id,
                    text@,
                );
            }
            self.text_cache.put(id, text);
        }
    }

    /// The text of node `id`, computed without looking it up.
    pub fn text_content_uncached(&mut self, id: u32) -> (res: String)
        requires
            old(self).wf(),
        ensures
            final(self).wf(),
            final(self).same_structure(old(self)),
            res@ == text_of(old(self).document@, id as nat),
        decreases old(self).document@.nodes.len() - id, 2nat,
    {
        let mut text: Vec<char> = Vec::new();
        self.append_text_content_uncached(id, &mut text);
        assert(text@ =~= text_of(old(self).document@, id as nat));
        string_of(text.as_slice())
    }

    /// Appends the text of node `id` to `output`, computing it from its
    /// children (whose texts may come from the cache).
    pub fn append_text_content_uncached(&mut self, id: u32, output: &mut Vec<char>)
        requires
            old(self).wf(),
        ensures
            final(self).wf(),
            final(self).same_structure(old(self)),
            final(output)@ == old(output)@ + text_of(old(self).document@, id as nat),
        decreases old(self).document@.nodes.len() - id, 1nat,
    {
        let ghost d = self.document@;
        let count = self.document.nodes.len();
        if id as usize >= count {
            assert(output@ =~= old(output)@ + Seq::<char>::empty());
            return;
        }
        let children: Vec<u32> = match &self.document.nodes[id as usize] {
            HtmlNode::Text(raw) => {
                let chars = chars_of(raw.as_str());
                let decoded = crate::text::decode_html_entities(chars.as_slice());
                push_all(output, decoded.as_slice());
                return;
            },
            HtmlNode::Element(e) => {
                let c = e.children.clone();
                assert(c@ =~= e.children@);
                c
            },
            HtmlNode::Comment => {
                assert(output@ =~= old(output)@ + Seq::<char>::empty());
                return;
            },
        };
        assert(children@ == d.children(id as int));
        let mut k: usize = 0;
        while k < children.len()
            invariant
                (id as int) < d.nodes.len(),
                count == d.nodes.len(),
                children@ == d.children(id as int),
                k <= children@.len(),
                self.wf(),
                self.same_structure(old(self)),
                d == old(self).document@,
                old(output)@ + children_text(d, id as nat, 0) == output@ + children_text(d, id as nat, k as nat),
            decreases children@.len() - k,
        {
            let c = children[k];
            let ghost before = output@;
            if id < c && (c as usize) < count {
                self.append_text_content(c, output);
            }
            assert(before + children_text(d, id as nat, k as nat) =~= output@ + children_text(d, id as nat, (k + 1) as nat));
            k = k + 1;
        }
        assert(output@ + Seq::<char>::empty() =~= output@);
    }
}

} // verus!

verus! {

/// `s` truncated or extended with `None` to length `n`.
pub open spec fn resized<T>(s: Seq<Option<T>>, n: nat) -> Seq<Option<T>> {
    if s.len() >= n {
        s.take(n as int)
    } else {
        s + Seq::new((n - s.len()) as nat, |i: int| None)
    }
}

/// Truncates `v`, or extends it with `None`, to length `n`.
fn resize_with_none<T>(v: &mut Vec<Option<T>>, n: usize)
    ensures
        final(v)@ == resized(old(v)@, n as nat),
{
    if v.len() >= n {
        v.truncate(n);
        return;
    }
    let ghost start = v@;
    while v.len() < n
        invariant
            start.len() <= v@.len() <= n,
            start.len() < n,
            v@ == start + Seq::new((v@.len() - start.len()) as nat, |i: int| None::<T>),
        decreases n - v@.len(),
    {
        let ghost before = v@;
        v.push(None);
        assert(v@ =~= start + Seq::new((v@.len() - start.len()) as nat, |i: int| None::<T>));
    }
    assert(v@ =~= resized(start, n as nat));
}

/// `n` copies of `None`.
fn nones<T>(n: usize) -> (v: Vec<Option<T>>)
    ensures
        v@.len() == n,
        forall|i: int| 0 <= i < n ==> v@[i] is None,
{
    let mut v: Vec<Option<T>> = Vec::new();
    while v.len() < n
        invariant
            v@.len() <= n,
            forall|i: int| 0 <= i < v@.len() ==> v@[i] is None,
        decreases n - v@.len(),
    {
        v.push(None);
    }
    v
}

impl DomContext {
    /// Makes room in the per-node maps for node `id`: when the parent map is
    /// too short for it, the parent, children and sibling maps are all brought
    /// to length `id + 1` (new entries `None`).
    pub fn ensure_capacity(&mut self, id: u32)
        requires
            old(self).wf(),
            (id as int) < usize::MAX,
        ensures
            final(self).wf(),
            final(self).child_handles@ == old(self).child_handles@,
            final(self).root_children@ == old(self).root_children@,
            final(self).document@ == old(self).document@,
            final(self).text_cache == old(self).text_cache,
            old(self).parent_map@.len() <= id ==> {
                &&& final(self).parent_map@ == resized(old(self).parent_map@, (id + 1) as nat)
                &&& final(self).children_map@ == resized(old(self).children_map@, (id + 1) as nat)
                &&& final(self).sibling_index_map@ == resized(old(self).sibling_index_map@, (id + 1) as nat)
            },
            old(self).parent_map@.len() > id ==> final(self).same_structure(old(self)),
    {
        let idx = id as usize;
        if self.parent_map.len() <= idx {
            let new_len = idx + 1;
            resize_with_none(&mut self.parent_map, new_len);
            resize_with_none(&mut self.children_map, new_len);
            resize_with_none(&mut self.sibling_index_map, new_len);
        }
    }
}

/// Each node recorded with a parent is that parent's child at its recorded
/// sibling index; each node recorded with a sibling index and no parent is
/// the top-level node at that index.
pub open spec fn relations_sound(
    d: DocumentView,
    parent: Seq<Option<u32>>,
    sibling: Seq<Option<usize>>,
    limit: int,
) -> bool {
    &&& forall|c: int| 0 <= c < parent.len() ==> match #[trigger] parent[c] {
        Some(q) => q < limit && d.is_element(q as int) && match sibling[c] {
            Some(i) => i < d.children(q as int).len() && d.children(q as int)[i as int] == c,
            None => false,
        },
        None => match sibling[c] {
            Some(i) => i < d.roots.len() && d.roots[i as int] == c,
            None => true,
        },
    }
}

/// How many children the nodes before index `p` list together.
pub open spec fn child_count_before(d: DocumentView, p: int) -> nat
    decreases p,
{
    if p <= 0 {
        0
    } else {
        child_count_before(d, p - 1) + d.children(p - 1).len()
    }
}

impl DomContext {
    /// The context of `document`: each node's parent and sibling index, each
    /// element's children, an empty text cache of `cache_capacity` entries.
    /// The children of an element are recorded whenever the children listed up
    /// to it fit in `u32` positions.
    pub fn new(document: Document, cache_capacity: usize) -> (ctx: DomContext)
        requires
            cache_capacity > 0,
        ensures
            ctx.wf(),
            ctx.text_cache.contents().len() == 0,
            ctx.text_cache.max_entries() == cache_capacity,
            ctx.document@ == document@,
            ctx.root_children@ == document@.roots,
            ctx.parent_map@.len() == document@.nodes.len(),
            ctx.sibling_index_map@.len() == document@.nodes.len(),
            ctx.children_map@.len() == document@.nodes.len(),
            relations_sound(document@, ctx.parent_map@, ctx.sibling_index_map@, document@.nodes.len() as int),
            forall|id: u32| #[trigger] ctx.children_spec(id) is Some ==> document@.is_element(
                id as int,
            ) && ctx.children_spec(id)->0 == document@.children(id as int),
            forall|id: u32| !document@.is_element(id as int) ==> #[trigger] ctx.children_spec(id) is None,
            forall|id: u32|
                document@.is_element(id as int) && child_count_before(document@, id + 1) <= u32::MAX
                    ==> #[trigger] ctx.children_spec(id) == Some(document@.children(id as int)),
            forall|p: u32, i: int|
                document@.is_element(p as int) && 0 <= i < document@.children(p as int).len() && (
                document@.children(p as int)[i] as int) < document@.nodes.len() ==> #[trigger] ctx.parent_spec(
                    #[trigger] document@.children(p as int)[i],
                ) is Some,
            forall|i: int|
                0 <= i < document@.roots.len() && (document@.roots[i] as int) < document@.nodes.len()
                    ==> #[trigger] ctx.sibling_index_spec(#[trigger] document@.roots[i]) is Some,
    {
        let ghost d = document@;
        let n = document.nodes.len();
        let mut parent_map: Vec<Option<u32>> = nones(n);
        let mut sibling_index_map: Vec<Option<usize>> = nones(n);
        let mut children_map: Vec<Option<ChildRange>> = nones(n);
        let mut child_handles: Vec<u32> = Vec::new();
        let mut r: usize = 0;
        while r < document.roots.len()
            invariant
                d == document@,
                n == d.nodes.len(),
                parent_map@.len() == n,
                sibling_index_map@.len() == n,
                r <= d.roots.len(),
                forall|c: int| 0 <= c < n ==> parent_map@[c] is None,
                relations_sound(d, parent_map@, sibling_index_map@, 0),
                forall|i: int| 0 <= i < r && (d.roots[i] as int) < n ==> #[trigger] sibling_index_map@[d.roots[i] as int] is Some,
            decreases d.roots.len() - r,
        {
            let c = document.roots[r];
            if (c as usize) < n {
                sibling_index_map.set(c as usize, Some(r));
            }
            r = r + 1;
        }
        let mut p: usize = 0;
        while p < n
            invariant
                d == document@,
                n == d.nodes.len(),
                p <= n,
                parent_map@.len() == n,
                sibling_index_map@.len() == n,
                children_map@.len() == n,
                relations_sound(d, parent_map@, sibling_index_map@, p as int),
                forall|i: int| 0 <= i < d.roots.len() && (d.roots[i] as int) < n ==> #[trigger] sibling_index_map@[d.roots[i] as int] is Some,
                forall|q: int, i: int|
                    0 <= q < p && q <= 0xFFFF_FFFF && d.is_element(q) && 0 <= i < d.children(q).len() && (d.children(q)[i] as int) < n
                        ==> #[trigger] parent_map@[#[trigger] d.children(q)[i] as int] is Some,
                forall|q: int| 0 <= q < n ==> match #[trigger] children_map@[q] {
                    Some(rg) => q < p && d.is_element(q) && rg.start + rg.len <= child_handles@.len()
                        && child_handles@.subrange(rg.start as int, rg.start + rg.len) == d.children(q),
                    None => true,
                },
                p <= 0x1_0000_0000 && child_count_before(d, p as int) <= 0xFFFF_FFFF
                    ==> child_handles@.len() == child_count_before(d, p as int),
                forall|q: int|
                    0 <= q < p && q <= 0xFFFF_FFFF && d.is_element(q) && child_count_before(d, q + 1) <= 0xFFFF_FFFF
                        ==> #[trigger] children_map@[q] is Some,
            decreases n - p,
        {
            let ghost before_handles = child_handles@;
            if p > 0xFFFF_FFFF {
                // node indices are `u32`: nothing refers to this node
            } else if let HtmlNode::Element(e) = &document.nodes[p] {
                assert(d.is_element(p as int) && d.children(p as int) == e.children@);
                let start = child_handles.len();
                let len = e.children.len();
                if start <= 0xFFFF_FFFF && len <= 0xFFFF_FFFF - start {
                    push_all_u32(&mut child_handles, e.children.as_slice());
                    children_map.set(p, Some(ChildRange { start: start as u32, len: len as u32 }));
                    assert(child_handles@.subrange(start as int, start + len) =~= e.children@);
                }
                let mut i: usize = 0;
                while i < e.children.len()
                    invariant
                        d == document@,
                        n == d.nodes.len(),
                        p < n,
                        p <= 0xFFFF_FFFF,
                        d.is_element(p as int),
                        d.children(p as int) == e.children@,
                        i <= e.children@.len(),
                        parent_map@.len() == n,
                        sibling_index_map@.len() == n,
                        relations_sound(d, parent_map@, sibling_index_map@, (p + 1) as int),
                        forall|j: int| 0 <= j < d.roots.len() && (d.roots[j] as int) < n ==> #[trigger] sibling_index_map@[d.roots[j] as int] is Some,
                        forall|q: int, j: int|
                            0 <= q < p && q <= 0xFFFF_FFFF && d.is_element(q) && 0 <= j < d.children(q).len() && (d.children(q)[j] as int) < n
                                ==> #[trigger] parent_map@[#[trigger] d.children(q)[j] as int] is Some,
                        forall|j: int| 0 <= j < i && (e.children@[j] as int) < n ==> #[trigger] parent_map@[e.children@[j] as int] is Some,
                    decreases e.children@.len() - i,
                {
                    let c = e.children[i];
                    if (c as usize) < n {
                        parent_map.set(c as usize, Some(p as u32));
                        sibling_index_map.set(c as usize, Some(i));
                    }
                    i = i + 1;
                }
            }
            proof {
                assert forall|q: int| 0 <= q < n implies match #[trigger] children_map@[q] {
                    Some(rg) => q < p + 1 && d.is_element(q) && rg.start + rg.len <= child_handles@.len()
                        && child_handles@.subrange(rg.start as int, rg.start + rg.len) == d.children(q),
                    None => true,
                } by {
                    if let Some(rg) = children_map@[q] {
                        if q < p {
                            assert(child_handles@.subrange(rg.start as int, rg.start + rg.len) =~= before_handles.subrange(rg.start as int, rg.start + rg.len));
                        }
                    }
                }
            }
            p = p + 1;
        }
        let ctx = DomContext {
            parent_map,
            children_map,
            child_handles,
            sibling_index_map,
            root_children: document.roots.clone(),
            document,
            text_cache: TextCache::new(cache_capacity),
        };
        proof {
            assert(ctx.root_children@ =~= d.roots);
            assert forall|id: u32| #[trigger] ctx.children_spec(id) is Some implies d.is_element(id as int) && ctx.children_spec(id)->0 == d.children(id as int) by {}
            assert forall|id: u32| !d.is_element(id as int) implies #[trigger] ctx.children_spec(id) is None by {}
            assert forall|id: u32|
                d.is_element(id as int) && child_count_before(d, id + 1) <= u32::MAX
                    implies #[trigger] ctx.children_spec(id) == Some(d.children(id as int)) by {
                assert(ctx.children_map@[id as int] is Some);
            }
        }
        ctx
    }
}

/// Appends all of `s` to `out`.
fn push_all_u32(out: &mut Vec<u32>, s: &[u32])
    ensures
        final(out)@ == old(out)@ + s@,
{
    let mut i: usize = 0;
    while i < s.len()
        invariant
            i <= s@.len(),
            out@ == old(out)@ + s@.take(i as int),
        decreases s@.len() - i,
    {
        out.push(s[i]);
        assert(out@ =~= old(out)@ + s@.take(i + 1));
        i = i + 1;
    }
    assert(s@.take(i as int) =~= s@);
}

} // verus!
