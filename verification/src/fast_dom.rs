//! The lean converter: walks a parsed document once and writes Markdown for a
//! small set of elements (headings, paragraphs, emphasis, code, links, images,
//! lists, quotes, rules and tables); every other element passes its content
//! through, and `head`, `script`, `style`, `template` and `noscript` are skipped.

use vstd::prelude::*;
use vstd::utf8::encode_utf8;
use crate::chars::{
    is_ws, trim, trim_end, trim_start, lines, lines_view, chars_of, string_of, split_lines, trimmed,
};
use crate::document::{Document, DocumentView, Element, ElementView, HtmlNode, NodeView};
use crate::markdown::{
    strip_trailing_spaces, ends_with, close_block, close_current_block, trim_trailing_spaces,
    ends_with_char, trim_document_end, trim_document_boundaries, code_span_trimmed, trim_code_span,
    collapse_ws, normalize_text, collapsed_append, push_collapsed,
    decode_attr_text, escaped_label, escape_link_label, destination,
    format_destination, with_title, push_optional_title, table_row, cells_view, push_table_row,
};
use crate::error::ConversionError;
use crate::html::{parse_document, parsed_document};
use vstd::string::StringSliceAdditionalSpecFns;
use crate::options::{ConversionOptions, HeadingStyle, CodeBlockStyle, NewlineStyle};
use crate::text::{decode_entities, markdown_escaped, replace_char, push_all, push_replacing, escape};

verus! {

/// What the converter does with an element.
#[derive(Clone, Copy, PartialEq, Eq, Structural)]
pub enum TagKind {
    Passthrough,
    Skip,
    Heading(usize),
    Paragraph,
    Break,
    Strong,
    Emphasis,
    Code,
    Pre,
    Link,
    Image,
    UnorderedList,
    OrderedList,
    ListItem,
    Blockquote,
    HorizontalRule,
    Table,
    TableSection,
    TableRow,
    TableCell,
}

/// `b` lower-cased if it is an ASCII capital letter.
pub open spec fn ascii_lower(b: u8) -> u8 {
    if ('A' as u8) <= b && b <= ('Z' as u8) {
        (b + 32) as u8
    } else {
        b
    }
}

/// Equality of byte strings up to ASCII case (`eq_ignore_ascii_case`).
pub open spec fn eq_ignore_case(a: Seq<u8>, b: Seq<u8>) -> bool {
    a.len() == b.len() && forall|i: int| 0 <= i < a.len() ==> ascii_lower(#[trigger] a[i]) == ascii_lower(b[i])
}

/// Compares two tag names up to ASCII case.
fn eq_tag(left: &[u8], right: &[u8]) -> (res: bool)
    ensures
        res == eq_ignore_case(left@, right@),
{
    if left.len() != right.len() {
        return false;
    }
    let mut i: usize = 0;
    while i < left.len()
        invariant
            left@.len() == right@.len(),
            i <= left@.len(),
            forall|j: int| 0 <= j < i ==> ascii_lower(#[trigger] left@[j]) == ascii_lower(right@[j]),
        decreases left@.len() - i,
    {
        let l = left[i];
        let r = right[i];
        let ll = if ('A' as u8) <= l && l <= ('Z' as u8) { l + 32 } else { l };
        let rl = if ('A' as u8) <= r && r <= ('Z' as u8) { r + 32 } else { r };
        if ll != rl {
            return false;
        }
        i = i + 1;
    }
    true
}

/// Whether `b` names a heading, `h1` to `h6` in either case.
pub open spec fn is_heading_name(b: Seq<u8>) -> bool {
    b.len() == 2 && ascii_lower(b[0]) == ('h' as u8) && ('1' as u8) <= b[1] && b[1] <= ('6' as u8)
}

/// The kind of an element, by its tag name's bytes compared with the names
/// of each kind, ASCII case ignored; any other name is passed through.
pub open spec fn tag_kind_of(b: Seq<u8>) -> TagKind {
    if is_heading_name(b) {
        TagKind::Heading((b[1] - ('0' as u8)) as usize)
    } else if eq_ignore_case(b, seq![('a' as u8)]) {
        TagKind::Link
    } else if eq_ignore_case(b, seq![('b' as u8)]) || eq_ignore_case(b, seq![('s' as u8), ('t' as u8), ('r' as u8), ('o' as u8), ('n' as u8), ('g' as u8)]) {
        TagKind::Strong
    } else if eq_ignore_case(b, seq![('i' as u8)]) || eq_ignore_case(b, seq![('e' as u8), ('m' as u8)]) {
        TagKind::Emphasis
    } else if eq_ignore_case(b, seq![('p' as u8)]) {
        TagKind::Paragraph
    } else if eq_ignore_case(b, seq![('b' as u8), ('r' as u8)]) {
        TagKind::Break
    } else if eq_ignore_case(b, seq![('h' as u8), ('r' as u8)]) {
        TagKind::HorizontalRule
    } else if eq_ignore_case(b, seq![('c' as u8), ('o' as u8), ('d' as u8), ('e' as u8)]) {
        TagKind::Code
    } else if eq_ignore_case(b, seq![('p' as u8), ('r' as u8), ('e' as u8)]) {
        TagKind::Pre
    } else if eq_ignore_case(b, seq![('i' as u8), ('m' as u8), ('g' as u8)]) {
        TagKind::Image
    } else if eq_ignore_case(b, seq![('u' as u8), ('l' as u8)]) {
        TagKind::UnorderedList
    } else if eq_ignore_case(b, seq![('o' as u8), ('l' as u8)]) {
        TagKind::OrderedList
    } else if eq_ignore_case(b, seq![('l' as u8), ('i' as u8)]) {
        TagKind::ListItem
    } else if eq_ignore_case(b, seq![('b' as u8), ('l' as u8), ('o' as u8), ('c' as u8), ('k' as u8), ('q' as u8), ('u' as u8), ('o' as u8), ('t' as u8), ('e' as u8)]) {
        TagKind::Blockquote
    } else if eq_ignore_case(b, seq![('t' as u8), ('a' as u8), ('b' as u8), ('l' as u8), ('e' as u8)]) {
        TagKind::Table
    } else if eq_ignore_case(b, seq![('t' as u8), ('h' as u8), ('e' as u8), ('a' as u8), ('d' as u8)])
        || eq_ignore_case(b, seq![('t' as u8), ('b' as u8), ('o' as u8), ('d' as u8), ('y' as u8)])
        || eq_ignore_case(b, seq![('t' as u8), ('f' as u8), ('o' as u8), ('o' as u8), ('t' as u8)]) {
        TagKind::TableSection
    } else if eq_ignore_case(b, seq![('t' as u8), ('r' as u8)]) {
        TagKind::TableRow
    } else if eq_ignore_case(b, seq![('t' as u8), ('d' as u8)]) || eq_ignore_case(b, seq![('t' as u8), ('h' as u8)])
        || eq_ignore_case(b, seq![('c' as u8), ('a' as u8), ('p' as u8), ('t' as u8), ('i' as u8), ('o' as u8), ('n' as u8)]) {
        TagKind::TableCell
    } else if eq_ignore_case(b, seq![('h' as u8), ('e' as u8), ('a' as u8), ('d' as u8)])
        || eq_ignore_case(b, seq![('s' as u8), ('c' as u8), ('r' as u8), ('i' as u8), ('p' as u8), ('t' as u8)])
        || eq_ignore_case(b, seq![('s' as u8), ('t' as u8), ('y' as u8), ('l' as u8), ('e' as u8)])
        || eq_ignore_case(b, seq![('n' as u8), ('o' as u8), ('s' as u8), ('c' as u8), ('r' as u8), ('i' as u8), ('p' as u8), ('t' as u8)])
        || eq_ignore_case(b, seq![('t' as u8), ('e' as u8), ('m' as u8), ('p' as u8), ('l' as u8), ('a' as u8), ('t' as u8), ('e' as u8)]) {
        TagKind::Skip
    } else {
        TagKind::Passthrough
    }
}

/// The kind of the element named `name`.
fn classify_tag(name: &str) -> (kind: TagKind)
    ensures
        kind == tag_kind_of(encode_utf8(name@)),
{
    let bytes = name.as_bytes();
    let len = bytes.len();
    if len == 1 {
        if eq_tag(bytes, &[('a' as u8)]) {
            TagKind::Link
        } else if eq_tag(bytes, &[('b' as u8)]) {
            TagKind::Strong
        } else if eq_tag(bytes, &[('i' as u8)]) {
            TagKind::Emphasis
        } else if eq_tag(bytes, &[('p' as u8)]) {
            TagKind::Paragraph
        } else {
            TagKind::Passthrough
        }
    } else if len == 2 {
        if (bytes[0] == ('h' as u8) || bytes[0] == ('H' as u8)) && ('1' as u8) <= bytes[1] && bytes[1] <= ('6' as u8) {
            TagKind::Heading((bytes[1] - ('0' as u8)) as usize)
        } else if eq_tag(bytes, &[('b' as u8), ('r' as u8)]) {
            TagKind::Break
        } else if eq_tag(bytes, &[('e' as u8), ('m' as u8)]) {
            TagKind::Emphasis
        } else if eq_tag(bytes, &[('h' as u8), ('r' as u8)]) {
            TagKind::HorizontalRule
        } else if eq_tag(bytes, &[('l' as u8), ('i' as u8)]) {
            TagKind::ListItem
        } else if eq_tag(bytes, &[('o' as u8), ('l' as u8)]) {
            TagKind::OrderedList
        } else if eq_tag(bytes, &[('t' as u8), ('d' as u8)]) || eq_tag(bytes, &[('t' as u8), ('h' as u8)]) {
            TagKind::TableCell
        } else if eq_tag(bytes, &[('t' as u8), ('r' as u8)]) {
            TagKind::TableRow
        } else if eq_tag(bytes, &[('u' as u8), ('l' as u8)]) {
            TagKind::UnorderedList
        } else {
            TagKind::Passthrough
        }
    } else if len == 3 {
        if eq_tag(bytes, &[('i' as u8), ('m' as u8), ('g' as u8)]) {
            TagKind::Image
        } else if eq_tag(bytes, &[('p' as u8), ('r' as u8), ('e' as u8)]) {
            TagKind::Pre
        } else {
            TagKind::Passthrough
        }
    } else if len == 4 {
        if eq_tag(bytes, &[('c' as u8), ('o' as u8), ('d' as u8), ('e' as u8)]) {
            TagKind::Code
        } else if eq_tag(bytes, &[('h' as u8), ('e' as u8), ('a' as u8), ('d' as u8)]) {
            TagKind::Skip
        } else {
            TagKind::Passthrough
        }
    } else if len == 5 {
        if eq_tag(bytes, &[('s' as u8), ('t' as u8), ('y' as u8), ('l' as u8), ('e' as u8)]) {
            TagKind::Skip
        } else if eq_tag(bytes, &[('t' as u8), ('a' as u8), ('b' as u8), ('l' as u8), ('e' as u8)]) {
            TagKind::Table
        } else if eq_tag(bytes, &[('t' as u8), ('b' as u8), ('o' as u8), ('d' as u8), ('y' as u8)]) || eq_tag(bytes, &[('t' as u8), ('h' as u8), ('e' as u8), ('a' as u8), ('d' as u8)]) || eq_tag(bytes, &[('t' as u8), ('f' as u8), ('o' as u8), ('o' as u8), ('t' as u8)]) {
            TagKind::TableSection
        } else {
            TagKind::Passthrough
        }
    } else if len == 6 {
        if eq_tag(bytes, &[('s' as u8), ('c' as u8), ('r' as u8), ('i' as u8), ('p' as u8), ('t' as u8)]) {
            TagKind::Skip
        } else if eq_tag(bytes, &[('s' as u8), ('t' as u8), ('r' as u8), ('o' as u8), ('n' as u8), ('g' as u8)]) {
            TagKind::Strong
        } else {
            TagKind::Passthrough
        }
    } else if len == 7 {
        if eq_tag(bytes, &[('c' as u8), ('a' as u8), ('p' as u8), ('t' as u8), ('i' as u8), ('o' as u8), ('n' as u8)]) {
            TagKind::TableCell
        } else {
            TagKind::Passthrough
        }
    } else if len == 8 {
        if eq_tag(bytes, &[('t' as u8), ('e' as u8), ('m' as u8), ('p' as u8), ('l' as u8), ('a' as u8), ('t' as u8), ('e' as u8)]) || eq_tag(bytes, &[('n' as u8), ('o' as u8), ('s' as u8), ('c' as u8), ('r' as u8), ('i' as u8), ('p' as u8), ('t' as u8)]) {
            TagKind::Skip
        } else {
            TagKind::Passthrough
        }
    } else if len == 10 {
        if eq_tag(bytes, &[('b' as u8), ('l' as u8), ('o' as u8), ('c' as u8), ('k' as u8), ('q' as u8), ('u' as u8), ('o' as u8), ('t' as u8), ('e' as u8)]) {
            TagKind::Blockquote
        } else if eq_tag(bytes, &[('f' as u8), ('i' as u8), ('g' as u8), ('c' as u8), ('a' as u8), ('p' as u8), ('t' as u8), ('i' as u8), ('o' as u8), ('n' as u8)]) {
            TagKind::Passthrough
        } else {
            TagKind::Passthrough
        }
    } else {
        TagKind::Passthrough
    }
}

} // verus!

verus! {

/// Where the walk is: inside `<pre>`, inside code, inside inline content,
/// how deeply lists nest, and whether the innermost list is ordered.
#[derive(Clone, Copy)]
pub struct FastState {
    pub in_pre: bool,
    pub in_code: bool,
    pub inline: bool,
    pub list_depth: usize,
    pub ordered_list: bool,
}

/// The state at the top of a document.
pub open spec fn initial_state() -> FastState {
    FastState { in_pre: false, in_code: false, inline: false, list_depth: 0, ordered_list: false }
}

/// `st` inside inline content.
pub open spec fn inline_state(st: FastState) -> FastState {
    FastState { inline: true, ..st }
}

/// `o` ready for a new block: the current block closed, unless the content is
/// inline or nothing has been written.
pub open spec fn block_start(o: Seq<char>, st: FastState) -> Seq<char> {
    if st.inline || o.len() == 0 {
        o
    } else {
        close_block(o)
    }
}

/// `o` after a block: the block closed, unless the content is inline.
pub open spec fn block_end(o: Seq<char>, st: FastState) -> Seq<char> {
    if st.inline {
        o
    } else {
        close_block(o)
    }
}

/// `o` after the raw text `raw`: kept as it is inside code; elsewhere
/// decoded, whitespace-collapsed, escaped and joined without doubled spacing.
pub open spec fn text_appended(o: Seq<char>, raw: Seq<char>, opts: ConversionOptions, st: FastState) -> Seq<char> {
    if raw.len() == 0 {
        o
    } else if st.in_pre || st.in_code {
        o + raw
    } else {
        collapsed_append(
            o,
            markdown_escaped(
                collapse_ws(decode_entities(raw)),
                opts.escape_misc,
                opts.escape_asterisks,
                opts.escape_underscores,
                opts.escape_ascii,
            ),
        )
    }
}

/// `n` copies of `c`.
pub open spec fn repeat(c: char, n: nat) -> Seq<char> {
    Seq::new(n, |i: int| c)
}

/// `o` after a heading of `level` whose trimmed content is `content`.
pub open spec fn heading_rendered(
    o: Seq<char>,
    level: usize,
    content: Seq<char>,
    opts: ConversionOptions,
    st: FastState,
) -> Seq<char> {
    if content.len() == 0 {
        o
    } else {
        let o1 = block_start(o, st);
        if opts.heading_style == HeadingStyle::Underlined && level <= 2 {
            o1 + content + seq!['\n'] + repeat(if level == 1 { '=' } else { '-' }, content.len())
                + seq!['\n', '\n']
        } else if opts.heading_style == HeadingStyle::AtxClosed {
            o1 + repeat('#', level as nat) + seq![' '] + content + seq![' '] + repeat('#', level as nat)
                + seq!['\n', '\n']
        } else {
            o1 + repeat('#', level as nat) + seq![' '] + content + seq!['\n', '\n']
        }
    }
}

/// The text of a line break.
pub open spec fn break_text(opts: ConversionOptions) -> Seq<char> {
    match opts.newline_style {
        NewlineStyle::Backslash => seq!['\\', '\n'],
        NewlineStyle::Spaces => seq![' ', ' ', '\n'],
    }
}

/// `o` with ` "title"` and `)` appended, the title decoded.
pub open spec fn link_close(o: Seq<char>, title: Option<Seq<char>>) -> Seq<char> {
    match title {
        Some(t) => with_title(o, decode_entities(t)),
        None => o,
    }.push(')')
}

/// `o` after a link to the decoded, non-empty `href` whose trimmed label is
/// `label`: the bare destination when the label is empty.
pub open spec fn link_rendered(
    o: Seq<char>,
    href: Seq<char>,
    label: Seq<char>,
    title: Option<Seq<char>>,
) -> Seq<char> {
    if label.len() == 0 {
        o + href
    } else {
        link_close(o + seq!['['] + escaped_label(label) + seq![']', '('] + destination(href), title)
    }
}

/// `o` after an image: its decoded `alt` text inside inline content or code;
/// elsewhere `![alt](src "title")` when it has a non-empty `src`.
pub open spec fn image_rendered(o: Seq<char>, e: ElementView, st: FastState) -> Seq<char> {
    if st.inline || st.in_code {
        match e.alt {
            Some(a) => o + decode_entities(a),
            None => o,
        }
    } else {
        match e.src {
            None => o,
            Some(s) => {
                let src = decode_entities(s);
                if src.len() == 0 {
                    o
                } else {
                    let alt = match e.alt {
                        Some(a) => decode_entities(a),
                        None => Seq::empty(),
                    };
                    link_close(
                        o + seq!['!', '['] + escaped_label(alt) + seq![']', '('] + destination(src),
                        e.title,
                    )
                }
            },
        }
    }
}

/// `levels` indentation steps of `width` spaces each.
pub open spec fn indentation(levels: nat, width: nat) -> Seq<char>
    decreases levels,
{
    if levels == 0 {
        Seq::empty()
    } else {
        indentation((levels - 1) as nat, width) + repeat(' ', width)
    }
}

/// The bullet of unordered list items: the first of `bullets`, else `-`.
pub open spec fn bullet(opts: ConversionOptions) -> char {
    if opts.bullets@.len() > 0 {
        opts.bullets@[0]
    } else {
        '-'
    }
}

/// `o` on a fresh line followed by the indentation and marker of a list item.
pub open spec fn list_item_prefix(o: Seq<char>, opts: ConversionOptions, st: FastState) -> Seq<char> {
    let o1 = strip_trailing_spaces(o);
    let o2 = if o1.len() > 0 && !ends_with(o1, '\n') {
        o1.push('\n')
    } else {
        o1
    };
    let levels: nat = if st.list_depth > 0 { (st.list_depth - 1) as nat } else { 0 };
    let o3 = o2 + indentation(levels, opts.list_indent_width as nat);
    if st.ordered_list {
        o3 + seq!['1', '.', ' ']
    } else {
        o3 + seq![bullet(opts), ' ']
    }
}

/// `o` followed by each line of `ls`, trimmed, as `> line\n`.
pub open spec fn quote_lines(o: Seq<char>, ls: Seq<Seq<char>>) -> Seq<char>
    decreases ls.len(),
{
    if ls.len() == 0 {
        o
    } else {
        quote_lines(o + seq!['>', ' '] + trim(ls[0]) + seq!['\n'], ls.drop_first())
    }
}

/// `o` followed by each line of `ls` as `    line\n`.
pub open spec fn indented_lines(o: Seq<char>, ls: Seq<Seq<char>>) -> Seq<char>
    decreases ls.len(),
{
    if ls.len() == 0 {
        o
    } else {
        indented_lines(o + seq![' ', ' ', ' ', ' '] + ls[0] + seq!['\n'], ls.drop_first())
    }
}

/// `s` without leading newlines.
pub open spec fn trim_newlines_start(s: Seq<char>) -> Seq<char>
    decreases s.len(),
{
    if s.len() > 0 && s[0] == '\n' {
        trim_newlines_start(s.drop_first())
    } else {
        s
    }
}

/// `s` without trailing newlines.
pub open spec fn trim_newlines_end(s: Seq<char>) -> Seq<char>
    decreases s.len(),
{
    if s.len() > 0 && s.last() == '\n' {
        trim_newlines_end(s.drop_last())
    } else {
        s
    }
}

/// `s` without leading and trailing newlines (`trim_matches('\n')`).
pub open spec fn trim_newlines(s: Seq<char>) -> Seq<char> {
    trim_newlines_start(trim_newlines_end(s))
}

/// The text of a table cell: its trimmed content with `|` escaped.
pub open spec fn cell_text(content: Seq<char>) -> Seq<char> {
    replace_char(trim(content), '|', seq!['\\', '|'])
}

/// The largest number of cells in a row.
pub open spec fn max_row_len(rows: Seq<Seq<Seq<char>>>) -> nat
    decreases rows.len(),
{
    if rows.len() == 0 {
        0
    } else {
        let m = max_row_len(rows.drop_last());
        if rows.last().len() > m {
            rows.last().len()
        } else {
            m
        }
    }
}

/// The separator cells of a table header: ` --- |` for each of `n` columns.
pub open spec fn separator_cells(n: nat) -> Seq<char>
    decreases n,
{
    if n == 0 {
        Seq::empty()
    } else {
        separator_cells((n - 1) as nat) + seq![' ', '-', '-', '-', ' ', '|']
    }
}

/// `o` followed by each row of `rows` written with `cols` columns.
pub open spec fn rows_text(o: Seq<char>, rows: Seq<Seq<Seq<char>>>, cols: nat) -> Seq<char>
    decreases rows.len(),
{
    if rows.len() == 0 {
        o
    } else {
        rows_text(o + table_row(rows[0], cols), rows.drop_first(), cols)
    }
}

/// `o` after a table with the given rows: header row, separator, body rows.
pub open spec fn table_rendered(o: Seq<char>, rows: Seq<Seq<Seq<char>>>, st: FastState) -> Seq<char> {
    if rows.len() == 0 {
        o
    } else {
        let o1 = block_start(o, st);
        let cols = max_row_len(rows);
        if cols == 0 {
            o1
        } else {
            rows_text(
                o1 + table_row(rows[0], cols) + seq!['|'] + separator_cells(cols) + seq!['\n'],
                rows.drop_first(),
                cols,
            ) + seq!['\n']
        }
    }
}

/// The kind of element `id` of `d`.
pub open spec fn kind_of(d: DocumentView, id: int) -> TagKind {
    tag_kind_of(encode_utf8(d.nodes[id]->Element_0.name))
}

/// `o` after node `id` of `d`.
pub open spec fn render_node(
    d: DocumentView,
    id: nat,
    o: Seq<char>,
    opts: ConversionOptions,
    st: FastState,
) -> Seq<char>
    decreases d.nodes.len() - id, 3nat, 0nat,
{
    if id < d.nodes.len() {
        match d.nodes[id as int] {
            NodeView::Text(raw) => text_appended(o, raw, opts, st),
            NodeView::Comment => o,
            NodeView::Element(_) => render_element(d, id, o, opts, st),
        }
    } else {
        o
    }
}

/// `o` after the children of `p` from the `k`-th on; a child that does not
/// come after its parent in the arena, or lies outside it, is passed over.
pub open spec fn render_children(
    d: DocumentView,
    p: nat,
    k: nat,
    o: Seq<char>,
    opts: ConversionOptions,
    st: FastState,
) -> Seq<char>
    decreases d.nodes.len() - p, 1nat, d.children(p as int).len() - k,
{
    let ch = d.children(p as int);
    if p < d.nodes.len() && k < ch.len() {
        let c = ch[k as int];
        let o1 = if p < c && c < d.nodes.len() {
            render_node(d, c as nat, o, opts, st)
        } else {
            o
        };
        render_children(d, p, k + 1, o1, opts, st)
    } else {
        o
    }
}

/// The cells of the rows of table part `p`, from its `k`-th child on: rows
/// contribute their cells, sections their own rows.
pub open spec fn rows_of(
    d: DocumentView,
    p: nat,
    k: nat,
    opts: ConversionOptions,
    st: FastState,
) -> Seq<Seq<Seq<char>>>
    decreases d.nodes.len() - p, 1nat, d.children(p as int).len() - k,
{
    let ch = d.children(p as int);
    if p < d.nodes.len() && k < ch.len() {
        let c = ch[k as int];
        let here = if p < c && c < d.nodes.len() && d.is_element(c as int) {
            match kind_of(d, c as int) {
                TagKind::TableRow => seq![cells_of(d, c as nat, 0, opts, st)],
                TagKind::TableSection => rows_of(d, c as nat, 0, opts, st),
                _ => Seq::empty(),
            }
        } else {
            Seq::empty()
        };
        here + rows_of(d, p, k + 1, opts, st)
    } else {
        Seq::empty()
    }
}

/// The texts of the cells among the children of row `r`, from the `k`-th on.
pub open spec fn cells_of(
    d: DocumentView,
    r: nat,
    k: nat,
    opts: ConversionOptions,
    st: FastState,
) -> Seq<Seq<char>>
    decreases d.nodes.len() - r, 1nat, d.children(r as int).len() - k,
{
    let ch = d.children(r as int);
    if r < d.nodes.len() && k < ch.len() {
        let c = ch[k as int];
        let here = if r < c && c < d.nodes.len() && d.is_element(c as int) && kind_of(d, c as int)
            == TagKind::TableCell {
            seq![cell_text(render_children(d, c as nat, 0, Seq::empty(), opts, inline_state(st)))]
        } else {
            Seq::empty()
        };
        here + cells_of(d, r, k + 1, opts, st)
    } else {
        Seq::empty()
    }
}

/// `o` after element `id` of `d`.
pub open spec fn render_element(
    d: DocumentView,
    id: nat,
    o: Seq<char>,
    opts: ConversionOptions,
    st: FastState,
) -> Seq<char>
    decreases d.nodes.len() - id, 2nat, 0nat,
{
    if id < d.nodes.len() && d.is_element(id as int) {
        let e = d.nodes[id as int]->Element_0;
        let inner = inline_state(st);
        match kind_of(d, id as int) {
            TagKind::Passthrough | TagKind::TableSection | TagKind::TableRow | TagKind::TableCell => {
                render_children(d, id, 0, o, opts, st)
            },
            TagKind::Skip => o,
            TagKind::Heading(level) => heading_rendered(
                o,
                level,
                trim(render_children(d, id, 0, Seq::empty(), opts, inner)),
                opts,
                st,
            ),
            TagKind::Paragraph => {
                let o1 = block_start(o, st);
                let o2 = strip_trailing_spaces(render_children(d, id, 0, o1, opts, st));
                if o2.len() > o1.len() {
                    block_end(o2, st)
                } else {
                    o2
                }
            },
            TagKind::Break => o + break_text(opts),
            TagKind::Strong => render_children(d, id, 0, o + seq!['*', '*'], opts, inner) + seq!['*', '*'],
            TagKind::Emphasis => render_children(d, id, 0, o.push('*'), opts, inner).push('*'),
            TagKind::Code => if st.in_pre {
                render_children(d, id, 0, o, opts, FastState { in_code: true, ..st })
            } else {
                let o1 = o.push('`');
                code_span_trimmed(
                    render_children(d, id, 0, o1, opts, FastState { in_code: true, inline: true, ..st }),
                    o1.len() as int,
                ).push('`')
            },
            TagKind::Pre => {
                let o1 = block_start(o, st);
                let pst = FastState { in_pre: true, in_code: true, ..st };
                if opts.code_block_style == CodeBlockStyle::Indented {
                    indented_lines(
                        o1,
                        lines(trim_newlines(render_children(d, id, 0, Seq::empty(), opts, pst))),
                    ).push('\n')
                } else {
                    let fence = if opts.code_block_style == CodeBlockStyle::Tildes {
                        seq!['~', '~', '~']
                    } else {
                        seq!['`', '`', '`']
                    };
                    trim_end(render_children(d, id, 0, o1 + fence + seq!['\n'], opts, pst)) + seq!['\n']
                        + fence + seq!['\n', '\n']
                }
            },
            TagKind::Link => match e.href {
                Some(h) => if decode_entities(h).len() > 0 {
                    link_rendered(
                        o,
                        decode_entities(h),
                        trim(render_children(d, id, 0, Seq::empty(), opts, inner)),
                        e.title,
                    )
                } else {
                    render_children(d, id, 0, o, opts, st)
                },
                None => render_children(d, id, 0, o, opts, st),
            },
            TagKind::Image => image_rendered(o, e, st),
            TagKind::UnorderedList | TagKind::OrderedList => {
                let o1 = block_start(o, st);
                let lst = FastState {
                    list_depth: (st.list_depth + 1) as usize,
                    ordered_list: kind_of(d, id as int) == TagKind::OrderedList,
                    ..st
                };
                let o2 = render_children(d, id, 0, o1, opts, lst);
                if !st.inline {
                    block_end(o2, st)
                } else {
                    o2
                }
            },
            TagKind::ListItem => list_item_prefix(o, opts, st) + trim(
                render_children(d, id, 0, Seq::empty(), opts, inner),
            ) + seq!['\n'],
            TagKind::Blockquote => quote_lines(
                block_start(o, st),
                lines(trim(render_children(d, id, 0, Seq::empty(), opts, st))),
            ).push('\n'),
            TagKind::HorizontalRule => block_start(o, st) + seq!['-', '-', '-', '\n', '\n'],
            TagKind::Table => table_rendered(o, rows_of(d, id, 0, opts, st), st),
        }
    } else {
        o
    }
}

/// `o` after the top-level nodes of `d` from the `k`-th on.
pub open spec fn render_roots(d: DocumentView, k: nat, o: Seq<char>, opts: ConversionOptions) -> Seq<char>
    decreases d.roots.len() - k,
{
    if k < d.roots.len() {
        render_roots(d, k + 1, render_node(d, d.roots[k as int] as nat, o, opts, initial_state()), opts)
    } else {
        o
    }
}

/// The Markdown of document `d`: its top-level nodes rendered in order, the
/// result trimmed of leading and trailing whitespace.
pub open spec fn render_document(d: DocumentView, opts: ConversionOptions) -> Seq<char> {
    trim(render_roots(d, 0, Seq::empty(), opts))
}

} // verus!

verus! {

/// The views of collected table rows.
pub open spec fn rows_view(rows: Seq<Vec<Vec<char>>>) -> Seq<Seq<Seq<char>>> {
    rows.map_values(|r: Vec<Vec<char>>| cells_view(r@))
}

/// Appends `n` copies of `c`.
fn push_repeat(output: &mut Vec<char>, c: char, n: usize)
    ensures
        final(output)@ == old(output)@ + repeat(c, n as nat),
{
    let mut i: usize = 0;
    while i < n
        invariant
            i <= n,
            output@ == old(output)@ + repeat(c, i as nat),
        decreases n - i,
    {
        output.push(c);
        assert(output@ =~= old(output)@ + repeat(c, (i + 1) as nat));
        i = i + 1;
    }
}

/// Closes the current block unless the content is inline or nothing has been written.
fn ensure_block_start(output: &mut Vec<char>, state: FastState)
    ensures
        final(output)@ == block_start(old(output)@, state),
{
    if state.inline || output.len() == 0 {
        return;
    }
    close_current_block(output);
}

/// Closes the current block unless the content is inline.
fn push_block_end(output: &mut Vec<char>, state: FastState)
    ensures
        final(output)@ == block_end(old(output)@, state),
{
    if state.inline {
        return;
    }
    close_current_block(output);
}

/// Appends a raw text node (see `text_appended`).
fn push_text(raw: &[char], output: &mut Vec<char>, options: &ConversionOptions, state: FastState)
    ensures
        final(output)@ == text_appended(old(output)@, raw@, *options, state),
{
    if raw.len() == 0 {
        return;
    }
    if state.in_pre || state.in_code {
        push_all(output, raw);
        return;
    }
    let decoded = decode_attr_text(raw);
    let normalized = normalize_text(decoded.as_slice());
    let escaped = escape(
        normalized.as_slice(),
        options.escape_misc,
        options.escape_asterisks,
        options.escape_underscores,
        options.escape_ascii,
    );
    push_collapsed(output, escaped.as_slice());
}

/// The node arena is a well-indexed place for element `id`.
pub open spec fn element_at(doc: DocumentView, id: u32, e: ElementView) -> bool {
    (id as int) < doc.nodes.len() && doc.nodes[id as int] == NodeView::Element(e)
}

/// Writes node `id`.
fn walk_node(
    doc: &Document,
    id: u32,
    output: &mut Vec<char>,
    options: &ConversionOptions,
    state: FastState,
)
    requires
        state.list_depth <= id,
    ensures
        final(output)@ == render_node(doc@, id as nat, old(output)@, *options, state),
    decreases doc@.nodes.len() - id, 3nat, 0nat,
{
    if id as usize >= doc.nodes.len() {
        return;
    }
    match &doc.nodes[id as usize] {
        HtmlNode::Text(raw) => {
            let chars = chars_of(raw.as_str());
            push_text(chars.as_slice(), output, options, state);
        },
        HtmlNode::Comment => {},
        HtmlNode::Element(e) => {
            walk_element(doc, id, e, output, options, state);
        },
    }
}

/// Writes the children of element `p`.
fn walk_children(
    doc: &Document,
    p: u32,
    e: &Element,
    output: &mut Vec<char>,
    options: &ConversionOptions,
    state: FastState,
)
    requires
        element_at(doc@, p, e@),
        state.list_depth <= p + 1,
    ensures
        final(output)@ == render_children(doc@, p as nat, 0, old(output)@, *options, state),
    decreases doc@.nodes.len() - p, 1nat, 0nat,
{
    let mut i: usize = 0;
    while i < e.children.len()
        invariant
            element_at(doc@, p, e@),
            state.list_depth <= p + 1,
            i <= e.children@.len(),
            render_children(doc@, p as nat, 0, old(output)@, *options, state) == render_children(
                doc@,
                p as nat,
                i as nat,
                output@,
                *options,
                state,
            ),
        decreases e.children@.len() - i,
    {
        let c = e.children[i];
        if p < c && (c as usize) < doc.nodes.len() {
            walk_node(doc, c, output, options, state);
        }
        i = i + 1;
    }
}

/// Writes element `id`, whose node is `e`.
fn walk_element(
    doc: &Document,
    id: u32,
    e: &Element,
    output: &mut Vec<char>,
    options: &ConversionOptions,
    state: FastState,
)
    requires
        element_at(doc@, id, e@),
        state.list_depth <= id,
    ensures
        final(output)@ == render_element(doc@, id as nat, old(output)@, *options, state),
    decreases doc@.nodes.len() - id, 2nat, 0nat,
{
    let kind = classify_tag(e.name.as_str());
    assert(kind == kind_of(doc@, id as int));
    match kind {
        TagKind::Passthrough | TagKind::TableSection | TagKind::TableRow | TagKind::TableCell => {
            walk_children(doc, id, e, output, options, state);
        },
        TagKind::Skip => {},
        TagKind::Heading(level) => {
            handle_heading(level, doc, id, e, output, options, state);
        },
        TagKind::Paragraph => {
            ensure_block_start(output, state);
            let start = output.len();
            walk_children(doc, id, e, output, options, state);
            trim_trailing_spaces(output);
            if output.len() > start {
                push_block_end(output, state);
            }
        },
        TagKind::Break => match options.newline_style {
            NewlineStyle::Backslash => {
                output.push('\\');
                output.push('\n');
                assert(output@ =~= old(output)@ + break_text(*options));
            },
            NewlineStyle::Spaces => {
                output.push(' ');
                output.push(' ');
                output.push('\n');
                assert(output@ =~= old(output)@ + break_text(*options));
            },
        },
        TagKind::Strong => {
            let marker: [char; 2] = ['*', '*'];
            assert(marker@ =~= seq!['*', '*']);
            handle_wrapped(doc, id, e, output, options, state, &marker);
        },
        TagKind::Emphasis => {
            let marker: [char; 1] = ['*'];
            assert(marker@ =~= seq!['*']);
            handle_wrapped(doc, id, e, output, options, state, &marker);
            assert(old(output)@ + seq!['*'] =~= old(output)@.push('*'));
            assert(output@ =~= render_children(doc@, id as nat, 0, old(output)@.push('*'), *options, inline_state(state)).push('*'));
        },
        TagKind::Code => {
            if state.in_pre {
                walk_children(doc, id, e, output, options, FastState { in_code: true, ..state });
            } else {
                output.push('`');
                let start = output.len();
                walk_children(
                    doc,
                    id,
                    e,
                    output,
                    options,
                    FastState { in_code: true, inline: true, ..state },
                );
                trim_code_span(output, start);
                output.push('`');
            }
        },
        TagKind::Pre => {
            handle_pre(doc, id, e, output, options, state);
        },
        TagKind::Link => {
            handle_link(doc, id, e, output, options, state);
        },
        TagKind::Image => {
            handle_img(e, output, options, state);
        },
        TagKind::UnorderedList => {
            handle_list(doc, id, e, output, options, state, false);
        },
        TagKind::OrderedList => {
            handle_list(doc, id, e, output, options, state, true);
        },
        TagKind::ListItem => {
            handle_list_item(doc, id, e, output, options, state);
        },
        TagKind::Blockquote => {
            handle_blockquote(doc, id, e, output, options, state);
        },
        TagKind::HorizontalRule => {
            ensure_block_start(output, state);
            let ghost o1 = output@;
            output.push('-');
            output.push('-');
            output.push('-');
            output.push('\n');
            output.push('\n');
            assert(output@ =~= o1 + seq!['-', '-', '-', '\n', '\n']);
        },
        TagKind::Table => {
            handle_table(doc, id, e, output, options, state);
        },
    }
}

/// Writes the content of element `id` as inline content between two copies of `marker`.
fn handle_wrapped(
    doc: &Document,
    id: u32,
    e: &Element,
    output: &mut Vec<char>,
    options: &ConversionOptions,
    state: FastState,
    marker: &[char],
)
    requires
        element_at(doc@, id, e@),
        state.list_depth <= id,
    ensures
        final(output)@ == render_children(doc@, id as nat, 0, old(output)@ + marker@, *options, inline_state(state))
            + marker@,
    decreases doc@.nodes.len() - id, 1nat, 1nat,
{
    push_all(output, marker);
    walk_children(doc, id, e, output, options, FastState { inline: true, ..state });
    push_all(output, marker);
}

/// Writes a heading of `level`.
fn handle_heading(
    level: usize,
    doc: &Document,
    id: u32,
    e: &Element,
    output: &mut Vec<char>,
    options: &ConversionOptions,
    state: FastState,
)
    requires
        element_at(doc@, id, e@),
        state.list_depth <= id,
    ensures
        final(output)@ == heading_rendered(
            old(output)@,
            level,
            trim(render_children(doc@, id as nat, 0, Seq::empty(), *options, inline_state(state))),
            *options,
            state,
        ),
    decreases doc@.nodes.len() - id, 1nat, 1nat,
{
    let mut raw_content: Vec<char> = Vec::new();
    walk_children(doc, id, e, &mut raw_content, options, FastState { inline: true, ..state });
    let content = trimmed(raw_content.as_slice());
    if content.len() == 0 {
        return;
    }
    ensure_block_start(output, state);
    let ghost o1 = output@;
    if options.heading_style == HeadingStyle::Underlined && level <= 2 {
        push_all(output, content.as_slice());
        output.push('\n');
        push_repeat(output, if level == 1 { '=' } else { '-' }, content.len());
        output.push('\n');
        output.push('\n');
        assert(output@ =~= o1 + content@ + seq!['\n'] + repeat(if level == 1 { '=' } else { '-' }, content@.len())
            + seq!['\n', '\n']);
    } else if options.heading_style == HeadingStyle::AtxClosed {
        push_repeat(output, '#', level);
        output.push(' ');
        push_all(output, content.as_slice());
        output.push(' ');
        push_repeat(output, '#', level);
        output.push('\n');
        output.push('\n');
        assert(output@ =~= o1 + repeat('#', level as nat) + seq![' '] + content@ + seq![' '] + repeat('#', level as nat)
            + seq!['\n', '\n']);
    } else {
        push_repeat(output, '#', level);
        output.push(' ');
        push_all(output, content.as_slice());
        output.push('\n');
        output.push('\n');
        assert(output@ =~= o1 + repeat('#', level as nat) + seq![' '] + content@ + seq!['\n', '\n']);
    }
}

} // verus!

verus! {

/// `s` without leading and trailing newlines.
fn trim_newline_chars(s: &[char]) -> (res: Vec<char>)
    ensures
        res@ == trim_newlines(s@),
{
    let mut v = crate::chars::copy_range(s, 0, s.len());
    assert(s@.subrange(0, s@.len() as int) =~= s@);
    while v.len() > 0 && v[v.len() - 1] == '\n'
        invariant
            trim_newlines_end(v@) == trim_newlines_end(s@),
        decreases v.len(),
    {
        v.pop();
    }
    assert(trim_newlines_end(v@) == v@);
    let mut k: usize = 0;
    assert(v@.skip(0) =~= v@);
    while k < v.len() && v[k] == '\n'
        invariant
            k <= v@.len(),
            trim_newlines_start(v@) == trim_newlines_start(v@.skip(k as int)),
        decreases v@.len() - k,
    {
        assert(v@.skip(k as int).drop_first() =~= v@.skip(k + 1));
        k = k + 1;
    }
    if k < v.len() {
        assert(v@.skip(k as int)[0] == v@[k as int]);
    }
    assert(trim_newlines_start(v@.skip(k as int)) == v@.skip(k as int));
    let res = crate::chars::copy_range(v.as_slice(), k, v.len());
    assert(res@ =~= v@.skip(k as int));
    res
}

/// Writes a `<pre>` block.
fn handle_pre(
    doc: &Document,
    id: u32,
    e: &Element,
    output: &mut Vec<char>,
    options: &ConversionOptions,
    state: FastState,
)
    requires
        element_at(doc@, id, e@),
        state.list_depth <= id,
        kind_of(doc@, id as int) == TagKind::Pre,
    ensures
        final(output)@ == render_element(doc@, id as nat, old(output)@, *options, state),
    decreases doc@.nodes.len() - id, 1nat, 1nat,
{
    ensure_block_start(output, state);
    let pst = FastState { in_pre: true, in_code: true, ..state };
    match options.code_block_style {
        CodeBlockStyle::Indented => {
            let mut content: Vec<char> = Vec::new();
            walk_children(doc, id, e, &mut content, options, pst);
            let trimmed_content = trim_newline_chars(content.as_slice());
            let ls = split_lines(trimmed_content.as_slice());
            let ghost all = lines_view(ls@);
            let ghost o1 = output@;
            let mut j: usize = 0;
            assert(all.skip(0) =~= all);
            while j < ls.len()
                invariant
                    j <= ls@.len(),
                    all == lines_view(ls@),
                    indented_lines(o1, all) == indented_lines(output@, all.skip(j as int)),
                decreases ls@.len() - j,
            {
                let ghost before = output@;
                output.push(' ');
                output.push(' ');
                output.push(' ');
                output.push(' ');
                push_all(output, ls[j].as_slice());
                output.push('\n');
                assert(all.skip(j as int)[0] == ls@[j as int]@);
                assert(all.skip(j as int).drop_first() =~= all.skip(j + 1));
                assert(output@ =~= before + seq![' ', ' ', ' ', ' '] + all.skip(j as int)[0] + seq!['\n']);
                j = j + 1;
            }
            assert(all.skip(j as int) =~= Seq::<Seq<char>>::empty());
            output.push('\n');
        },
        CodeBlockStyle::Backticks | CodeBlockStyle::Tildes => {
            let fence: [char; 3] = if options.code_block_style == CodeBlockStyle::Tildes {
                ['~', '~', '~']
            } else {
                ['`', '`', '`']
            };
            let ghost o1 = output@;
            push_all(output, &fence);
            output.push('\n');
            let ghost o2 = output@;
            walk_children(doc, id, e, output, options, pst);
            trim_document_end(output);
            output.push('\n');
            push_all(output, &fence);
            output.push('\n');
            output.push('\n');
            let ghost f = if options.code_block_style == CodeBlockStyle::Tildes {
                seq!['~', '~', '~']
            } else {
                seq!['`', '`', '`']
            };
            assert(fence@ =~= f);
            assert(o2 =~= o1 + f + seq!['\n']);
        },
    }
}

/// Writes a link.
fn handle_link(
    doc: &Document,
    id: u32,
    e: &Element,
    output: &mut Vec<char>,
    options: &ConversionOptions,
    state: FastState,
)
    requires
        element_at(doc@, id, e@),
        state.list_depth <= id,
        kind_of(doc@, id as int) == TagKind::Link,
    ensures
        final(output)@ == render_element(doc@, id as nat, old(output)@, *options, state),
    decreases doc@.nodes.len() - id, 1nat, 1nat,
{
    let href_raw = match &e.href {
        Some(h) => h,
        None => {
            walk_children(doc, id, e, output, options, state);
            return;
        },
    };
    let href_chars = chars_of(href_raw.as_str());
    let href = decode_attr_text(href_chars.as_slice());
    if href.len() == 0 {
        walk_children(doc, id, e, output, options, state);
        return;
    }
    let mut label_raw: Vec<char> = Vec::new();
    walk_children(doc, id, e, &mut label_raw, options, FastState { inline: true, ..state });
    let label = trimmed(label_raw.as_slice());
    if label.len() == 0 {
        push_all(output, href.as_slice());
        return;
    }
    output.push('[');
    let escaped = escape_link_label(label.as_slice());
    push_all(output, escaped.as_slice());
    output.push(']');
    output.push('(');
    let dest = format_destination(href.as_slice());
    push_all(output, dest.as_slice());
    let ghost o1 = output@;
    assert(o1 =~= old(output)@ + seq!['['] + escaped_label(label@) + seq![']', '('] + destination(href@));
    match &e.title {
        Some(t) => {
            let title_chars = chars_of(t.as_str());
            let title = decode_attr_text(title_chars.as_slice());
            push_optional_title(output, title.as_slice());
        },
        None => {},
    }
    output.push(')');
}

/// Writes an image (see `image_rendered`).
fn handle_img(e: &Element, output: &mut Vec<char>, options: &ConversionOptions, state: FastState)
    ensures
        final(output)@ == image_rendered(old(output)@, e@, state),
{
    if state.inline || state.in_code {
        match &e.alt {
            Some(a) => {
                let alt_chars = chars_of(a.as_str());
                let alt = decode_attr_text(alt_chars.as_slice());
                push_all(output, alt.as_slice());
            },
            None => {},
        }
        return;
    }
    let src_raw = match &e.src {
        Some(s) => s,
        None => {
            return;
        },
    };
    let src_chars = chars_of(src_raw.as_str());
    let src = decode_attr_text(src_chars.as_slice());
    if src.len() == 0 {
        return;
    }
    let alt = match &e.alt {
        Some(a) => {
            let alt_chars = chars_of(a.as_str());
            decode_attr_text(alt_chars.as_slice())
        },
        None => Vec::new(),
    };
    output.push('!');
    output.push('[');
    let escaped = escape_link_label(alt.as_slice());
    push_all(output, escaped.as_slice());
    output.push(']');
    output.push('(');
    let dest = format_destination(src.as_slice());
    push_all(output, dest.as_slice());
    let ghost o1 = output@;
    assert(o1 =~= old(output)@ + seq!['!', '['] + escaped_label(alt@) + seq![']', '('] + destination(src@));
    match &e.title {
        Some(t) => {
            let title_chars = chars_of(t.as_str());
            let title = decode_attr_text(title_chars.as_slice());
            push_optional_title(output, title.as_slice());
        },
        None => {},
    }
    output.push(')');
}

/// Writes a list; `ordered` selects numbered items.
fn handle_list(
    doc: &Document,
    id: u32,
    e: &Element,
    output: &mut Vec<char>,
    options: &ConversionOptions,
    state: FastState,
    ordered: bool,
)
    requires
        element_at(doc@, id, e@),
        state.list_depth <= id,
    ensures
        ({
            let o1 = block_start(old(output)@, state);
            let lst = FastState { list_depth: (state.list_depth + 1) as usize, ordered_list: ordered, ..state };
            let o2 = render_children(doc@, id as nat, 0, o1, *options, lst);
            final(output)@ == if !state.inline { block_end(o2, state) } else { o2 }
        }),
    decreases doc@.nodes.len() - id, 1nat, 1nat,
{
    ensure_block_start(output, state);
    let count = doc.nodes.len();
    assert(doc@.nodes.len() == count);
    walk_children(
        doc,
        id,
        e,
        output,
        options,
        FastState { list_depth: state.list_depth + 1, ordered_list: ordered, ..state },
    );
    if !state.inline {
        push_block_end(output, state);
    }
}

/// The bullet of unordered list items.
fn first_bullet(options: &ConversionOptions) -> (c: char)
    ensures
        c == bullet(*options),
{
    let chars = chars_of(options.bullets.as_str());
    if chars.len() > 0 {
        chars[0]
    } else {
        '-'
    }
}

/// Writes a list item.
fn handle_list_item(
    doc: &Document,
    id: u32,
    e: &Element,
    output: &mut Vec<char>,
    options: &ConversionOptions,
    state: FastState,
)
    requires
        element_at(doc@, id, e@),
        state.list_depth <= id,
    ensures
        final(output)@ == list_item_prefix(old(output)@, *options, state) + trim(
            render_children(doc@, id as nat, 0, Seq::empty(), *options, inline_state(state)),
        ) + seq!['\n'],
    decreases doc@.nodes.len() - id, 1nat, 1nat,
{
    trim_trailing_spaces(output);
    if output.len() > 0 && !ends_with_char(output.as_slice(), '\n') {
        output.push('\n');
    }
    let levels: usize = if state.list_depth > 0 { state.list_depth - 1 } else { 0 };
    let ghost o2 = output@;
    let mut l: usize = 0;
    while l < levels
        invariant
            l <= levels,
            output@ == o2 + indentation(l as nat, options.list_indent_width as nat),
        decreases levels - l,
    {
        push_repeat(output, ' ', options.list_indent_width);
        assert(output@ =~= o2 + indentation((l + 1) as nat, options.list_indent_width as nat));
        l = l + 1;
    }
    let ghost o3 = output@;
    if state.ordered_list {
        output.push('1');
        output.push('.');
        output.push(' ');
        assert(output@ =~= o3 + seq!['1', '.', ' ']);
    } else {
        let b = first_bullet(options);
        output.push(b);
        output.push(' ');
        assert(output@ =~= o3 + seq![b, ' ']);
    }
    let mut content: Vec<char> = Vec::new();
    walk_children(doc, id, e, &mut content, options, FastState { inline: true, ..state });
    let t = trimmed(content.as_slice());
    push_all(output, t.as_slice());
    output.push('\n');
}

/// Writes a block quote.
fn handle_blockquote(
    doc: &Document,
    id: u32,
    e: &Element,
    output: &mut Vec<char>,
    options: &ConversionOptions,
    state: FastState,
)
    requires
        element_at(doc@, id, e@),
        state.list_depth <= id,
    ensures
        final(output)@ == quote_lines(
            block_start(old(output)@, state),
            lines(trim(render_children(doc@, id as nat, 0, Seq::empty(), *options, state))),
        ).push('\n'),
    decreases doc@.nodes.len() - id, 1nat, 1nat,
{
    ensure_block_start(output, state);
    let mut content: Vec<char> = Vec::new();
    walk_children(doc, id, e, &mut content, options, state);
    let t = trimmed(content.as_slice());
    let ls = split_lines(t.as_slice());
    let ghost all = lines_view(ls@);
    let ghost o1 = output@;
    let mut j: usize = 0;
    assert(all.skip(0) =~= all);
    while j < ls.len()
        invariant
            j <= ls@.len(),
            all == lines_view(ls@),
            quote_lines(o1, all) == quote_lines(output@, all.skip(j as int)),
        decreases ls@.len() - j,
    {
        let ghost before = output@;
        output.push('>');
        output.push(' ');
        let line = trimmed(ls[j].as_slice());
        push_all(output, line.as_slice());
        output.push('\n');
        assert(all.skip(j as int)[0] == ls@[j as int]@);
        assert(all.skip(j as int).drop_first() =~= all.skip(j + 1));
        assert(output@ =~= before + seq!['>', ' '] + trim(all.skip(j as int)[0]) + seq!['\n']);
        j = j + 1;
    }
    assert(all.skip(j as int) =~= Seq::<Seq<char>>::empty());
    output.push('\n');
}

/// The cells of row `r`.
fn collect_cells(
    doc: &Document,
    r: u32,
    re: &Element,
    options: &ConversionOptions,
    state: FastState,
) -> (cells: Vec<Vec<char>>)
    requires
        element_at(doc@, r, re@),
        state.list_depth <= r,
    ensures
        cells_view(cells@) == cells_of(doc@, r as nat, 0, *options, state),
    decreases doc@.nodes.len() - r, 1nat, 0nat,
{
    let mut cells: Vec<Vec<char>> = Vec::new();
    let mut i: usize = 0;
    while i < re.children.len()
        invariant
            element_at(doc@, r, re@),
            state.list_depth <= r,
            i <= re.children@.len(),
            cells_view(cells@) + cells_of(doc@, r as nat, i as nat, *options, state) == cells_of(
                doc@,
                r as nat,
                0,
                *options,
                state,
            ),
        decreases re.children@.len() - i,
    {
        let c = re.children[i];
        let ghost old_cells = cells@;
        if r < c && (c as usize) < doc.nodes.len() {
            match &doc.nodes[c as usize] {
                HtmlNode::Element(ce) => {
                    if classify_tag(ce.name.as_str()) == TagKind::TableCell {
                        let mut content: Vec<char> = Vec::new();
                        walk_children(doc, c, ce, &mut content, options, FastState { inline: true, ..state });
                        let t = trimmed(content.as_slice());
                        let mut cell: Vec<char> = Vec::new();
                        push_replacing(&mut cell, t.as_slice(), '|', &['\\', '|']);
                        assert(cell@ =~= cell_text(render_children(doc@, c as nat, 0, Seq::empty(), *options, inline_state(state))));
                        cells.push(cell);
                        assert(cells_view(cells@) =~= cells_view(old_cells) + seq![cell@]);
                    }
                },
                _ => {},
            }
        }
        assert(cells_view(cells@) + cells_of(doc@, r as nat, (i + 1) as nat, *options, state) =~= cells_view(old_cells) + cells_of(doc@, r as nat, i as nat, *options, state));
        i = i + 1;
    }
    assert(cells_view(cells@) + Seq::<Seq<char>>::empty() =~= cells_view(cells@));
    cells
}

/// Appends the rows of table part `p` to `rows`.
fn collect_rows_from_children(
    doc: &Document,
    p: u32,
    e: &Element,
    options: &ConversionOptions,
    state: FastState,
    rows: &mut Vec<Vec<Vec<char>>>,
)
    requires
        element_at(doc@, p, e@),
        state.list_depth <= p,
    ensures
        rows_view(final(rows)@) == rows_view(old(rows)@) + rows_of(doc@, p as nat, 0, *options, state),
    decreases doc@.nodes.len() - p, 1nat, 0nat,
{
    let mut i: usize = 0;
    while i < e.children.len()
        invariant
            element_at(doc@, p, e@),
            state.list_depth <= p,
            i <= e.children@.len(),
            rows_view(rows@) + rows_of(doc@, p as nat, i as nat, *options, state) == rows_view(old(rows)@)
                + rows_of(doc@, p as nat, 0, *options, state),
        decreases e.children@.len() - i,
    {
        let c = e.children[i];
        let ghost before = rows@;
        if p < c && (c as usize) < doc.nodes.len() {
            match &doc.nodes[c as usize] {
                HtmlNode::Element(ce) => {
                    let kind = classify_tag(ce.name.as_str());
                    if kind == TagKind::TableRow {
                        let cells = collect_cells(doc, c, ce, options, state);
                        rows.push(cells);
                        assert(rows_view(rows@) =~= rows_view(before) + seq![cells_view(cells@)]);
                    } else if kind == TagKind::TableSection {
                        collect_rows_from_children(doc, c, ce, options, state, rows);
                    }
                },
                _ => {},
            }
        }
        assert(rows_view(rows@) + rows_of(doc@, p as nat, (i + 1) as nat, *options, state) =~= rows_view(before) + rows_of(doc@, p as nat, i as nat, *options, state));
        i = i + 1;
    }
    assert(rows_view(rows@) + Seq::<Seq<Seq<char>>>::empty() =~= rows_view(rows@));
}

/// The rows of table `id`.
fn collect_table_rows(
    doc: &Document,
    id: u32,
    e: &Element,
    options: &ConversionOptions,
    state: FastState,
) -> (rows: Vec<Vec<Vec<char>>>)
    requires
        element_at(doc@, id, e@),
        state.list_depth <= id,
    ensures
        rows_view(rows@) == rows_of(doc@, id as nat, 0, *options, state),
    decreases doc@.nodes.len() - id, 1nat, 1nat,
{
    let mut rows: Vec<Vec<Vec<char>>> = Vec::new();
    collect_rows_from_children(doc, id, e, options, state, &mut rows);
    assert(rows_view(Seq::<Vec<Vec<char>>>::empty()) =~= Seq::<Seq<Seq<char>>>::empty());
    assert(Seq::<Seq<Seq<char>>>::empty() + rows_of(doc@, id as nat, 0, *options, state) =~= rows_of(doc@, id as nat, 0, *options, state));
    rows
}

/// Writes a table.
fn handle_table(
    doc: &Document,
    id: u32,
    e: &Element,
    output: &mut Vec<char>,
    options: &ConversionOptions,
    state: FastState,
)
    requires
        element_at(doc@, id, e@),
        state.list_depth <= id,
    ensures
        final(output)@ == table_rendered(old(output)@, rows_of(doc@, id as nat, 0, *options, state), state),
    decreases doc@.nodes.len() - id, 1nat, 2nat,
{
    let rows = collect_table_rows(doc, id, e, options, state);
    let ghost rv = rows_view(rows@);
    if rows.len() == 0 {
        return;
    }
    ensure_block_start(output, state);
    let mut cols: usize = 0;
    let mut k: usize = 0;
    while k < rows.len()
        invariant
            k <= rows@.len(),
            rv == rows_view(rows@),
            cols == max_row_len(rv.take(k as int)),
        decreases rows@.len() - k,
    {
        assert(rv.take(k + 1).drop_last() =~= rv.take(k as int));
        assert(rv.take(k + 1).last() == rows@[k as int]@.map_values(|c: Vec<char>| c@));
        if rows[k].len() > cols {
            cols = rows[k].len();
        }
        k = k + 1;
    }
    assert(rv.take(k as int) =~= rv);
    if cols == 0 {
        return;
    }
    let ghost o1 = output@;
    push_table_row(output, rows[0].as_slice(), cols);
    output.push('|');
    let mut n: usize = 0;
    let ghost o2 = output@;
    while n < cols
        invariant
            n <= cols,
            output@ == o2 + separator_cells(n as nat),
        decreases cols - n,
    {
        output.push(' ');
        output.push('-');
        output.push('-');
        output.push('-');
        output.push(' ');
        output.push('|');
        assert(output@ =~= o2 + separator_cells((n + 1) as nat));
        n = n + 1;
    }
    output.push('\n');
    assert(output@ =~= o1 + table_row(rv[0], cols as nat) + seq!['|'] + separator_cells(cols as nat) + seq!['\n']);
    let ghost o3 = output@;
    let mut r: usize = 1;
    assert(rv.drop_first() =~= rv.skip(1));
    while r < rows.len()
        invariant
            1 <= r <= rows@.len(),
            rv == rows_view(rows@),
            rows_text(o3, rv.skip(1), cols as nat) == rows_text(output@, rv.skip(r as int), cols as nat),
        decreases rows@.len() - r,
    {
        let ghost before = output@;
        push_table_row(output, rows[r].as_slice(), cols);
        assert(rv.skip(r as int)[0] == rv[r as int]);
        assert(rv.skip(r as int).drop_first() =~= rv.skip(r + 1));
        r = r + 1;
    }
    assert(rv.skip(r as int) =~= Seq::<Seq<Seq<char>>>::empty());
    output.push('\n');
}

} // verus!

verus! {

/// Converts a parsed document to Markdown (see `render_document`).
pub fn convert_document(doc: &Document, options: &ConversionOptions) -> (markdown: String)
    ensures
        markdown@ == render_document(doc@, *options),
{
    let mut output: Vec<char> = Vec::new();
    let state = FastState { in_pre: false, in_code: false, inline: false, list_depth: 0, ordered_list: false };
    let mut k: usize = 0;
    while k < doc.roots.len()
        invariant
            k <= doc@.roots.len(),
            state == initial_state(),
            render_roots(doc@, 0, Seq::empty(), *options) == render_roots(doc@, k as nat, output@, *options),
        decreases doc@.roots.len() - k,
    {
        walk_node(doc, doc.roots[k], &mut output, options, state);
        k = k + 1;
    }
    trim_document_boundaries(&mut output);
    string_of(output.as_slice())
}

/// Converts `html` to Markdown: parses it, then writes the document as
/// `convert_document` does. Fails only when the input is longer than
/// `u32::MAX` bytes, which the parser refuses.
pub fn convert(html: &str, options: &ConversionOptions) -> (res: Result<String, ConversionError>)
    ensures
        res is Ok <==> html.spec_bytes().len() <= u32::MAX,
        res matches Ok(markdown) ==> markdown@ == render_document(parsed_document(html@), *options),
        res matches Err(ConversionError::ParseError(message)) ==> message@ == "Failed to parse HTML"@,
{
    let doc = match parse_document(html) {
        Ok(doc) => doc,
        Err(_) => {
            return Err(ConversionError::ParseError("Failed to parse HTML".to_owned()));
        },
    };
    Ok(convert_document(&doc, options))
}

} // verus!

verus! {

/// Markdown written by the converter never starts or ends with whitespace.
pub proof fn law_document_has_no_outer_whitespace(d: DocumentView, opts: ConversionOptions)
    ensures
        ({
            let r = render_document(d, opts);
            r.len() > 0 ==> !is_ws(r[0]) && !is_ws(r.last())
        }),
{
    let s = render_roots(d, 0, Seq::empty(), opts);
    lemma_trim_end_last(s);
    let t = crate::chars::trim_end(s);
    lemma_trim_start_first(t);
    crate::chars::lemma_trim_start_is_suffix(t);
    let r = trim_start(t);
    if r.len() > 0 {
        assert(r.last() == t.last());
    }
}

proof fn lemma_trim_end_last(s: Seq<char>)
    ensures
        trim_end(s).len() > 0 ==> !is_ws(trim_end(s).last()),
    decreases s.len(),
{
    if s.len() > 0 && is_ws(s.last()) {
        lemma_trim_end_last(s.drop_last());
    }
}

proof fn lemma_trim_start_first(s: Seq<char>)
    ensures
        trim_start(s).len() > 0 ==> !is_ws(trim_start(s)[0]),
    decreases s.len(),
{
    if s.len() > 0 && is_ws(s[0]) {
        lemma_trim_start_first(s.drop_first());
    }
}

/// With every escaping switch off (the default), text is written as it is.
pub proof fn law_no_escaping_by_default(s: Seq<char>)
    ensures
        markdown_escaped(s, false, false, false, false) == s,
    decreases s.len(),
{
    if s.len() > 0 {
        law_no_escaping_by_default(s.drop_last());
        assert(s.drop_last().push(s.last()) =~= s);
        assert(markdown_escaped(s.drop_last(), false, false, false, false) + seq![s.last()] =~= s);
    }
}

/// Collapsed text holds whitespace only as single spaces.
pub proof fn law_collapsed_text_has_single_spaces(s: Seq<char>)
    ensures
        forall|i: int| 0 <= i < collapse_ws(s).len() && is_ws(#[trigger] collapse_ws(s)[i]) ==> collapse_ws(s)[i] == ' ',
        forall|i: int| 0 <= i < collapse_ws(s).len() - 1 ==> !(is_ws(#[trigger] collapse_ws(s)[i]) && is_ws(collapse_ws(s)[i + 1])),
        collapse_ws(s).len() > 0 ==> (is_ws(collapse_ws(s).last()) <==> is_ws(s.last())),
    decreases s.len(),
{
    if s.len() > 0 {
        let p = s.drop_last();
        law_collapsed_text_has_single_spaces(p);
        let cp = collapse_ws(p);
        let r = collapse_ws(s);
        if is_ws(s.last()) {
            if s.len() >= 2 && is_ws(s[s.len() - 2]) {
                assert(p.last() == s[s.len() - 2]);
                assert(r == cp);
                assert(cp.len() > 0) by {
                    lemma_collapse_nonempty(p);
                }
            } else {
                assert(r == cp.push(' '));
                if cp.len() > 0 {
                    assert(p.len() > 0);
                    assert(p.last() == s[s.len() - 2]);
                    assert(!is_ws(cp.last()));
                }
                assert forall|i: int| 0 <= i < r.len() - 1 implies !(is_ws(#[trigger] r[i]) && is_ws(r[i + 1])) by {
                    if i < cp.len() - 1 {
                        assert(r[i] == cp[i] && r[i + 1] == cp[i + 1]);
                    }
                }
            }
        } else {
            assert(r == cp.push(s.last()));
            assert forall|i: int| 0 <= i < r.len() - 1 implies !(is_ws(#[trigger] r[i]) && is_ws(r[i + 1])) by {
                if i < cp.len() - 1 {
                    assert(r[i] == cp[i] && r[i + 1] == cp[i + 1]);
                }
            }
        }
    }
}

proof fn lemma_collapse_nonempty(s: Seq<char>)
    ensures
        s.len() > 0 ==> collapse_ws(s).len() > 0,
    decreases s.len(),
{
    if s.len() > 0 {
        lemma_collapse_nonempty(s.drop_last());
    }
}

proof fn lemma_ascii_lower_idempotent(b: u8)
    ensures
        ascii_lower(ascii_lower(b)) == ascii_lower(b),
{
}

proof fn lemma_eq_ignore_case_lowered(b: Seq<u8>, lit: Seq<u8>)
    ensures
        eq_ignore_case(b, lit) == eq_ignore_case(b.map_values(|x: u8| ascii_lower(x)), lit),
{
    let l = b.map_values(|x: u8| ascii_lower(x));
    assert forall|i: int| 0 <= i < b.len() implies ascii_lower(#[trigger] l[i]) == ascii_lower(b[i]) by {
        lemma_ascii_lower_idempotent(b[i]);
    }
    if eq_ignore_case(b, lit) {
        assert forall|i: int| 0 <= i < l.len() implies ascii_lower(#[trigger] l[i]) == ascii_lower(lit[i]) by {
            assert(ascii_lower(b[i]) == ascii_lower(lit[i]));
        }
    }
    if eq_ignore_case(l, lit) {
        assert forall|i: int| 0 <= i < b.len() implies ascii_lower(#[trigger] b[i]) == ascii_lower(lit[i]) by {
            assert(ascii_lower(l[i]) == ascii_lower(lit[i]));
        }
    }
}

/// Element kinds are found by tag name up to ASCII case: a name and its
/// ASCII-lower-cased form have the same kind.
pub proof fn law_tag_kind_ignores_ascii_case(b: Seq<u8>)
    ensures
        tag_kind_of(b) == tag_kind_of(b.map_values(|x: u8| ascii_lower(x))),
{
    let l = b.map_values(|x: u8| ascii_lower(x));
    assert forall|lit: Seq<u8>| eq_ignore_case(b, lit) == #[trigger] eq_ignore_case(l, lit) by {
        lemma_eq_ignore_case_lowered(b, lit);
    }
    if b.len() == 2 {
        assert(l[0] == ascii_lower(b[0]) && l[1] == ascii_lower(b[1]));
    }
}

} // verus!
