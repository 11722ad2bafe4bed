//! Operations on a Markdown output buffer and on the text pushed into it.

use vstd::prelude::*;
use crate::chars::{
    is_ws, is_whitespace, trim_end, trim_start, trim, pop_trailing_whitespace, trimmed,
    };
use crate::text::{
    backslash_escaped, replace_char, decode_entities, reference_at, push_all, push_replacing,
};

verus! {

/// `o` without its trailing spaces and tabs.
pub open spec fn strip_trailing_spaces(o: Seq<char>) -> Seq<char>
    decreases o.len(),
{
    if o.len() > 0 && (o.last() == ' ' || o.last() == '\t') {
        strip_trailing_spaces(o.drop_last())
    } else {
        o
    }
}

/// Whether `o` ends with `c`.
pub open spec fn ends_with(o: Seq<char>, c: char) -> bool {
    o.len() > 0 && o.last() == c
}

/// Whether `o` ends with an empty line (`"\n\n"`).
pub open spec fn ends_with_blank_line(o: Seq<char>) -> bool {
    o.len() >= 2 && o[o.len() - 1] == '\n' && o[o.len() - 2] == '\n'
}

/// `o` with trailing spaces removed and ended by exactly one empty line, unless
/// it already ends with one.
pub open spec fn close_block(o: Seq<char>) -> Seq<char> {
    let t = strip_trailing_spaces(o);
    if ends_with_blank_line(t) {
        t
    } else if ends_with(t, '\n') {
        t.push('\n')
    } else {
        t + seq!['\n', '\n']
    }
}

/// Removes trailing spaces and tabs from `output`.
pub fn trim_trailing_spaces(output: &mut Vec<char>)
    ensures
        final(output)@ == strip_trailing_spaces(old(output)@),
{
    while output.len() > 0 && (output[output.len() - 1] == ' ' || output[output.len() - 1] == '\t')
        invariant
            strip_trailing_spaces(output@) == strip_trailing_spaces(old(output)@),
        decreases output.len(),
    {
        output.pop();
    }
}

/// Whether `output` ends with `c`.
pub fn ends_with_char(output: &[char], c: char) -> (res: bool)
    ensures
        res == ends_with(output@, c),
{
    output.len() > 0 && output[output.len() - 1] == c
}

/// Ends the current block of `output` (see `close_block`).
pub fn close_current_block(output: &mut Vec<char>)
    ensures
        final(output)@ == close_block(old(output)@),
{
    trim_trailing_spaces(output);
    let n = output.len();
    if !(n >= 2 && output[n - 1] == '\n' && output[n - 2] == '\n') {
        if ends_with_char(output, '\n') {
            output.push('\n');
        } else {
            output.push('\n');
            output.push('\n');
            assert(output@ =~= strip_trailing_spaces(old(output)@) + seq!['\n', '\n']);
        }
    }
}

/// Removes trailing whitespace from `output`.
pub fn trim_document_end(output: &mut Vec<char>)
    ensures
        final(output)@ == trim_end(old(output)@),
{
    pop_trailing_whitespace(output);
}

/// Removes leading and trailing whitespace from `output`.
pub fn trim_document_boundaries(output: &mut Vec<char>)
    ensures
        final(output)@ == trim(old(output)@),
{
    trim_document_end(output);
    let result = trimmed(output.as_slice());
    proof {
        crate::chars::lemma_trim_end_idempotent(old(output)@);
    }
    *output = result;
}

/// `o[..start]` followed by `o[start..]` trimmed, when `start` is inside `o`.
pub open spec fn code_span_trimmed(o: Seq<char>, start: int) -> Seq<char> {
    if start >= o.len() {
        o
    } else {
        o.take(start) + trim(o.skip(start))
    }
}

/// Trims the text of `output` from `start` on.
pub fn trim_code_span(output: &mut Vec<char>, start: usize)
    ensures
        final(output)@ == code_span_trimmed(old(output)@, start as int),
{
    let end = output.len();
    if start >= end {
        return;
    }
    let tail = crate::chars::copy_range(output.as_slice(), start, end);
    let owned = trimmed(tail.as_slice());
    output.truncate(start);
    push_all(output, owned.as_slice());
    assert(old(output)@.skip(start as int) =~= tail@);
}

/// Whether `c` occurs in `text`.
pub fn contains_char(text: &[char], c: char) -> (res: bool)
    ensures
        res == text@.contains(c),
{
    let mut i: usize = 0;
    while i < text.len()
        invariant
            i <= text@.len(),
            forall|j: int| 0 <= j < i ==> text@[j] != c,
        decreases text@.len() - i,
    {
        if text[i] == c {
            assert(text@[i as int] == c);
            return true;
        }
        i = i + 1;
    }
    false
}

} // verus!

verus! {

/// `s` with each run of whitespace replaced by one space.
pub open spec fn collapse_ws(s: Seq<char>) -> Seq<char>
    decreases s.len(),
{
    if s.len() == 0 {
        Seq::empty()
    } else if is_ws(s.last()) {
        if s.len() >= 2 && is_ws(s[s.len() - 2]) {
            collapse_ws(s.drop_last())
        } else {
            collapse_ws(s.drop_last()).push(' ')
        }
    } else {
        collapse_ws(s.drop_last()).push(s.last())
    }
}

/// Replaces each run of whitespace in `text` by one space.
pub fn collapse_whitespace(text: &[char]) -> (res: Vec<char>)
    ensures
        res@ == collapse_ws(text@),
{
    let mut output: Vec<char> = Vec::new();
    let mut previous_was_space = false;
    let mut i: usize = 0;
    while i < text.len()
        invariant
            i <= text@.len(),
            output@ == collapse_ws(text@.take(i as int)),
            previous_was_space == (i > 0 && is_ws(text@[i - 1])),
        decreases text@.len() - i,
    {
        let ch = text[i];
        let ghost t = text@.take(i + 1);
        assert(t.drop_last() =~= text@.take(i as int));
        assert(t.last() == ch);
        assert(i >= 1 ==> t[t.len() - 2] == text@[i - 1]);
        if is_whitespace(ch) {
            if !previous_was_space {
                output.push(' ');
            }
            previous_was_space = true;
        } else {
            output.push(ch);
            previous_was_space = false;
        }
        i = i + 1;
    }
    assert(text@.take(i as int) =~= text@);
    output
}

/// A text where whitespace only occurs as single spaces needs no collapsing.
pub proof fn lemma_collapse_noop(s: Seq<char>)
    requires
        forall|j: int|
            0 <= j < s.len() && is_ws(#[trigger] s[j]) ==> s[j] == ' ' && (j == 0 || !is_ws(s[j - 1])),
    ensures
        collapse_ws(s) == s,
    decreases s.len(),
{
    if s.len() > 0 {
        let p = s.drop_last();
        assert forall|j: int| 0 <= j < p.len() && is_ws(#[trigger] p[j]) implies p[j] == ' ' && (j == 0
            || !is_ws(p[j - 1])) by {
            assert(s[j] == p[j]);
            if j > 0 {
                assert(s[j - 1] == p[j - 1]);
            }
        }
        lemma_collapse_noop(p);
        assert(p.push(s.last()) =~= s);
        if is_ws(s.last()) {
            assert(s[s.len() - 1] == ' ');
        }
    }
}

/// Whether some character of `text` is at most a space or outside ASCII.
pub fn may_need_text_normalization(text: &[char]) -> (res: bool)
    ensures
        res == exists|j: int| 0 <= j < text@.len() && (text@[j] <= ' ' || text@[j] >= '\u{80}'),
{
    let mut i: usize = 0;
    while i < text.len()
        invariant
            i <= text@.len(),
            forall|j: int| 0 <= j < i ==> !(text@[j] <= ' ' || text@[j] >= '\u{80}'),
        decreases text@.len() - i,
    {
        if text[i] <= ' ' || text[i] >= '\u{80}' {
            assert(text@[i as int] <= ' ' || text@[i as int] >= '\u{80}');
            return true;
        }
        i = i + 1;
    }
    false
}

/// `text` with runs of whitespace collapsed to single spaces; a text that
/// needs no change is returned as it is.
pub fn normalize_text(text: &[char]) -> (res: Vec<char>)
    ensures
        res@ == collapse_ws(text@),
{
    if !may_need_text_normalization(text) {
        proof {
            assert forall|j: int| 0 <= j < text@.len() && is_ws(#[trigger] text@[j]) implies text@[j]
                == ' ' && (j == 0 || !is_ws(text@[j - 1])) by {
                assert(!(text@[j] <= ' ' || text@[j] >= '\u{80}'));
            }
            lemma_collapse_noop(text@);
        }
        return crate::chars::copy_range(text, 0, text.len());
    }
    let mut previous_was_space = false;
    let mut i: usize = 0;
    while i < text.len()
        invariant
            i <= text@.len(),
            previous_was_space == (i > 0 && is_ws(text@[i - 1])),
            forall|j: int|
                0 <= j < i && is_ws(#[trigger] text@[j]) ==> text@[j] == ' ' && (j == 0 || !is_ws(
                    text@[j - 1],
                )),
        decreases text@.len() - i,
    {
        let ch = text[i];
        if is_whitespace(ch) {
            if previous_was_space || ch != ' ' {
                return collapse_whitespace(text);
            }
            previous_was_space = true;
        } else {
            previous_was_space = false;
        }
        i = i + 1;
    }
    proof {
        lemma_collapse_noop(text@);
    }
    assert(text@.subrange(0, text@.len() as int) =~= text@);
    crate::chars::copy_range(text, 0, text.len())
}

/// `o` followed by `t`, where `t` loses its leading whitespace when `o` ends
/// with a space or a newline.
pub open spec fn collapsed_append(o: Seq<char>, t: Seq<char>) -> Seq<char> {
    if t.len() == 0 {
        o
    } else if ends_with(o, ' ') || ends_with(o, '\n') {
        o + trim_start(t)
    } else {
        o + t
    }
}

/// Appends `text` to `output` without doubling the separation at its start.
pub fn push_collapsed(output: &mut Vec<char>, text: &[char])
    ensures
        final(output)@ == collapsed_append(old(output)@, text@),
{
    if text.len() == 0 {
        return;
    }
    if ends_with_char(output.as_slice(), ' ') || ends_with_char(output.as_slice(), '\n') {
        let mut k: usize = 0;
        assert(text@.skip(0) =~= text@);
        while k < text.len() && is_whitespace(text[k])
            invariant
                k <= text@.len(),
                trim_start(text@) == trim_start(text@.skip(k as int)),
            decreases text@.len() - k,
        {
            assert(text@.skip(k as int).drop_first() =~= text@.skip(k + 1));
            k = k + 1;
        }
        if k < text.len() {
            assert(text@.skip(k as int)[0] == text@[k as int]);
        }
        assert(trim_start(text@.skip(k as int)) == text@.skip(k as int));
        let rest = crate::chars::copy_range(text, k, text.len());
        assert(rest@ =~= text@.skip(k as int));
        push_all(output, rest.as_slice());
    } else {
        push_all(output, text);
    }
}

/// A text without `&` holds no character reference.
pub proof fn lemma_decode_without_ampersand(s: Seq<char>)
    requires
        !s.contains('&'),
    ensures
        decode_entities(s) == s,
    decreases s.len(),
{
    if s.len() > 0 {
        assert(reference_at(s) is None);
        assert(!s.skip(1).contains('&')) by {
            if s.skip(1).contains('&') {
                let j = choose|j: int| 0 <= j < s.skip(1).len() && s.skip(1)[j] == '&';
                assert(s[j + 1] == '&');
            }
        }
        lemma_decode_without_ampersand(s.skip(1));
        assert(seq![s[0]] + s.skip(1) =~= s);
    }
}

/// An attribute value with its character references decoded.
pub fn decode_attr_text(value: &[char]) -> (res: Vec<char>)
    ensures
        res@ == decode_entities(value@),
{
    if contains_char(value, '&') {
        crate::text::decode_html_entities(value)
    } else {
        proof {
            lemma_decode_without_ampersand(value@);
        }
        assert(value@.subrange(0, value@.len() as int) =~= value@);
        crate::chars::copy_range(value, 0, value.len())
    }
}

/// The characters a link label escapes: `[`, `]` and `\`.
pub open spec fn is_label_special(c: char) -> bool {
    c == '[' || c == ']' || c == '\\'
}

/// `label` with a backslash before each `[`, `]` and `\`.
pub open spec fn escaped_label(label: Seq<char>) -> Seq<char> {
    backslash_escaped(label, |c: char| is_label_special(c))
}

/// Escapes the brackets and backslashes of a link label.
pub fn escape_link_label(label: &[char]) -> (res: Vec<char>)
    ensures
        res@ == escaped_label(label@),
{
    let mut out: Vec<char> = Vec::new();
    let mut i: usize = 0;
    while i < label.len()
        invariant
            i <= label@.len(),
            out@ == backslash_escaped(label@.take(i as int), |c: char| is_label_special(c)),
        decreases label@.len() - i,
    {
        let ch = label[i];
        assert(label@.take(i + 1).drop_last() =~= label@.take(i as int));
        assert(label@.take(i + 1).last() == ch);
        if ch == '[' || ch == ']' || ch == '\\' {
            out.push('\\');
        }
        out.push(ch);
        i = i + 1;
    }
    assert(label@.take(i as int) =~= label@);
    out
}

/// ASCII whitespace: space, tab, newline, form feed, carriage return.
pub open spec fn is_ascii_ws(c: char) -> bool {
    c == ' ' || c == '\t' || c == '\n' || c == '\x0C' || c == '\r'
}

/// A link destination: wrapped in angle brackets, with newlines written as
/// `%0A`, when it holds ASCII whitespace; unchanged otherwise.
pub open spec fn destination(url: Seq<char>) -> Seq<char> {
    if exists|j: int| 0 <= j < url.len() && is_ascii_ws(#[trigger] url[j]) {
        seq!['<'] + replace_char(url, '\n', seq!['%', '0', 'A']) + seq!['>']
    } else {
        url
    }
}

/// Writes a link destination (see `destination`).
pub fn format_destination(url: &[char]) -> (res: Vec<char>)
    ensures
        res@ == destination(url@),
{
    let mut i: usize = 0;
    while i < url.len()
        invariant
            i <= url@.len(),
            forall|j: int| 0 <= j < i ==> !is_ascii_ws(#[trigger] url@[j]),
        decreases url@.len() - i,
    {
        let c = url[i];
        if c == ' ' || c == '\t' || c == '\n' || c == '\x0C' || c == '\r' {
            assert(is_ascii_ws(url@[i as int]));
            let mut out: Vec<char> = Vec::new();
            out.push('<');
            push_replacing(&mut out, url, '\n', &['%', '0', 'A']);
            out.push('>');
            assert(out@ =~= seq!['<'] + replace_char(url@, '\n', seq!['%', '0', 'A']) + seq!['>']);
            return out;
        }
        i = i + 1;
    }
    assert(url@.subrange(0, url@.len() as int) =~= url@);
    crate::chars::copy_range(url, 0, url.len())
}

/// `o` followed by ` "title"`, with the quotes of the title escaped, when the
/// title is not empty.
pub open spec fn with_title(o: Seq<char>, title: Seq<char>) -> Seq<char> {
    if title.len() == 0 {
        o
    } else {
        o + seq![' ', '"'] + replace_char(title, '"', seq!['\\', '"']) + seq!['"']
    }
}

/// Appends a link title, if it is not empty.
pub fn push_optional_title(output: &mut Vec<char>, title: &[char])
    ensures
        final(output)@ == with_title(old(output)@, title@),
{
    if title.len() == 0 {
        return;
    }
    output.push(' ');
    output.push('"');
    push_replacing(output, title, '"', &['\\', '"']);
    output.push('"');
    assert(output@ =~= old(output)@ + seq![' ', '"'] + replace_char(title@, '"', seq!['\\', '"'])
        + seq!['"']);
}

/// The cells `0..k` of a table row, each as ` cell |`; missing cells are empty.
pub open spec fn row_cells(row: Seq<Seq<char>>, k: nat) -> Seq<char>
    decreases k,
{
    if k == 0 {
        Seq::empty()
    } else {
        row_cells(row, (k - 1) as nat) + seq![' '] + (if k - 1 < row.len() {
            row[k - 1]
        } else {
            Seq::empty()
        }) + seq![' ', '|']
    }
}

/// A table row of `cols` columns: `|`, the cells, a newline.
pub open spec fn table_row(row: Seq<Seq<char>>, cols: nat) -> Seq<char> {
    seq!['|'] + row_cells(row, cols) + seq!['\n']
}

/// The views of the cells of a row.
pub open spec fn cells_view(row: Seq<Vec<char>>) -> Seq<Seq<char>> {
    row.map_values(|c: Vec<char>| c@)
}

/// Appends one table row of `cols` columns.
pub fn push_table_row(output: &mut Vec<char>, row: &[Vec<char>], cols: usize)
    ensures
        final(output)@ == old(output)@ + table_row(cells_view(row@), cols as nat),
{
    output.push('|');
    let mut index: usize = 0;
    while index < cols
        invariant
            index <= cols,
            output@ == old(output)@ + seq!['|'] + row_cells(cells_view(row@), index as nat),
        decreases cols - index,
    {
        output.push(' ');
        if index < row.len() {
            push_all(output, row[index].as_slice());
        }
        output.push(' ');
        output.push('|');
        assert(output@ =~= old(output)@ + seq!['|'] + row_cells(cells_view(row@), (index + 1) as nat));
        index = index + 1;
    }
    output.push('\n');
    assert(output@ =~= old(output)@ + table_row(cells_view(row@), cols as nat));
}

} // verus!
