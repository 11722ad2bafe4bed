//! What the lean converter writes for the elements it knows, stated over any
//! document, position, options and state.

use vstd::prelude::*;
use vstd::utf8::encode_utf8;
use crate::chars::{trim, lines};
use crate::document::DocumentView;
use crate::fast_dom::{
    FastState, TagKind, ascii_lower, eq_ignore_case, tag_kind_of, render_element, render_children, inline_state,
    block_start, block_end, repeat, quote_lines, table_rendered, rows_text, separator_cells, max_row_len,
};
use crate::markdown::table_row;
use crate::options::{ConversionOptions, HeadingStyle};

verus! {

/// The bytes of the tag name of element `id` of `d`.
pub open spec fn name_bytes(d: DocumentView, id: nat) -> Seq<u8> {
    encode_utf8(d.nodes[id as int]->Element_0.name)
}

/// `b` and `strong`, in any ASCII case, are both bold.
pub proof fn law_bold_names(b: Seq<u8>)
    ensures
        eq_ignore_case(b, seq![('b' as u8)]) ==> tag_kind_of(b) == TagKind::Strong,
        eq_ignore_case(b, seq![('s' as u8), ('t' as u8), ('r' as u8), ('o' as u8), ('n' as u8), ('g' as u8)])
            ==> tag_kind_of(b) == TagKind::Strong,
{
    if eq_ignore_case(b, seq![('b' as u8)]) {
        assert(ascii_lower(b[0]) == ascii_lower(seq![('b' as u8)][0]));
    }
}

/// An element named `b` or `strong` (any ASCII case) writes `**`, then its
/// content as inline content, then `**`.
pub proof fn law_bold_element(d: DocumentView, id: nat, o: Seq<char>, opts: ConversionOptions, st: FastState)
    requires
        d.is_element(id as int),
        eq_ignore_case(name_bytes(d, id), seq![('b' as u8)]) || eq_ignore_case(
            name_bytes(d, id),
            seq![('s' as u8), ('t' as u8), ('r' as u8), ('o' as u8), ('n' as u8), ('g' as u8)],
        ),
    ensures
        render_element(d, id, o, opts, st) == render_children(
            d,
            id,
            0,
            o + seq!['*', '*'],
            opts,
            inline_state(st),
        ) + seq!['*', '*'],
{
    law_bold_names(name_bytes(d, id));
}

/// `h1` to `h6`, in any ASCII case, are headings of levels one to six.
pub proof fn law_heading_names(b: Seq<u8>, n: u8)
    requires
        1 <= n <= 6,
        eq_ignore_case(b, seq![('h' as u8), (48 + n) as u8]),
    ensures
        tag_kind_of(b) == TagKind::Heading(n as usize),
{
    assert(b[1] == (48 + n) as u8);
}

/// An element named `hN` (N from 1 to 6, any ASCII case) writes its trimmed
/// inline content, when there is any, as a new block: N `#` characters, a
/// space and the content in the `Atx` style, with a space and N `#`
/// characters more in the `AtxClosed` style.
pub proof fn law_heading_element(
    d: DocumentView,
    id: nat,
    o: Seq<char>,
    opts: ConversionOptions,
    st: FastState,
    n: u8,
)
    requires
        d.is_element(id as int),
        1 <= n <= 6,
        eq_ignore_case(name_bytes(d, id), seq![('h' as u8), (48 + n) as u8]),
    ensures
        ({
            let c = trim(render_children(d, id, 0, Seq::empty(), opts, inline_state(st)));
            &&& c.len() == 0 ==> render_element(d, id, o, opts, st) == o
            &&& c.len() > 0 && opts.heading_style == HeadingStyle::Atx ==> render_element(d, id, o, opts, st)
                == block_start(o, st) + repeat('#', n as nat) + seq![' '] + c + seq!['\n', '\n']
            &&& c.len() > 0 && opts.heading_style == HeadingStyle::AtxClosed ==> render_element(
                d,
                id,
                o,
                opts,
                st,
            ) == block_start(o, st) + repeat('#', n as nat) + seq![' '] + c + seq![' '] + repeat(
                '#',
                n as nat,
            ) + seq!['\n', '\n']
        }),
{
    law_heading_names(name_bytes(d, id), n);
}

/// A `ul` or `ol` element (any ASCII case) writes its items one list level
/// deeper, numbered exactly when it is an `ol`, whatever list encloses it.
pub proof fn law_list_element(d: DocumentView, id: nat, o: Seq<char>, opts: ConversionOptions, st: FastState)
    requires
        d.is_element(id as int),
        eq_ignore_case(name_bytes(d, id), seq![('u' as u8), ('l' as u8)]) || eq_ignore_case(
            name_bytes(d, id),
            seq![('o' as u8), ('l' as u8)],
        ),
    ensures
        ({
            let lst = FastState {
                list_depth: (st.list_depth + 1) as usize,
                ordered_list: eq_ignore_case(name_bytes(d, id), seq![('o' as u8), ('l' as u8)]),
                ..st
            };
            let o2 = render_children(d, id, 0, block_start(o, st), opts, lst);
            render_element(d, id, o, opts, st) == if st.inline {
                o2
            } else {
                block_end(o2, st)
            }
        }),
{
}

/// Quoting one line writes `> `, the trimmed line and a newline, also for a
/// blank line.
pub proof fn law_quote_one_line(o: Seq<char>, line: Seq<char>)
    ensures
        quote_lines(o, seq![line]) == o + seq!['>', ' '] + trim(line) + seq!['\n'],
{
    reveal_with_fuel(quote_lines, 2);
    assert(seq![line].drop_first() =~= Seq::<Seq<char>>::empty());
}

/// Quoting lines one after the other: the lines of `a` then those of `b`.
pub proof fn law_quote_lines_in_order(o: Seq<char>, a: Seq<Seq<char>>, b: Seq<Seq<char>>)
    ensures
        quote_lines(o, a + b) == quote_lines(quote_lines(o, a), b),
    decreases a.len(),
{
    if a.len() == 0 {
        assert(a + b =~= b);
    } else {
        assert((a + b).drop_first() =~= a.drop_first() + b);
        law_quote_lines_in_order(o + seq!['>', ' '] + trim(a[0]) + seq!['\n'], a.drop_first(), b);
    }
}

/// Every line of the quoted content gives one quoted line: quoting `ls` adds
/// `> `, a trimmed line and a newline per line, so the output grows by three
/// characters more than the trimmed lines hold, per line.
pub proof fn law_quote_line_count(o: Seq<char>, ls: Seq<Seq<char>>)
    ensures
        quote_lines(o, ls).len() == o.len() + 3 * ls.len() + trimmed_total(ls),
    decreases ls.len(),
{
    if ls.len() > 0 {
        law_quote_line_count(o + seq!['>', ' '] + trim(ls[0]) + seq!['\n'], ls.drop_first());
    }
}

/// How many characters the lines of `ls` hold once trimmed.
pub open spec fn trimmed_total(ls: Seq<Seq<char>>) -> nat
    decreases ls.len(),
{
    if ls.len() == 0 {
        0
    } else {
        trim(ls[0]).len() + trimmed_total(ls.drop_first())
    }
}

/// A `blockquote` element (any ASCII case) quotes each line of its trimmed
/// content, blank lines included, as a new block.
pub proof fn law_blockquote_element(
    d: DocumentView,
    id: nat,
    o: Seq<char>,
    opts: ConversionOptions,
    st: FastState,
)
    requires
        d.is_element(id as int),
        eq_ignore_case(
            name_bytes(d, id),
            seq![('b' as u8), ('l' as u8), ('o' as u8), ('c' as u8), ('k' as u8), ('q' as u8), ('u' as u8), ('o' as u8), ('t' as u8), ('e' as u8)],
        ),
    ensures
        render_element(d, id, o, opts, st) == quote_lines(
            block_start(o, st),
            lines(trim(render_children(d, id, 0, Seq::empty(), opts, st))),
        ).push('\n'),
{
}

proof fn lemma_max_row_len(rows: Seq<Seq<Seq<char>>>)
    ensures
        forall|i: int| 0 <= i < rows.len() ==> #[trigger] rows[i].len() <= max_row_len(rows),
        rows.len() > 0 ==> exists|i: int| 0 <= i < rows.len() && #[trigger] rows[i].len() == max_row_len(rows),
        rows.len() == 0 ==> max_row_len(rows) == 0,
    decreases rows.len(),
{
    if rows.len() > 0 {
        let init = rows.drop_last();
        lemma_max_row_len(init);
        assert forall|i: int| 0 <= i < rows.len() implies #[trigger] rows[i].len() <= max_row_len(rows) by {
            if i < rows.len() - 1 {
                assert(rows[i] == init[i]);
            }
        }
        if rows.last().len() > max_row_len(init) {
            assert(rows[rows.len() - 1].len() == max_row_len(rows));
        } else if init.len() > 0 {
            let i = choose|i: int| 0 <= i < init.len() && #[trigger] init[i].len() == max_row_len(init);
            assert(rows[i] == init[i]);
        } else {
            assert(rows[0].len() == max_row_len(rows));
        }
    }
}

/// A table is written with as many columns as its longest row has cells, so
/// no cell is left out: for a number of columns `c` that no row exceeds and
/// some row reaches, the table is its first row, the separator and the other
/// rows, each written with `c` columns.
pub proof fn law_table_columns(o: Seq<char>, rows: Seq<Seq<Seq<char>>>, st: FastState, c: nat)
    requires
        c > 0,
        forall|i: int| 0 <= i < rows.len() ==> #[trigger] rows[i].len() <= c,
        exists|i: int| 0 <= i < rows.len() && #[trigger] rows[i].len() == c,
    ensures
        table_rendered(o, rows, st) == rows_text(
            block_start(o, st) + table_row(rows[0], c) + seq!['|'] + separator_cells(c) + seq!['\n'],
            rows.drop_first(),
            c,
        ) + seq!['\n'],
{
    lemma_max_row_len(rows);
    let i = choose|i: int| 0 <= i < rows.len() && #[trigger] rows[i].len() == c;
    let j = choose|j: int| 0 <= j < rows.len() && #[trigger] rows[j].len() == max_row_len(rows);
    assert(rows[i].len() <= max_row_len(rows));
    assert(rows[j].len() <= c);
}

} // verus!
