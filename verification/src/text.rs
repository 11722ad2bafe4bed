//! Text transforms shared by the converters: HTML character references and
//! Markdown escaping.

use vstd::prelude::*;

verus! {

/// The longest character reference considered, counted from `&` to `;`.
pub const MAX_REFERENCE_LEN: usize = 32;

/// Index of the first `;` in `s` at or after `j`, looking no further than
/// `MAX_REFERENCE_LEN`.
pub open spec fn semicolon_at_or_after(s: Seq<char>, j: int) -> Option<int>
    decreases s.len() - j,
{
    if j < 0 || j >= s.len() || j > MAX_REFERENCE_LEN {
        None
    } else if s[j] == ';' {
        Some(j)
    } else {
        semicolon_at_or_after(s, j + 1)
    }
}

/// Value of an ASCII decimal digit.
pub open spec fn dec_digit(c: char) -> Option<u32> {
    if '0' <= c && c <= '9' {
        Some((c as u32 - '0' as u32) as u32)
    } else {
        None
    }
}

/// Value of an ASCII hexadecimal digit.
pub open spec fn hex_digit(c: char) -> Option<u32> {
    if '0' <= c && c <= '9' {
        Some((c as u32 - '0' as u32) as u32)
    } else if 'a' <= c && c <= 'f' {
        Some((c as u32 - 'a' as u32 + 10) as u32)
    } else if 'A' <= c && c <= 'F' {
        Some((c as u32 - 'A' as u32 + 10) as u32)
    } else {
        None
    }
}

/// Value of the digits `ds` in base `radix` (10 or 16), `None` when some
/// character is not a digit.
pub open spec fn digits_value(ds: Seq<char>, radix: u32) -> Option<nat>
    decreases ds.len(),
{
    if ds.len() == 0 {
        Some(0)
    } else {
        let d = if radix == 16 { hex_digit(ds.last()) } else { dec_digit(ds.last()) };
        match (digits_value(ds.drop_last(), radix), d) {
            (Some(v), Some(d)) => Some(v * radix as nat + d as nat),
            _ => None,
        }
    }
}

/// A code point that `char` can hold, other than NUL.
pub open spec fn is_decodable_code(v: nat) -> bool {
    (0 < v && v < 0xD800) || (0xE000 <= v && v <= 0x10FFFF)
}

/// The code point named by a numeric reference body (`#123`, `#x7B`):
/// at most 7 decimal or 6 hexadecimal digits.
pub open spec fn numeric_reference(name: Seq<char>) -> Option<nat> {
    if name.len() >= 2 && name[0] == '#' {
        let hex = name[1] == 'x' || name[1] == 'X';
        let ds = if hex { name.skip(2) } else { name.skip(1) };
        let max = if hex { 6nat } else { 7nat };
        if 1 <= ds.len() <= max {
            match digits_value(ds, if hex { 16 } else { 10 }) {
                Some(v) => if is_decodable_code(v) { Some(v) } else { None },
                None => None,
            }
        } else {
            None
        }
    } else {
        None
    }
}

/// The character named by a named reference body (`amp`, `lt`, ...).
pub open spec fn named_reference(name: Seq<char>) -> Option<char> {
    if name =~= seq!['a', 'm', 'p'] {
        Some('&')
    } else if name =~= seq!['l', 't'] {
        Some('<')
    } else if name =~= seq!['g', 't'] {
        Some('>')
    } else if name =~= seq!['q', 'u', 'o', 't'] {
        Some('"')
    } else if name =~= seq!['a', 'p', 'o', 's'] {
        Some('\'')
    } else if name =~= seq!['n', 'b', 's', 'p'] {
        Some('\u{A0}')
    } else {
        None
    }
}

/// The character a reference body stands for.
pub open spec fn reference_char(name: Seq<char>) -> Option<char> {
    match named_reference(name) {
        Some(c) => Some(c),
        None => match numeric_reference(name) {
            Some(v) => Some(v as char),
            None => None,
        },
    }
}

/// When `s` starts with `&` and a recognised character reference, the
/// character and the length of the reference (through its `;`).
pub open spec fn reference_at(s: Seq<char>) -> Option<(char, nat)> {
    if s.len() > 0 && s[0] == '&' {
        match semicolon_at_or_after(s, 1) {
            Some(j) => match reference_char(s.subrange(1, j)) {
                Some(c) => Some((c, (j + 1) as nat)),
                None => None,
            },
            None => None,
        }
    } else {
        None
    }
}

/// `s` with its character references replaced by the characters they name;
/// an `&` that starts no recognised reference stays as it is.
pub open spec fn decode_entities(s: Seq<char>) -> Seq<char>
    decreases s.len(),
{
    if s.len() == 0 {
        Seq::empty()
    } else {
        match reference_at(s) {
            Some((c, n)) => if 0 < n <= s.len() {
                seq![c] + decode_entities(s.skip(n as int))
            } else {
                seq![s[0]] + decode_entities(s.skip(1))
            },
            None => seq![s[0]] + decode_entities(s.skip(1)),
        }
    }
}

/// `char::from_u32`: the character with code point `code`, if there is one.
#[verifier::external_body]
fn char_from_u32(code: u32) -> (res: Option<char>)
    ensures
        res is Some <==> (code < 0xD800 || (0xE000 <= code && code <= 0x10FFFF)),
        res matches Some(c) ==> c as u32 == code && c == code as char,
{
    char::from_u32(code)
}

fn dec_digit_of(c: char) -> (res: Option<u32>)
    ensures
        res == dec_digit(c),
{
    if '0' <= c && c <= '9' {
        Some(c as u32 - '0' as u32)
    } else {
        None
    }
}

fn hex_digit_of(c: char) -> (res: Option<u32>)
    ensures
        res == hex_digit(c),
{
    if '0' <= c && c <= '9' {
        Some(c as u32 - '0' as u32)
    } else if 'a' <= c && c <= 'f' {
        Some(c as u32 - 'a' as u32 + 10)
    } else if 'A' <= c && c <= 'F' {
        Some(c as u32 - 'A' as u32 + 10)
    } else {
        None
    }
}

proof fn lemma_digits_value_bound(ds: Seq<char>, radix: u32)
    requires
        radix == 10 || radix == 16,
    ensures
        digits_value(ds, radix) matches Some(v) ==> v < pow_nat(radix as nat, ds.len()),
    decreases ds.len(),
{
    if ds.len() > 0 {
        lemma_digits_value_bound(ds.drop_last(), radix);
        let d = if radix == 16 { hex_digit(ds.last()) } else { dec_digit(ds.last()) };
        if let (Some(v), Some(dd)) = (digits_value(ds.drop_last(), radix), d) {
            let p = pow_nat(radix as nat, (ds.len() - 1) as nat);
            assert(dd < radix);
            assert(v * radix as nat + dd < p * radix as nat) by (nonlinear_arith)
                requires
                    v < p,
                    dd < radix,
            ;
        }
    }
}

/// `base` to the power `e`.
pub open spec fn pow_nat(base: nat, e: nat) -> nat
    decreases e,
{
    if e == 0 {
        1
    } else {
        pow_nat(base, (e - 1) as nat) * base
    }
}

/// The code point of the numeric reference body `s[from..to]`.
fn parse_numeric_reference(s: &[char], from: usize, to: usize) -> (res: Option<u32>)
    requires
        from <= to <= s@.len(),
    ensures
        res matches Some(v) ==> numeric_reference(s@.subrange(from as int, to as int)) == Some(v as nat),
        res is None ==> numeric_reference(s@.subrange(from as int, to as int)) is None,
{
    let ghost name = s@.subrange(from as int, to as int);
    if to - from < 2 || s[from] != '#' {
        return None;
    }
    assert(name[0] == s@[from as int] && name[1] == s@[from + 1]);
    let hex = s[from + 1] == 'x' || s[from + 1] == 'X';
    let start = if hex { from + 2 } else { from + 1 };
    let max: usize = if hex { 6 } else { 7 };
    let radix: u32 = if hex { 16 } else { 10 };
    let ghost ds = if hex { name.skip(2) } else { name.skip(1) };
    assert(ds =~= s@.subrange(start as int, to as int));
    if to - start < 1 || to - start > max {
        return None;
    }
    let mut value: u32 = 0;
    let mut i = start;
    proof {
        assert(s@.subrange(start as int, start as int) =~= Seq::<char>::empty());
    }
    while i < to
        invariant
            start <= i <= to <= s@.len(),
            from + 2 <= to,
            s@[from as int] == '#',
            hex == (s@[from + 1] == 'x' || s@[from + 1] == 'X'),
            start == if hex { from + 2 } else { from + 1 },
            1 <= to - start <= max,
            max == if hex { 6usize } else { 7usize },
            radix == if hex { 16u32 } else { 10u32 },
            digits_value(s@.subrange(start as int, i as int), radix) == Some(value as nat),
            value < pow_nat(radix as nat, (i - start) as nat),
        decreases to - i,
    {
        let d = if hex { hex_digit_of(s[i]) } else { dec_digit_of(s[i]) };
        let ghost prefix = s@.subrange(start as int, i + 1);
        assert(prefix.drop_last() =~= s@.subrange(start as int, i as int));
        assert(prefix.last() == s@[i as int]);
        match d {
            None => {
                proof {
                    lemma_digits_none_extends(s@.subrange(start as int, to as int), (i - start) as int, radix);
                    let nm = s@.subrange(from as int, to as int);
                    assert(nm[0] == '#' && nm[1] == s@[from + 1]);
                    if hex {
                        assert(nm.skip(2) =~= s@.subrange(start as int, to as int));
                    } else {
                        assert(nm.skip(1) =~= s@.subrange(start as int, to as int));
                    }
                }
                return None;
            },
            Some(dv) => {
                proof {
                    lemma_pow_bound(radix as nat, (i - start) as nat);
                    assert(value * radix + dv < pow_nat(radix as nat, (i + 1 - start) as nat)) by (nonlinear_arith)
                        requires
                            value < pow_nat(radix as nat, (i - start) as nat),
                            dv < radix,
                            pow_nat(radix as nat, (i + 1 - start) as nat) == pow_nat(radix as nat, (i - start) as nat) * radix,
                    ;
                    lemma_pow_bound(radix as nat, (i + 1 - start) as nat);
                }
                value = value * radix + dv;
            },
        }
        i = i + 1;
    }
    if (0 < value && value < 0xD800) || (0xE000 <= value && value <= 0x10FFFF) {
        Some(value)
    } else {
        None
    }
}

proof fn lemma_pow_bound(radix: nat, e: nat)
    requires
        radix == 10 || radix == 16,
        e <= 7,
        radix == 16 ==> e <= 6,
    ensures
        pow_nat(radix, e) <= 16777216,
        e > 0 ==> pow_nat(radix, e) == pow_nat(radix, (e - 1) as nat) * radix,
    decreases e,
{
    if e > 0 {
        lemma_pow_bound(radix, (e - 1) as nat);
    }
    reveal_with_fuel(pow_nat, 8);
}

proof fn lemma_digits_none_extends(ds: Seq<char>, k: int, radix: u32)
    requires
        0 <= k < ds.len(),
        (if radix == 16 { hex_digit(ds[k]) } else { dec_digit(ds[k]) }) is None,
    ensures
        digits_value(ds, radix) is None,
    decreases ds.len(),
{
    if k < ds.len() - 1 {
        lemma_digits_none_extends(ds.drop_last(), k, radix);
    }
}

} // verus!

verus! {

/// Whether `s[from..to]` equals `lit`.
fn range_equals(s: &[char], from: usize, to: usize, lit: &[char]) -> (res: bool)
    requires
        from <= to <= s@.len(),
    ensures
        res == (s@.subrange(from as int, to as int) =~= lit@),
{
    if to - from != lit.len() {
        return false;
    }
    let mut i: usize = 0;
    while i < lit.len()
        invariant
            to - from == lit@.len(),
            from <= to <= s@.len(),
            i <= lit@.len(),
            forall|j: int| 0 <= j < i ==> s@[from + j] == lit@[j],
        decreases lit@.len() - i,
    {
        if s[from + i] != lit[i] {
            assert(s@.subrange(from as int, to as int)[i as int] != lit@[i as int]);
            return false;
        }
        i = i + 1;
    }
    true
}

/// The character named by the reference body `s[from..to]`.
fn parse_reference(s: &[char], from: usize, to: usize) -> (res: Option<char>)
    requires
        from <= to <= s@.len(),
    ensures
        res == reference_char(s@.subrange(from as int, to as int)),
{
    let ghost name = s@.subrange(from as int, to as int);
    if range_equals(s, from, to, &['a', 'm', 'p']) {
        return Some('&');
    }
    if range_equals(s, from, to, &['l', 't']) {
        return Some('<');
    }
    if range_equals(s, from, to, &['g', 't']) {
        return Some('>');
    }
    if range_equals(s, from, to, &['q', 'u', 'o', 't']) {
        return Some('"');
    }
    if range_equals(s, from, to, &['a', 'p', 'o', 's']) {
        return Some('\'');
    }
    if range_equals(s, from, to, &['n', 'b', 's', 'p']) {
        return Some('\u{A0}');
    }
    assert(named_reference(name) is None);
    match parse_numeric_reference(s, from, to) {
        Some(code) => match char_from_u32(code) {
            Some(c) => {
                assert(c == (code as nat) as char);
                Some(c)
            },
            None => None,
        },
        None => None,
    }
}

/// `s` with its character references decoded (see `decode_entities`).
pub fn decode_html_entities(s: &[char]) -> (res: Vec<char>)
    ensures
        res@ == decode_entities(s@),
{
    let mut out: Vec<char> = Vec::new();
    let mut i: usize = 0;
    assert(s@.skip(0) =~= s@);
    while i < s.len()
        invariant
            i <= s@.len(),
            decode_entities(s@) == out@ + decode_entities(s@.skip(i as int)),
        decreases s@.len() - i,
    {
        let ghost rest = s@.skip(i as int);
        let mut decoded = false;
        if s[i] == '&' {
            let mut j = i + 1;
            while j < s.len() && j - i <= MAX_REFERENCE_LEN && s[j] != ';'
                invariant
                    i < j <= s@.len(),
                    s@[i as int] == '&',
                    rest == s@.skip(i as int),
                    semicolon_at_or_after(rest, 1) == semicolon_at_or_after(rest, (j - i) as int),
                decreases s@.len() - j,
            {
                j = j + 1;
            }
            if j < s.len() && j - i <= MAX_REFERENCE_LEN {
                assert(semicolon_at_or_after(rest, (j - i) as int) == Some((j - i) as int));
                assert(rest.subrange(1, (j - i) as int) =~= s@.subrange(i + 1, j as int));
                if let Some(c) = parse_reference(s, i + 1, j) {
                    out.push(c);
                    proof {
                        assert(s@.skip(i as int).skip((j + 1 - i) as int) =~= s@.skip(j + 1));
                    }
                    i = j + 1;
                    decoded = true;
                }
            } else {
                assert(semicolon_at_or_after(rest, (j - i) as int) is None);
            }
        }
        if !decoded {
            out.push(s[i]);
            proof {
                assert(rest[0] == s@[i as int]);
                assert(rest.skip(1) =~= s@.skip(i + 1));
            }
            i = i + 1;
        }
    }
    assert(s@.skip(i as int) =~= Seq::<char>::empty());
    assert(out@ + Seq::<char>::empty() =~= out@);
    out
}

} // verus!

verus! {

/// `s` with a backslash put before each character that satisfies `needs`.
pub open spec fn backslash_escaped(s: Seq<char>, needs: spec_fn(char) -> bool) -> Seq<char>
    decreases s.len(),
{
    if s.len() == 0 {
        Seq::empty()
    } else {
        backslash_escaped(s.drop_last(), needs) + if needs(s.last()) {
            seq!['\\', s.last()]
        } else {
            seq![s.last()]
        }
    }
}

/// `s` with each `from` replaced by `with`.
pub open spec fn replace_char(s: Seq<char>, from: char, with: Seq<char>) -> Seq<char>
    decreases s.len(),
{
    if s.len() == 0 {
        Seq::empty()
    } else {
        replace_char(s.drop_last(), from, with) + if s.last() == from {
            with
        } else {
            seq![s.last()]
        }
    }
}

/// ASCII punctuation (`char::is_ascii_punctuation`).
pub open spec fn is_ascii_punct(c: char) -> bool {
    ('!' <= c && c <= '/') || (':' <= c && c <= '@') || ('[' <= c && c <= '`') || ('{' <= c
        && c <= '~')
}

/// The characters that `escape_misc` protects: `\ & < > ` [ ] ~ = + |`.
pub open spec fn is_misc_markdown_char(c: char) -> bool {
    c == '\\' || c == '&' || c == '<' || c == '>' || c == '`' || c == '[' || c == ']' || c == '~'
        || c == '=' || c == '+' || c == '|'
}

/// Whether Markdown escaping with the given switches puts a backslash before `c`.
pub open spec fn markdown_escape_needed(
    c: char,
    escape_misc: bool,
    escape_asterisks: bool,
    escape_underscores: bool,
    escape_ascii: bool,
) -> bool {
    ||| escape_ascii && is_ascii_punct(c)
    ||| escape_misc && is_misc_markdown_char(c)
    ||| escape_asterisks && c == '*'
    ||| escape_underscores && c == '_'
}

/// `s` escaped for Markdown with the given switches.
pub open spec fn markdown_escaped(
    s: Seq<char>,
    escape_misc: bool,
    escape_asterisks: bool,
    escape_underscores: bool,
    escape_ascii: bool,
) -> Seq<char> {
    backslash_escaped(
        s,
        |c: char| markdown_escape_needed(c, escape_misc, escape_asterisks, escape_underscores, escape_ascii),
    )
}

/// Escapes `text` for Markdown: with `escape_ascii` every ASCII punctuation
/// character, with `escape_misc` the characters of `is_misc_markdown_char`,
/// with `escape_asterisks` each `*` and with `escape_underscores` each `_`.
pub fn escape(
    text: &[char],
    escape_misc: bool,
    escape_asterisks: bool,
    escape_underscores: bool,
    escape_ascii: bool,
) -> (res: Vec<char>)
    ensures
        res@ == markdown_escaped(text@, escape_misc, escape_asterisks, escape_underscores, escape_ascii),
{
    let ghost needs = |c: char|
        markdown_escape_needed(c, escape_misc, escape_asterisks, escape_underscores, escape_ascii);
    let mut out: Vec<char> = Vec::new();
    let mut i: usize = 0;
    while i < text.len()
        invariant
            i <= text@.len(),
            needs == |c: char|
                markdown_escape_needed(c, escape_misc, escape_asterisks, escape_underscores, escape_ascii),
            out@ == backslash_escaped(text@.take(i as int), needs),
        decreases text@.len() - i,
    {
        let c = text[i];
        let punct = ('!' <= c && c <= '/') || (':' <= c && c <= '@') || ('[' <= c && c <= '`') || (
        '{' <= c && c <= '~');
        let misc = c == '\\' || c == '&' || c == '<' || c == '>' || c == '`' || c == '[' || c == ']'
            || c == '~' || c == '=' || c == '+' || c == '|';
        let needed = (escape_ascii && punct) || (escape_misc && misc) || (escape_asterisks && c
            == '*') || (escape_underscores && c == '_');
        assert(text@.take(i + 1).drop_last() =~= text@.take(i as int));
        assert(needed == needs(text@.take(i + 1).last()));
        if needed {
            out.push('\\');
        }
        out.push(c);
        assert(out@ == backslash_escaped(text@.take(i + 1), needs));
        i = i + 1;
    }
    assert(text@.take(i as int) =~= text@);
    out
}

/// Appends `s` to `out`, writing `with` in place of each `from`.
pub fn push_replacing(out: &mut Vec<char>, s: &[char], from: char, with: &[char])
    ensures
        final(out)@ == old(out)@ + replace_char(s@, from, with@),
{
    let mut i: usize = 0;
    while i < s.len()
        invariant
            i <= s@.len(),
            out@ == old(out)@ + replace_char(s@.take(i as int), from, with@),
        decreases s@.len() - i,
    {
        assert(s@.take(i + 1).drop_last() =~= s@.take(i as int));
        if s[i] == from {
            push_all(out, with);
        } else {
            out.push(s[i]);
        }
        assert(out@ =~= old(out)@ + replace_char(s@.take(i + 1), from, with@));
        i = i + 1;
    }
    assert(s@.take(i as int) =~= s@);
}

/// Appends all of `s` to `out`.
pub fn push_all(out: &mut Vec<char>, s: &[char])
    ensures
        final(out)@ == old(out)@ + s@,
{
    let mut i: usize = 0;
    while i < s.len()
        invariant
            i <= s@.len(),
            out@ == old(out)@ + s@.take(i as int),
        decreases s@.len() - i,
    {
        out.push(s[i]);
        assert(s@.take(i + 1) =~= s@.take(i as int).push(s@[i as int]));
        assert(out@ =~= old(out)@ + s@.take(i + 1));
        i = i + 1;
    }
    assert(s@.take(i as int) =~= s@);
}

} // verus!
