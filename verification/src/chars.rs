//! Character-level primitives: Unicode whitespace, trimming, line splitting and
//! conversion between strings and character vectors.

use vstd::prelude::*;

verus! {

/// Unicode `White_Space`, the property that `char::is_whitespace` tests.
pub open spec fn is_ws(c: char) -> bool {
    ||| ('\u{9}' <= c && c <= '\u{D}')
    ||| c == ' '
    ||| c == '\u{85}'
    ||| c == '\u{A0}'
    ||| c == '\u{1680}'
    ||| ('\u{2000}' <= c && c <= '\u{200A}')
    ||| c == '\u{2028}'
    ||| c == '\u{2029}'
    ||| c == '\u{202F}'
    ||| c == '\u{205F}'
    ||| c == '\u{3000}'
}

/// Whether `c` is Unicode whitespace.
pub fn is_whitespace(c: char) -> (res: bool)
    ensures
        res == is_ws(c),
{
    ('\u{9}' <= c && c <= '\u{D}') || c == ' ' || c == '\u{85}' || c == '\u{A0}' || c == '\u{1680}'
        || ('\u{2000}' <= c && c <= '\u{200A}') || c == '\u{2028}' || c == '\u{2029}' || c
        == '\u{202F}' || c == '\u{205F}' || c == '\u{3000}'
}

/// `s` without its trailing whitespace.
pub open spec fn trim_end(s: Seq<char>) -> Seq<char>
    decreases s.len(),
{
    if s.len() > 0 && is_ws(s.last()) {
        trim_end(s.drop_last())
    } else {
        s
    }
}

/// `s` without its leading whitespace.
pub open spec fn trim_start(s: Seq<char>) -> Seq<char>
    decreases s.len(),
{
    if s.len() > 0 && is_ws(s[0]) {
        trim_start(s.drop_first())
    } else {
        s
    }
}

/// `s` without leading and trailing whitespace (`str::trim`).
pub open spec fn trim(s: Seq<char>) -> Seq<char> {
    trim_start(trim_end(s))
}

pub proof fn lemma_trim_end_is_prefix(s: Seq<char>)
    ensures
        trim_end(s).len() <= s.len(),
        trim_end(s) =~= s.take(trim_end(s).len() as int),
    decreases s.len(),
{
    if s.len() > 0 && is_ws(s.last()) {
        lemma_trim_end_is_prefix(s.drop_last());
    }
}

pub proof fn lemma_trim_start_is_suffix(s: Seq<char>)
    ensures
        trim_start(s).len() <= s.len(),
        trim_start(s) =~= s.skip(s.len() - trim_start(s).len()),
    decreases s.len(),
{
    if s.len() > 0 && is_ws(s[0]) {
        lemma_trim_start_is_suffix(s.drop_first());
    }
}

/// Removes trailing whitespace from `v` in place.
pub fn pop_trailing_whitespace(v: &mut Vec<char>)
    ensures
        final(v)@ == trim_end(old(v)@),
{
    while v.len() > 0 && is_whitespace(v[v.len() - 1])
        invariant
            trim_end(v@) == trim_end(old(v)@),
        decreases v.len(),
    {
        v.pop();
    }
}

/// Index of the first non-whitespace character of `s` at or after `from`
/// (the length of `s` when there is none).
fn skip_whitespace(s: &[char], from: usize) -> (k: usize)
    requires
        from <= s@.len(),
    ensures
        from <= k <= s@.len(),
        trim_start(s@.skip(from as int)) == trim_start(s@.skip(k as int)),
        k < s@.len() ==> !is_ws(s@[k as int]),
        forall|j: int| from <= j < k ==> is_ws(#[trigger] s@[j]),
{
    let mut k = from;
    while k < s.len() && is_whitespace(s[k])
        invariant
            from <= k <= s@.len(),
            trim_start(s@.skip(from as int)) == trim_start(s@.skip(k as int)),
            forall|j: int| from <= j < k ==> is_ws(#[trigger] s@[j]),
        decreases s@.len() - k,
    {
        assert(s@.skip(k as int).drop_first() =~= s@.skip(k + 1));
        k = k + 1;
    }
    if k < s.len() {
        assert(s@.skip(k as int)[0] == s@[k as int]);
    } else {
        assert(s@.skip(k as int).len() == 0);
    }
    k
}

/// Copies `s[from..to]` into a new vector.
pub fn copy_range(s: &[char], from: usize, to: usize) -> (res: Vec<char>)
    requires
        from <= to <= s@.len(),
    ensures
        res@ == s@.subrange(from as int, to as int),
{
    let mut res: Vec<char> = Vec::new();
    let mut i = from;
    while i < to
        invariant
            from <= i <= to <= s@.len(),
            res@ == s@.subrange(from as int, i as int),
        decreases to - i,
    {
        res.push(s[i]);
        i = i + 1;
    }
    res
}

/// `s` without leading and trailing whitespace (`str::trim`).
pub fn trimmed(s: &[char]) -> (res: Vec<char>)
    ensures
        res@ == trim(s@),
{
    let mut end = s.len();
    assert(s@.take(end as int) =~= s@);
    while end > 0 && is_whitespace(s[end - 1])
        invariant
            end <= s@.len(),
            trim_end(s@) == trim_end(s@.take(end as int)),
        decreases end,
    {
        assert(s@.take(end as int).drop_last() =~= s@.take(end - 1));
        end = end - 1;
    }
    let ghost te = s@.take(end as int);
    assert(trim_end(te) == te);
    let start = skip_whitespace(s, 0);
    assert(s@.skip(0) =~= s@);
    // the leading whitespace run ends at `start`; it lies inside `te` unless all is blank
    if start >= end {
        proof {
            lemma_trim_start_all_ws(te);
        }
        Vec::new()
    } else {
        proof {
            lemma_trim_start_prefix(s@, end as int, start as int);
        }
        copy_range(s, start, end)
    }
}

proof fn lemma_trim_start_all_ws(s: Seq<char>)
    requires
        forall|j: int| 0 <= j < s.len() ==> is_ws(#[trigger] s[j]),
    ensures
        trim_start(s) =~= Seq::<char>::empty(),
    decreases s.len(),
{
    if s.len() > 0 {
        assert(is_ws(s[0]));
        lemma_trim_start_all_ws(s.drop_first());
    }
}

proof fn lemma_trim_start_prefix(s: Seq<char>, end: int, start: int)
    requires
        0 <= start < end <= s.len(),
        forall|j: int| 0 <= j < start ==> is_ws(#[trigger] s[j]),
        !is_ws(s[start]),
    ensures
        trim_start(s.take(end)) =~= s.subrange(start, end),
    decreases start,
{
    if start > 0 {
        assert(is_ws(s.take(end)[0]));
        assert(s.take(end).drop_first() =~= s.drop_first().take(end - 1));
        lemma_trim_start_prefix(s.drop_first(), end - 1, start - 1);
        assert(s.drop_first().subrange(start - 1, end - 1) =~= s.subrange(start, end));
    } else {
        assert(s.take(end)[0] == s[0]);
        assert(s.take(end) =~= s.subrange(0, end));
    }
}

} // verus!

verus! {

/// The characters of `s`, in order.
pub fn chars_of(s: &str) -> (res: Vec<char>)
    ensures
        res@ == s@,
{
    let mut res: Vec<char> = Vec::new();
    for c in it: s.chars()
        invariant
            res@ == it.seq().take(it.index() as int),
    {
        res.push(c);
    }
    res
}

/// The string made of the characters of `chars`; `String: FromIterator<&char>`.
#[verifier::external_body]
pub fn string_of(chars: &[char]) -> (res: String)
    ensures
        res@ == chars@,
{
    chars.iter().collect()
}

} // verus!

verus! {

pub proof fn lemma_trim_end_idempotent(s: Seq<char>)
    ensures
        trim_end(trim_end(s)) == trim_end(s),
        trim(trim_end(s)) == trim(s),
    decreases s.len(),
{
    if s.len() > 0 && is_ws(s.last()) {
        lemma_trim_end_idempotent(s.drop_last());
    }
}

} // verus!

verus! {

/// `line` without a final carriage return.
pub open spec fn strip_cr(line: Seq<char>) -> Seq<char> {
    if line.len() > 0 && line.last() == '\r' {
        line.drop_last()
    } else {
        line
    }
}

/// The lines of `s` after the partial line `cur` (`str::lines`): split at
/// each `\n`, a `\r` before the `\n` dropped, no line after a final `\n`.
pub open spec fn lines_after(s: Seq<char>, cur: Seq<char>) -> Seq<Seq<char>>
    decreases s.len(),
{
    if s.len() == 0 {
        if cur.len() == 0 {
            Seq::empty()
        } else {
            seq![cur]
        }
    } else if s[0] == '\n' {
        seq![strip_cr(cur)] + lines_after(s.drop_first(), Seq::empty())
    } else {
        lines_after(s.drop_first(), cur.push(s[0]))
    }
}

/// The lines of `s` (`str::lines`).
pub open spec fn lines(s: Seq<char>) -> Seq<Seq<char>> {
    lines_after(s, Seq::empty())
}

/// The views of a vector of lines.
pub open spec fn lines_view(ls: Seq<Vec<char>>) -> Seq<Seq<char>> {
    ls.map_values(|l: Vec<char>| l@)
}

/// Splits `s` into its lines (see `lines`).
pub fn split_lines(s: &[char]) -> (res: Vec<Vec<char>>)
    ensures
        lines_view(res@) == lines(s@),
{
    let mut res: Vec<Vec<char>> = Vec::new();
    let mut cur: Vec<char> = Vec::new();
    let mut i: usize = 0;
    assert(s@.skip(0) =~= s@);
    while i < s.len()
        invariant
            i <= s@.len(),
            lines(s@) == lines_view(res@) + lines_after(s@.skip(i as int), cur@),
        decreases s@.len() - i,
    {
        let ghost rest = s@.skip(i as int);
        assert(rest[0] == s@[i as int]);
        assert(rest.drop_first() =~= s@.skip(i + 1));
        if s[i] == '\n' {
            let ghost before = cur@;
            if cur.len() > 0 && cur[cur.len() - 1] == '\r' {
                cur.pop();
            }
            assert(cur@ == strip_cr(before));
            let line = cur;
            cur = Vec::new();
            let ghost old_res = res@;
            res.push(line);
            assert(lines_view(res@) =~= lines_view(old_res) + seq![strip_cr(before)]);
            assert(lines_after(rest, before) == seq![strip_cr(before)] + lines_after(
                s@.skip(i + 1),
                Seq::empty(),
            ));
            assert(lines_view(res@) + lines_after(s@.skip(i + 1), cur@) =~= lines_view(old_res)
                + (seq![strip_cr(before)] + lines_after(s@.skip(i + 1), Seq::empty())));
        } else {
            cur.push(s[i]);
        }
        i = i + 1;
    }
    assert(s@.skip(i as int).len() == 0);
    if cur.len() > 0 {
        let ghost old_res = res@;
        let ghost last = cur@;
        res.push(cur);
        assert(lines_view(res@) =~= lines_view(old_res) + seq![last]);
    } else {
        assert(lines_view(res@) + Seq::<Seq<char>>::empty() =~= lines_view(res@));
    }
    res
}

} // verus!
