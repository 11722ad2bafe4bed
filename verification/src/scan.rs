//! Byte-scanning helpers used to decide whether a text needs further work.

use vstd::prelude::*;

verus! {

/// A byte that marks binary (non-text) input: any control byte below TAB,
/// or one in `0x0E..0x20`.
pub open spec fn is_control_marker(byte: u8) -> bool {
    byte < 0x09 || (0x0E <= byte && byte < 0x20)
}

/// Number of bytes of `bytes` that satisfy `pred`.
pub open spec fn count_matching(bytes: Seq<u8>, pred: spec_fn(u8) -> bool) -> nat
    decreases bytes.len(),
{
    if bytes.len() == 0 {
        0
    } else {
        count_matching(bytes.drop_last(), pred) + if pred(bytes.last()) { 1nat } else { 0nat }
    }
}

proof fn lemma_count_matching_bound(bytes: Seq<u8>, pred: spec_fn(u8) -> bool)
    ensures
        count_matching(bytes, pred) <= bytes.len(),
    decreases bytes.len(),
{
    if bytes.len() > 0 {
        lemma_count_matching_bound(bytes.drop_last(), pred);
    }
}

/// Counts the control bytes and the NUL bytes of `bytes`, in that order.
pub fn count_binary_markers(bytes: &[u8]) -> (counts: (usize, usize))
    ensures
        counts.0 == count_matching(bytes@, |b: u8| is_control_marker(b)),
        counts.1 == count_matching(bytes@, |b: u8| b == 0),
{
    let mut control_count: usize = 0;
    let mut nul_count: usize = 0;
    let mut i: usize = 0;
    while i < bytes.len()
        invariant
            i <= bytes.len(),
            control_count == count_matching(bytes@.take(i as int), |b: u8| is_control_marker(b)),
            nul_count == count_matching(bytes@.take(i as int), |b: u8| b == 0),
        decreases bytes.len() - i,
    {
        let byte = bytes[i];
        proof {
            assert(bytes@.take(i + 1).drop_last() =~= bytes@.take(i as int));
            lemma_count_matching_bound(bytes@.take(i as int), |b: u8| is_control_marker(b));
            lemma_count_matching_bound(bytes@.take(i as int), |b: u8| b == 0);
        }
        if byte == 0 {
            nul_count = nul_count + 1;
        }
        if byte < 0x09 || (0x0E <= byte && byte < 0x20) {
            control_count = control_count + 1;
        }
        i = i + 1;
    }
    assert(bytes@.take(i as int) =~= bytes@);
    (control_count, nul_count)
}

/// Whether `needle` occurs in `bytes`.
pub fn contains_byte(bytes: &[u8], needle: u8) -> (found: bool)
    ensures
        found == bytes@.contains(needle),
{
    let mut i: usize = 0;
    while i < bytes.len()
        invariant
            i <= bytes.len(),
            forall|j: int| 0 <= j < i ==> bytes@[j] != needle,
        decreases bytes.len() - i,
    {
        if bytes[i] == needle {
            return true;
        }
        i = i + 1;
    }
    false
}

/// Whether `first` or `second` occurs in `bytes`.
pub fn contains_any2(bytes: &[u8], first: u8, second: u8) -> (found: bool)
    ensures
        found == exists|j: int| 0 <= j < bytes@.len() && (bytes@[j] == first || bytes@[j] == second),
{
    let mut i: usize = 0;
    while i < bytes.len()
        invariant
            i <= bytes.len(),
            forall|j: int| 0 <= j < i ==> bytes@[j] != first && bytes@[j] != second,
        decreases bytes.len() - i,
    {
        if bytes[i] == first || bytes[i] == second {
            return true;
        }
        i = i + 1;
    }
    false
}

/// An ASCII whitespace or control byte (`<= b' '`), or a byte of a multi-byte
/// UTF-8 sequence (`>= 0x80`).
pub open spec fn is_space_or_non_ascii(byte: u8) -> bool {
    byte <= 0x20 || byte >= 0x80
}

/// Whether some byte of `bytes` is a space, a control byte or non-ASCII.
pub fn contains_ascii_whitespace_or_non_ascii(bytes: &[u8]) -> (found: bool)
    ensures
        found == exists|j: int| 0 <= j < bytes@.len() && is_space_or_non_ascii(#[trigger] bytes@[j]),
{
    let mut i: usize = 0;
    while i < bytes.len()
        invariant
            i <= bytes.len(),
            forall|j: int| 0 <= j < i ==> !is_space_or_non_ascii(#[trigger] bytes@[j]),
        decreases bytes.len() - i,
    {
        if bytes[i] <= 0x20 || bytes[i] >= 0x80 {
            return true;
        }
        i = i + 1;
    }
    false
}

} // verus!
