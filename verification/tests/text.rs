use fast_h2m::chars::{split_lines, trimmed};
use fast_h2m::markdown::{collapse_whitespace, format_destination, normalize_text};
use fast_h2m::text::{decode_html_entities, escape};

fn chars(s: &str) -> Vec<char> {
    s.chars().collect()
}

fn string(v: &[char]) -> String {
    v.iter().collect()
}

#[test]
fn character_references_are_decoded() {
    assert_eq!(
        string(&decode_html_entities(&chars("&lt;a&gt; &amp;&quot;&apos;&nbsp;&#169;&#x1F600;&#X41;"))),
        "<a> &\"'\u{a0}©😀A"
    );
    assert_eq!(string(&decode_html_entities(&chars("&unknown; & &#xD800; &#0; &amp"))), "&unknown; & &#xD800; &#0; &amp");
    assert_eq!(string(&decode_html_entities(&chars("&#12345678;"))), "&#12345678;");
}

#[test]
fn escaping_switches() {
    let text = chars("a*b_c[d]#e");
    assert_eq!(string(&escape(&text, false, false, false, false)), "a*b_c[d]#e");
    assert_eq!(string(&escape(&text, false, true, false, false)), "a\\*b_c[d]#e");
    assert_eq!(string(&escape(&text, false, false, true, false)), "a*b\\_c[d]#e");
    assert_eq!(string(&escape(&text, true, false, false, false)), "a*b_c\\[d\\]#e");
    assert_eq!(string(&escape(&text, false, false, false, true)), "a\\*b\\_c\\[d\\]\\#e");
}

#[test]
fn whitespace_is_collapsed() {
    assert_eq!(string(&collapse_whitespace(&chars(" a \t\n b\u{a0}\u{2003}c "))), " a b c ");
    assert_eq!(string(&normalize_text(&chars("already clean"))), "already clean");
    assert_eq!(string(&normalize_text(&chars("two  spaces"))), "two spaces");
    assert_eq!(string(&normalize_text(&chars("tab\there"))), "tab here");
}

#[test]
fn trimming_and_lines() {
    assert_eq!(string(&trimmed(&chars(" \u{3000}x y\n"))), "x y");
    assert_eq!(string(&trimmed(&chars("   "))), "");
    let lines: Vec<String> = split_lines(&chars("a\r\n\nb\rc\n")).iter().map(|l| string(l)).collect();
    assert_eq!(lines, vec!["a".to_string(), "".to_string(), "b\rc".to_string()]);
}

#[test]
fn destinations_with_whitespace_are_bracketed() {
    assert_eq!(string(&format_destination(&chars("https://e.com/a"))), "https://e.com/a");
    assert_eq!(string(&format_destination(&chars("a b\nc"))), "<a b%0Ac>");
}
