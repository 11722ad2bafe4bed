//! Tag names and the facts about elements that the DOM context reads.

use vstd::prelude::*;
use crate::chars::{chars_of, string_of};
use vstd::utf8::is_ascii_chars;

verus! {

/// Whether `a` and `b` hold the same characters.
pub fn same_text(a: &str, b: &str) -> (res: bool)
    ensures
        res == (a@ == b@),
{
    let x = chars_of(a);
    let y = chars_of(b);
    if x.len() != y.len() {
        return false;
    }
    let mut i: usize = 0;
    while i < x.len()
        invariant
            x@ == a@,
            y@ == b@,
            x@.len() == y@.len(),
            i <= x@.len(),
            forall|j: int| 0 <= j < i ==> x@[j] == y@[j],
        decreases x@.len() - i,
    {
        if x[i] != y[i] {
            return false;
        }
        i = i + 1;
    }
    assert(a@ =~= b@);
    true
}

/// The tag names interned as static strings.
pub open spec fn is_common_tag_name(s: Seq<char>) -> bool {
    ||| s == "a"@
    ||| s == "b"@
    ||| s == "i"@
    ||| s == "p"@
    ||| s == "s"@
    ||| s == "u"@
    ||| s == "br"@
    ||| s == "dd"@
    ||| s == "dl"@
    ||| s == "dt"@
    ||| s == "em"@
    ||| s == "h1"@
    ||| s == "h2"@
    ||| s == "h3"@
    ||| s == "h4"@
    ||| s == "h5"@
    ||| s == "h6"@
    ||| s == "hr"@
    ||| s == "li"@
    ||| s == "ol"@
    ||| s == "rb"@
    ||| s == "rp"@
    ||| s == "rt"@
    ||| s == "td"@
    ||| s == "th"@
    ||| s == "tr"@
    ||| s == "ul"@
    ||| s == "div"@
    ||| s == "dfn"@
    ||| s == "img"@
    ||| s == "ins"@
    ||| s == "kbd"@
    ||| s == "nav"@
    ||| s == "pre"@
    ||| s == "rtc"@
    ||| s == "sub"@
    ||| s == "sup"@
    ||| s == "var"@
    ||| s == "wbr"@
    ||| s == "abbr"@
    ||| s == "body"@
    ||| s == "code"@
    ||| s == "data"@
    ||| s == "form"@
    ||| s == "head"@
    ||| s == "html"@
    ||| s == "link"@
    ||| s == "main"@
    ||| s == "mark"@
    ||| s == "ruby"@
    ||| s == "samp"@
    ||| s == "span"@
    ||| s == "time"@
    ||| s == "aside"@
    ||| s == "small"@
    ||| s == "style"@
    ||| s == "table"@
    ||| s == "tbody"@
    ||| s == "tfoot"@
    ||| s == "thead"@
    ||| s == "figure"@
    ||| s == "footer"@
    ||| s == "header"@
    ||| s == "iframe"@
    ||| s == "script"@
    ||| s == "source"@
    ||| s == "strong"@
    ||| s == "address"@
    ||| s == "article"@
    ||| s == "caption"@
    ||| s == "details"@
    ||| s == "section"@
    ||| s == "summary"@
    ||| s == "blockquote"@
    ||| s == "figcaption"@
}

/// The interned copy of `raw`, when `raw` is one of the common tag names.
fn common_lowercase_html_tag(raw: &str) -> (res: Option<&'static str>)
    ensures
        res is Some <==> is_common_tag_name(raw@),
        res matches Some(name) ==> name@ == raw@,
{
    if same_text(raw, "a") {
        return Some("a");
    }
    if same_text(raw, "b") {
        return Some("b");
    }
    if same_text(raw, "i") {
        return Some("i");
    }
    if same_text(raw, "p") {
        return Some("p");
    }
    if same_text(raw, "s") {
        return Some("s");
    }
    if same_text(raw, "u") {
        return Some("u");
    }
    if same_text(raw, "br") {
        return Some("br");
    }
    if same_text(raw, "dd") {
        return Some("dd");
    }
    if same_text(raw, "dl") {
        return Some("dl");
    }
    if same_text(raw, "dt") {
        return Some("dt");
    }
    if same_text(raw, "em") {
        return Some("em");
    }
    if same_text(raw, "h1") {
        return Some("h1");
    }
    if same_text(raw, "h2") {
        return Some("h2");
    }
    if same_text(raw, "h3") {
        return Some("h3");
    }
    if same_text(raw, "h4") {
        return Some("h4");
    }
    if same_text(raw, "h5") {
        return Some("h5");
    }
    if same_text(raw, "h6") {
        return Some("h6");
    }
    if same_text(raw, "hr") {
        return Some("hr");
    }
    if same_text(raw, "li") {
        return Some("li");
    }
    if same_text(raw, "ol") {
        return Some("ol");
    }
    if same_text(raw, "rb") {
        return Some("rb");
    }
    if same_text(raw, "rp") {
        return Some("rp");
    }
    if same_text(raw, "rt") {
        return Some("rt");
    }
    if same_text(raw, "td") {
        return Some("td");
    }
    if same_text(raw, "th") {
        return Some("th");
    }
    if same_text(raw, "tr") {
        return Some("tr");
    }
    if same_text(raw, "ul") {
        return Some("ul");
    }
    if same_text(raw, "div") {
        return Some("div");
    }
    if same_text(raw, "dfn") {
        return Some("dfn");
    }
    if same_text(raw, "img") {
        return Some("img");
    }
    if same_text(raw, "ins") {
        return Some("ins");
    }
    if same_text(raw, "kbd") {
        return Some("kbd");
    }
    if same_text(raw, "nav") {
        return Some("nav");
    }
    if same_text(raw, "pre") {
        return Some("pre");
    }
    if same_text(raw, "rtc") {
        return Some("rtc");
    }
    if same_text(raw, "sub") {
        return Some("sub");
    }
    if same_text(raw, "sup") {
        return Some("sup");
    }
    if same_text(raw, "var") {
        return Some("var");
    }
    if same_text(raw, "wbr") {
        return Some("wbr");
    }
    if same_text(raw, "abbr") {
        return Some("abbr");
    }
    if same_text(raw, "body") {
        return Some("body");
    }
    if same_text(raw, "code") {
        return Some("code");
    }
    if same_text(raw, "data") {
        return Some("data");
    }
    if same_text(raw, "form") {
        return Some("form");
    }
    if same_text(raw, "head") {
        return Some("head");
    }
    if same_text(raw, "html") {
        return Some("html");
    }
    if same_text(raw, "link") {
        return Some("link");
    }
    if same_text(raw, "main") {
        return Some("main");
    }
    if same_text(raw, "mark") {
        return Some("mark");
    }
    if same_text(raw, "ruby") {
        return Some("ruby");
    }
    if same_text(raw, "samp") {
        return Some("samp");
    }
    if same_text(raw, "span") {
        return Some("span");
    }
    if same_text(raw, "time") {
        return Some("time");
    }
    if same_text(raw, "aside") {
        return Some("aside");
    }
    if same_text(raw, "small") {
        return Some("small");
    }
    if same_text(raw, "style") {
        return Some("style");
    }
    if same_text(raw, "table") {
        return Some("table");
    }
    if same_text(raw, "tbody") {
        return Some("tbody");
    }
    if same_text(raw, "tfoot") {
        return Some("tfoot");
    }
    if same_text(raw, "thead") {
        return Some("thead");
    }
    if same_text(raw, "figure") {
        return Some("figure");
    }
    if same_text(raw, "footer") {
        return Some("footer");
    }
    if same_text(raw, "header") {
        return Some("header");
    }
    if same_text(raw, "iframe") {
        return Some("iframe");
    }
    if same_text(raw, "script") {
        return Some("script");
    }
    if same_text(raw, "source") {
        return Some("source");
    }
    if same_text(raw, "strong") {
        return Some("strong");
    }
    if same_text(raw, "address") {
        return Some("address");
    }
    if same_text(raw, "article") {
        return Some("article");
    }
    if same_text(raw, "caption") {
        return Some("caption");
    }
    if same_text(raw, "details") {
        return Some("details");
    }
    if same_text(raw, "section") {
        return Some("section");
    }
    if same_text(raw, "summary") {
        return Some("summary");
    }
    if same_text(raw, "blockquote") {
        return Some("blockquote");
    }
    if same_text(raw, "figcaption") {
        return Some("figcaption");
    }
    None
}

/// Names of the elements treated as inline (phrasing content).
pub open spec fn is_inline_name(s: Seq<char>) -> bool {
    ||| s == "a"@
    ||| s == "abbr"@
    ||| s == "acronym"@
    ||| s == "b"@
    ||| s == "bdi"@
    ||| s == "bdo"@
    ||| s == "big"@
    ||| s == "br"@
    ||| s == "button"@
    ||| s == "cite"@
    ||| s == "code"@
    ||| s == "data"@
    ||| s == "dfn"@
    ||| s == "em"@
    ||| s == "font"@
    ||| s == "i"@
    ||| s == "img"@
    ||| s == "input"@
    ||| s == "ins"@
    ||| s == "kbd"@
    ||| s == "label"@
    ||| s == "mark"@
    ||| s == "q"@
    ||| s == "rb"@
    ||| s == "rp"@
    ||| s == "rt"@
    ||| s == "rtc"@
    ||| s == "ruby"@
    ||| s == "s"@
    ||| s == "samp"@
    ||| s == "select"@
    ||| s == "small"@
    ||| s == "span"@
    ||| s == "strike"@
    ||| s == "strong"@
    ||| s == "sub"@
    ||| s == "sup"@
    ||| s == "textarea"@
    ||| s == "time"@
    ||| s == "tt"@
    ||| s == "u"@
    ||| s == "var"@
    ||| s == "wbr"@
}

/// Whether the (lower-case) `name` is an inline element.
fn is_inline_element(name: &str) -> (res: bool)
    ensures
        res == is_inline_name(name@),
{
    if same_text(name, "a") {
        return true;
    }
    if same_text(name, "abbr") {
        return true;
    }
    if same_text(name, "acronym") {
        return true;
    }
    if same_text(name, "b") {
        return true;
    }
    if same_text(name, "bdi") {
        return true;
    }
    if same_text(name, "bdo") {
        return true;
    }
    if same_text(name, "big") {
        return true;
    }
    if same_text(name, "br") {
        return true;
    }
    if same_text(name, "button") {
        return true;
    }
    if same_text(name, "cite") {
        return true;
    }
    if same_text(name, "code") {
        return true;
    }
    if same_text(name, "data") {
        return true;
    }
    if same_text(name, "dfn") {
        return true;
    }
    if same_text(name, "em") {
        return true;
    }
    if same_text(name, "font") {
        return true;
    }
    if same_text(name, "i") {
        return true;
    }
    if same_text(name, "img") {
        return true;
    }
    if same_text(name, "input") {
        return true;
    }
    if same_text(name, "ins") {
        return true;
    }
    if same_text(name, "kbd") {
        return true;
    }
    if same_text(name, "label") {
        return true;
    }
    if same_text(name, "mark") {
        return true;
    }
    if same_text(name, "q") {
        return true;
    }
    if same_text(name, "rb") {
        return true;
    }
    if same_text(name, "rp") {
        return true;
    }
    if same_text(name, "rt") {
        return true;
    }
    if same_text(name, "rtc") {
        return true;
    }
    if same_text(name, "ruby") {
        return true;
    }
    if same_text(name, "s") {
        return true;
    }
    if same_text(name, "samp") {
        return true;
    }
    if same_text(name, "select") {
        return true;
    }
    if same_text(name, "small") {
        return true;
    }
    if same_text(name, "span") {
        return true;
    }
    if same_text(name, "strike") {
        return true;
    }
    if same_text(name, "strong") {
        return true;
    }
    if same_text(name, "sub") {
        return true;
    }
    if same_text(name, "sup") {
        return true;
    }
    if same_text(name, "textarea") {
        return true;
    }
    if same_text(name, "time") {
        return true;
    }
    if same_text(name, "tt") {
        return true;
    }
    if same_text(name, "u") {
        return true;
    }
    if same_text(name, "var") {
        return true;
    }
    if same_text(name, "wbr") {
        return true;
    }
    false
}

/// Names of the block-level elements.
pub open spec fn is_block_name(s: Seq<char>) -> bool {
    ||| s == "address"@
    ||| s == "article"@
    ||| s == "aside"@
    ||| s == "blockquote"@
    ||| s == "body"@
    ||| s == "caption"@
    ||| s == "dd"@
    ||| s == "details"@
    ||| s == "dialog"@
    ||| s == "div"@
    ||| s == "dl"@
    ||| s == "dt"@
    ||| s == "fieldset"@
    ||| s == "figcaption"@
    ||| s == "figure"@
    ||| s == "footer"@
    ||| s == "form"@
    ||| s == "h1"@
    ||| s == "h2"@
    ||| s == "h3"@
    ||| s == "h4"@
    ||| s == "h5"@
    ||| s == "h6"@
    ||| s == "header"@
    ||| s == "hgroup"@
    ||| s == "hr"@
    ||| s == "html"@
    ||| s == "li"@
    ||| s == "main"@
    ||| s == "menu"@
    ||| s == "nav"@
    ||| s == "ol"@
    ||| s == "p"@
    ||| s == "pre"@
    ||| s == "section"@
    ||| s == "summary"@
    ||| s == "table"@
    ||| s == "tbody"@
    ||| s == "td"@
    ||| s == "tfoot"@
    ||| s == "th"@
    ||| s == "thead"@
    ||| s == "tr"@
    ||| s == "ul"@
}

/// Whether the (lower-case) `name` is a block-level element.
fn is_block_name_exec(name: &str) -> (res: bool)
    ensures
        res == is_block_name(name@),
{
    if same_text(name, "address") {
        return true;
    }
    if same_text(name, "article") {
        return true;
    }
    if same_text(name, "aside") {
        return true;
    }
    if same_text(name, "blockquote") {
        return true;
    }
    if same_text(name, "body") {
        return true;
    }
    if same_text(name, "caption") {
        return true;
    }
    if same_text(name, "dd") {
        return true;
    }
    if same_text(name, "details") {
        return true;
    }
    if same_text(name, "dialog") {
        return true;
    }
    if same_text(name, "div") {
        return true;
    }
    if same_text(name, "dl") {
        return true;
    }
    if same_text(name, "dt") {
        return true;
    }
    if same_text(name, "fieldset") {
        return true;
    }
    if same_text(name, "figcaption") {
        return true;
    }
    if same_text(name, "figure") {
        return true;
    }
    if same_text(name, "footer") {
        return true;
    }
    if same_text(name, "form") {
        return true;
    }
    if same_text(name, "h1") {
        return true;
    }
    if same_text(name, "h2") {
        return true;
    }
    if same_text(name, "h3") {
        return true;
    }
    if same_text(name, "h4") {
        return true;
    }
    if same_text(name, "h5") {
        return true;
    }
    if same_text(name, "h6") {
        return true;
    }
    if same_text(name, "header") {
        return true;
    }
    if same_text(name, "hgroup") {
        return true;
    }
    if same_text(name, "hr") {
        return true;
    }
    if same_text(name, "html") {
        return true;
    }
    if same_text(name, "li") {
        return true;
    }
    if same_text(name, "main") {
        return true;
    }
    if same_text(name, "menu") {
        return true;
    }
    if same_text(name, "nav") {
        return true;
    }
    if same_text(name, "ol") {
        return true;
    }
    if same_text(name, "p") {
        return true;
    }
    if same_text(name, "pre") {
        return true;
    }
    if same_text(name, "section") {
        return true;
    }
    if same_text(name, "summary") {
        return true;
    }
    if same_text(name, "table") {
        return true;
    }
    if same_text(name, "tbody") {
        return true;
    }
    if same_text(name, "td") {
        return true;
    }
    if same_text(name, "tfoot") {
        return true;
    }
    if same_text(name, "th") {
        return true;
    }
    if same_text(name, "thead") {
        return true;
    }
    if same_text(name, "tr") {
        return true;
    }
    if same_text(name, "ul") {
        return true;
    }
    false
}

/// `c` lower-cased if it is an ASCII capital letter.
pub open spec fn lower_char(c: char) -> char {
    if 'A' <= c && c <= 'Z' {
        ((c as u8) + 32u8) as char
    } else {
        c
    }
}

/// `s` with its ASCII capital letters lower-cased.
pub open spec fn ascii_lower(s: Seq<char>) -> Seq<char> {
    s.map_values(|c: char| lower_char(c))
}

/// Whether `s` holds an ASCII capital letter.
pub open spec fn has_ascii_upper(s: Seq<char>) -> bool {
    exists|i: int| 0 <= i < s.len() && 'A' <= #[trigger] s[i] && s[i] <= 'Z'
}

pub proof fn lemma_lower_has_no_upper(s: Seq<char>)
    ensures
        !has_ascii_upper(ascii_lower(s)),
        !has_ascii_upper(s) ==> ascii_lower(s) == s,
{
    assert forall|i: int| 0 <= i < s.len() implies !('A' <= #[trigger] ascii_lower(s)[i] && ascii_lower(s)[i] <= 'Z') by {
        let c = s[i];
        if 'A' <= c && c <= 'Z' {
            assert((((c as u8) + 32u8) as char) as u32 == c as u32 + 32);
        }
    }
    if !has_ascii_upper(s) {
        assert(ascii_lower(s) =~= s);
    }
}

/// The interned name that `common_html_tag` finds for `raw`: `raw` itself when
/// it has no ASCII capital; otherwise, for an ASCII name of at most ten
/// characters, its lower-case form.
pub open spec fn common_tag(raw: Seq<char>) -> Option<Seq<char>> {
    if has_ascii_upper(raw) {
        if !is_ascii_chars(raw) || raw.len() > 10 {
            None
        } else if is_common_tag_name(ascii_lower(raw)) {
            Some(ascii_lower(raw))
        } else {
            None
        }
    } else if is_common_tag_name(raw) {
        Some(raw)
    } else {
        None
    }
}

proof fn lemma_common_names_short_ascii(s: Seq<char>)
    requires
        is_common_tag_name(s),
    ensures
        s.len() <= 10,
        is_ascii_chars(s),
{
    if s == "a"@ {
        reveal_strlit("a");
    } else if s == "b"@ {
        reveal_strlit("b");
    } else if s == "i"@ {
        reveal_strlit("i");
    } else if s == "p"@ {
        reveal_strlit("p");
    } else if s == "s"@ {
        reveal_strlit("s");
    } else if s == "u"@ {
        reveal_strlit("u");
    } else if s == "br"@ {
        reveal_strlit("br");
    } else if s == "dd"@ {
        reveal_strlit("dd");
    } else if s == "dl"@ {
        reveal_strlit("dl");
    } else if s == "dt"@ {
        reveal_strlit("dt");
    } else if s == "em"@ {
        reveal_strlit("em");
    } else if s == "h1"@ {
        reveal_strlit("h1");
    } else if s == "h2"@ {
        reveal_strlit("h2");
    } else if s == "h3"@ {
        reveal_strlit("h3");
    } else if s == "h4"@ {
        reveal_strlit("h4");
    } else if s == "h5"@ {
        reveal_strlit("h5");
    } else if s == "h6"@ {
        reveal_strlit("h6");
    } else if s == "hr"@ {
        reveal_strlit("hr");
    } else if s == "li"@ {
        reveal_strlit("li");
    } else if s == "ol"@ {
        reveal_strlit("ol");
    } else if s == "rb"@ {
        reveal_strlit("rb");
    } else if s == "rp"@ {
        reveal_strlit("rp");
    } else if s == "rt"@ {
        reveal_strlit("rt");
    } else if s == "td"@ {
        reveal_strlit("td");
    } else if s == "th"@ {
        reveal_strlit("th");
    } else if s == "tr"@ {
        reveal_strlit("tr");
    } else if s == "ul"@ {
        reveal_strlit("ul");
    } else if s == "div"@ {
        reveal_strlit("div");
    } else if s == "dfn"@ {
        reveal_strlit("dfn");
    } else if s == "img"@ {
        reveal_strlit("img");
    } else if s == "ins"@ {
        reveal_strlit("ins");
    } else if s == "kbd"@ {
        reveal_strlit("kbd");
    } else if s == "nav"@ {
        reveal_strlit("nav");
    } else if s == "pre"@ {
        reveal_strlit("pre");
    } else if s == "rtc"@ {
        reveal_strlit("rtc");
    } else if s == "sub"@ {
        reveal_strlit("sub");
    } else if s == "sup"@ {
        reveal_strlit("sup");
    } else if s == "var"@ {
        reveal_strlit("var");
    } else if s == "wbr"@ {
        reveal_strlit("wbr");
    } else if s == "abbr"@ {
        reveal_strlit("abbr");
    } else if s == "body"@ {
        reveal_strlit("body");
    } else if s == "code"@ {
        reveal_strlit("code");
    } else if s == "data"@ {
        reveal_strlit("data");
    } else if s == "form"@ {
        reveal_strlit("form");
    } else if s == "head"@ {
        reveal_strlit("head");
    } else if s == "html"@ {
        reveal_strlit("html");
    } else if s == "link"@ {
        reveal_strlit("link");
    } else if s == "main"@ {
        reveal_strlit("main");
    } else if s == "mark"@ {
        reveal_strlit("mark");
    } else if s == "ruby"@ {
        reveal_strlit("ruby");
    } else if s == "samp"@ {
        reveal_strlit("samp");
    } else if s == "span"@ {
        reveal_strlit("span");
    } else if s == "time"@ {
        reveal_strlit("time");
    } else if s == "aside"@ {
        reveal_strlit("aside");
    } else if s == "small"@ {
        reveal_strlit("small");
    } else if s == "style"@ {
        reveal_strlit("style");
    } else if s == "table"@ {
        reveal_strlit("table");
    } else if s == "tbody"@ {
        reveal_strlit("tbody");
    } else if s == "tfoot"@ {
        reveal_strlit("tfoot");
    } else if s == "thead"@ {
        reveal_strlit("thead");
    } else if s == "figure"@ {
        reveal_strlit("figure");
    } else if s == "footer"@ {
        reveal_strlit("footer");
    } else if s == "header"@ {
        reveal_strlit("header");
    } else if s == "iframe"@ {
        reveal_strlit("iframe");
    } else if s == "script"@ {
        reveal_strlit("script");
    } else if s == "source"@ {
        reveal_strlit("source");
    } else if s == "strong"@ {
        reveal_strlit("strong");
    } else if s == "address"@ {
        reveal_strlit("address");
    } else if s == "article"@ {
        reveal_strlit("article");
    } else if s == "caption"@ {
        reveal_strlit("caption");
    } else if s == "details"@ {
        reveal_strlit("details");
    } else if s == "section"@ {
        reveal_strlit("section");
    } else if s == "summary"@ {
        reveal_strlit("summary");
    } else if s == "blockquote"@ {
        reveal_strlit("blockquote");
    } else if s == "figcaption"@ {
        reveal_strlit("figcaption");
    }
    assert forall|i: int| 0 <= i < s.len() implies '\0' <= #[trigger] s[i] <= '\u{7f}' by {}
}

/// Common tag names are found up to ASCII case: the lookup of any name gives
/// the common name that its lower-case form is, or nothing.
pub proof fn law_common_tag_ignores_ascii_case(raw: Seq<char>)
    ensures
        common_tag(raw) == (if is_common_tag_name(ascii_lower(raw)) {
            Some(ascii_lower(raw))
        } else {
            None
        }),
{
    lemma_lower_has_no_upper(raw);
    let l = ascii_lower(raw);
    if has_ascii_upper(raw) && is_common_tag_name(l) {
        lemma_common_names_short_ascii(l);
        assert forall|i: int| 0 <= i < raw.len() implies '\0' <= #[trigger] raw[i] <= '\u{7f}' by {
            assert(l[i] == lower_char(raw[i]));
        }
    }
}

/// Lower-cases the ASCII capitals of `chars`.
fn lowercase_chars(chars: &[char]) -> (res: Vec<char>)
    ensures
        res@ == ascii_lower(chars@),
{
    let mut res: Vec<char> = Vec::new();
    let mut i: usize = 0;
    while i < chars.len()
        invariant
            i <= chars@.len(),
            res@ == ascii_lower(chars@.take(i as int)),
        decreases chars@.len() - i,
    {
        let c = chars[i];
        if 'A' <= c && c <= 'Z' {
            res.push(((c as u8) + 32) as char);
        } else {
            res.push(c);
        }
        assert(res@ =~= ascii_lower(chars@.take(i + 1)));
        i = i + 1;
    }
    assert(chars@.take(i as int) =~= chars@);
    res
}

/// Whether `chars` holds an ASCII capital letter.
fn has_upper(chars: &[char]) -> (res: bool)
    ensures
        res == has_ascii_upper(chars@),
{
    let mut i: usize = 0;
    while i < chars.len()
        invariant
            i <= chars@.len(),
            forall|j: int| 0 <= j < i ==> !('A' <= #[trigger] chars@[j] && chars@[j] <= 'Z'),
        decreases chars@.len() - i,
    {
        if 'A' <= chars[i] && chars[i] <= 'Z' {
            assert('A' <= chars@[i as int] && chars@[i as int] <= 'Z');
            return true;
        }
        i = i + 1;
    }
    false
}

/// The interned copy of a common tag name (see `common_tag`).
fn common_html_tag(raw: &str) -> (res: Option<&'static str>)
    ensures
        res is Some <==> common_tag(raw@) is Some,
        res matches Some(name) ==> common_tag(raw@) == Some(name@),
{
    let chars = chars_of(raw);
    if has_upper(chars.as_slice()) {
        if !raw.is_ascii() || chars.len() > 10 {
            return None;
        }
        let lower = lowercase_chars(chars.as_slice());
        let lowered = string_of(lower.as_slice());
        return common_lowercase_html_tag(lowered.as_str());
    }
    common_lowercase_html_tag(raw)
}

/// `raw` with its ASCII capitals lower-cased.
pub fn normalized_tag_name(raw: &str) -> (res: String)
    ensures
        res@ == ascii_lower(raw@),
{
    let chars = chars_of(raw);
    let lower = lowercase_chars(chars.as_slice());
    string_of(lower.as_slice())
}

/// A normalized (lower-case) tag name: an interned common name or an owned one.
pub enum TagName {
    Static(&'static str),
    Owned(String),
}

impl TagName {
    /// The characters of the name.
    pub open spec fn name(&self) -> Seq<char> {
        match self {
            TagName::Static(name) => name@,
            TagName::Owned(name) => name@,
        }
    }

    /// The tag name for `raw`: its ASCII capitals lower-cased, interned when
    /// it is one of the common names.
    pub fn from_raw(raw: &str) -> (res: TagName)
        ensures
            res.name() == ascii_lower(raw@),
            res is Static <==> is_common_tag_name(ascii_lower(raw@)),
    {
        proof {
            lemma_lower_has_no_upper(raw@);
            lemma_lower_has_no_upper(ascii_lower(raw@));
        }
        if let Some(name) = common_html_tag(raw) {
            return TagName::Static(name);
        }
        let normalized = normalized_tag_name(raw);
        match common_html_tag(normalized.as_str()) {
            Some(name) => TagName::Static(name),
            None => TagName::Owned(normalized),
        }
    }

    /// The name as a string slice.
    pub fn as_str(&self) -> (res: &str)
        ensures
            res@ == self.name(),
    {
        match self {
            TagName::Static(name) => name,
            TagName::Owned(name) => name.as_str(),
        }
    }
}

impl PartialEq<&str> for TagName {
    fn eq(&self, other: &&str) -> (res: bool) {
        same_text(self.as_str(), *other)
    }
}

impl vstd::std_specs::cmp::PartialEqSpecImpl<&str> for TagName {
    open spec fn obeys_eq_spec() -> bool {
        true
    }

    open spec fn eq_spec(&self, other: &&str) -> bool {
        self.name() == other@
    }
}

impl AsRef<str> for TagName {
    fn as_ref(&self) -> (res: &str)
        ensures
            res@ == self.name(),
    {
        self.as_str()
    }
}

/// What the DOM context knows of an element.
pub struct TagInfo {
    /// The normalized (lower-case) tag name.
    pub name: TagName,
    /// Whether the element behaves like an inline element (script and style included).
    pub is_inline_like: bool,
    /// Whether the element is block-level.
    pub is_block: bool,
}

/// Whether an element named `name` is inline-like.
pub open spec fn inline_like_name(name: Seq<char>) -> bool {
    is_inline_name(name) || name == "script"@ || name == "style"@
}

/// Whether an element named `name` is block-level.
pub open spec fn block_level_name(name: Seq<char>) -> bool {
    !is_inline_name(name) && is_block_name(name)
}

/// Whether `name` is block-level, given whether it is inline.
fn is_block_level_name(name: &str, is_inline: bool) -> (res: bool)
    ensures
        res == (!is_inline && is_block_name(name@)),
{
    !is_inline && is_block_name_exec(name)
}

/// The `TagInfo` of an element whose tag is written `raw`.
pub fn tag_info_for(raw: &str) -> (info: TagInfo)
    ensures
        info.name.name() == ascii_lower(raw@),
        info.is_inline_like == inline_like_name(ascii_lower(raw@)),
        info.is_block == block_level_name(ascii_lower(raw@)),
{
    let name = TagName::from_raw(raw);
    let is_inline = is_inline_element(name.as_str());
    let is_inline_like = is_inline || same_text(name.as_str(), "script") || same_text(name.as_str(), "style");
    let is_block = is_block_level_name(name.as_str(), is_inline);
    TagInfo { name, is_inline_like, is_block }
}

} // verus!
