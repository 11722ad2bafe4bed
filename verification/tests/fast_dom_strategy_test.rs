use fast_h2m::fast_dom::convert;
use fast_h2m::options::{CodeBlockStyle, ConversionOptions, HeadingStyle, NewlineStyle};

fn md(html: &str) -> String {
    convert(html, &ConversionOptions::default()).ok().expect("convert")
}

fn md_with(html: &str, options: &ConversionOptions) -> String {
    convert(html, options).ok().expect("convert")
}

#[test]
fn fast_dom_converts_common_blocks() {
    let html = r#"
<article>
  <h1>Hello</h1>
  <p>A <strong>bold</strong> and <em>small</em> paragraph with <a href="https://example.com">a link</a>.</p>
  <ul><li>One</li><li>Two</li></ul>
  <blockquote><p>Quoted text</p></blockquote>
</article>
"#;

    let markdown = md(html);

    assert!(markdown.contains("# Hello"));
    assert!(markdown.contains("A **bold** and *small* paragraph"));
    assert!(markdown.contains("[a link](https://example.com)"));
    assert!(markdown.contains("- One"));
    assert!(markdown.contains("- Two"));
    assert!(markdown.contains("> Quoted text"));
}

#[test]
fn fast_dom_converts_simple_table() {
    let html = r#"
<table>
  <tr><th>Name</th><th>Language</th></tr>
  <tr><td>fast_h2m</td><td>Rust</td></tr>
</table>
"#;

    let markdown = md(html);

    assert!(markdown.contains("| Name | Language |"));
    assert!(markdown.contains("| --- | --- |"));
    assert!(markdown.contains("| fast_h2m | Rust |"));
}

#[test]
fn fast_dom_skips_script_style_and_head() {
    let html = r#"
<head><title>Hidden</title></head>
<style>.x { color: red }</style>
<script>alert("ignored")</script>
<p>Visible</p>
"#;

    assert_eq!(md(html), "Visible");
}

#[test]
fn long_multibyte_link_label_does_not_panic() {
    let mut html = String::from("<a href=\"https://example.com/article\">");
    html.push_str(&"a".repeat(511));
    html.push('👍');
    html.push_str("</a>");

    let markdown = md(&html);
    let expected_label = format!("{}👍", "a".repeat(511));

    assert!(
        markdown.contains(&format!("[{expected_label}]")),
        "expected full label to appear in markdown output; got: {markdown}"
    );
}

#[test]
fn issue_199_regressions_test_link_label_is_not_truncated() {
    let label = "a".repeat(600);
    let html = format!(r#"<a href="https://example.com">{label}</a>"#);

    let markdown = md(&html);
    let expected = format!("[{label}](https://example.com)");

    assert!(markdown.contains(&expected));
    assert!(!markdown.contains('…'));
}

#[test]
fn exact_output_of_a_small_document() {
    assert_eq!(
        md("<h2>Title</h2><p>One <code> x </code> two</p><hr><p>end</p>"),
        "## Title\n\nOne `x` two\n\n---\n\nend"
    );
}

#[test]
fn headings_in_each_style() {
    let mut options = ConversionOptions::default();
    options.heading_style = HeadingStyle::Underlined;
    assert_eq!(md_with("<h1>Top</h1>", &options), "Top\n===");
    assert_eq!(md_with("<h2>Sub</h2>", &options), "Sub\n---");
    assert_eq!(md_with("<h3>Deep</h3>", &options), "### Deep");
    options.heading_style = HeadingStyle::AtxClosed;
    assert_eq!(md_with("<h3>Deep</h3>", &options), "### Deep ###");
    assert_eq!(md("<H4>Upper</H4>"), "#### Upper");
    assert_eq!(md("<h1>   </h1>"), "");
}

#[test]
fn code_blocks_in_each_style() {
    assert_eq!(md("<pre><code>let x = 1;\nlet y;</code></pre>"), "```\nlet x = 1;\nlet y;\n```");
    let mut options = ConversionOptions::default();
    options.code_block_style = CodeBlockStyle::Tildes;
    assert_eq!(md_with("<pre>a  b</pre>", &options), "~~~\na  b\n~~~");
    options.code_block_style = CodeBlockStyle::Indented;
    assert_eq!(md_with("<pre>\nline1\r\nline2\n</pre>", &options), "line1\n    line2");
}

#[test]
fn line_breaks_in_each_style() {
    assert_eq!(md("<p>a<br>b</p>"), "a  \nb");
    let mut options = ConversionOptions::default();
    options.newline_style = NewlineStyle::Backslash;
    assert_eq!(md_with("<p>a<br>b</p>", &options), "a\\\nb");
}

#[test]
fn links_and_images() {
    assert_eq!(md("<a href=\"x y\" title='say \"hi\"'>l[1]</a>"), "[l\\[1\\]](<x y> \"say \\\"hi\\\"\")");
    assert_eq!(md("<a href=\"\">text</a>"), "text");
    assert_eq!(md("<a>text</a>"), "text");
    assert_eq!(md("<a href=\"https://e.com\"> </a>"), "https://e.com");
    assert_eq!(md("<img src=\"i.png\" alt=\"An &amp; B\">"), "![An & B](i.png)");
    assert_eq!(md("<p><strong><img src=\"i.png\" alt=\"inline\"></strong></p>"), "**inline**");
    assert_eq!(md("<img alt=\"no source\">"), "");
}

#[test]
fn lists_nest_and_number() {
    assert_eq!(md("<ol><li>a</li><li>b</li></ol>"), "1. a\n1. b");
    assert_eq!(
        md("<ul><li>a<ul><li>b</li></ul></li></ul>"),
        "- a\n  - b"
    );
    let mut options = ConversionOptions::default();
    options.bullets = "*+".to_string();
    assert_eq!(md_with("<ul><li>x</li></ul>", &options), "* x");
}

#[test]
fn text_is_decoded_collapsed_and_escaped() {
    assert_eq!(md("<p>a   b\n\tc &lt;d&gt; &#65;&#x42; &bogus;</p>"), "a b c <d> AB &bogus;");
    let mut options = ConversionOptions::default();
    options.escape_asterisks = true;
    options.escape_underscores = true;
    assert_eq!(md_with("<p>*a_b*</p>", &options), "\\*a\\_b\\*");
    options.escape_misc = true;
    assert_eq!(md_with("<p>[x]</p>", &options), "\\[x\\]");
}

#[test]
fn table_cells_escape_pipes_and_pad_rows() {
    let html = "<table><thead><tr><th>a|b</th><th>c</th></tr></thead><tbody><tr><td>1</td></tr></tbody></table>";
    assert_eq!(md(html), "| a\\|b | c |\n| --- | --- |\n| 1 |  |");
    assert_eq!(md("<table></table>"), "");
}

#[test]
fn blockquote_lines_are_prefixed() {
    assert_eq!(md("<blockquote>one<br>two</blockquote>"), "> one\n> two");
}

#[test]
fn comments_are_dropped() {
    assert_eq!(md("<p>a<!-- hidden -->b</p>"), "ab");
}
