use fast_h2m::document::{Document, Element, HtmlNode};
use fast_h2m::dom_context::DomContext;
use fast_h2m::html::parse_document;
use fast_h2m::tags::TagName;
use fast_h2m::text_cache::TextCache;

fn element(name: &str, children: Vec<u32>) -> HtmlNode {
    HtmlNode::Element(Element {
        name: name.to_string(),
        href: None,
        src: None,
        alt: None,
        title: None,
        children,
    })
}

fn sample() -> DomContext {
    let nodes = vec![
        element("DIV", vec![1, 2, 3, 4]),
        element("span", vec![5]),
        HtmlNode::Text("  \n".to_string()),
        HtmlNode::Comment,
        element("p", vec![6]),
        HtmlNode::Text("a &amp; b".to_string()),
        HtmlNode::Text("x".to_string()),
    ];
    DomContext::new(Document { roots: vec![0], nodes }, 4)
}

#[test]
fn relations_of_a_small_tree() {
    let ctx = sample();
    assert_eq!(ctx.parent_of(0), None);
    assert_eq!(ctx.parent_of(4), Some(0));
    assert_eq!(ctx.parent_of(6), Some(4));
    assert_eq!(ctx.sibling_index(4), Some(3));
    assert_eq!(ctx.get_sibling_index(0), Some(0));
    assert_eq!(ctx.children_of(0), Some(&[1u32, 2, 3, 4][..]));
    assert_eq!(ctx.children_of(2), None);
    assert_eq!(ctx.parent_of(99), None);
}

#[test]
fn sibling_scans() {
    let ctx = sample();
    assert!(ctx.previous_inline_like(4));
    assert!(!ctx.next_inline_like(1));
    assert!(ctx.next_whitespace_text(1));
    assert!(!ctx.next_whitespace_text(4));
    assert_eq!(ctx.next_tag_id(1), Some(4));
    assert_eq!(ctx.next_tag_id(4), None);
    assert_eq!(ctx.next_tag_name(1).as_deref(), Some("p"));
    assert!(!ctx.previous_inline_like(1));
}

#[test]
fn names_and_tag_info() {
    let ctx = sample();
    assert_eq!(ctx.tag_name_for(0).as_deref(), Some("div"));
    assert_eq!(ctx.parent_tag_name(5).as_deref(), Some("span"));
    assert_eq!(ctx.parent_tag_name(0), None);
    let info = ctx.tag_info(1).expect("span is an element");
    assert!(info.is_inline_like);
    assert!(!info.is_block);
    let div = ctx.build_tag_info(0).expect("div is an element");
    assert!(div.is_block);
    assert!(ctx.tag_info(2).is_none());
}

#[test]
fn text_content_is_decoded_and_cached() {
    let mut ctx = sample();
    assert_eq!(ctx.text_content(0), "a & b  \nx");
    assert_eq!(ctx.text_content(0), "a & b  \nx");
    assert_eq!(ctx.text_content_uncached(1), "a & b");
    let mut out = vec!['>'];
    ctx.append_text_content(4, &mut out);
    assert_eq!(out.iter().collect::<String>(), ">x");
    assert_eq!(ctx.text_content(42), "");
}

#[test]
fn ensure_capacity_grows_the_maps() {
    let mut ctx = sample();
    ctx.ensure_capacity(10);
    assert_eq!(ctx.parent_map.len(), 11);
    assert_eq!(ctx.children_map.len(), 11);
    assert_eq!(ctx.sibling_index_map.len(), 11);
    assert_eq!(ctx.parent_of(10), None);
    ctx.ensure_capacity(3);
    assert_eq!(ctx.parent_map.len(), 11);
}

#[test]
fn context_of_a_parsed_document() {
    let doc = parse_document("<ul><li>one</li> <li>two</li></ul>").ok().expect("parse");
    let ctx = DomContext::new(doc, 8);
    let first_item = ctx.children_of(0).expect("ul has children")[0];
    assert_eq!(ctx.next_tag_name(first_item).as_deref(), Some("li"));
    assert_eq!(ctx.parent_tag_name(first_item).as_deref(), Some("ul"));
}

#[test]
fn text_cache_evicts_least_recently_used() {
    let mut cache = TextCache::new(2);
    cache.put(1, "a".to_string());
    cache.put(2, "b".to_string());
    assert_eq!(cache.get(1).as_deref(), Some("a"));
    cache.put(3, "c".to_string());
    assert_eq!(cache.get(2), None);
    assert_eq!(cache.get(1).as_deref(), Some("a"));
    assert_eq!(cache.get(3).as_deref(), Some("c"));
    cache.put(1, "z".to_string());
    assert_eq!(cache.get(1).as_deref(), Some("z"));
    assert_eq!(cache.get(3).as_deref(), Some("c"));
}

#[test]
fn tag_names_are_lower_cased_and_interned() {
    let div = TagName::from_raw("DIV");
    assert_eq!(div.as_str(), "div");
    assert!(matches!(div, TagName::Static(_)));
    let custom = TagName::from_raw("Custom-Element");
    assert_eq!(custom.as_str(), "custom-element");
    assert!(matches!(custom, TagName::Owned(_)));
    let long = TagName::from_raw("BLOCKQUOTE");
    assert_eq!(long.as_str(), "blockquote");
    assert!(matches!(long, TagName::Static(_)));
    assert!(TagName::from_raw("Main") == "main");
    assert!(!(TagName::from_raw("Main") == "Main"));
    assert_eq!(AsRef::<str>::as_ref(&TagName::from_raw("X-Y")), "x-y");
    let plain = TagName::from_raw("figcaption");
    assert!(matches!(plain, TagName::Static(_)));
}
