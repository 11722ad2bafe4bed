use fast_h2m::document::HtmlNode;
use fast_h2m::html::parse_document;

#[test]
fn parsed_document_holds_nodes_in_arena_order() {
    let doc = parse_document("<p TITLE=x title=\"t &amp; u\">a<!-- c --><img src=i.png alt></p>tail")
        .ok()
        .expect("parse");
    assert_eq!(doc.roots, vec![0, 4]);
    assert_eq!(doc.nodes.len(), 5);
    match &doc.nodes[0] {
        HtmlNode::Element(e) => {
            assert_eq!(e.name, "p");
            assert_eq!(e.title.as_deref(), Some("t &amp; u"));
            assert_eq!(e.href, None);
            assert_eq!(e.children, vec![1, 2, 3]);
        },
        _ => panic!("expected an element"),
    }
    assert!(matches!(&doc.nodes[1], HtmlNode::Text(t) if t == "a"));
    assert!(matches!(&doc.nodes[2], HtmlNode::Comment));
    match &doc.nodes[3] {
        HtmlNode::Element(e) => {
            assert_eq!(e.name, "img");
            assert_eq!(e.src.as_deref(), Some("i.png"));
            assert_eq!(e.alt, None);
            assert!(e.children.is_empty());
        },
        _ => panic!("expected an element"),
    }
    assert!(matches!(&doc.nodes[4], HtmlNode::Text(t) if t == "tail"));
}
