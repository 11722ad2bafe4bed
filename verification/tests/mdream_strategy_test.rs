use fast_h2m::mdream_adapter::MarkdownStreamProcessor;

#[test]
fn mdream_stream_processor_converts_split_chunks() {
    let mut stream = MarkdownStreamProcessor::new(None);
    let mut markdown = String::new();

    markdown.push_str(&stream.process_chunk("<h1>Hello</h1>"));
    markdown.push_str(&stream.process_chunk("<p>World</p>"));
    markdown.push_str(&stream.finish());

    assert!(markdown.contains("# Hello"));
    assert!(markdown.contains("World"));
}

#[test]
fn mdream_convert_one_shot() {
    let options = fast_h2m::options::ConversionOptions::default();
    let markdown = fast_h2m::mdream_adapter::convert("<h1>Hello</h1><p>World</p>", &options);
    assert!(markdown.contains("# Hello"));
    assert!(markdown.contains("World"));
}

#[test]
fn mdream_stream_processor_joins_a_tag_split_across_chunks() {
    let mut stream = MarkdownStreamProcessor::new(None);
    let mut markdown = String::new();

    markdown.push_str(&stream.process_chunk("<h1>Hel"));
    markdown.push_str(&stream.process_chunk("lo</h1><p>Wor"));
    markdown.push_str(&stream.process_chunk("ld</p>"));
    markdown.push_str(&stream.finish());

    assert!(markdown.contains("# Hello"));
    assert!(markdown.contains("World"));
    assert!(!markdown.contains("<h1>"));
}
