//! The streaming and one-shot converters backed by `mdream`.

use vstd::prelude::*;
use crate::options::ConversionOptions;
use mdream::MarkdownStreamProcessor as MdreamProcessor;

verus! {

#[verifier::external_type_specification]
#[verifier::external_body]
pub struct ExMdreamStreamProcessor(MdreamProcessor);

/// What `mdream::html_to_markdown` makes of an input with default options.
pub uninterp spec fn mdream_markdown(html: Seq<char>) -> Seq<char>;

/// `mdream::html_to_markdown` with default options; its output depends on the
/// input alone.
#[verifier::external_body]
fn mdream_html_to_markdown(html: &str) -> (res: String)
    ensures
        res@ == mdream_markdown(html@),
{
    mdream::html_to_markdown(html, mdream::HtmlToMarkdownOptions::default())
}

/// The chunks handed to an mdream stream processor since it was made, in order.
/// With the options fixed, the processor's state is a function of these alone.
pub uninterp spec fn mdream_history(p: MdreamProcessor) -> Seq<Seq<char>>;

/// What `mdream::MarkdownStreamProcessor::process_chunk` returns for `chunk`
/// after the chunks `history`.
pub uninterp spec fn mdream_chunk_markdown(history: Seq<Seq<char>>, chunk: Seq<char>) -> Seq<char>;

/// What `mdream::MarkdownStreamProcessor::finish` returns after the chunks `history`.
pub uninterp spec fn mdream_flush_markdown(history: Seq<Seq<char>>) -> Seq<char>;

/// `mdream::MarkdownStreamProcessor::new` with default options: a processor
/// that has seen no chunk.
#[verifier::external_body]
fn mdream_stream_new() -> (res: MdreamProcessor)
    ensures
        mdream_history(res) == Seq::<Seq<char>>::empty(),
{
    MdreamProcessor::new(mdream::HtmlToMarkdownOptions::default())
}

/// `mdream::MarkdownStreamProcessor::process_chunk`: the Markdown that the new
/// chunk makes available, which depends on the chunk and on the chunks fed
/// before it; the chunk joins the processor's history.
#[verifier::external_body]
fn mdream_stream_process_chunk(inner: &mut MdreamProcessor, chunk: &str) -> (res: String)
    ensures
        mdream_history(*final(inner)) == mdream_history(*old(inner)).push(chunk@),
        res@ == mdream_chunk_markdown(mdream_history(*old(inner)), chunk@),
{
    inner.process_chunk(chunk)
}

/// `mdream::MarkdownStreamProcessor::finish`: the Markdown still held back,
/// which depends on the chunks fed before. What the processor does after it is
/// finished is not stated.
#[verifier::external_body]
fn mdream_stream_finish(inner: &mut MdreamProcessor) -> (res: String)
    ensures
        res@ == mdream_flush_markdown(mdream_history(*old(inner))),
{
    inner.finish()
}

/// Converts `html` with mdream's lean converter; the options are not read.
pub fn convert(html: &str, _options: &ConversionOptions) -> (markdown: String)
    ensures
        markdown@ == mdream_markdown(html@),
{
    mdream_html_to_markdown(html)
}

/// A streaming HTML-to-Markdown converter backed by mdream.
pub struct MarkdownStreamProcessor {
    inner: MdreamProcessor,
    fed: Ghost<Seq<char>>,
}

impl MarkdownStreamProcessor {
    /// All the HTML handed to the converter so far.
    pub closed spec fn fed(&self) -> Seq<char> {
        self.fed@
    }

    /// The chunks handed to the converter so far, in order.
    pub closed spec fn history(&self) -> Seq<Seq<char>> {
        mdream_history(self.inner)
    }

    /// A streaming converter; the options are not read.
    pub fn new(options: Option<ConversionOptions>) -> (res: Self)
        ensures
            res.fed() == Seq::<char>::empty(),
            res.history() == Seq::<Seq<char>>::empty(),
    {
        let _ = options;
        MarkdownStreamProcessor { inner: mdream_stream_new(), fed: Ghost(Seq::empty()) }
    }

    /// Hands one HTML chunk to the converter and returns the Markdown that
    /// became available.
    pub fn process_chunk(&mut self, chunk: &str) -> (res: String)
        ensures
            final(self).fed() == old(self).fed() + chunk@,
            final(self).history() == old(self).history().push(chunk@),
            res@ == mdream_chunk_markdown(old(self).history(), chunk@),
    {
        let res = mdream_stream_process_chunk(&mut self.inner, chunk);
        self.fed = Ghost(self.fed@ + chunk@);
        res
    }

    /// Flushes the converter and returns the Markdown it still held.
    pub fn finish(&mut self) -> (res: String)
        ensures
            final(self).fed() == old(self).fed(),
            res@ == mdream_flush_markdown(old(self).history()),
    {
        mdream_stream_finish(&mut self.inner)
    }
}

} // verus!
