//! Streaming Markdown-to-HTML pipeline: a lazy tree-to-event adapter, a
//! streaming HTML renderer over an abstract byte sink, and a streaming
//! post-process rewriter, together with slug and escaping utilities and a
//! buffered rendering front end that also collects headings.

pub mod adapter;
pub mod chars;
pub mod escape;
pub mod event;
pub mod laws;
pub mod md;
pub mod render;
pub mod renderer;
pub mod rewriter;
pub mod sink;
pub mod slug;
pub mod tree;

pub use adapter::MarkdownRsEventIter;
pub use escape::sanitize_html;
pub use render::Heading;
pub use render::Options;
pub use render::RenderResult;
pub use renderer::HtmlRenderer;
pub use renderer::MarkdownStream;
pub use rewriter::RewriteConfig;
pub use rewriter::RewriteOptions;
pub use rewriter::StreamingRewriter;
pub use slug::slugify;
pub use slug::slugify_ascii;

use vstd::prelude::*;

use vstd::utf8::encode_utf8;

use crate::md::md_accepts;
use crate::md::md_doc;
use crate::renderer::init_model;
use crate::renderer::run;
use crate::rewriter::rewritten;
use crate::tree::model_events;

verus! {

/// Iterator alias so callers don't need to depend on the adapter module
/// path.
pub type MarkdownEventStream = adapter::MarkdownRsEventIter;

/// Errors that can occur during Markdown processing.
#[derive(Debug)]
pub enum MarkflowError {
    /// A write into the destination sink failed, or the rewrite engine
    /// reported a failure; both are normalized to this kind.
    IoError(String),
    /// The produced bytes could not be read back as UTF-8 when a string
    /// result was requested.
    EncodingError,
    /// The external Markdown parser rejected the source text.
    MarkdownAdapter(String),
}

impl MarkflowError {
    /// A human-readable description of the error.
    pub fn message(&self) -> (r: String)
        ensures
            self matches MarkflowError::IoError(m) ==> r@ == "IO error: "@ + m@,
            self is EncodingError ==> r@ == "Encoding error"@,
            self matches MarkflowError::MarkdownAdapter(m) ==> r@ == "markdown parser error: "@
                + m@,
    {
        let mut out = String::new();
        match self {
            MarkflowError::IoError(m) => {
                out.append("IO error: ");
                out.append(m.as_str());
            },
            MarkflowError::EncodingError => {
                out.append("Encoding error");
            },
            MarkflowError::MarkdownAdapter(m) => {
                out.append("markdown parser error: ");
                out.append(m.as_str());
            },
        }
        out
    }
}

/// The canonical event sequence of a source text: the modelled events of
/// the document the parser produces for it, with every construct enabled.
pub open spec fn doc_events(input: Seq<char>) -> Seq<crate::event::EventModel> {
    model_events(md_doc(input, true, true, true), false)
}

/// Returns an iterator over the Markdown events of the source text, backed
/// by the external parser: it succeeds exactly when the parser accepts the
/// text, and the iterator then yields exactly the parsed document's
/// canonical event sequence.
pub fn get_event_iterator(input: &str) -> (r: Result<MarkdownRsEventIter, MarkflowError>)
    ensures
        r is Ok <==> md_accepts(input@, true, true, true),
        match r {
            Ok(it) => it.wf() && it.remaining() == doc_events(input@),
            Err(e) => e is MarkdownAdapter,
        },
{
    MarkdownRsEventIter::new(input)
}

/// Parses Markdown and rewrites the resulting HTML stream with the default
/// rewrite options: events are pulled lazily, rendered to HTML bytes, pushed
/// through the image-loading rewrite, and collected as a string. On success
/// the result is, byte for byte, the rewritten rendering of the parsed
/// tree's canonical event sequence.
pub fn parse(input: &str) -> (r: Result<String, MarkflowError>)
    ensures
        match r {
            Ok(s) => md_accepts(input@, true, true, true) && encode_utf8(s@) == rewritten(
                encode_utf8(run(init_model(), doc_events(input@)).1),
                true,
            ),
            Err(e) => match e {
                MarkflowError::MarkdownAdapter(_) => !md_accepts(input@, true, true, true),
                MarkflowError::IoError(_) => md_accepts(input@, true, true, true),
                MarkflowError::EncodingError => false,
            },
        },
{
    parse_with_flag(input, true)
}

/// Parses Markdown to HTML with the given rewrite configuration.
pub fn parse_with_options(input: &str, config: RewriteConfig) -> (r: Result<
    String,
    MarkflowError,
>)
    ensures
        match r {
            Ok(s) => md_accepts(input@, true, true, true) && encode_utf8(s@) == rewritten(
                encode_utf8(run(init_model(), doc_events(input@)).1),
                config.enforce_img_loading_lazy,
            ),
            Err(e) => match e {
                MarkflowError::MarkdownAdapter(_) => !md_accepts(input@, true, true, true),
                MarkflowError::IoError(_) => md_accepts(input@, true, true, true),
                MarkflowError::EncodingError => false,
            },
        },
{
    parse_with_flag(input, config.enforce_img_loading_lazy)
}

fn parse_with_flag(input: &str, enforce_img_loading_lazy: bool) -> (r: Result<
    String,
    MarkflowError,
>)
    ensures
        match r {
            Ok(s) => md_accepts(input@, true, true, true) && encode_utf8(s@) == rewritten(
                encode_utf8(run(init_model(), doc_events(input@)).1),
                enforce_img_loading_lazy,
            ),
            Err(e) => match e {
                MarkflowError::MarkdownAdapter(_) => !md_accepts(input@, true, true, true),
                MarkflowError::IoError(_) => md_accepts(input@, true, true, true),
                MarkflowError::EncodingError => false,
            },
        },
{
    let it = match get_event_iterator(input) {
        Ok(it) => it,
        Err(e) => {
            return Err(e);
        },
    };
    let ghost rem = it.remaining();
    let rewriter = StreamingRewriter::new(
        Vec::new(),
        RewriteOptions { enforce_img_loading_lazy },
    );
    let rewriter = match it.stream_to_writer(rewriter) {
        Ok(r) => r,
        Err(e) => {
            return Err(e);
        },
    };
    proof {
        assert(rewriter.fed() =~= encode_utf8(run(init_model(), rem).1));
        assert(rewriter.initial() =~= Seq::<u8>::empty());
        assert(rewriter.forwarded() =~= Seq::<u8>::empty());
    }
    let ghost fed = rewriter.fed();
    let output = match rewriter.into_inner() {
        Ok(v) => v,
        Err(e) => {
            return Err(e);
        },
    };
    proof {
        broadcast use vstd::utf8::encode_utf8_valid_utf8;

        assert(vstd::utf8::valid_utf8(fed));
        assert(vstd::utf8::valid_utf8(rewritten(fed, enforce_img_loading_lazy)));
        assert(output@ =~= rewritten(
            encode_utf8(run(init_model(), rem).1),
            enforce_img_loading_lazy,
        ));
    }
    match crate::chars::utf8_string(output) {
        Ok(s) => {
            proof {
                assert(encode_utf8(s@) == rewritten(
                    encode_utf8(run(init_model(), doc_events(input@)).1),
                    enforce_img_loading_lazy,
                ));
            }
            Ok(s)
        },
        Err(e) => {
            proof {
                broadcast use vstd::utf8::encode_utf8_valid_utf8;

                assert(vstd::utf8::valid_utf8(output@));
                assert(false);
            }
            Err(e)
        },
    }
}

} // verus!
