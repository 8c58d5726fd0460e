//! The streaming pipeline end to end: adapter events, rendering, the
//! rewriter, and the agreement between the streaming and buffering paths.

use markflow::HtmlRenderer;
use markflow::MarkdownRsEventIter;
use markflow::MarkdownStream;
use markflow::MarkflowError;
use markflow::RewriteOptions;
use markflow::StreamingRewriter;
use markflow::event::Event;
use markflow::event::HeadingLevel;
use markflow::event::Tag;
use markflow::event::TagEnd;
use markflow::parse;
use markflow::parse_with_options;
use markflow::RewriteConfig;
use markflow::sink::BufferSink;

fn collect_events(input: &str) -> Vec<Event> {
    let mut iter = MarkdownRsEventIter::new(input).unwrap();
    let mut events = Vec::new();
    while let Some(event) = iter.next() {
        events.push(event);
    }
    events
}

#[test]
fn test_streaming_output() {
    let heading = Tag::Heading {
        level: HeadingLevel::H1,
        id: None,
        classes: Vec::new(),
        attrs: Vec::new(),
    };
    let events = vec![
        Event::Start(heading.clone()),
        Event::Text(String::from("Hello Stream")),
        Event::End(heading.to_end()),
    ];

    let renderer = HtmlRenderer::new(BufferSink::new());
    let sink = renderer.render(events).expect("Failed to drive stream");
    let output_str = String::from_utf8(sink.into_bytes()).unwrap();

    assert!(output_str.contains("<h1>Hello Stream</h1>"));
}

#[test]
fn test_parse() {
    let input = "# Hello, World!";
    let output = parse(input).unwrap();
    assert!(output.contains("<h1 id=\"hello-world\">Hello, World!</h1>"));
}

#[test]
fn test_parse_list() {
    let input = "* Item 1\n* Item 2";
    let output = parse(input).unwrap();
    assert!(output.contains("<ul>"));
    assert!(output.contains("<li>Item 1</li>"));
}

#[test]
fn test_parse_applies_lazy_loading() {
    let input = "![alt](img.png)";
    let output = parse(input).unwrap();
    assert!(output.contains("loading=\"lazy\""));
}

#[test]
fn test_parse_table_alignment_and_math() {
    let input = "| A | B |\n|:-|:-:|\n| $x$ | $$y$$ |";
    let output = parse(input).unwrap();
    assert!(output.contains("<table>"));
    assert!(
        output.contains("<td style=\"text-align:left\"><span class=\"math-inline\">x</span></td>")
    );
    assert!(output.contains("<span class=\"math-inline\">y</span>"));
}

#[test]
fn test_parse_frontmatter_passthrough() {
    let input = "---\ntitle: test\n---\n\ncontent";
    let output = parse(input).unwrap();
    assert!(output.contains("frontmatter"));
    assert!(output.contains("title: test"));
}

#[test]
fn tight_list_strips_paragraphs() {
    let events = collect_events("* foo\n* bar\n");
    assert!(!events
        .iter()
        .any(|event| matches!(event, Event::Start(Tag::Paragraph))));
}

#[test]
fn loose_list_retains_paragraphs() {
    let events = collect_events("* foo\n\n  bar\n");
    assert!(events
        .iter()
        .any(|event| matches!(event, Event::Start(Tag::Paragraph))));
}

#[test]
fn task_list_emits_marker_before_text() {
    let events = collect_events("- [x] done");
    let marker_index = events
        .iter()
        .position(|event| matches!(event, Event::TaskListMarker(true)))
        .expect("marker present");
    let text_index = events
        .iter()
        .position(|event| matches!(event, Event::Text(text) if text.as_str() == "done"))
        .expect("text present");
    assert!(marker_index < text_index);
}

#[test]
fn adds_lazy_loading_when_missing() {
    let mut rewriter = StreamingRewriter::new(Vec::new(), RewriteOptions::default());
    rewriter
        .write(br#"<img src="/hero.png">"#)
        .expect("stream write should succeed");
    let output = String::from_utf8(rewriter.into_inner().unwrap()).unwrap();

    assert!(output.contains("loading=\"lazy\""));
}

#[test]
fn preserves_existing_loading_attribute() {
    let mut rewriter = StreamingRewriter::new(Vec::new(), RewriteOptions::default());
    rewriter
        .write(br#"<img src="/hero.png" loading="eager">"#)
        .expect("stream write should succeed");
    let output = String::from_utf8(rewriter.into_inner().unwrap()).unwrap();

    assert!(output.contains("loading=\"eager\""));
}

#[test]
fn rewrite_preserves_present_attribute_exactly() {
    let mut rewriter = StreamingRewriter::new(Vec::new(), RewriteOptions::default());
    rewriter.write(br#"<img src="a" loading="eager">"#).unwrap();
    let output = String::from_utf8(rewriter.into_inner().unwrap()).unwrap();
    assert_eq!(output, r#"<img src="a" loading="eager">"#);
}

#[test]
fn rewrite_adds_missing_attribute_exactly() {
    let mut rewriter = StreamingRewriter::new(Vec::new(), RewriteOptions::default());
    rewriter.write(br#"<img src="a">"#).unwrap();
    let output = String::from_utf8(rewriter.into_inner().unwrap()).unwrap();
    assert_eq!(output, r#"<img src="a" loading="lazy">"#);
}

#[test]
fn rewrite_disabled_leaves_images_alone() {
    let config = RewriteConfig {
        enforce_img_loading_lazy: false,
    };
    let output = parse_with_options("![alt](img.png)", config).unwrap();
    assert!(!output.contains("loading=\"eager\""));
    assert!(output.contains("loading=\"lazy\""));

    let mut rewriter = StreamingRewriter::new(
        Vec::new(),
        RewriteOptions {
            enforce_img_loading_lazy: false,
        },
    );
    rewriter.write(br#"<img src="a">"#).unwrap();
    let raw = String::from_utf8(rewriter.into_inner().unwrap()).unwrap();
    assert_eq!(raw, r#"<img src="a">"#);
}

#[test]
fn rewriter_output_is_chunking_invariant() {
    let input: &[u8] = b"<div><img src=\"a\"><p>some text</p><img src=\"b\" loading=\"eager\"></div>";

    let mut whole = StreamingRewriter::new(Vec::new(), RewriteOptions::default());
    whole.write(input).unwrap();
    let whole_out = whole.into_inner().unwrap();

    let mut bytewise = StreamingRewriter::new(Vec::new(), RewriteOptions::default());
    let mut chunks: Vec<Vec<u8>> = Vec::new();
    for b in input.iter() {
        chunks.push(vec![*b]);
    }
    bytewise.write_chunks(&chunks).unwrap();
    let bytewise_out = bytewise.into_inner().unwrap();

    assert_eq!(whole_out, bytewise_out);
}

#[test]
fn rewriter_drains_forwarded_chunks() {
    let mut rewriter = StreamingRewriter::new(Vec::new(), RewriteOptions::default());
    let mut collected: Vec<u8> = Vec::new();
    let pieces: [&[u8]; 3] = [b"<p>first</p>", b"<img src=\"x\">", b"<p>last</p>"];
    for piece in pieces.iter() {
        rewriter.write(piece).unwrap();
        let drained = rewriter.take_output();
        collected.extend_from_slice(&drained);
    }
    let rest = rewriter.into_inner().unwrap();
    collected.extend_from_slice(&rest);

    let mut whole = StreamingRewriter::new(Vec::new(), RewriteOptions::default());
    whole
        .write(b"<p>first</p><img src=\"x\"><p>last</p>")
        .unwrap();
    assert_eq!(collected, whole.into_inner().unwrap());
}

#[test]
fn streaming_equals_buffering_on_corpus() {
    let corpus = [
        "# Hello Stream",
        "* one\n* two\n* three",
        "A paragraph with **bold**, *italic*, `code` and a [link](https://example.com).",
        "| a | b | c |\n|:--|---|--:|\n| 1 | 2 | 3 |",
        "![alt text](image.png \"a title\")",
        "> quoted\n\ntext after\n\n---\n\nmore",
        "```rust\nfn main() {}\n```",
        "---\ntitle: doc\n---\n\n# After frontmatter",
        "Text with footnote[^1].\n\n[^1]: The note.",
        "- [x] done\n- [ ] pending",
    ];
    for input in corpus.iter() {
        let streamed = parse(input).unwrap();

        let events = collect_events(input);
        let renderer = HtmlRenderer::new(BufferSink::new());
        let html_bytes = renderer.render(events).unwrap().into_bytes();
        let mut rewriter = StreamingRewriter::new(Vec::new(), RewriteOptions::default());
        rewriter.write(&html_bytes).unwrap();
        let buffered = String::from_utf8(rewriter.into_inner().unwrap()).unwrap();

        assert_eq!(streamed, buffered);
    }
}

#[test]
fn pipeline_renders_hello_stream_heading() {
    let output = parse("# Hello Stream").unwrap();
    assert!(output.contains("<h1 id=\"hello-stream\">Hello Stream</h1>"));
}

#[test]
fn pipeline_task_item_renders_checked_checkbox_before_text() {
    let output = parse("- [x] done").unwrap();
    let checkbox = output
        .find("<input type=\"checkbox\" disabled=\"\" checked=\"\" />")
        .expect("checkbox present");
    let word = output.find("done").expect("text present");
    assert!(checkbox < word);
}

#[test]
fn table_alignment_round_trip() {
    let output = parse("| a | b | c |\n|:--|---|--:|\n| 1 | 2 | 3 |").unwrap();
    assert!(output.contains("<td style=\"text-align:left\">1</td>"));
    assert!(output.contains("<td>2</td>"));
    assert!(output.contains("<td style=\"text-align:right\">3</td>"));
}

#[test]
fn image_alt_text_is_flattened() {
    let output = parse("![alt **bold** text](dest)").unwrap();
    assert!(output.contains("<img src=\"dest\" alt=\"alt bold text\" loading=\"lazy\" />"));
    assert!(!output.contains("<strong>"));
}

#[test]
fn empty_input_renders_nothing() {
    assert_eq!(parse("").unwrap(), "");
}

#[test]
fn footnotes_render_reference_and_definition() {
    let output = parse("Text with a note[^1].\n\n[^1]: The note.").unwrap();
    assert!(output.contains("<sup class=\"footnote-ref\">"));
    assert!(output.contains("<section class=\"footnote\" id=\"fn-1\">"));
}

#[test]
fn streaming_through_trait_matches_parse() {
    let input = "# Title\n\nSome *styled* text.";
    let iter = MarkdownRsEventIter::new(input).unwrap();
    let rewriter = StreamingRewriter::new(Vec::new(), RewriteOptions::default());
    let rewriter = iter.stream_to_writer(rewriter).unwrap();
    let streamed = String::from_utf8(rewriter.into_inner().unwrap()).unwrap();
    assert_eq!(streamed, parse(input).unwrap());
}

#[test]
fn error_messages_name_their_kind() {
    let io = MarkflowError::IoError(String::from("sink closed"));
    assert_eq!(io.message(), "IO error: sink closed");
    let enc = MarkflowError::EncodingError;
    assert_eq!(enc.message(), "Encoding error");
    let md = MarkflowError::MarkdownAdapter(String::from("bad input"));
    assert_eq!(md.message(), "markdown parser error: bad input");
}

#[test]
fn nested_structures_keep_start_end_balance() {
    let inputs = [
        "> a quote with a list\n>\n> * one\n> * two\n",
        "# H\n\n| x | y |\n|---|---|\n| *a* | **b** |",
        "1. first\n2. second\n   * inner\n   * items\n",
    ];
    for input in inputs.iter() {
        let events = collect_events(input);
        let mut open: Vec<TagEnd> = Vec::new();
        for event in events {
            match event {
                Event::Start(tag) => open.push(tag.to_end()),
                Event::End(end) => {
                    assert_eq!(open.pop(), Some(end));
                }
                _ => {}
            }
        }
        assert!(open.is_empty());
    }
}

#[test]
fn ordered_list_start_is_clamped_to_one() {
    let output = parse("0. zero\n1. one\n").unwrap();
    assert!(output.contains("<ol start=\"1\">"));
    let output = parse("3. three\n4. four\n").unwrap();
    assert!(output.contains("<ol start=\"3\">"));
}

#[test]
fn heading_with_only_punctuation_gets_no_id() {
    let output = parse("# !!!").unwrap();
    assert!(output.contains("<h1>"));
    assert!(!output.contains("<h1 id="));
}

#[test]
fn hello_stream_renders_exactly() {
    let output = parse("# Hello Stream").unwrap();
    assert_eq!(output, "<h1 id=\"hello-stream\">Hello Stream</h1>\n");
}

#[test]
fn fenced_code_block_carries_language_class() {
    let output = parse("```rust\nlet x = 1;\n```").unwrap();
    assert_eq!(output, "<pre><code class=\"language-rust\">let x = 1;</code></pre>\n");
}

#[test]
fn link_title_is_escaped_into_attribute() {
    let output = parse("[go](https://example.com \"a \\\"quoted\\\" title\")").unwrap();
    assert!(output.contains("<a href=\"https://example.com\" title=\"a &quot;quoted&quot; title\">go</a>"));
}

#[test]
fn blockquote_rule_and_breaks_render() {
    let output = parse("> quoted\n\n---\n").unwrap();
    assert!(output.contains("<blockquote>"));
    assert!(output.contains("</blockquote>"));
    assert!(output.contains("<hr />"));
}

#[test]
fn text_special_characters_are_escaped() {
    let output = parse("a \\<b\\> & 'c'").unwrap();
    assert!(output.contains("&lt;b&gt;"));
    assert!(output.contains("&amp;"));
    assert!(output.contains("&#39;c&#39;"));
}

#[test]
fn inline_html_passes_through_unescaped() {
    let output = parse("before <span data-x=\"1\">inside</span> after").unwrap();
    assert!(output.contains("<span data-x=\"1\">inside</span>"));
}

#[test]
fn display_math_renders_in_block_container() {
    let output = parse("$$\nx + y\n$$").unwrap();
    assert!(output.contains("<div class=\"math-display\">x + y</div>"));
}
