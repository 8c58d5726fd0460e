//! The buffered rendering front end: HTML output, option toggles, and the
//! collected heading list with its unique anchor slugs.

use markflow::Heading;
use markflow::Options;
use markflow::RenderResult;
use markflow::render::render;

fn render_default(source: &str) -> RenderResult {
    render(source, &Options::default()).unwrap()
}

#[test]
fn render_h1_heading() {
    let result = render_default("# Hello World");
    assert!(
        result
            .html
            .contains("<h1 id=\"hello-world\">Hello World</h1>"),
        "Expected <h1 id=\"hello-world\">Hello World</h1>, got: {}",
        result.html
    );
    assert_eq!(result.headings.len(), 1);
    assert_eq!(result.headings[0].depth, 1);
    assert_eq!(result.headings[0].text, "Hello World");
}

#[test]
fn render_returns_structured_result() {
    let markdown = "# Title\n\nParagraph with **bold** and [link](https://example.com).";
    let result = render_default(markdown);

    assert!(!result.html.is_empty());
    assert!(result.html.contains("<h1 id=\"title\">Title</h1>"));
    assert!(result
        .html
        .contains("<p>Paragraph with <strong>bold</strong> and <a href=\"https://example.com\">link</a>.</p>"));
    assert_eq!(result.headings.len(), 1);
    assert_eq!(result.headings[0].depth, 1);
    assert_eq!(result.headings[0].text, "Title");
}

#[test]
fn render_multiple_heading_levels() {
    let markdown = "# H1 Title\n## H2 Subtitle\n### H3 Section";
    let result = render_default(markdown);
    assert!(result.html.contains("<h1 id=\"h1-title\">H1 Title</h1>"));
    assert!(result
        .html
        .contains("<h2 id=\"h2-subtitle\">H2 Subtitle</h2>"));
    assert!(result
        .html
        .contains("<h3 id=\"h3-section\">H3 Section</h3>"));

    let depths: Vec<_> = result.headings.iter().map(|h| h.depth).collect();
    assert_eq!(depths, vec![1, 2, 3]);
}

#[test]
fn event_based_extraction_rejects_tight_atx_syntax() {
    let markdown = "#NoSpace\n\nParagraph";
    let result = render_default(markdown);

    assert!(result.html.contains("<p>#NoSpace</p>"));
    assert!(result.html.contains("<p>Paragraph</p>"));
    assert_eq!(result.headings.len(), 0);
}

#[test]
fn render_paragraph() {
    let result = render_default("Hello world");
    assert!(
        result.html.contains("<p>Hello world</p>"),
        "Expected <p>Hello world</p>, got: {}",
        result.html
    );
}

#[test]
fn render_multiline_paragraphs() {
    let markdown = "First paragraph.\n\nSecond paragraph.";
    let result = render_default(markdown);
    assert!(result.html.contains("<p>First paragraph.</p>"));
    assert!(result.html.contains("<p>Second paragraph.</p>"));
}

#[test]
fn render_emphasis_markup() {
    let markdown = "This is **bold** and *italic* text.";
    let result = render_default(markdown);
    assert!(result.html.contains("<strong>bold</strong>"));
    assert!(result.html.contains("<em>italic</em>"));
}

#[test]
fn render_inline_code() {
    let markdown = "Use `code` for inline code.";
    let result = render_default(markdown);
    assert!(result.html.contains("<code>code</code>"));
}

#[test]
fn render_code_blocks() {
    let markdown = "```rust\nfn main() {\n    println!(\"Hello\");\n}\n```";
    let result = render_default(markdown);
    assert!(result.html.contains("<pre><code"));
    assert!(result.html.contains("fn main()"));
}

#[test]
fn render_links() {
    let markdown = "Visit [Rust](https://rust-lang.org) website.";
    let result = render_default(markdown);
    assert!(result
        .html
        .contains("<a href=\"https://rust-lang.org\">Rust</a>"));
}

#[test]
fn render_images() {
    let markdown = "![Rust Logo](https://rustacean.net/assets/rustacean-flat-happy.png)";
    let result = render_default(markdown);
    assert!(result.html.contains("<img"));
    assert!(result.html.contains("alt=\"Rust Logo\""));
    assert!(result
        .html
        .contains("src=\"https://rustacean.net/assets/rustacean-flat-happy.png\""));
}

#[test]
fn single_pass_heading_scan_preserves_gfm_html_correctness() {
    let markdown = "# Table Heading\n\n| Name | Age |\n|------|-----|\n| Alice | 30 |";
    let result = render_default(markdown);

    assert!(result.html.contains("<table>"));
    assert!(result
        .html
        .contains("<h1 id=\"table-heading\">Table Heading</h1>"));
    let heading_texts: Vec<_> = result.headings.iter().map(|h| h.text.as_str()).collect();
    assert_eq!(heading_texts, vec!["Table Heading"]);
}

#[test]
fn ignore_tables_when_disabled() {
    let markdown = "| Name | Age |\n|------|-----|\n| Alice | 30 |";
    let mut options = Options::default();
    options.gfm_tables = false;
    let result = render(markdown, &options).unwrap();
    assert!(
        !result.html.contains("<table>"),
        "Expected table NOT to be rendered when disabled, got: {}",
        result.html
    );
}

#[test]
fn render_tasklists_when_enabled() {
    let markdown = "- [x] Completed task\n- [ ] Pending task";
    let result = render_default(markdown);
    assert!(result.html.contains("type=\"checkbox\""));
    assert!(result.html.contains("checked=\"\""));
}

#[test]
fn ignore_tasklists_when_disabled() {
    let markdown = "- [x] Completed task\n- [ ] Pending task";
    let mut options = Options::default();
    options.gfm_tasklists = false;
    let result = render(markdown, &options).unwrap();
    assert!(
        !result.html.contains("type=\"checkbox\""),
        "Expected tasklist NOT to be rendered when disabled, got: {}",
        result.html
    );
}

#[test]
fn render_strikethrough_text() {
    let markdown = "This is ~~deleted~~ text.";
    let result = render_default(markdown);
    assert!(result.html.contains("<del>deleted</del>"));
}

#[test]
fn ignore_footnotes_when_disabled() {
    let markdown = "Text with footnote[^1].\n\n[^1]: This is a footnote.";
    let mut options = Options::default();
    options.footnotes = false;
    let result = render(markdown, &options).unwrap();
    assert!(result.html.contains("[^1]"));
}

#[test]
fn transform_smart_punctuation_when_enabled() {
    let markdown = "\"Hello\" and 'world' -- test.";
    let result = render_default(markdown);
    assert!(result.html.len() >= markdown.len());
}

#[test]
fn render_cjk_content() {
    let markdown = "# 日本語の見出し\n\n中国語：你好世界\n\n한글: 안녕하세요";
    let result = render_default(markdown);
    assert!(result.html.contains("<h1 id=\"日本語の見出し\">日本語の見出し</h1>"));
    assert!(result.html.contains("<p>中国語：你好世界</p>"));
    assert!(result.html.contains("<p>한글: 안녕하세요</p>"));

    assert_eq!(result.headings.len(), 1);
    assert_eq!(result.headings[0].text, "日本語の見出し");
}

#[test]
fn render_mixed_script_content() {
    let markdown = "# Mixed 文字 Scripts 한글\n\nEnglish and 日本語 and 한국어.";
    let result = render_default(markdown);
    assert!(result
        .html
        .contains("<h1 id=\"mixed-文字-scripts-한글\">Mixed 文字 Scripts 한글</h1>"));
    assert!(result
        .html
        .contains("<p>English and 日本語 and 한국어.</p>"));
}

#[test]
fn handle_empty_input() {
    let result = render_default("");
    assert_eq!(result.headings.len(), 0);
    assert!(result.html.len() < 50);
}

#[test]
fn handle_whitespace_only_input() {
    let result = render_default("   \n\n  \t  \n");
    assert_eq!(result.headings.len(), 0);
}

#[test]
fn handle_malformed_markdown() {
    let malformed = "# Unclosed **bold\n\n[Invalid link](";
    let result = render_default(malformed);
    assert!(!result.html.is_empty());
    assert_eq!(result.headings.len(), 1);
}

#[test]
fn escape_html_content() {
    let markdown = "Code with `<script>alert('xss')</script>` tags.";
    let result = render_default(markdown);

    assert!(result.html.contains("<code>"));
    assert!(result.html.contains("&lt;script&gt;"));
    assert!(result.html.contains("&lt;/script&gt;"));
}

#[test]
fn handle_large_content() {
    let large_content = "# Test\n\n".repeat(1000) + &"Content line.\n".repeat(1000);
    let result = render_default(&large_content);
    assert_eq!(result.headings.len(), 1000);
    assert!(result.html.len() > large_content.len());
}

#[test]
fn render_with_all_options_disabled() {
    let markdown = "# Title\n\n| Table | Test |\n|-------|------|\n| A | B |\n\n- [x] Task";
    let options = Options {
        gfm_tables: false,
        gfm_tasklists: false,
        footnotes: false,
        smart_punct: false,
    };
    let result = render(markdown, &options).unwrap();

    assert!(result.html.contains("<h1 id=\"title\">Title</h1>"));
    assert!(!result.html.contains("<table>"));
    assert!(!result.html.contains("type=\"checkbox\""));
}

#[test]
fn render_with_selective_options() {
    let markdown = "\"Smart quotes\" and:\n\n| Table | Test |\n|-------|------|\n| A | B |";
    let mut options = Options::default();
    options.gfm_tables = true;
    options.smart_punct = false;

    let result = render(markdown, &options).unwrap();

    assert!(result.html.contains("&quot;Smart quotes&quot;"));
    assert!(result.html.contains("<table>"));
}

#[test]
fn heading_slugs_generate_ascii_when_applicable() {
    let result = render_default("# Hello World");
    assert_eq!(result.headings.len(), 1);
    assert_eq!(result.headings[0].slug, "hello-world");
    assert_eq!(result.headings[0].text, "Hello World");
    assert_eq!(result.headings[0].depth, 1);
}

#[test]
fn cjk_heading_slugs_preserve_unicode() {
    let result = render_default("# 日本語の見出し");
    assert_eq!(result.headings.len(), 1);
    assert_eq!(result.headings[0].text, "日本語の見出し");
    assert_eq!(result.headings[0].slug, "日本語の見出し");
    assert_eq!(result.headings[0].depth, 1);
}

#[test]
fn slug_collisions_handled_consistently() {
    let markdown = "# Test\n\n# Test\n\n# Test";
    let result = render_default(markdown);
    assert_eq!(result.headings.len(), 3);
    assert_eq!(result.headings[0].slug, "test");
    assert_eq!(result.headings[1].slug, "test-1");
    assert_eq!(result.headings[2].slug, "test-2");
    assert!(result.headings.iter().all(|h| h.text == "Test"));
}

#[test]
fn assigns_unique_slugs_across_heading_levels() {
    let markdown = "# Repeat\n## Repeat\n### Repeat";
    let result = render_default(markdown);

    assert!(result.html.contains("<h1 id=\"repeat\">Repeat</h1>"));
    assert!(result.html.contains("<h2 id=\"repeat-1\">Repeat</h2>"));
    assert!(result.html.contains("<h3 id=\"repeat-2\">Repeat</h3>"));

    let slugs: Vec<_> = result.headings.iter().map(|h| h.slug.as_str()).collect();
    assert_eq!(slugs, vec!["repeat", "repeat-1", "repeat-2"]);
}

#[test]
fn anchor_slugs_match_html_ids_on_duplicates() {
    let result = render_default("# Test\n\n# Test\n\n# Test");
    for heading in result.headings.iter() {
        let anchor = format!("<h1 id=\"{}\">Test</h1>", heading.slug);
        assert!(result.html.contains(&anchor));
    }
}

#[test]
fn render_basic_markdown() {
    let result = render_default("# Test Header\n\nParagraph content.");
    assert!(!result.html.is_empty());
    assert!(result.headings.len() > 0);
    assert_eq!(result.headings[0].text, "Test Header");
}

#[test]
fn ignore_headings_in_code_blocks() {
    let markdown = "```\n# Not a heading\n```\n\n# Real heading";
    let result = render_default(markdown);

    assert!(result.html.contains("<pre><code># Not a heading"));
    assert!(result
        .html
        .contains("<h1 id=\"real-heading\">Real heading</h1>"));

    assert_eq!(result.headings.len(), 1);
    assert_eq!(result.headings[0].text, "Real heading");
}

#[test]
fn reject_atx_headings_without_space() {
    let markdown = "#NotAHeading\n\n# Real Heading";
    let result = render_default(markdown);

    assert!(result.html.contains("<p>#NotAHeading</p>"));
    assert!(result
        .html
        .contains("<h1 id=\"real-heading\">Real Heading</h1>"));

    assert_eq!(result.headings.len(), 1);
    assert_eq!(result.headings[0].text, "Real Heading");
}

#[test]
fn reject_invalid_atx_headings_with_seven_or_more_hashes() {
    let markdown = "####### Invalid\n\n# Valid";
    let result = render_default(markdown);

    assert!(result.html.contains("<p>####### Invalid</p>"));
    assert!(result.html.contains("<h1 id=\"valid\">Valid</h1>"));

    assert_eq!(result.headings.len(), 1);
    assert_eq!(result.headings[0].text, "Valid");
}

#[test]
fn extract_h1_h2_h3_headings() {
    let markdown = "# H1 Title\n## H2 Subtitle\n### H3 Section\n# Another H1";
    let result = render_default(markdown);

    assert!(result.html.contains("<h1 id=\"h1-title\">H1 Title</h1>"));
    assert!(result
        .html
        .contains("<h2 id=\"h2-subtitle\">H2 Subtitle</h2>"));
    assert!(result
        .html
        .contains("<h3 id=\"h3-section\">H3 Section</h3>"));
    assert!(result
        .html
        .contains("<h1 id=\"another-h1\">Another H1</h1>"));

    assert_eq!(result.headings.len(), 4);
    let depths: Vec<_> = result.headings.iter().map(|h| h.depth).collect();
    assert_eq!(depths, vec![1, 2, 3, 1]);
}

#[test]
fn handle_inline_formatting_in_headings() {
    let markdown = "# **Bold** and *italic* and `code` heading";
    let result = render_default(markdown);

    assert!(result.html.contains(
        "<h1 id=\"bold-and-italic-and-code-heading\"><strong>Bold</strong> and <em>italic</em> and <code>code</code> heading</h1>"
    ));

    assert_eq!(result.headings.len(), 1);
    assert_eq!(result.headings[0].text, "Bold and italic and code heading");
}

#[test]
fn ignore_headings_in_inline_code() {
    let markdown = "Text with `# not a heading` in code.\n\n# Real heading";
    let result = render_default(markdown);

    assert!(result.html.contains("<code># not a heading</code>"));
    assert!(result
        .html
        .contains("<h1 id=\"real-heading\">Real heading</h1>"));

    assert_eq!(result.headings.len(), 1);
    assert_eq!(result.headings[0].text, "Real heading");
}

#[test]
fn slug_generation_for_ascii_headings() {
    let markdown = "# Test Heading";
    let result = render_default(markdown);

    assert_eq!(result.headings.len(), 1);
    assert_eq!(result.headings[0].text, "Test Heading");
    assert_eq!(result.headings[0].depth, 1);
    assert_eq!(result.headings[0].slug, "test-heading");
}

#[test]
fn unicode_slug_with_mixed_content() {
    let markdown = "# Hello 世界 123\n\n# API ドキュメント v2.0\n\n# 測試 Test";
    let result = render_default(markdown);

    assert_eq!(result.headings.len(), 3);
    assert_eq!(result.headings[0].slug, "hello-世界-123");
    assert_eq!(result.headings[1].slug, "api-ドキュメント-v2-0");
    assert_eq!(result.headings[2].slug, "測試-test");
}

#[test]
fn unicode_slug_collision_prevention() {
    let markdown = "# Section\n\n# Section 1\n\n# Section\n\n# Section-1";
    let result = render_default(markdown);

    assert_eq!(result.headings.len(), 4);
    assert_eq!(result.headings[0].slug, "section");
    assert_eq!(result.headings[1].slug, "section-1");
    assert_eq!(result.headings[2].slug, "section-2");
    assert_eq!(result.headings[3].slug, "section-1-1");
}

#[test]
fn unicode_slug_normalization() {
    let markdown = "# hello_world-test.file/path\n\n# Multiple   Spaces\n\n# @#$%^&*()";
    let result = render_default(markdown);

    assert_eq!(result.headings.len(), 3);
    assert_eq!(result.headings[0].slug, "hello-world-test-file-path");
    assert_eq!(result.headings[1].slug, "multiple-spaces");
    assert_eq!(result.headings[2].slug, "section");
}

#[test]
fn unicode_slug_multiple_fallbacks() {
    let markdown = "# !!!\n\n# 日本語\n\n# 😀🎉\n\n# @#$";
    let result = render_default(markdown);

    assert_eq!(result.headings.len(), 4);
    assert_eq!(result.headings[0].slug, "section");
    assert_eq!(result.headings[1].slug, "日本語");
    assert_eq!(result.headings[2].slug, "section-1");
    assert_eq!(result.headings[3].slug, "section-2");
}

#[test]
fn unicode_slug_comprehensive_demo() {
    let markdown = r#"
# Hello World
# 日本語の見出し
# Section
# Section
# API Documentation v2.0
# Hello 世界 123
# @#$%^&*()
# Section-1
"#;

    let result = render_default(markdown);
    assert_eq!(result.headings.len(), 8);

    let expected_slugs = vec![
        "hello-world",
        "日本語の見出し",
        "section",
        "section-1",
        "api-documentation-v2-0",
        "hello-世界-123",
        "section-2",
        "section-1-1",
    ];

    for (i, heading) in result.headings.iter().enumerate() {
        assert_eq!(
            heading.slug, expected_slugs[i],
            "Heading '{}' should have slug '{}' but got '{}'",
            heading.text, expected_slugs[i], heading.slug
        );
    }
}

#[test]
fn heading_list_clones_are_equal() {
    let result = render_default("# One\n\n# Two");
    let copy: Vec<Heading> = result.headings.clone();
    assert_eq!(copy, result.headings);
}
