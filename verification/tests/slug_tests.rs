//! Slug generation behaviour: Unicode preservation, CJK handling, separator
//! normalization, fallbacks and collision handling.

use markflow::slugify;
use markflow::slugify_ascii;

#[test]
fn handles_text_variants() {
    let mut used: Vec<String> = Vec::new();
    assert_eq!(slugify("Hello World", &mut used), "hello-world");
    assert_eq!(slugify("Hello    World", &mut used), "hello-world-1");

    let mut used: Vec<String> = Vec::new();
    assert_eq!(slugify("こんにちは 世界", &mut used), "こんにちは世界");

    let mut used: Vec<String> = Vec::new();
    assert_eq!(slugify("Mixed 文字 列", &mut used), "mixed-文字列");
}

#[test]
fn removes_spaces_between_cjk() {
    let mut used: Vec<String> = Vec::new();
    assert_eq!(slugify("日本語 の 見出し", &mut used), "日本語の見出し");
}

#[test]
fn separates_cjk_and_ascii() {
    let mut used: Vec<String> = Vec::new();
    assert_eq!(slugify("Astro 日本語", &mut used), "astro-日本語");
    let mut used: Vec<String> = Vec::new();
    assert_eq!(slugify("日本語 Astro", &mut used), "日本語-astro");
}

#[test]
fn appends_suffixes_for_duplicates() {
    let mut used: Vec<String> = Vec::new();
    assert_eq!(slugify("Section", &mut used), "section");
    assert_eq!(slugify("Section", &mut used), "section-1");
    assert_eq!(slugify("Section", &mut used), "section-2");
}

#[test]
fn prevents_slug_collisions() {
    let mut used: Vec<String> = Vec::new();
    assert_eq!(slugify("Section", &mut used), "section");
    assert_eq!(slugify("Section 1", &mut used), "section-1");
    assert_eq!(slugify("Section", &mut used), "section-2");
}

#[test]
fn defaults_empty_to_section() {
    let mut used: Vec<String> = Vec::new();
    assert_eq!(slugify("!!!", &mut used), "section");
    assert_eq!(slugify("!!!", &mut used), "section-1");
}

#[test]
fn preserves_unicode_alphanumeric() {
    let mut used: Vec<String> = Vec::new();
    assert_eq!(slugify("Café", &mut used), "café");

    let mut used: Vec<String> = Vec::new();
    assert_eq!(slugify("naïve", &mut used), "naïve");

    let mut used: Vec<String> = Vec::new();
    assert_eq!(slugify("Москва", &mut used), "москва");
}

#[test]
fn handles_fullwidth_characters() {
    let mut used: Vec<String> = Vec::new();
    assert_eq!(slugify("Ａｂｃ１２３", &mut used), "Ａｂｃ１２３");

    let mut used: Vec<String> = Vec::new();
    assert_eq!(slugify("Full-width！", &mut used), "full-width！");
}

#[test]
fn normalizes_mixed_separators() {
    let mut used: Vec<String> = Vec::new();
    assert_eq!(
        slugify("hello_world-test.file/path", &mut used),
        "hello-world-test-file-path"
    );
}

#[test]
fn trims_leading_trailing_separators() {
    let mut used: Vec<String> = Vec::new();
    assert_eq!(slugify("-hello-world-", &mut used), "hello-world");

    let mut used: Vec<String> = Vec::new();
    assert_eq!(slugify("   hello world   ", &mut used), "hello-world");
}

#[test]
fn handles_mixed_cjk_scripts() {
    let mut used: Vec<String> = Vec::new();
    assert_eq!(slugify("日本語 한글 漢字", &mut used), "日本語한글漢字");

    let mut used: Vec<String> = Vec::new();
    assert_eq!(slugify("日本語-한글_漢字", &mut used), "日本語한글漢字");
}

#[test]
fn handles_empty_and_special_input() {
    let mut used: Vec<String> = Vec::new();
    assert_eq!(slugify("", &mut used), "section");

    let mut used: Vec<String> = Vec::new();
    assert_eq!(slugify("   ", &mut used), "section");

    let mut used: Vec<String> = Vec::new();
    assert_eq!(slugify("@#$%^&*()", &mut used), "section");
}

#[test]
fn ensures_uniqueness_with_complex_patterns() {
    let mut used: Vec<String> = Vec::new();

    assert_eq!(slugify("Test", &mut used), "test");
    assert_eq!(slugify("Test 1", &mut used), "test-1");
    assert_eq!(slugify("Test  1", &mut used), "test-1-1");
    assert_eq!(slugify("Test", &mut used), "test-2");
    assert_eq!(slugify("Test-1", &mut used), "test-1-2");
}

#[test]
fn generates_basic_slug() {
    let mut used: Vec<String> = Vec::new();
    assert_eq!(slugify("Basic Heading", &mut used), "basic-heading");

    assert_eq!(slugify("Basic Heading", &mut used), "basic-heading-1");
}

#[test]
fn ascii_slugify_basic_functionality() {
    let mut used: Vec<String> = Vec::new();
    assert_eq!(slugify_ascii("Hello World", &mut used), "hello-world");
    assert_eq!(slugify_ascii("Test 123", &mut used), "test-123");
    assert_eq!(slugify_ascii("UPPERCASE", &mut used), "uppercase");
}

#[test]
fn ascii_slugify_removes_unicode() {
    let mut used: Vec<String> = Vec::new();
    assert_eq!(slugify_ascii("Hello 世界", &mut used), "hello");
    let mut used: Vec<String> = Vec::new();
    assert_eq!(slugify_ascii("日本語", &mut used), "section");

    let mut used: Vec<String> = Vec::new();
    assert_eq!(slugify_ascii("Café", &mut used), "caf");
    let mut used: Vec<String> = Vec::new();
    assert_eq!(slugify_ascii("naïve", &mut used), "nave");

    let mut used: Vec<String> = Vec::new();
    assert_eq!(slugify_ascii("Москва", &mut used), "section");
}

#[test]
fn ascii_slugify_handles_mixed_content() {
    let mut used: Vec<String> = Vec::new();
    assert_eq!(slugify_ascii("ASCII 文字 mixed", &mut used), "ascii-mixed");
    assert_eq!(slugify_ascii("Test-한글-123", &mut used), "test-123");
    assert_eq!(slugify_ascii("hello_世界_world", &mut used), "hello-world");
}

#[test]
fn ascii_slugify_normalizes_separators() {
    let mut used: Vec<String> = Vec::new();
    assert_eq!(
        slugify_ascii("hello_world-test.file/path", &mut used),
        "hello-world-test-file-path"
    );
    assert_eq!(slugify_ascii("multi   spaces", &mut used), "multi-spaces");
    assert_eq!(slugify_ascii("tab\there", &mut used), "tab-here");
}

#[test]
fn ascii_slugify_trims_separators() {
    let mut used: Vec<String> = Vec::new();
    assert_eq!(slugify_ascii("-hello-world-", &mut used), "hello-world");
    let mut used: Vec<String> = Vec::new();
    assert_eq!(slugify_ascii("   hello world   ", &mut used), "hello-world");
    let mut used: Vec<String> = Vec::new();
    assert_eq!(slugify_ascii("___test___", &mut used), "test");
}

#[test]
fn ascii_slugify_handles_collision() {
    let mut used: Vec<String> = Vec::new();
    assert_eq!(slugify_ascii("Section", &mut used), "section");
    assert_eq!(slugify_ascii("Section", &mut used), "section-1");
    assert_eq!(slugify_ascii("Section", &mut used), "section-2");
}

#[test]
fn ascii_slugify_prevents_collision_conflicts() {
    let mut used: Vec<String> = Vec::new();
    assert_eq!(slugify_ascii("Section", &mut used), "section");
    assert_eq!(slugify_ascii("Section 1", &mut used), "section-1");
    assert_eq!(slugify_ascii("Section", &mut used), "section-2");
}

#[test]
fn ascii_slugify_defaults_empty_to_section() {
    let mut used: Vec<String> = Vec::new();
    assert_eq!(slugify_ascii("!!!", &mut used), "section");
    assert_eq!(slugify_ascii("@#$%^&*()", &mut used), "section-1");

    assert_eq!(slugify_ascii("世界", &mut used), "section-2");
    assert_eq!(slugify_ascii("😀🎉", &mut used), "section-3");

    assert_eq!(slugify_ascii("", &mut used), "section-4");

    assert_eq!(slugify_ascii("   ", &mut used), "section-5");
}

#[test]
fn ascii_slugify_handles_complex_patterns() {
    let mut used: Vec<String> = Vec::new();

    assert_eq!(slugify_ascii("Test", &mut used), "test");
    assert_eq!(slugify_ascii("Test 1", &mut used), "test-1");
    assert_eq!(slugify_ascii("Test  1", &mut used), "test-1-1");
    assert_eq!(slugify_ascii("Test", &mut used), "test-2");
    assert_eq!(slugify_ascii("Test-1", &mut used), "test-1-2");
}

#[test]
fn ascii_slugify_preserves_numbers() {
    let mut used: Vec<String> = Vec::new();
    assert_eq!(slugify_ascii("Chapter 1", &mut used), "chapter-1");
    assert_eq!(slugify_ascii("Version 2.0", &mut used), "version-2-0");
    assert_eq!(slugify_ascii("API v3.14", &mut used), "api-v3-14");
    assert_eq!(slugify_ascii("2023年", &mut used), "2023");
}

#[test]
fn ascii_slugify_edge_cases() {
    let mut used: Vec<String> = Vec::new();

    assert_eq!(slugify_ascii("A", &mut used), "a");
    assert_eq!(slugify_ascii("1", &mut used), "1");
    assert_eq!(slugify_ascii("-", &mut used), "section");

    assert_eq!(slugify_ascii("A世", &mut used), "a-1");
    assert_eq!(slugify_ascii("世A", &mut used), "a-2");
}

#[test]
fn ascii_slugify_comparison_with_unicode() {
    let mut used_ascii: Vec<String> = Vec::new();
    let mut used_unicode: Vec<String> = Vec::new();

    assert_eq!(slugify_ascii("Hello World", &mut used_ascii), "hello-world");
    assert_eq!(slugify("Hello World", &mut used_unicode), "hello-world");

    assert_eq!(slugify_ascii("Hello 世界", &mut used_ascii), "hello");
    assert_eq!(slugify("Hello 世界", &mut used_unicode), "hello-世界");

    assert_eq!(slugify_ascii("日本語", &mut used_ascii), "section");
    assert_eq!(slugify("日本語", &mut used_unicode), "日本語");
}
