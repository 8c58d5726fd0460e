//! HTML escaping behaviour: the five special characters become entities and
//! everything else passes through unchanged.

use markflow::sanitize_html;

#[test]
fn sanitize_basic_characters() {
    assert_eq!(sanitize_html("&"), "&amp;");
    assert_eq!(sanitize_html("<"), "&lt;");
    assert_eq!(sanitize_html(">"), "&gt;");
    assert_eq!(sanitize_html("\""), "&quot;");
    assert_eq!(sanitize_html("'"), "&#39;");
}

#[test]
fn sanitize_mixed_content() {
    assert_eq!(
        sanitize_html("Hello <world> & \"friends\"!"),
        "Hello &lt;world&gt; &amp; &quot;friends&quot;!"
    );
    assert_eq!(
        sanitize_html("<script>alert('xss')</script>"),
        "&lt;script&gt;alert(&#39;xss&#39;)&lt;/script&gt;"
    );
}

#[test]
fn handle_normal_text() {
    let normal_text = "Hello world 123 こんにちは";
    assert_eq!(sanitize_html(normal_text), normal_text);

    assert_eq!(sanitize_html(""), "");
}

#[test]
fn escape_special_characters() {
    assert_eq!(sanitize_html("&<>\"'"), "&amp;&lt;&gt;&quot;&#39;");
    assert_eq!(sanitize_html("&&&"), "&amp;&amp;&amp;");
}

#[test]
fn preserve_unicode_safety() {
    assert_eq!(
        sanitize_html("日本語 & English < 中文 > \"text\""),
        "日本語 &amp; English &lt; 中文 &gt; &quot;text&quot;"
    );
    assert_eq!(
        sanitize_html("🚀 <rocket> & 'emoji'"),
        "🚀 &lt;rocket&gt; &amp; &#39;emoji&#39;"
    );
}

#[test]
fn sanitize_attribute_values() {
    assert_eq!(
        sanitize_html("class=\"container\" data-value='test'"),
        "class=&quot;container&quot; data-value=&#39;test&#39;"
    );
}
