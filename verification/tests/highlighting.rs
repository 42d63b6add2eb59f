use blog_content::highlight::{fallback_html, highlight_code, highlight_or_fallback,
    supported_languages};
use blog_content::text::escape_html;

#[test]
fn test_highlight_rust_code() {
    let code = r#"fn main() {
    println!("Hello, world!");
}"#;
    let html = highlight_code(code, "rust");

    // Should contain styled spans
    assert!(html.contains("<span"));
    assert!(html.contains("style="));
    // Should contain the code
    assert!(html.contains("main"));
    assert!(html.contains("println"));
}

#[test]
fn test_unknown_language_fallback() {
    let code = "some unknown code";
    let html = highlight_code(code, "nonexistent_language_xyz");

    // Should still produce valid output
    assert!(html.contains("some unknown code"));
}

#[test]
fn fallback_escapes_every_metacharacter() {
    let html = fallback_html("<script>alert(\"x\") & more</script>");
    assert_eq!(
        html,
        "<pre><code>&lt;script&gt;alert(\"x\") &amp; more&lt;/script&gt;</code></pre>"
    );
}

#[test]
fn engine_failure_degrades_to_the_escaped_block() {
    let out = highlight_or_fallback(None, "a < b");
    assert_eq!(out, "<pre><code>a &lt; b</code></pre>");
    let out = highlight_or_fallback(Some("<span>done</span>".to_string()), "ignored");
    assert_eq!(out, "<span>done</span>");
}

#[test]
fn escaping_agrees_with_the_html_escape_crate() {
    for s in ["a<b>c&d", "", "plain text", "&&&<<<>>>", "mixed & <tags> left"] {
        assert_eq!(escape_html(s), html_escape::encode_text(s).to_string());
    }
}

#[test]
fn markup_never_survives_escaping() {
    let out = escape_html("<a href=\"x\">link</a>");
    assert!(!out.contains('<'));
    assert!(!out.contains('>'));
}

#[test]
fn bundled_languages_are_available() {
    let names = supported_languages();
    assert!(names.iter().any(|n| n == "Rust"));
    assert!(names.iter().any(|n| n == "Plain Text"));
}

#[test]
fn highlighting_is_deterministic() {
    let code = "fn main() {}";
    assert_eq!(highlight_code(code, "rust"), highlight_code(code, "rust"));
    assert_eq!(
        highlight_code(code, "no-such-language"),
        highlight_code(code, "no-such-language")
    );
}
