use blog_content::markdown::{extract_toc, render_toc, render_post_content};
use blog_content::models::TocEntry;
use blog_content::slug::slugify;
use blog_content::frontmatter::load_post;

#[test]
fn test_extract_toc() {
    let markdown = r#"
# Main Title
## Introduction
Some text here.
## Getting Started
### Prerequisites
More text.
### Installation
## Conclusion
"#;
    let toc = extract_toc(markdown);

    assert_eq!(toc.len(), 6);
    assert_eq!(toc[0].text, "Main Title");
    assert_eq!(toc[0].level, 1);
    assert_eq!(toc[1].text, "Introduction");
    assert_eq!(toc[1].level, 2);
    assert_eq!(toc[3].text, "Prerequisites");
    assert_eq!(toc[3].level, 3);
}

#[test]
fn test_slugify() {
    assert_eq!(slugify("Hello World"), "hello-world");
    assert_eq!(slugify("Getting Started with Rust"), "getting-started-with-rust");
    assert_eq!(slugify("API v2.0"), "api-v2-0");
}

#[test]
fn test_render_toc() {
    let entries = vec![
        TocEntry { level: 2, text: "Introduction".to_string(), id: "introduction".to_string() },
        TocEntry { level: 3, text: "Background".to_string(), id: "background".to_string() },
    ];

    let html = render_toc(&entries);
    assert!(html.contains("Introduction"));
    assert!(html.contains("href=\"#introduction\""));
    assert!(html.contains("toc-level-2"));
    assert!(html.contains("toc-level-3"));
}

#[test]
fn slugify_is_idempotent_on_samples() {
    for s in ["Hello World", "API v2.0", "  --weird__input--  ", "ALL CAPS", "", "a"] {
        let once = slugify(s);
        assert_eq!(slugify(&once), once);
    }
}

#[test]
fn heading_order_and_levels_survive_extraction() {
    let markdown = "# T\n## A\n## B\n### C\n### D\n## E\n";
    let toc = extract_toc(markdown);
    let levels: Vec<u8> = toc.iter().map(|e| e.level).collect();
    assert_eq!(levels, vec![1, 2, 2, 3, 3, 2]);
    let html = render_toc(&toc);
    // Exactly the five entries at levels 2 and 3 are rendered, in order;
    // the level-1 page title stays out.
    assert_eq!(html.matches("<li").count(), 5);
    let pos_a = html.find("#a\"").unwrap();
    let pos_c = html.find("#c\"").unwrap();
    let pos_e = html.find("#e\"").unwrap();
    assert!(pos_a < pos_c && pos_c < pos_e);
    assert!(!html.contains("#t\""));
}

#[test]
fn toc_ids_are_slugs_of_the_heading_text() {
    let toc = extract_toc("## Getting Started\n### API v2.0\n");
    assert_eq!(toc[0].id, "getting-started");
    assert_eq!(toc[1].id, "api-v2-0");
}

#[test]
fn empty_toc_renders_nothing() {
    let entries: Vec<TocEntry> = Vec::new();
    assert_eq!(render_toc(&entries), "");
}

#[test]
fn escaped_heading_text_in_rendered_toc() {
    let entries = vec![TocEntry {
        level: 2,
        text: "a < b & c".to_string(),
        id: "a-b-c".to_string(),
    }];
    let html = render_toc(&entries);
    assert!(html.contains("a &lt; b &amp; c"));
    assert!(!html.contains("a < b"));
}

#[test]
fn rendered_post_carries_toc_only_when_asked() {
    let with_toc = load_post(
        "---\ntitle: T\nslug: t\ndate: 2025-01-01\ntoc: true\n---\n## One\n## Two\n",
        "t.md",
    )
    .unwrap();
    let rendered = render_post_content(&with_toc);
    let toc_html = rendered.toc.expect("toc requested");
    assert!(toc_html.contains("href=\"#one\""));
    assert!(toc_html.contains("href=\"#two\""));
    assert!(rendered.html.contains("<h2"));

    let without = load_post(
        "---\ntitle: T\nslug: t\ndate: 2025-01-01\n---\n## One\n",
        "t.md",
    )
    .unwrap();
    assert!(render_post_content(&without).toc.is_none());
}

#[test]
fn code_blocks_come_back_highlighted_in_rendered_markdown() {
    let post = load_post(
        "---\ntitle: T\nslug: t\ndate: 2025-01-01\n---\nSome text.\n\n```rust\nfn main() {}\n```\n",
        "t.md",
    )
    .unwrap();
    let rendered = render_post_content(&post);
    assert!(rendered.html.contains("Some text."));
    // The fenced block went through the highlighter, not the default renderer.
    assert!(rendered.html.contains("main"));
    assert!(rendered.html.contains("<pre"));
}

#[test]
fn explicit_heading_ids_become_anchors() {
    let post = load_post(
        "---\ntitle: T\nslug: t\ndate: 2025-01-01\n---\n## Custom {#my-anchor}\n",
        "t.md",
    )
    .unwrap();
    let rendered = render_post_content(&post);
    assert!(rendered.html.contains("<a id=\"my-anchor\"></a>"));
}

#[test]
fn plain_headings_get_slug_anchors_matching_the_toc() {
    let post = load_post(
        "---\ntitle: T\nslug: t\ndate: 2025-01-01\ntoc: true\n---\n## Introduction\n### API v2.0\n",
        "t.md",
    )
    .unwrap();
    let rendered = render_post_content(&post);
    // The body carries an anchor for every heading, with the same id the
    // TOC links to.
    assert!(rendered.html.contains("<a id=\"introduction\"></a>"));
    assert!(rendered.html.contains("<a id=\"api-v2-0\"></a>"));
    let toc_html = rendered.toc.unwrap();
    assert!(toc_html.contains("href=\"#introduction\""));
    assert!(toc_html.contains("href=\"#api-v2-0\""));
}

#[test]
fn explicit_ids_agree_between_toc_and_anchors() {
    let toc = extract_toc("## Custom {#my-anchor}\n");
    assert_eq!(toc[0].id, "my-anchor");
    assert_eq!(toc[0].text, "Custom");
    let post = load_post(
        "---\ntitle: T\nslug: t\ndate: 2025-01-01\ntoc: true\n---\n## Custom {#my-anchor}\n",
        "t.md",
    )
    .unwrap();
    let rendered = render_post_content(&post);
    assert!(rendered.html.contains("<a id=\"my-anchor\"></a>"));
    assert!(rendered.toc.unwrap().contains("href=\"#my-anchor\""));
}
