use blog_content::frontmatter::{load_page, load_post, ContentError};
use blog_content::corpus::{load_all_posts, load_post_by_slug, paginate};
use blog_content::models::{RelationType, SourceFile};

fn sf(path: &str, text: &str) -> SourceFile {
    SourceFile { path: path.to_string(), text: text.to_string() }
}

#[test]
fn test_parse_post_with_valid_frontmatter() {
    let content = r#"---
title: "Test Post"
slug: "test-post"
date: 2025-01-15
author: "Test Author"
tags: ["rust", "test"]
---

# Hello World

This is a test post.
"#;
    let files = vec![sf("2025-01-15-test-post.md", content)];
    let posts = load_all_posts(&files);
    assert_eq!(posts.len(), 1);

    let post = &posts[0];
    assert_eq!(post.title(), "Test Post");
    assert_eq!(post.slug(), "test-post");
    assert_eq!(post.frontmatter.author, Some("Test Author".to_string()));
    assert_eq!(post.frontmatter.tags, vec!["rust", "test"]);
}

#[test]
fn test_load_page() {
    let content = r#"---
title: "About"
slug: "about"
---

# About this blog

Some content here.
"#;
    let file = sf("pages/about.md", content);
    let page = load_page("about", Some(&file)).unwrap();
    assert_eq!(page.title, "About");
    assert_eq!(page.slug, "about");
}

#[test]
fn test_path_traversal_protection() {
    let result = load_page("../etc/passwd", None);
    assert!(matches!(result, Err(ContentError::InvalidPath(_))));
}

#[test]
fn path_traversal_rejected_before_any_lookup() {
    // Even when a document is handed over, an unsafe slug fails closed.
    let file = sf("pages/secret.md", "---\ntitle: \"X\"\nslug: \"x\"\n---\nbody");
    assert!(matches!(load_page("../secret", Some(&file)), Err(ContentError::InvalidPath(_))));
    assert!(matches!(load_page("a/b", Some(&file)), Err(ContentError::InvalidPath(_))));
    assert!(matches!(load_page("a\\b", Some(&file)), Err(ContentError::InvalidPath(_))));
    assert!(matches!(load_page("no-such", None), Err(ContentError::PageNotFound(_))));
}

#[test]
fn round_trips_every_field() {
    let content = "---\ntitle: \"Full Post\"\nslug: full-post\ndate: 2024-02-29 10:30:59\nupdated: 2024-03-01\nauthor: 'Someone'\ndescription: \"All fields set\"\ntags: [alpha, \"beta\", gamma]\ncategory: engineering\ntemplate: special\ndraft: true\ntoc: true\nfeatured_image: \"/images/x.png\"\nrelated_posts:\n  - slug: \"other-post\"\n    relationship: sequel\n  - slug: plain-ref\n---\nBody text.\n";
    let post = load_post(content, "full.md").unwrap();
    let fm = &post.frontmatter;
    assert_eq!(fm.title, "Full Post");
    assert_eq!(fm.slug, "full-post");
    assert_eq!(fm.date.year, 2024);
    assert_eq!(fm.date.month, 2);
    assert_eq!(fm.date.day, 29);
    assert_eq!(fm.date.hour, 10);
    assert_eq!(fm.date.minute, 30);
    assert_eq!(fm.date.second, 59);
    let updated = fm.updated.unwrap();
    assert_eq!((updated.year, updated.month, updated.day), (2024, 3, 1));
    assert_eq!((updated.hour, updated.minute, updated.second), (0, 0, 0));
    assert_eq!(fm.author, Some("Someone".to_string()));
    assert_eq!(fm.description, Some("All fields set".to_string()));
    assert_eq!(fm.tags, vec!["alpha", "beta", "gamma"]);
    assert_eq!(fm.category, Some("engineering".to_string()));
    assert_eq!(fm.template, "special");
    assert!(fm.draft);
    assert!(fm.toc);
    assert_eq!(fm.featured_image, Some("/images/x.png".to_string()));
    assert_eq!(fm.related_posts.len(), 2);
    assert_eq!(fm.related_posts[0].slug, "other-post");
    assert_eq!(fm.related_posts[0].relationship, RelationType::Sequel);
    assert_eq!(fm.related_posts[1].slug, "plain-ref");
    assert_eq!(fm.related_posts[1].relationship, RelationType::Related);
    assert_eq!(post.raw_content, "Body text.\n");
    assert_eq!(post.file_path, "full.md");
}

#[test]
fn defaults_apply_when_fields_are_unset() {
    let content = "---\ntitle: T\nslug: t\ndate: 2025-01-01\n---\nbody";
    let post = load_post(content, "t.md").unwrap();
    let fm = &post.frontmatter;
    assert_eq!(fm.template, "post");
    assert!(!fm.draft);
    assert!(!fm.toc);
    assert!(fm.tags.is_empty());
    assert!(fm.related_posts.is_empty());
    assert_eq!(fm.updated, None);
    assert_eq!(fm.author, None);
    assert_eq!(fm.description, None);
    assert_eq!(fm.category, None);
    assert_eq!(fm.featured_image, None);
}

#[test]
fn malformed_document_is_skipped_in_bulk_load() {
    let good1 = sf("a.md", "---\ntitle: A\nslug: a\ndate: 2025-01-02\n---\nA body");
    let bad = sf("b.md", "---\ntitle: B\nslug: b\ndate: not-a-date\n---\nB body");
    let good2 = sf("c.md", "---\ntitle: C\nslug: c\ndate: 2025-01-01\n---\nC body");
    let posts = load_all_posts(&vec![good1, bad, good2]);
    assert_eq!(posts.len(), 2);
    assert_eq!(posts[0].slug(), "a");
    assert_eq!(posts[1].slug(), "c");
}

#[test]
fn bulk_load_sorts_by_date_descending() {
    let files = vec![
        sf("old.md", "---\ntitle: Old\nslug: old\ndate: 2023-05-01\n---\nx"),
        sf("new.md", "---\ntitle: New\nslug: new\ndate: 2025-06-15 08:00:00\n---\nx"),
        sf("mid.md", "---\ntitle: Mid\nslug: mid\ndate: 2024-12-31T23:59:59\n---\nx"),
    ];
    let posts = load_all_posts(&files);
    let slugs: Vec<&str> = posts.iter().map(|p| p.slug()).collect();
    assert_eq!(slugs, vec!["new", "mid", "old"]);
}

#[test]
fn equal_dates_keep_input_order() {
    let files = vec![
        sf("one.md", "---\ntitle: One\nslug: one\ndate: 2025-01-01\n---\nx"),
        sf("two.md", "---\ntitle: Two\nslug: two\ndate: 2025-01-01\n---\nx"),
        sf("three.md", "---\ntitle: Three\nslug: three\ndate: 2025-01-01\n---\nx"),
    ];
    let posts = load_all_posts(&files);
    let slugs: Vec<&str> = posts.iter().map(|p| p.slug()).collect();
    assert_eq!(slugs, vec!["one", "two", "three"]);
}

#[test]
fn missing_metadata_block_is_a_missing_field() {
    let r = load_post("# Just markdown\n\nNo metadata here.\n", "x.md");
    assert!(matches!(r, Err(ContentError::MissingField(_))));
}

#[test]
fn unterminated_metadata_block_is_a_missing_field() {
    let r = load_post("---\ntitle: T\nslug: t\ndate: 2025-01-01\nbody without close", "x.md");
    assert!(matches!(r, Err(ContentError::MissingField(_))));
}

#[test]
fn bad_metadata_is_a_parse_error() {
    let bad_date = load_post("---\ntitle: T\nslug: t\ndate: 2025-13-01\n---\nx", "x.md");
    assert!(matches!(bad_date, Err(ContentError::FrontmatterParse(_))));
    let no_title = load_post("---\nslug: t\ndate: 2025-01-01\n---\nx", "x.md");
    assert!(matches!(no_title, Err(ContentError::FrontmatterParse(_))));
    let bad_bool = load_post("---\ntitle: T\nslug: t\ndate: 2025-01-01\ndraft: maybe\n---\nx", "x.md");
    assert!(matches!(bad_bool, Err(ContentError::FrontmatterParse(_))));
    let no_colon = load_post("---\ntitle: T\nslug t\ndate: 2025-01-01\n---\nx", "x.md");
    assert!(matches!(no_colon, Err(ContentError::FrontmatterParse(_))));
}

#[test]
fn lookup_by_slug_finds_the_post_or_reports_it_missing() {
    let files = vec![
        sf("a.md", "---\ntitle: A\nslug: a\ndate: 2025-01-02\n---\nx"),
        sf("b.md", "---\ntitle: B\nslug: b\ndate: 2025-01-01\n---\nx"),
    ];
    let found = load_post_by_slug("b", &files).unwrap();
    assert_eq!(found.title(), "B");
    let missing = load_post_by_slug("zzz", &files);
    assert!(matches!(missing, Err(ContentError::PostNotFound(_))));
}

#[test]
fn error_messages_name_the_failure() {
    let e = ContentError::PageNotFound("about".to_string());
    assert_eq!(e.message(), "Page not found: about");
    let e = ContentError::InvalidPath("../x".to_string());
    assert_eq!(e.message(), "Invalid content path: ../x");
}

#[test]
fn pagination_slices_the_list() {
    let files: Vec<SourceFile> = (1..=5)
        .map(|i| {
            sf(
                &format!("p{i}.md"),
                &format!("---\ntitle: P{i}\nslug: p{i}\ndate: 2025-01-0{i}\n---\nx"),
            )
        })
        .collect();
    let posts = load_all_posts(&files);
    assert_eq!(posts.len(), 5);
    let (page1, total) = paginate(&posts, 1, 2);
    assert_eq!(total, 3);
    assert_eq!(page1.len(), 2);
    assert_eq!(page1[0].slug(), "p5");
    let (page3, _) = paginate(&posts, 3, 2);
    assert_eq!(page3.len(), 1);
    assert_eq!(page3[0].slug(), "p1");
    let (page9, _) = paginate(&posts, 9, 2);
    assert!(page9.is_empty());
}
