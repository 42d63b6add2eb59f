use blog_content::date::DateTime;
use blog_content::models::{Frontmatter, Post, RelatedPost, RelationType};
use blog_content::ranker::resolve_related;

fn post(slug: &str, tags: &[&str], draft: bool) -> Post {
    Post {
        frontmatter: Frontmatter {
            title: slug.to_uppercase(),
            slug: slug.to_string(),
            date: DateTime { year: 2025, month: 1, day: 1, hour: 0, minute: 0, second: 0 },
            updated: None,
            author: None,
            description: None,
            tags: tags.iter().map(|t| t.to_string()).collect(),
            category: None,
            template: "post".to_string(),
            draft,
            toc: false,
            featured_image: None,
            related_posts: Vec::new(),
        },
        raw_content: String::new(),
        file_path: format!("{slug}.md"),
    }
}

#[test]
fn similarity_excludes_drafts_and_ranks_by_shared_tags() {
    let a = post("a", &["x", "y"], false);
    let all = vec![
        post("a", &["x", "y"], false),
        post("b", &["x"], false),
        post("c", &["x", "y", "z"], false),
        post("d", &["x", "y"], true),
    ];
    let similar = a.similar_posts_by_tags(&all, 10);
    let slugs: Vec<&str> = similar.iter().map(|p| p.slug()).collect();
    // The draft d is excluded, a itself is excluded, and c (two shared
    // tags) ranks above b (one shared tag).
    assert_eq!(slugs, vec!["c", "b"]);
}

#[test]
fn similarity_drops_posts_without_overlap_and_respects_the_limit() {
    let me = post("me", &["x", "y", "z"], false);
    let all = vec![
        post("none", &["q"], false),
        post("one", &["x"], false),
        post("two", &["x", "y"], false),
        post("three", &["x", "y", "z"], false),
    ];
    let similar = me.similar_posts_by_tags(&all, 2);
    let slugs: Vec<&str> = similar.iter().map(|p| p.slug()).collect();
    assert_eq!(slugs, vec!["three", "two"]);
}

#[test]
fn repeated_tags_count_once() {
    let me = post("me", &["x", "y"], false);
    let all = vec![
        post("dupes", &["x", "x", "x"], false),
        post("both", &["y", "x"], false),
    ];
    let similar = me.similar_posts_by_tags(&all, 10);
    let slugs: Vec<&str> = similar.iter().map(|p| p.slug()).collect();
    // "dupes" shares one distinct tag despite listing it three times.
    assert_eq!(slugs, vec!["both", "dupes"]);
}

#[test]
fn equal_counts_keep_corpus_order() {
    let me = post("me", &["x"], false);
    let all = vec![
        post("first", &["x"], false),
        post("second", &["x"], false),
        post("third", &["x"], false),
    ];
    let similar = me.similar_posts_by_tags(&all, 10);
    let slugs: Vec<&str> = similar.iter().map(|p| p.slug()).collect();
    assert_eq!(slugs, vec!["first", "second", "third"]);
}

#[test]
fn explicit_relations_resolve_in_order_and_drop_unknown_slugs() {
    let mut me = post("me", &[], false);
    me.frontmatter.related_posts = vec![
        RelatedPost { slug: "b".to_string(), relationship: RelationType::Sequel },
        RelatedPost { slug: "missing".to_string(), relationship: RelationType::Related },
        RelatedPost { slug: "a".to_string(), relationship: RelationType::Conversation },
    ];
    let all = vec![post("a", &[], false), post("b", &[], false)];
    let resolved = resolve_related(&me, &all);
    assert_eq!(resolved.len(), 2);
    assert_eq!(resolved[0].post.slug(), "b");
    assert_eq!(resolved[0].label, "Sequel");
    assert_eq!(resolved[1].post.slug(), "a");
    assert_eq!(resolved[1].label, "In Conversation");
}

#[test]
fn relation_labels_are_fixed() {
    assert_eq!(RelationType::Related.label(), "Related Post");
    assert_eq!(RelationType::Sequel.label(), "Sequel");
    assert_eq!(RelationType::Prequel.label(), "Prequel");
    assert_eq!(RelationType::Conversation.label(), "In Conversation");
    assert_eq!(RelationType::default(), RelationType::Related);
}
