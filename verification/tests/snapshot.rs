use blog_content::models::SourceFile;
use blog_content::store::ContentStore;

fn sf(path: &str, text: &str) -> SourceFile {
    SourceFile { path: path.to_string(), text: text.to_string() }
}

fn corpus() -> Vec<SourceFile> {
    vec![
        sf("a.md", "---\ntitle: A\nslug: a\ndate: 2025-01-02\n---\nx"),
        sf("b.md", "---\ntitle: B\nslug: b\ndate: 2025-01-01\ndraft: true\n---\nx"),
    ]
}

#[test]
fn reload_installs_the_whole_new_snapshot() {
    let mut store = ContentStore::new();
    assert_eq!(store.len(), 0);
    assert!(store.reload(Some(&corpus()), false));
    // Drafts were filtered at load time.
    assert_eq!(store.len(), 1);
    let view = store.read();
    assert_eq!(view[0].slug(), "a");

    assert!(store.reload(Some(&corpus()), true));
    assert_eq!(store.len(), 2);
}

#[test]
fn failed_reload_keeps_the_prior_snapshot() {
    let mut store = ContentStore::new();
    assert!(store.reload(Some(&corpus()), true));
    assert_eq!(store.len(), 2);
    // The filesystem scan failed: nothing was handed over.
    assert!(!store.reload(None, true));
    assert_eq!(store.len(), 2);
    let view = store.read();
    assert_eq!(view[0].slug(), "a");
    assert_eq!(view[1].slug(), "b");
}

#[test]
fn a_reader_view_outlives_a_later_reload() {
    let mut store = ContentStore::new();
    assert!(store.reload(Some(&corpus()), true));
    let before = store.read();
    assert!(store.reload(Some(&vec![sf(
        "c.md",
        "---\ntitle: C\nslug: c\ndate: 2025-02-01\n---\nx",
    )]), true));
    // The copy taken before the reload still shows the prior snapshot in
    // full; the store serves the new one.
    assert_eq!(before.len(), 2);
    assert_eq!(before[0].slug(), "a");
    let after = store.read();
    assert_eq!(after.len(), 1);
    assert_eq!(after[0].slug(), "c");
}
