//! The content store: one immutable snapshot of the loaded corpus,
//! replaced wholesale on reload and never patched in place.
//!
//! Readers receive the entire current snapshot; a reload either installs
//! the corpus built from the documents it was handed, in full, or — when
//! the scan failed and no documents came — leaves the prior snapshot
//! exactly as it was. No state in between is ever observable.

use vstd::prelude::*;
use crate::corpus::{load_all_posts, filter_drafts, spec_corpus_posts, spec_sorted_posts,
    spec_visible_posts};
use crate::models::{Post, PostV, SourceFile, SourceFileV};

verus! {

/// The snapshot a corpus build installs: documents parsed, ordered by
/// date, drafts kept only when enabled.
pub open spec fn spec_snapshot(files: Seq<SourceFileV>, enable_drafts: bool) -> Seq<PostV> {
    spec_visible_posts(spec_sorted_posts(spec_corpus_posts(files)), enable_drafts)
}

/// Holds the posts served to every reader.
pub struct ContentStore {
    posts: Vec<Post>,
}

impl ContentStore {
    /// The current snapshot.
    pub closed spec fn snapshot(&self) -> Seq<PostV> {
        self.posts.deep_view()
    }

    /// An empty store: no posts until the first reload.
    pub fn new() -> (r: ContentStore)
        ensures
            r.snapshot() == Seq::<PostV>::empty(),
    {
        let r = ContentStore { posts: Vec::new() };
        proof {
            assert(r.posts.deep_view() =~= Seq::<PostV>::empty());
        }
        r
    }

    /// How many posts the snapshot holds.
    pub fn len(&self) -> (r: usize)
        ensures
            r == self.snapshot().len(),
    {
        self.posts.len()
    }

    /// A reader's view: a full copy of the current snapshot, never a
    /// partial one. A copy taken before a reload keeps showing the prior
    /// snapshot to completion.
    pub fn read(&self) -> (r: Vec<Post>)
        ensures
            r.deep_view() == self.snapshot(),
    {
        clone_posts(&self.posts)
    }

    /// Borrows the current snapshot without copying.
    pub fn posts(&self) -> (r: &Vec<Post>)
        ensures
            r.deep_view() == self.snapshot(),
    {
        &self.posts
    }

    /// Replaces the snapshot with the corpus built from the documents, in
    /// one step; handed nothing — the filesystem scan failed — it keeps
    /// the prior snapshot untouched and reports the failure.
    pub fn reload(&mut self, files: Option<&Vec<SourceFile>>, enable_drafts: bool) -> (ok: bool)
        ensures
            match files {
                Some(fs) => ok && final(self).snapshot() == spec_snapshot(
                    fs.deep_view(),
                    enable_drafts,
                ),
                None => !ok && final(self).snapshot() == old(self).snapshot(),
            },
    {
        match files {
            Some(fs) => {
                let loaded = load_all_posts(fs);
                let filtered = filter_drafts(&loaded, enable_drafts);
                self.posts = filtered;
                true
            },
            None => false,
        }
    }
}

/// Clones a post list, preserving its deep view.
pub fn clone_posts(v: &Vec<Post>) -> (r: Vec<Post>)
    ensures
        r.deep_view() == v.deep_view(),
{
    let mut r: Vec<Post> = Vec::new();
    let n = v.len();
    let mut i: usize = 0;
    while i < n
        invariant
            i <= n,
            n == v@.len(),
            r@.len() == i,
            forall|k: int| 0 <= k < i ==> r@[k]@ == v@[k]@,
        decreases n - i,
    {
        let p = v[i].clone();
        r.push(p);
        i = i + 1;
    }
    proof {
        assert(r.deep_view() =~= v.deep_view());
    }
    r
}

} // verus!
