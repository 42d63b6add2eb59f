//! The corpus: bulk loading of posts, date ordering, lookup by slug, and
//! the list shaping (filtering, pagination) the surrounding application
//! asks for.
//!
//! Bulk loading is tolerant: a document that fails to parse is skipped,
//! the rest of the corpus loads. The result is ordered by date, newest
//! first; posts with equal dates keep the order their files were handed
//! in.

use vstd::prelude::*;
use crate::date::{dt_key, dt_key_of, dt_valid};
use crate::frontmatter::{spec_load_post_doc, load_post, ContentError};
use crate::models::{Post, PostV, SourceFile, SourceFileV};

verus! {

/// A sort item: an ordering key and the index the item came from.
/// Items are ordered by descending key; equal keys keep ascending index
/// order, which makes the sort stable.
pub open spec fn pair_lt(a: (u64, usize), b: (u64, usize)) -> bool {
    a.0 > b.0 || (a.0 == b.0 && a.1 < b.1)
}

/// Inserts an item after every item whose key is at least as large.
pub open spec fn spec_insert_pair(s: Seq<(u64, usize)>, x: (u64, usize)) -> Seq<(u64, usize)>
    decreases s.len(),
{
    if s.len() == 0 {
        seq![x]
    } else if x.0 > s[0].0 {
        seq![x] + s
    } else {
        seq![s[0]] + spec_insert_pair(s.drop_first(), x)
    }
}

/// Insertion sort over sort items, stable by construction.
pub open spec fn spec_sort_pairs(s: Seq<(u64, usize)>) -> Seq<(u64, usize)>
    decreases s.len(),
{
    if s.len() == 0 {
        Seq::empty()
    } else {
        spec_insert_pair(spec_sort_pairs(s.drop_last()), s.last())
    }
}

pub proof fn lemma_insert_pair_len(s: Seq<(u64, usize)>, x: (u64, usize))
    ensures
        spec_insert_pair(s, x).len() == s.len() + 1,
    decreases s.len(),
{
    if s.len() > 0 && !(x.0 > s[0].0) {
        lemma_insert_pair_len(s.drop_first(), x);
    }
}

pub proof fn lemma_sort_pairs_len(s: Seq<(u64, usize)>)
    ensures
        spec_sort_pairs(s).len() == s.len(),
    decreases s.len(),
{
    if s.len() > 0 {
        lemma_sort_pairs_len(s.drop_last());
        lemma_insert_pair_len(spec_sort_pairs(s.drop_last()), s.last());
    }
}

/// Inserting preserves any bound on indices and keys that both the
/// sequence and the new item satisfy.
pub proof fn lemma_insert_pair_bound(s: Seq<(u64, usize)>, x: (u64, usize), n: int)
    requires
        forall|k: int| 0 <= k < s.len() ==> (#[trigger] s[k]).1 < n,
        x.1 < n,
    ensures
        forall|k: int|
            0 <= k < spec_insert_pair(s, x).len() ==> (#[trigger] spec_insert_pair(s, x)[k]).1 < n,
    decreases s.len(),
{
    let r = spec_insert_pair(s, x);
    if s.len() == 0 {
    } else if x.0 > s[0].0 {
        assert forall|k: int| 0 <= k < r.len() implies (#[trigger] r[k]).1 < n by {
            if k > 0 {
                assert(r[k] == s[k - 1]);
            }
        }
    } else {
        assert forall|k: int| 0 <= k < s.drop_first().len() implies (#[trigger] s.drop_first()[k]).1
            < n by {
            assert(s.drop_first()[k] == s[k + 1]);
        }
        lemma_insert_pair_bound(s.drop_first(), x, n);
        assert forall|k: int| 0 <= k < r.len() implies (#[trigger] r[k]).1 < n by {
            if k > 0 {
                assert(r[k] == spec_insert_pair(s.drop_first(), x)[k - 1]);
            }
        }
    }
}

pub proof fn lemma_sort_pairs_bound(s: Seq<(u64, usize)>, n: int)
    requires
        forall|k: int| 0 <= k < s.len() ==> (#[trigger] s[k]).1 < n,
    ensures
        forall|k: int|
            0 <= k < spec_sort_pairs(s).len() ==> (#[trigger] spec_sort_pairs(s)[k]).1 < n,
    decreases s.len(),
{
    if s.len() > 0 {
        assert forall|k: int| 0 <= k < s.drop_last().len() implies (#[trigger] s.drop_last()[k]).1
            < n by {
            assert(s.drop_last()[k] == s[k]);
        }
        lemma_sort_pairs_bound(s.drop_last(), n);
        lemma_insert_pair_bound(spec_sort_pairs(s.drop_last()), s.last(), n);
    }
}

/// A sequence of sort items in sorted order: descending keys, equal keys
/// in ascending index order.
pub open spec fn pairs_sorted(s: Seq<(u64, usize)>) -> bool {
    forall|i: int, j: int| 0 <= i < j < s.len() ==> pair_lt(#[trigger] s[i], #[trigger] s[j])
}

/// Inserting into a sorted sequence whose indices are all below the new
/// item's index keeps it sorted.
pub proof fn lemma_insert_pair_sorted(s: Seq<(u64, usize)>, x: (u64, usize))
    requires
        pairs_sorted(s),
        forall|k: int| 0 <= k < s.len() ==> (#[trigger] s[k]).1 < x.1,
    ensures
        pairs_sorted(spec_insert_pair(s, x)),
    decreases s.len(),
{
    let r = spec_insert_pair(s, x);
    if s.len() == 0 {
    } else if x.0 > s[0].0 {
        assert forall|i: int, j: int| 0 <= i < j < r.len() implies pair_lt(
            #[trigger] r[i],
            #[trigger] r[j],
        ) by {
            if i == 0 {
                assert(r[j] == s[j - 1]);
                if j > 1 {
                    assert(pair_lt(s[0], s[j - 1]));
                }
            } else {
                assert(r[i] == s[i - 1] && r[j] == s[j - 1]);
            }
        }
    } else {
        let d = s.drop_first();
        assert forall|i: int, j: int| 0 <= i < j < d.len() implies pair_lt(
            #[trigger] d[i],
            #[trigger] d[j],
        ) by {
            assert(d[i] == s[i + 1] && d[j] == s[j + 1]);
        }
        assert forall|k: int| 0 <= k < d.len() implies (#[trigger] d[k]).1 < x.1 by {
            assert(d[k] == s[k + 1]);
        }
        lemma_insert_pair_sorted(d, x);
        let rd = spec_insert_pair(d, x);
        lemma_insert_pair_len(d, x);
        assert forall|i: int, j: int| 0 <= i < j < r.len() implies pair_lt(
            #[trigger] r[i],
            #[trigger] r[j],
        ) by {
            if i == 0 {
                assert(r[j] == rd[j - 1]);
                // The moved item is either an old element after s[0] or x
                // itself; either way s[0] stands before it.
                lemma_insert_pair_member(d, x, j - 1);
                if rd[j - 1] == x {
                    assert(!(x.0 > s[0].0));
                    assert(s[0].1 < x.1);
                } else {
                    assert(exists|k: int| 0 <= k < d.len() && d[k] == rd[j - 1]);
                    let k = choose|k: int| 0 <= k < d.len() && d[k] == rd[j - 1];
                    assert(pair_lt(s[0], s[k + 1]));
                }
            } else {
                assert(r[i] == rd[i - 1] && r[j] == rd[j - 1]);
            }
        }
    }
}

/// Every item of an insertion is the inserted item or one of the old
/// ones.
pub proof fn lemma_insert_pair_member(s: Seq<(u64, usize)>, x: (u64, usize), k: int)
    requires
        0 <= k < spec_insert_pair(s, x).len(),
    ensures
        spec_insert_pair(s, x)[k] == x || exists|j: int|
            0 <= j < s.len() && s[j] == spec_insert_pair(s, x)[k],
    decreases s.len(),
{
    let r = spec_insert_pair(s, x);
    if s.len() == 0 {
    } else if x.0 > s[0].0 {
        if k > 0 {
            assert(r[k] == s[k - 1]);
        }
    } else {
        if k > 0 {
            lemma_insert_pair_len(s.drop_first(), x);
            lemma_insert_pair_member(s.drop_first(), x, k - 1);
            let rd = spec_insert_pair(s.drop_first(), x);
            assert(r[k] == rd[k - 1]);
            if rd[k - 1] != x {
                let j = choose|j: int|
                    0 <= j < s.drop_first().len() && s.drop_first()[j] == rd[k - 1];
                assert(s[j + 1] == rd[k - 1]);
            }
        }
    }
}

/// The sort of a sequence whose indices strictly increase is sorted.
pub proof fn lemma_sort_pairs_sorted(s: Seq<(u64, usize)>)
    requires
        forall|i: int, j: int| 0 <= i < j < s.len() ==> (#[trigger] s[i]).1 < (#[trigger] s[j]).1,
    ensures
        pairs_sorted(spec_sort_pairs(s)),
    decreases s.len(),
{
    if s.len() > 0 {
        let d = s.drop_last();
        assert forall|i: int, j: int| 0 <= i < j < d.len() implies (#[trigger] d[i]).1 < (
        #[trigger] d[j]).1 by {
            assert(d[i] == s[i] && d[j] == s[j]);
        }
        lemma_sort_pairs_sorted(d);
        assert forall|k: int| 0 <= k < d.len() implies (#[trigger] d[k]).1 < s.last().1 by {
            assert(d[k] == s[k]);
        }
        lemma_sort_pairs_bound_any(d, s.last().1 as int);
        lemma_insert_pair_sorted(spec_sort_pairs(d), s.last());
    }
}

/// Sorting preserves an index bound (stated over the items' indices).
proof fn lemma_sort_pairs_bound_any(s: Seq<(u64, usize)>, n: int)
    requires
        forall|k: int| 0 <= k < s.len() ==> (#[trigger] s[k]).1 < n,
    ensures
        forall|k: int|
            0 <= k < spec_sort_pairs(s).len() ==> (#[trigger] spec_sort_pairs(s)[k]).1 < n,
{
    lemma_sort_pairs_bound(s, n);
}

/// Where an item lands: after the leading run of items with keys at
/// least as large.
pub proof fn lemma_insert_pair_at(s: Seq<(u64, usize)>, x: (u64, usize), p: int)
    requires
        0 <= p <= s.len(),
        forall|k: int| 0 <= k < p ==> (#[trigger] s[k]).0 >= x.0,
        p < s.len() ==> s[p].0 < x.0,
    ensures
        spec_insert_pair(s, x) == s.take(p) + seq![x] + s.skip(p),
    decreases p,
{
    let r = spec_insert_pair(s, x);
    if p == 0 {
        if s.len() == 0 {
            assert(r =~= s.take(0) + seq![x] + s.skip(0));
        } else {
            assert(x.0 > s[0].0);
            assert(r =~= s.take(0) + seq![x] + s.skip(0));
        }
    } else {
        assert(s.len() > 0);
        assert(s[0].0 >= x.0);
        let d = s.drop_first();
        assert forall|k: int| 0 <= k < p - 1 implies (#[trigger] d[k]).0 >= x.0 by {
            assert(d[k] == s[k + 1]);
        }
        if p - 1 < d.len() {
            assert(d[p - 1] == s[p]);
        }
        lemma_insert_pair_at(d, x, p - 1);
        assert(r == seq![s[0]] + (d.take(p - 1) + seq![x] + d.skip(p - 1)));
        assert(r =~= s.take(p) + seq![x] + s.skip(p));
    }
}

/// Sorts sort items: descending keys, stable for equal keys.
pub fn sort_pairs(v: &Vec<(u64, usize)>) -> (r: Vec<(u64, usize)>)
    ensures
        r@ == spec_sort_pairs(v@),
{
    let n = v.len();
    let mut out: Vec<(u64, usize)> = Vec::new();
    let mut i: usize = 0;
    while i < n
        invariant
            i <= n,
            n == v@.len(),
            out@ == spec_sort_pairs(v@.take(i as int)),
        decreases n - i,
    {
        proof {
            assert(v@.take(i + 1).drop_last() =~= v@.take(i as int));
            assert(v@.take(i + 1).last() == v@[i as int]);
            lemma_sort_pairs_len(v@.take(i as int));
        }
        let x = v[i];
        let m = out.len();
        let mut p: usize = 0;
        while p < m && out[p].0 >= x.0
            invariant
                0 <= p <= m,
                m == out@.len(),
                forall|k: int| 0 <= k < p ==> (#[trigger] out@[k]).0 >= x.0,
            decreases m - p,
        {
            p = p + 1;
        }
        proof {
            lemma_insert_pair_at(out@, x, p as int);
        }
        out.insert(p, x);
        proof {
            assert(out@ =~= spec_sort_pairs(v@.take(i as int)).take(p as int) + seq![x]
                + spec_sort_pairs(v@.take(i as int)).skip(p as int));
            assert(out@ =~= spec_sort_pairs(v@.take(i + 1)));
        }
        i = i + 1;
    }
    proof {
        assert(v@.take(n as int) =~= v@);
    }
    out
}

/// The posts of a corpus: each document that parses becomes a post, in
/// input order; the rest are skipped.
pub open spec fn spec_corpus_posts(files: Seq<SourceFileV>) -> Seq<PostV>
    decreases files.len(),
{
    if files.len() == 0 {
        Seq::empty()
    } else {
        let rest = spec_corpus_posts(files.drop_last());
        match spec_load_post_doc(files.last().text) {
            Ok(parts) => rest.push(
                PostV { frontmatter: parts.0, raw_content: parts.1, file_path: files.last().path },
            ),
            Err(_) => rest,
        }
    }
}

/// The sort items of a post list: each post's date key with its
/// position.
pub open spec fn spec_date_pairs(posts: Seq<PostV>) -> Seq<(u64, usize)> {
    Seq::new(posts.len(), |i: int| (dt_key(posts[i].frontmatter.date) as u64, i as usize))
}

/// A post list ordered by descending date, stable for equal dates.
pub open spec fn spec_sorted_posts(posts: Seq<PostV>) -> Seq<PostV> {
    spec_sort_pairs(spec_date_pairs(posts)).map_values(|p: (u64, usize)| posts[p.1 as int])
}

/// Every date of a parsed corpus is a real calendar date.
pub proof fn lemma_corpus_dates_valid(files: Seq<SourceFileV>)
    ensures
        forall|k: int|
            0 <= k < spec_corpus_posts(files).len() ==> dt_valid(
                (#[trigger] spec_corpus_posts(files)[k]).frontmatter.date,
            ),
    decreases files.len(),
{
    if files.len() > 0 {
        lemma_corpus_dates_valid(files.drop_last());
        let rest = spec_corpus_posts(files.drop_last());
        let r = spec_corpus_posts(files);
        match spec_load_post_doc(files.last().text) {
            Ok(parts) => {
                crate::frontmatter::lemma_post_fm_date_valid(files.last().text);
                assert forall|k: int| 0 <= k < r.len() implies dt_valid(
                    (#[trigger] r[k]).frontmatter.date,
                ) by {
                    if k < rest.len() {
                        assert(r[k] == rest[k]);
                    }
                }
            },
            Err(_) => {},
        }
    }
}

/// Loads a whole corpus of documents: parse failures are skipped, the
/// result is ordered by date, newest first, stable for equal dates.
pub fn load_all_posts(files: &Vec<SourceFile>) -> (r: Vec<Post>)
    ensures
        r.deep_view() == spec_sorted_posts(spec_corpus_posts(files.deep_view())),
{
    let ghost fdv = files.deep_view();
    let mut kept: Vec<Post> = Vec::new();
    let n = files.len();
    let mut i: usize = 0;
    while i < n
        invariant
            i <= n,
            n == files@.len(),
            fdv == files.deep_view(),
            forall|j: int| 0 <= j < fdv.len() ==> fdv[j] == files@[j]@,
            kept.deep_view() == spec_corpus_posts(fdv.take(i as int)),
        decreases n - i,
    {
        proof {
            assert(fdv.take(i + 1).drop_last() =~= fdv.take(i as int));
            assert(fdv.take(i + 1).last() == fdv[i as int]);
        }
        match load_post(files[i].text.as_str(), files[i].path.as_str()) {
            Ok(post) => {
                let ghost pre = kept.deep_view();
                kept.push(post);
                proof {
                    assert(kept.deep_view() =~= spec_corpus_posts(fdv.take(i + 1)));
                }
            },
            Err(_) => {},
        }
        i = i + 1;
    }
    proof {
        assert(fdv.take(n as int) =~= fdv);
    }
    let ghost posts = kept.deep_view();
    proof {
        lemma_corpus_dates_valid(fdv);
    }
    let m = kept.len();
    let mut pairs: Vec<(u64, usize)> = Vec::new();
    let mut i: usize = 0;
    while i < m
        invariant
            i <= m,
            m == kept@.len(),
            posts == kept.deep_view(),
            forall|j: int| 0 <= j < posts.len() ==> posts[j] == kept@[j]@,
            forall|j: int| 0 <= j < posts.len() ==> dt_valid(posts[j].frontmatter.date),
            pairs@ == spec_date_pairs(posts).take(i as int),
        decreases m - i,
    {
        proof {
            assert(kept@[i as int]@ == posts[i as int]);
            assert(dt_valid(posts[i as int].frontmatter.date));
        }
        let key = dt_key_of(&kept[i].frontmatter.date);
        pairs.push((key, i));
        proof {
            assert(pairs@ =~= spec_date_pairs(posts).take(i + 1));
        }
        i = i + 1;
    }
    proof {
        assert(spec_date_pairs(posts).take(m as int) =~= spec_date_pairs(posts));
    }
    let sorted = sort_pairs(&pairs);
    proof {
        lemma_sort_pairs_len(pairs@);
        assert forall|k: int| 0 <= k < pairs@.len() implies (#[trigger] pairs@[k]).1 < m as int by {
            assert(pairs@[k] == spec_date_pairs(posts)[k]);
        }
        lemma_sort_pairs_bound(pairs@, m as int);
    }
    let mut r: Vec<Post> = Vec::new();
    let s = sorted.len();
    let mut k: usize = 0;
    while k < s
        invariant
            k <= s,
            s == sorted@.len(),
            sorted@ == spec_sort_pairs(spec_date_pairs(posts)),
            m == kept@.len(),
            posts == kept.deep_view(),
            forall|j: int| 0 <= j < posts.len() ==> posts[j] == kept@[j]@,
            forall|j: int| 0 <= j < sorted@.len() ==> (#[trigger] sorted@[j]).1 < m,
            r.deep_view() == spec_sorted_posts(posts).take(k as int),
        decreases s - k,
    {
        let idx = sorted[k].1;
        let post = kept[idx].clone();
        let ghost pre = r.deep_view();
        r.push(post);
        proof {
            assert(r.deep_view() =~= pre.push(posts[sorted@[k as int].1 as int]));
            assert(r.deep_view() =~= spec_sorted_posts(posts).take(k + 1));
        }
        k = k + 1;
    }
    proof {
        lemma_sort_pairs_len(spec_date_pairs(posts));
        assert(spec_sorted_posts(posts).take(s as int) =~= spec_sorted_posts(posts));
    }
    r
}

/// Bulk-load order: dates never increase along the result, and posts
/// with distinct dates stand in strictly descending date order.
pub proof fn lemma_load_all_posts_sorted(files: Seq<SourceFileV>)
    requires
        spec_corpus_posts(files).len() <= usize::MAX,
    ensures
        forall|i: int, j: int|
            0 <= i < j < spec_sorted_posts(spec_corpus_posts(files)).len() ==> dt_key(
                (#[trigger] spec_sorted_posts(spec_corpus_posts(files))[j]).frontmatter.date,
            ) <= dt_key(
                (#[trigger] spec_sorted_posts(spec_corpus_posts(files))[i]).frontmatter.date,
            ),
        forall|i: int, j: int|
            0 <= i < j < spec_sorted_posts(spec_corpus_posts(files)).len()
                && (#[trigger] spec_sorted_posts(spec_corpus_posts(files))[i]).frontmatter.date != (
            #[trigger] spec_sorted_posts(spec_corpus_posts(files))[j]).frontmatter.date ==> dt_key(
                spec_sorted_posts(spec_corpus_posts(files))[j].frontmatter.date,
            ) < dt_key(spec_sorted_posts(spec_corpus_posts(files))[i].frontmatter.date),
{
    let posts = spec_corpus_posts(files);
    let pairs = spec_date_pairs(posts);
    let sorted = spec_sort_pairs(pairs);
    let result = spec_sorted_posts(posts);
    lemma_corpus_dates_valid(files);
    assert forall|i: int, j: int| 0 <= i < j < pairs.len() implies (#[trigger] pairs[i]).1 < (
    #[trigger] pairs[j]).1 by {}
    lemma_sort_pairs_sorted(pairs);
    lemma_sort_pairs_len(pairs);
    assert forall|k: int| 0 <= k < pairs.len() implies pair_keymatch(#[trigger] pairs[k], posts)
        by {
        crate::date::lemma_dt_key_bounds(posts[k].frontmatter.date);
    }
    lemma_sort_pairs_keymatch(pairs, posts);
    assert forall|i: int, j: int| 0 <= i < j < result.len() implies dt_key(
        (#[trigger] result[j]).frontmatter.date,
    ) <= dt_key((#[trigger] result[i]).frontmatter.date) && (result[i].frontmatter.date
        != result[j].frontmatter.date ==> dt_key(result[j].frontmatter.date) < dt_key(
        result[i].frontmatter.date,
    )) by {
        assert(pair_lt(sorted[i], sorted[j]));
        assert(pair_keymatch(sorted[i], posts));
        assert(pair_keymatch(sorted[j], posts));
        assert(result[i] == posts[sorted[i].1 as int]);
        assert(result[j] == posts[sorted[j].1 as int]);
        crate::date::lemma_dt_key_bounds(posts[sorted[i].1 as int].frontmatter.date);
        crate::date::lemma_dt_key_bounds(posts[sorted[j].1 as int].frontmatter.date);
        // Equal keys force equal dates, so distinct dates order strictly.
        crate::date::lemma_dt_key_orders(
            result[i].frontmatter.date,
            result[j].frontmatter.date,
        );
    }
}

/// Bulk load keeps every document that parses and no other: the sorted
/// output has exactly as many posts as parsed, whatever their order.
pub proof fn lemma_load_all_posts_count(files: Seq<SourceFileV>)
    ensures
        spec_sorted_posts(spec_corpus_posts(files)).len() == spec_corpus_posts(files).len(),
{
    let posts = spec_corpus_posts(files);
    lemma_sort_pairs_len(spec_date_pairs(posts));
}

/// A sort item that points into a post list and carries that post's
/// date key.
pub open spec fn pair_keymatch(p: (u64, usize), posts: Seq<PostV>) -> bool {
    p.1 < posts.len() && p.0 == dt_key(posts[p.1 as int].frontmatter.date) as u64
}

pub proof fn lemma_insert_pair_keymatch(s: Seq<(u64, usize)>, x: (u64, usize), posts: Seq<PostV>)
    requires
        forall|k: int| 0 <= k < s.len() ==> pair_keymatch(#[trigger] s[k], posts),
        pair_keymatch(x, posts),
    ensures
        forall|k: int|
            0 <= k < spec_insert_pair(s, x).len() ==> pair_keymatch(
                #[trigger] spec_insert_pair(s, x)[k],
                posts,
            ),
    decreases s.len(),
{
    let r = spec_insert_pair(s, x);
    if s.len() == 0 {
    } else if x.0 > s[0].0 {
        assert forall|k: int| 0 <= k < r.len() implies pair_keymatch(#[trigger] r[k], posts) by {
            if k > 0 {
                assert(r[k] == s[k - 1]);
            }
        }
    } else {
        assert forall|k: int| 0 <= k < s.drop_first().len() implies pair_keymatch(
            #[trigger] s.drop_first()[k],
            posts,
        ) by {
            assert(s.drop_first()[k] == s[k + 1]);
        }
        lemma_insert_pair_keymatch(s.drop_first(), x, posts);
        assert forall|k: int| 0 <= k < r.len() implies pair_keymatch(#[trigger] r[k], posts) by {
            if k > 0 {
                assert(r[k] == spec_insert_pair(s.drop_first(), x)[k - 1]);
            }
        }
    }
}

pub proof fn lemma_sort_pairs_keymatch(s: Seq<(u64, usize)>, posts: Seq<PostV>)
    requires
        forall|k: int| 0 <= k < s.len() ==> pair_keymatch(#[trigger] s[k], posts),
    ensures
        forall|k: int|
            0 <= k < spec_sort_pairs(s).len() ==> pair_keymatch(
                #[trigger] spec_sort_pairs(s)[k],
                posts,
            ),
    decreases s.len(),
{
    if s.len() > 0 {
        assert forall|k: int| 0 <= k < s.drop_last().len() implies pair_keymatch(
            #[trigger] s.drop_last()[k],
            posts,
        ) by {
            assert(s.drop_last()[k] == s[k]);
        }
        lemma_sort_pairs_keymatch(s.drop_last(), posts);
        lemma_insert_pair_keymatch(spec_sort_pairs(s.drop_last()), s.last(), posts);
    }
}

/// The first post carrying a slug, scanned from the front.
pub open spec fn spec_first_slug(posts: Seq<PostV>, slug: Seq<char>, i: int) -> Option<int>
    decreases posts.len() - i,
{
    if i < 0 || i >= posts.len() {
        None
    } else if posts[i].frontmatter.slug == slug {
        Some(i)
    } else {
        spec_first_slug(posts, slug, i + 1)
    }
}

pub proof fn lemma_first_slug_found(posts: Seq<PostV>, slug: Seq<char>, i: int)
    requires
        0 <= i < posts.len(),
        posts[i].frontmatter.slug == slug,
        forall|j: int| 0 <= j < i ==> (#[trigger] posts[j]).frontmatter.slug != slug,
    ensures
        spec_first_slug(posts, slug, 0) == Some(i),
{
    lemma_first_slug_step(posts, slug, 0, i);
}

proof fn lemma_first_slug_step(posts: Seq<PostV>, slug: Seq<char>, from: int, i: int)
    requires
        0 <= from <= i < posts.len(),
        posts[i].frontmatter.slug == slug,
        forall|j: int| from <= j < i ==> (#[trigger] posts[j]).frontmatter.slug != slug,
    ensures
        spec_first_slug(posts, slug, from) == Some(i),
    decreases i - from,
{
    if from < i {
        lemma_first_slug_step(posts, slug, from + 1, i);
    }
}

pub proof fn lemma_first_slug_none(posts: Seq<PostV>, slug: Seq<char>, from: int)
    requires
        0 <= from,
        forall|j: int| from <= j < posts.len() ==> (#[trigger] posts[j]).frontmatter.slug != slug,
    ensures
        spec_first_slug(posts, slug, from) is None,
    decreases posts.len() - from,
{
    if from < posts.len() {
        lemma_first_slug_none(posts, slug, from + 1);
    }
}

/// Looks up a post by slug in an already loaded list; the first match
/// wins.
pub fn find_post_by_slug(posts: &Vec<Post>, slug: &str) -> (r: Option<usize>)
    ensures
        match r {
            Some(i) => i < posts@.len() && posts.deep_view()[i as int].frontmatter.slug == slug@
                && forall|j: int|
                0 <= j < i ==> (#[trigger] posts.deep_view()[j]).frontmatter.slug != slug@,
            None => forall|j: int|
                0 <= j < posts@.len() ==> (#[trigger] posts.deep_view()[j]).frontmatter.slug
                    != slug@,
        },
{
    let ghost dv = posts.deep_view();
    let n = posts.len();
    let mut i: usize = 0;
    while i < n
        invariant
            i <= n,
            n == posts@.len(),
            dv == posts.deep_view(),
            forall|j: int| 0 <= j < dv.len() ==> dv[j] == posts@[j]@,
            forall|j: int| 0 <= j < i ==> (#[trigger] dv[j]).frontmatter.slug != slug@,
        decreases n - i,
    {
        let sc = crate::text::str_to_chars(posts[i].frontmatter.slug.as_str());
        if crate::models::chars_eq_str(&sc, slug) {
            return Some(i);
        }
        i = i + 1;
    }
    None
}

/// Loads a corpus and picks the post with the given slug: the first
/// match in the date-descending bulk-load order; the error says when no
/// post carries it.
pub fn load_post_by_slug(slug: &str, files: &Vec<SourceFile>) -> (r: Result<Post, ContentError>)
    ensures
        ({
            let posts = spec_sorted_posts(spec_corpus_posts(files.deep_view()));
            match r {
                Ok(p) => spec_first_slug(posts, slug@, 0) is Some && p@ == posts[spec_first_slug(
                    posts,
                    slug@,
                    0,
                )->0],
                Err(e) => e is PostNotFound && spec_first_slug(posts, slug@, 0) is None,
            }
        }),
{
    let posts = load_all_posts(files);
    match find_post_by_slug(&posts, slug) {
        Some(i) => {
            let p = posts[i].clone();
            proof {
                lemma_first_slug_found(posts.deep_view(), slug@, i as int);
                assert(p@ == posts.deep_view()[i as int]);
            }
            Ok(p)
        },
        None => {
            proof {
                lemma_first_slug_none(posts.deep_view(), slug@, 0);
            }
            Err(ContentError::PostNotFound(slug.to_owned()))
        },
    }
}

/// The posts that remain visible: drafts are dropped unless enabled.
pub open spec fn spec_visible_posts(posts: Seq<PostV>, enable_drafts: bool) -> Seq<PostV>
    decreases posts.len(),
{
    if posts.len() == 0 {
        Seq::empty()
    } else {
        let rest = spec_visible_posts(posts.drop_last(), enable_drafts);
        if enable_drafts || !posts.last().frontmatter.draft {
            rest.push(posts.last())
        } else {
            rest
        }
    }
}

/// Drops draft posts unless drafts are enabled.
pub fn filter_drafts(posts: &Vec<Post>, enable_drafts: bool) -> (r: Vec<Post>)
    ensures
        r.deep_view() == spec_visible_posts(posts.deep_view(), enable_drafts),
{
    let ghost dv = posts.deep_view();
    let mut r: Vec<Post> = Vec::new();
    let n = posts.len();
    let mut i: usize = 0;
    while i < n
        invariant
            i <= n,
            n == posts@.len(),
            dv == posts.deep_view(),
            forall|j: int| 0 <= j < dv.len() ==> dv[j] == posts@[j]@,
            r.deep_view() == spec_visible_posts(dv.take(i as int), enable_drafts),
        decreases n - i,
    {
        proof {
            assert(dv.take(i + 1).drop_last() =~= dv.take(i as int));
            assert(dv.take(i + 1).last() == dv[i as int]);
        }
        if enable_drafts || !posts[i].frontmatter.draft {
            let ghost pre = r.deep_view();
            let p = posts[i].clone();
            r.push(p);
            proof {
                assert(r.deep_view() =~= pre.push(dv[i as int]));
            }
        }
        i = i + 1;
    }
    proof {
        assert(dv.take(n as int) =~= dv);
    }
    r
}

/// The posts by a given author.
pub open spec fn spec_by_author(posts: Seq<PostV>, author: Seq<char>) -> Seq<PostV>
    decreases posts.len(),
{
    if posts.len() == 0 {
        Seq::empty()
    } else {
        let rest = spec_by_author(posts.drop_last(), author);
        if posts.last().frontmatter.author == Some(author) {
            rest.push(posts.last())
        } else {
            rest
        }
    }
}

/// Keeps the posts whose author is exactly the one named.
pub fn filter_by_author(posts: &Vec<Post>, author: &str) -> (r: Vec<Post>)
    ensures
        r.deep_view() == spec_by_author(posts.deep_view(), author@),
{
    let ghost dv = posts.deep_view();
    let mut r: Vec<Post> = Vec::new();
    let n = posts.len();
    let mut i: usize = 0;
    while i < n
        invariant
            i <= n,
            n == posts@.len(),
            dv == posts.deep_view(),
            forall|j: int| 0 <= j < dv.len() ==> dv[j] == posts@[j]@,
            r.deep_view() == spec_by_author(dv.take(i as int), author@),
        decreases n - i,
    {
        proof {
            assert(dv.take(i + 1).drop_last() =~= dv.take(i as int));
            assert(dv.take(i + 1).last() == dv[i as int]);
        }
        let matches = match &posts[i].frontmatter.author {
            Some(a) => {
                let ac = crate::text::str_to_chars(a.as_str());
                crate::models::chars_eq_str(&ac, author)
            },
            None => false,
        };
        if matches {
            let ghost pre = r.deep_view();
            let p = posts[i].clone();
            r.push(p);
            proof {
                assert(r.deep_view() =~= pre.push(dv[i as int]));
            }
        }
        i = i + 1;
    }
    proof {
        assert(dv.take(n as int) =~= dv);
    }
    r
}

/// The posts in a given category.
pub open spec fn spec_by_category(posts: Seq<PostV>, category: Seq<char>) -> Seq<PostV>
    decreases posts.len(),
{
    if posts.len() == 0 {
        Seq::empty()
    } else {
        let rest = spec_by_category(posts.drop_last(), category);
        if posts.last().frontmatter.category == Some(category) {
            rest.push(posts.last())
        } else {
            rest
        }
    }
}

/// Keeps the posts whose category is exactly the one named.
pub fn filter_by_category(posts: &Vec<Post>, category: &str) -> (r: Vec<Post>)
    ensures
        r.deep_view() == spec_by_category(posts.deep_view(), category@),
{
    let ghost dv = posts.deep_view();
    let mut r: Vec<Post> = Vec::new();
    let n = posts.len();
    let mut i: usize = 0;
    while i < n
        invariant
            i <= n,
            n == posts@.len(),
            dv == posts.deep_view(),
            forall|j: int| 0 <= j < dv.len() ==> dv[j] == posts@[j]@,
            r.deep_view() == spec_by_category(dv.take(i as int), category@),
        decreases n - i,
    {
        proof {
            assert(dv.take(i + 1).drop_last() =~= dv.take(i as int));
            assert(dv.take(i + 1).last() == dv[i as int]);
        }
        let matches = match &posts[i].frontmatter.category {
            Some(c) => {
                let cc = crate::text::str_to_chars(c.as_str());
                crate::models::chars_eq_str(&cc, category)
            },
            None => false,
        };
        if matches {
            let ghost pre = r.deep_view();
            let p = posts[i].clone();
            r.push(p);
            proof {
                assert(r.deep_view() =~= pre.push(dv[i as int]));
            }
        }
        i = i + 1;
    }
    proof {
        assert(dv.take(n as int) =~= dv);
    }
    r
}

/// The first `limit` posts.
pub fn take_posts(posts: &Vec<Post>, limit: usize) -> (r: Vec<Post>)
    ensures
        r.deep_view() == posts.deep_view().take(
            if limit <= posts@.len() {
                limit as int
            } else {
                posts@.len() as int
            },
        ),
{
    let ghost dv = posts.deep_view();
    let n = posts.len();
    let end = if limit <= n {
        limit
    } else {
        n
    };
    let mut r: Vec<Post> = Vec::new();
    let mut i: usize = 0;
    while i < end
        invariant
            i <= end <= n,
            n == posts@.len(),
            dv == posts.deep_view(),
            forall|j: int| 0 <= j < dv.len() ==> dv[j] == posts@[j]@,
            r.deep_view() == dv.take(i as int),
        decreases end - i,
    {
        let ghost pre = r.deep_view();
        let p = posts[i].clone();
        r.push(p);
        proof {
            assert(r.deep_view() =~= pre.push(dv[i as int]));
            assert(r.deep_view() =~= dv.take(i + 1));
        }
        i = i + 1;
    }
    r
}

/// How many pages a list fills at a given page size: the ceiling of
/// `len / per_page`.
pub open spec fn spec_total_pages(len: int, per_page: int) -> int {
    if len % per_page == 0 {
        len / per_page
    } else {
        len / per_page + 1
    }
}

/// One page of a post list: posts `start..start + per_page` for
/// `start == (page - 1) * per_page`, and the total page count.
pub fn paginate(posts: &Vec<Post>, page: usize, per_page: usize) -> (r: (Vec<Post>, usize))
    requires
        page >= 1,
        per_page >= 1,
        posts@.len() < usize::MAX,
    ensures
        r.1 == spec_total_pages(posts@.len() as int, per_page as int),
        ({
            let len = posts.deep_view().len() as int;
            let start = (page - 1) * per_page as int;
            let end = if start + per_page <= len {
                start + per_page as int
            } else {
                len
            };
            if start <= len {
                r.0.deep_view() == posts.deep_view().subrange(start, end)
            } else {
                r.0.deep_view() == Seq::<PostV>::empty()
            }
        }),
{
    let ghost dv = posts.deep_view();
    let n = posts.len();
    proof {
        vstd::arithmetic::div_mod::lemma_fundamental_div_mod(n as int, per_page as int);
        vstd::arithmetic::div_mod::lemma_mod_bound(n as int, per_page as int);
    }
    let total = if n % per_page == 0 {
        n / per_page
    } else {
        proof {
            assert(n as int / per_page as int <= n) by (nonlinear_arith)
                requires
                    per_page >= 1,
                    n >= 0,
            ;
        }
        n / per_page + 1
    };
    if (page - 1) > n / per_page {
        proof {
            let p1 = (page - 1) as int;
            let pp = per_page as int;
            let q = n as int / pp;
            assert(p1 * pp >= (q + 1) * pp) by (nonlinear_arith)
                requires
                    p1 >= q + 1,
                    pp >= 1,
            ;
            assert((q + 1) * pp == q * pp + pp) by (nonlinear_arith);
            assert(n as int == pp * q + n as int % pp);
            assert(q * pp == pp * q) by (nonlinear_arith);
            assert(p1 * pp > n);
        }
        return (Vec::new(), total);
    }
    proof {
        let p1 = (page - 1) as int;
        let pp = per_page as int;
        let q = n as int / pp;
        assert(p1 * pp <= q * pp) by (nonlinear_arith)
            requires
                p1 <= q,
                pp >= 1,
        ;
        assert(n as int == pp * q + n as int % pp);
        assert(q * pp == pp * q) by (nonlinear_arith);
        assert(p1 * pp <= n);
    }
    let start = (page - 1) * per_page;
    let end = if per_page <= n - start {
        start + per_page
    } else {
        n
    };
    let mut r: Vec<Post> = Vec::new();
    let mut i: usize = start;
    while i < end
        invariant
            start <= i <= end <= n,
            n == posts@.len(),
            dv == posts.deep_view(),
            forall|j: int| 0 <= j < dv.len() ==> dv[j] == posts@[j]@,
            r.deep_view() == dv.subrange(start as int, i as int),
        decreases end - i,
    {
        let ghost pre = r.deep_view();
        let p = posts[i].clone();
        r.push(p);
        proof {
            assert(r.deep_view() =~= pre.push(dv[i as int]));
            assert(dv.subrange(start as int, i + 1) =~= dv.subrange(start as int, i as int).push(
                dv[i as int],
            ));
        }
        i = i + 1;
    }
    (r, total)
}

} // verus!
