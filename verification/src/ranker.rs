//! Related posts: explicit references resolved against the corpus, and
//! tag-overlap similarity.
//!
//! Similarity counts shared tags as sets — repeated tags count once —
//! keeps only candidates that share at least one tag, never a draft and
//! never the post itself, and ranks by descending shared count; equal
//! counts keep the corpus order, which is date-descending.

use vstd::prelude::*;
use vstd::seq_lib::seq_to_set_is_finite;
use vstd::set::group_set_axioms;
use crate::corpus::{
    find_post_by_slug, lemma_first_slug_found, lemma_first_slug_none, lemma_sort_pairs_bound,
    lemma_sort_pairs_len, sort_pairs, spec_first_slug, spec_sort_pairs,
};
use crate::models::{Post, PostV, RelatedPostV, RelationType};

verus! {

/// Tags shared between two tag lists, counted as sets.
pub open spec fn spec_shared_tags(a: Seq<Seq<char>>, b: Seq<Seq<char>>) -> nat {
    a.to_set().intersect(b.to_set()).len()
}

/// Whether a tag list holds a tag among its first `upto` entries.
fn contains_up_to(v: &Vec<String>, upto: usize, s: &String) -> (r: bool)
    requires
        upto <= v@.len(),
    ensures
        r == v.deep_view().take(upto as int).contains(s@),
{
    let ghost dv = v.deep_view();
    let mut i: usize = 0;
    while i < upto
        invariant
            i <= upto <= v@.len(),
            dv == v.deep_view(),
            forall|j: int| 0 <= j < dv.len() ==> dv[j] == v@[j]@,
            forall|j: int| 0 <= j < i ==> dv[j] != s@,
        decreases upto - i,
    {
        if v[i].eq(s) {
            proof {
                assert(dv.take(upto as int)[i as int] == s@);
            }
            return true;
        }
        i = i + 1;
    }
    proof {
        assert forall|j: int| 0 <= j < upto implies dv.take(upto as int)[j] != s@ by {
            assert(dv.take(upto as int)[j] == dv[j]);
        }
    }
    false
}

/// Counts the tags shared between two lists, each distinct tag once.
pub fn count_shared_tags(cand: &Vec<String>, mine: &Vec<String>) -> (r: usize)
    ensures
        r == spec_shared_tags(cand.deep_view(), mine.deep_view()),
{
    broadcast use seq_to_set_is_finite;
    broadcast use group_set_axioms;

    let ghost cdv = cand.deep_view();
    let ghost mdv = mine.deep_view();
    let n = cand.len();
    let mut count: usize = 0;
    let mut i: usize = 0;
    proof {
        assert(cdv.take(0).to_set() =~= Set::<Seq<char>>::empty());
        assert(cdv.take(0).to_set().intersect(mdv.to_set()) =~= Set::<Seq<char>>::empty());
    }
    while i < n
        invariant
            i <= n,
            n == cand@.len(),
            cdv == cand.deep_view(),
            mdv == mine.deep_view(),
            forall|j: int| 0 <= j < cdv.len() ==> cdv[j] == cand@[j]@,
            count == cdv.take(i as int).to_set().intersect(mdv.to_set()).len(),
            count <= i,
        decreases n - i,
    {
        broadcast use seq_to_set_is_finite;
        broadcast use group_set_axioms;

        let ghost pre = cdv.take(i as int).to_set();
        let ghost inter = pre.intersect(mdv.to_set());
        proof {
            assert(cdv.take(i + 1) =~= cdv.take(i as int).push(cdv[i as int]));
            assert(cdv.take(i + 1).to_set() =~= pre.insert(cdv[i as int])) by {
                assert forall|x: Seq<char>| #[trigger] cdv.take(i + 1).contains(x) implies
                    pre.insert(cdv[i as int]).contains(x) by {
                    let k = choose|k: int| 0 <= k < cdv.take(i + 1).len() && #[trigger] cdv.take(i + 1)[k] == x;
                    if k < i {
                        assert(cdv.take(i as int)[k] == x);
                        assert(cdv.take(i as int).contains(x));
                    }
                }
                assert forall|x: Seq<char>| #[trigger] pre.insert(cdv[i as int]).contains(x)
                    implies cdv.take(i + 1).contains(x) by {
                    if pre.contains(x) {
                        let k = choose|k: int|
                            0 <= k < cdv.take(i as int).len() && #[trigger] cdv.take(
                                i as int,
                            )[k] == x;
                        assert(cdv.take(i + 1)[k] == x);
                    } else {
                        assert(cdv.take(i + 1)[i as int] == x);
                    }
                }
            }
        }
        let in_mine = contains_up_to(mine, mine.len(), &cand[i]);
        let seen = contains_up_to(cand, i, &cand[i]);
        proof {
            assert(mdv.take(mdv.len() as int) =~= mdv);
            assert(in_mine == mdv.contains(cdv[i as int]));
            assert(seen == pre.contains(cdv[i as int]));
        }
        if in_mine && !seen {
            count = count + 1;
            proof {
                let x = cdv[i as int];
                assert(mdv.to_set().contains(x));
                assert(cdv.take(i + 1).to_set().intersect(mdv.to_set()) =~= inter.insert(x));
                assert(!inter.contains(x));
            }
        } else {
            proof {
                let x = cdv[i as int];
                if in_mine {
                    assert(cdv.take(i + 1).to_set().intersect(mdv.to_set()) =~= inter.insert(x));
                    assert(inter.contains(x));
                } else {
                    assert(cdv.take(i + 1).to_set().intersect(mdv.to_set()) =~= inter);
                }
            }
        }
        i = i + 1;
    }
    proof {
        assert(cdv.take(n as int) =~= cdv);
    }
    count
}

/// Whether a post is a similarity candidate for `me`: another post, not
/// a draft, sharing at least one tag.
pub open spec fn is_candidate(me: PostV, p: PostV) -> bool {
    &&& p.frontmatter.slug != me.frontmatter.slug
    &&& !p.frontmatter.draft
    &&& spec_shared_tags(p.frontmatter.tags, me.frontmatter.tags) > 0
}

/// The sort items of the similarity ranking: each candidate's shared-tag
/// count with its corpus position.
pub open spec fn spec_candidates(me: PostV, posts: Seq<PostV>) -> Seq<(u64, usize)>
    decreases posts.len(),
{
    if posts.len() == 0 {
        Seq::empty()
    } else {
        let rest = spec_candidates(me, posts.drop_last());
        if is_candidate(me, posts.last()) {
            rest.push(
                (
                    spec_shared_tags(posts.last().frontmatter.tags, me.frontmatter.tags) as u64,
                    (posts.len() - 1) as usize,
                ),
            )
        } else {
            rest
        }
    }
}

/// The ranked similar posts: candidates sorted by descending shared-tag
/// count, stable in corpus order, truncated to the limit.
pub open spec fn spec_similar(me: PostV, posts: Seq<PostV>, limit: int) -> Seq<PostV> {
    let sorted = spec_sort_pairs(spec_candidates(me, posts));
    let cut = if limit <= sorted.len() {
        limit
    } else {
        sorted.len() as int
    };
    sorted.take(cut).map_values(|p: (u64, usize)| posts[p.1 as int])
}

/// Candidate indices point into the post list.
pub proof fn lemma_candidates_bound(me: PostV, posts: Seq<PostV>, n: int)
    requires
        posts.len() <= n,
    ensures
        forall|k: int|
            0 <= k < spec_candidates(me, posts).len() ==> (#[trigger] spec_candidates(
                me,
                posts,
            )[k]).1 < n,
    decreases posts.len(),
{
    if posts.len() > 0 {
        lemma_candidates_bound(me, posts.drop_last(), n);
        let rest = spec_candidates(me, posts.drop_last());
        let r = spec_candidates(me, posts);
        if is_candidate(me, posts.last()) {
            assert forall|k: int| 0 <= k < r.len() implies (#[trigger] r[k]).1 < n by {
                if k < rest.len() {
                    assert(r[k] == rest[k]);
                }
            }
        }
    }
}

impl Post {
    /// Ranks the other posts by how many tags they share with this one.
    pub fn similar_posts_by_tags(&self, all_posts: &Vec<Post>, limit: usize) -> (r: Vec<Post>)
        ensures
            r.deep_view() == spec_similar(self@, all_posts.deep_view(), limit as int),
    {
        let ghost me = self@;
        let ghost dv = all_posts.deep_view();
        let n = all_posts.len();
        let mut cands: Vec<(u64, usize)> = Vec::new();
        let mut i: usize = 0;
        while i < n
            invariant
                i <= n,
                n == all_posts@.len(),
                me == self@,
                dv == all_posts.deep_view(),
                forall|j: int| 0 <= j < dv.len() ==> dv[j] == all_posts@[j]@,
                cands@ == spec_candidates(me, dv.take(i as int)),
            decreases n - i,
        {
            proof {
                assert(dv.take(i + 1).drop_last() =~= dv.take(i as int));
                assert(dv.take(i + 1).last() == dv[i as int]);
            }
            let p = &all_posts[i];
            proof {
                assert(dv[i as int] == all_posts@[i as int]@);
            }
            let different = !p.frontmatter.slug.eq(&self.frontmatter.slug);
            if different && !p.frontmatter.draft {
                let shared = count_shared_tags(&p.frontmatter.tags, &self.frontmatter.tags);
                proof {
                    assert(p.frontmatter.tags.deep_view() == dv[i as int].frontmatter.tags);
                    assert(self.frontmatter.tags.deep_view() == me.frontmatter.tags);
                }
                if shared > 0 {
                    cands.push((shared as u64, i));
                    proof {
                        assert(cands@ =~= spec_candidates(me, dv.take(i + 1)));
                    }
                } else {
                    proof {
                        assert(!is_candidate(me, dv[i as int]));
                    }
                }
            } else {
                proof {
                    assert(!is_candidate(me, dv[i as int]));
                }
            }
            i = i + 1;
        }
        proof {
            assert(dv.take(n as int) =~= dv);
        }
        let sorted = sort_pairs(&cands);
        proof {
            lemma_sort_pairs_len(cands@);
            lemma_candidates_bound(me, dv, n as int);
            lemma_sort_pairs_bound(cands@, n as int);
        }
        let s = sorted.len();
        let cut = if limit <= s {
            limit
        } else {
            s
        };
        let mut r: Vec<Post> = Vec::new();
        let mut k: usize = 0;
        while k < cut
            invariant
                k <= cut <= s,
                s == sorted@.len(),
                sorted@ == spec_sort_pairs(spec_candidates(me, dv)),
                dv == all_posts.deep_view(),
                n == all_posts@.len(),
                forall|j: int| 0 <= j < dv.len() ==> dv[j] == all_posts@[j]@,
                forall|j: int| 0 <= j < sorted@.len() ==> (#[trigger] sorted@[j]).1 < n,
                r.deep_view() == sorted@.take(k as int).map_values(
                    |p: (u64, usize)| dv[p.1 as int],
                ),
            decreases cut - k,
        {
            let idx = sorted[k].1;
            let post = all_posts[idx].clone();
            let ghost pre = r.deep_view();
            r.push(post);
            proof {
                assert(r.deep_view() =~= pre.push(dv[sorted@[k as int].1 as int]));
                assert(r.deep_view() =~= sorted@.take(k + 1).map_values(
                    |p: (u64, usize)| dv[p.1 as int],
                ));
            }
            k = k + 1;
        }
        proof {
            let cutg = if limit as int <= sorted@.len() {
                limit as int
            } else {
                sorted@.len() as int
            };
            assert(cut as int == cutg);
            assert(r.deep_view() == spec_similar(me, dv, limit as int));
        }
        r
    }
}

/// A sort item of the ranking names a real candidate and carries its
/// shared-tag count.
pub open spec fn pair_candmatch(p: (u64, usize), me: PostV, posts: Seq<PostV>) -> bool {
    &&& p.1 < posts.len()
    &&& is_candidate(me, posts[p.1 as int])
    &&& p.0 == spec_shared_tags(posts[p.1 as int].frontmatter.tags, me.frontmatter.tags) as u64
}

proof fn lemma_insert_pair_candmatch(
    s: Seq<(u64, usize)>,
    x: (u64, usize),
    me: PostV,
    posts: Seq<PostV>,
)
    requires
        forall|k: int| 0 <= k < s.len() ==> pair_candmatch(#[trigger] s[k], me, posts),
        pair_candmatch(x, me, posts),
    ensures
        forall|k: int|
            0 <= k < crate::corpus::spec_insert_pair(s, x).len() ==> pair_candmatch(
                #[trigger] crate::corpus::spec_insert_pair(s, x)[k],
                me,
                posts,
            ),
    decreases s.len(),
{
    let r = crate::corpus::spec_insert_pair(s, x);
    if s.len() == 0 {
    } else if x.0 > s[0].0 {
        assert forall|k: int| 0 <= k < r.len() implies pair_candmatch(
            #[trigger] r[k],
            me,
            posts,
        ) by {
            if k > 0 {
                assert(r[k] == s[k - 1]);
            }
        }
    } else {
        assert forall|k: int| 0 <= k < s.drop_first().len() implies pair_candmatch(
            #[trigger] s.drop_first()[k],
            me,
            posts,
        ) by {
            assert(s.drop_first()[k] == s[k + 1]);
        }
        lemma_insert_pair_candmatch(s.drop_first(), x, me, posts);
        assert forall|k: int| 0 <= k < r.len() implies pair_candmatch(
            #[trigger] r[k],
            me,
            posts,
        ) by {
            if k > 0 {
                assert(r[k] == crate::corpus::spec_insert_pair(s.drop_first(), x)[k - 1]);
            }
        }
    }
}

proof fn lemma_sort_pairs_candmatch(s: Seq<(u64, usize)>, me: PostV, posts: Seq<PostV>)
    requires
        forall|k: int| 0 <= k < s.len() ==> pair_candmatch(#[trigger] s[k], me, posts),
    ensures
        forall|k: int|
            0 <= k < spec_sort_pairs(s).len() ==> pair_candmatch(
                #[trigger] spec_sort_pairs(s)[k],
                me,
                posts,
            ),
    decreases s.len(),
{
    if s.len() > 0 {
        assert forall|k: int| 0 <= k < s.drop_last().len() implies pair_candmatch(
            #[trigger] s.drop_last()[k],
            me,
            posts,
        ) by {
            assert(s.drop_last()[k] == s[k]);
        }
        lemma_sort_pairs_candmatch(s.drop_last(), me, posts);
        lemma_insert_pair_candmatch(spec_sort_pairs(s.drop_last()), s.last(), me, posts);
    }
}

/// Every candidate item carries that candidate's count and position.
proof fn lemma_candidates_candmatch(me: PostV, posts: Seq<PostV>)
    requires
        posts.len() <= usize::MAX,
    ensures
        forall|k: int|
            0 <= k < spec_candidates(me, posts).len() ==> pair_candmatch(
                #[trigger] spec_candidates(me, posts)[k],
                me,
                posts,
            ),
    decreases posts.len(),
{
    if posts.len() > 0 {
        lemma_candidates_candmatch(me, posts.drop_last());
        let rest = spec_candidates(me, posts.drop_last());
        let r = spec_candidates(me, posts);
        assert forall|k: int| 0 <= k < r.len() implies pair_candmatch(
            #[trigger] r[k],
            me,
            posts,
        ) by {
            if is_candidate(me, posts.last()) && k == rest.len() {
                assert(r[k] == (
                    spec_shared_tags(posts.last().frontmatter.tags, me.frontmatter.tags) as u64,
                    (posts.len() - 1) as usize,
                ));
                assert(posts.last() == posts[posts.len() - 1]);
            } else {
                assert(r[k] == rest[k]);
                assert(pair_candmatch(rest[k], me, posts.drop_last()));
                assert(posts.drop_last()[rest[k].1 as int] == posts[rest[k].1 as int]);
            }
        }
    }
}

/// What the similarity ranking returns: only other, non-draft posts that
/// share at least one tag with `me`, and the shared-tag counts never
/// increase along the result.
pub proof fn lemma_similar_ranks_by_shared_tags(me: PostV, posts: Seq<PostV>, limit: int)
    requires
        0 <= limit,
        posts.len() <= usize::MAX,
    ensures
        forall|k: int|
            0 <= k < spec_similar(me, posts, limit).len() ==> is_candidate(
                me,
                #[trigger] spec_similar(me, posts, limit)[k],
            ),
        forall|i: int, j: int|
            0 <= i < j < spec_similar(me, posts, limit).len() ==> spec_shared_tags(
                (#[trigger] spec_similar(me, posts, limit)[j]).frontmatter.tags,
                me.frontmatter.tags,
            ) as u64 <= spec_shared_tags(
                (#[trigger] spec_similar(me, posts, limit)[i]).frontmatter.tags,
                me.frontmatter.tags,
            ) as u64,
{
    let cands = spec_candidates(me, posts);
    let sorted = spec_sort_pairs(cands);
    let r = spec_similar(me, posts, limit);
    let cut = if limit <= sorted.len() {
        limit
    } else {
        sorted.len() as int
    };
    lemma_candidates_candmatch(me, posts);
    lemma_sort_pairs_candmatch(cands, me, posts);
    assert forall|i: int, j: int| 0 <= i < j < cands.len() implies (#[trigger] cands[i]).1 < (
    #[trigger] cands[j]).1 by {
        lemma_candidates_increasing(me, posts);
    }
    crate::corpus::lemma_sort_pairs_sorted(cands);
    crate::corpus::lemma_sort_pairs_len(cands);
    assert(0 <= cut <= sorted.len());
    assert(r.len() == cut);
    assert forall|k: int| 0 <= k < r.len() implies is_candidate(me, #[trigger] r[k]) by {
        assert(r[k] == posts[sorted.take(cut)[k].1 as int]);
        assert(sorted.take(cut)[k] == sorted[k]);
        assert(pair_candmatch(sorted[k], me, posts));
    }
    assert forall|i: int, j: int| 0 <= i < j < r.len() implies spec_shared_tags(
        (#[trigger] r[j]).frontmatter.tags,
        me.frontmatter.tags,
    ) as u64 <= spec_shared_tags(
        (#[trigger] r[i]).frontmatter.tags,
        me.frontmatter.tags,
    ) as u64 by {
        assert(sorted.take(cut)[i] == sorted[i]);
        assert(sorted.take(cut)[j] == sorted[j]);
        assert(crate::corpus::pair_lt(sorted[i], sorted[j]));
        assert(pair_candmatch(sorted[i], me, posts));
        assert(pair_candmatch(sorted[j], me, posts));
        assert(r[i] == posts[sorted[i].1 as int]);
        assert(r[j] == posts[sorted[j].1 as int]);
    }
}

/// Candidate positions strictly increase along the candidate list.
proof fn lemma_candidates_increasing(me: PostV, posts: Seq<PostV>)
    requires
        posts.len() <= usize::MAX,
    ensures
        forall|i: int, j: int|
            0 <= i < j < spec_candidates(me, posts).len() ==> (#[trigger] spec_candidates(
                me,
                posts,
            )[i]).1 < (#[trigger] spec_candidates(me, posts)[j]).1,
    decreases posts.len(),
{
    if posts.len() > 0 {
        lemma_candidates_increasing(me, posts.drop_last());
        lemma_candidates_bound(me, posts.drop_last(), posts.len() - 1);
        let rest = spec_candidates(me, posts.drop_last());
        let r = spec_candidates(me, posts);
        assert forall|i: int, j: int| 0 <= i < j < r.len() implies (#[trigger] r[i]).1 < (
        #[trigger] r[j]).1 by {
            if is_candidate(me, posts.last()) && j == rest.len() {
                assert(r[i] == rest[i]);
                assert(rest[i].1 < posts.len() - 1);
                assert(r[j].1 == (posts.len() - 1) as usize);
            } else {
                assert(r[i] == rest[i] && r[j] == rest[j]);
            }
        }
    }
}

/// A resolved related post: the post and the display label of the
/// relation that led to it.
#[derive(Debug)]
pub struct RelatedPostData {
    pub post: Post,
    pub label: String,
}

/// The view of a [`RelatedPostData`].
pub ghost struct RelatedPostDataV {
    pub post: PostV,
    pub label: Seq<char>,
}

impl View for RelatedPostData {
    type V = RelatedPostDataV;

    open spec fn view(&self) -> RelatedPostDataV {
        RelatedPostDataV { post: self.post@, label: self.label@ }
    }
}

impl DeepView for RelatedPostData {
    type V = RelatedPostDataV;

    open spec fn deep_view(&self) -> RelatedPostDataV {
        self.view()
    }
}

/// The display label of a relation kind.
pub open spec fn spec_label(k: RelationType) -> Seq<char> {
    match k {
        RelationType::Related => "Related Post"@,
        RelationType::Sequel => "Sequel"@,
        RelationType::Prequel => "Prequel"@,
        RelationType::Conversation => "In Conversation"@,
    }
}

/// The resolved explicit relations: each reference whose slug names a
/// post in the corpus, paired with its label; the rest dropped silently.
pub open spec fn spec_resolve(refs: Seq<RelatedPostV>, posts: Seq<PostV>) -> Seq<RelatedPostDataV>
    decreases refs.len(),
{
    if refs.len() == 0 {
        Seq::empty()
    } else {
        let rest = spec_resolve(refs.drop_last(), posts);
        match spec_first_slug(posts, refs.last().slug, 0) {
            Some(i) => rest.push(
                RelatedPostDataV { post: posts[i], label: spec_label(refs.last().relationship) },
            ),
            None => rest,
        }
    }
}

/// Resolves a post's explicit related-post references against the
/// corpus; unresolved slugs are dropped, the rest keep their order and
/// carry their relation's display label.
pub fn resolve_related(post: &Post, all_posts: &Vec<Post>) -> (r: Vec<RelatedPostData>)
    ensures
        r.deep_view() == spec_resolve(post.frontmatter.related_posts.deep_view(),
            all_posts.deep_view()),
{
    let ghost refs = post.frontmatter.related_posts.deep_view();
    let ghost dv = all_posts.deep_view();
    let mut r: Vec<RelatedPostData> = Vec::new();
    let n = post.frontmatter.related_posts.len();
    let mut i: usize = 0;
    while i < n
        invariant
            i <= n,
            n == post.frontmatter.related_posts@.len(),
            refs == post.frontmatter.related_posts.deep_view(),
            dv == all_posts.deep_view(),
            forall|j: int| 0 <= j < refs.len() ==> refs[j] == post.frontmatter.related_posts@[j]@,
            forall|j: int| 0 <= j < dv.len() ==> dv[j] == all_posts@[j]@,
            r.deep_view() == spec_resolve(refs.take(i as int), dv),
        decreases n - i,
    {
        proof {
            assert(refs.take(i + 1).drop_last() =~= refs.take(i as int));
            assert(refs.take(i + 1).last() == refs[i as int]);
        }
        let rref = &post.frontmatter.related_posts[i];
        match find_post_by_slug(all_posts, rref.slug.as_str()) {
            Some(idx) => {
                proof {
                    lemma_first_slug_found(dv, refs[i as int].slug, idx as int);
                }
                let label_str = rref.relationship.label();
                let item = RelatedPostData {
                    post: all_posts[idx].clone(),
                    label: label_str.to_owned(),
                };
                let ghost pre = r.deep_view();
                r.push(item);
                proof {
                    assert(item@ == RelatedPostDataV {
                        post: dv[idx as int],
                        label: spec_label(refs[i as int].relationship),
                    });
                    assert(r.deep_view() =~= pre.push(item@));
                    assert(r.deep_view() =~= spec_resolve(refs.take(i + 1), dv));
                }
            },
            None => {
                proof {
                    lemma_first_slug_none(dv, refs[i as int].slug, 0);
                    assert(r.deep_view() =~= spec_resolve(refs.take(i + 1), dv));
                }
            },
        }
        i = i + 1;
    }
    proof {
        assert(refs.take(n as int) =~= refs);
    }
    r
}

} // verus!
