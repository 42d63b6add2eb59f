//! Slugs: URL-safe identifiers derived from heading text, and the
//! path-safety check applied to page slugs before any file is touched.
//!
//! `slugify` lowercases ASCII letters, keeps ASCII alphanumerics, turns
//! every other character into a separator, collapses separator runs into
//! a single hyphen and trims hyphens from both ends.

use vstd::prelude::*;
use crate::text::{chars_to_string, str_to_chars};

verus! {

/// Characters that survive slugification: lowercase ASCII letters and
/// digits.
pub open spec fn is_slug_keep(c: char) -> bool {
    (97 <= c as u32 && c as u32 <= 122) || (48 <= c as u32 && c as u32 <= 57)
}

/// How a single character is normalized: uppercase ASCII letters are
/// lowercased, kept characters stand, everything else becomes a hyphen.
pub open spec fn norm_char(c: char) -> char {
    if 65 <= c as u32 && c as u32 <= 90 {
        ((c as u32 + 32) as u8) as char
    } else if is_slug_keep(c) {
        c
    } else {
        '-'
    }
}

/// The maximal runs of kept characters of a normalized text, in order.
pub open spec fn slug_words(s: Seq<char>) -> Seq<Seq<char>>
    decreases s.len(),
{
    if s.len() == 0 {
        Seq::empty()
    } else {
        let w = slug_words(s.drop_last());
        if is_slug_keep(s.last()) {
            if s.len() >= 2 && is_slug_keep(s[s.len() - 2]) {
                w.update(w.len() - 1, w.last().push(s.last()))
            } else {
                w.push(seq![s.last()])
            }
        } else {
            w
        }
    }
}

/// Words joined by single hyphens.
pub open spec fn join_hyphen(ws: Seq<Seq<char>>) -> Seq<char>
    decreases ws.len(),
{
    if ws.len() == 0 {
        Seq::empty()
    } else if ws.len() == 1 {
        ws[0]
    } else {
        join_hyphen(ws.drop_last()) + seq!['-'] + ws.last()
    }
}

/// The slug of a text.
pub open spec fn spec_slugify(s: Seq<char>) -> Seq<char> {
    join_hyphen(slug_words(s.map_values(|c: char| norm_char(c))))
}

/// Executable twin of [`norm_char`].
fn normalize_char(c: char) -> (r: char)
    ensures
        r == norm_char(c),
{
    let u = c as u32;
    if 65 <= u && u <= 90 {
        ((u + 32) as u8) as char
    } else if (97 <= u && u <= 122) || (48 <= u && u <= 57) {
        c
    } else {
        '-'
    }
}

/// A word as it may appear in a slug: nonempty and made of kept
/// characters.
pub open spec fn valid_word(w: Seq<char>) -> bool {
    w.len() > 0 && forall|k: int| 0 <= k < w.len() ==> is_slug_keep(#[trigger] w[k])
}

/// A text whose last character is kept ends in a word.
proof fn lemma_words_nonempty(s: Seq<char>)
    requires
        s.len() > 0,
        is_slug_keep(s.last()),
    ensures
        slug_words(s).len() > 0,
    decreases s.len(),
{
    if s.len() >= 2 && is_slug_keep(s[s.len() - 2]) {
        assert(s.drop_last().last() == s[s.len() - 2]);
        lemma_words_nonempty(s.drop_last());
    }
}

/// Every word of a normalized text is nonempty and made of kept
/// characters.
pub proof fn lemma_slug_words_valid(s: Seq<char>)
    ensures
        forall|j: int| 0 <= j < slug_words(s).len() ==> valid_word(#[trigger] slug_words(s)[j]),
    decreases s.len(),
{
    if s.len() > 0 {
        lemma_slug_words_valid(s.drop_last());
        let w = slug_words(s.drop_last());
        let ws = slug_words(s);
        if is_slug_keep(s.last()) {
            if s.len() >= 2 && is_slug_keep(s[s.len() - 2]) {
                assert(s.drop_last().last() == s[s.len() - 2]);
                lemma_words_nonempty(s.drop_last());
                assert(ws == w.update(w.len() - 1, w.last().push(s.last())));
                assert forall|j: int| 0 <= j < ws.len() implies valid_word(#[trigger] ws[j]) by {
                    if j < w.len() - 1 {
                        assert(ws[j] == w[j]);
                    } else {
                        assert(ws[j] == w.last().push(s.last()));
                        assert(valid_word(w.last()));
                        assert forall|k: int| 0 <= k < ws[j].len() implies is_slug_keep(
                            #[trigger] ws[j][k],
                        ) by {
                            if k < w.last().len() {
                                assert(ws[j][k] == w.last()[k]);
                            } else {
                                assert(ws[j][k] == s.last());
                            }
                        }
                    }
                }
            } else {
                assert(ws == w.push(seq![s.last()]));
                assert forall|j: int| 0 <= j < ws.len() implies valid_word(#[trigger] ws[j]) by {
                    if j < w.len() {
                        assert(ws[j] == w[j]);
                    } else {
                        assert(ws[j] == seq![s.last()]);
                    }
                }
            }
        }
    }
}

/// Appending a kept character to a text whose last character is also kept
/// extends the last word; the join gains exactly that character.
proof fn lemma_join_extend_last(ws: Seq<Seq<char>>, c: char)
    requires
        ws.len() > 0,
    ensures
        join_hyphen(ws.update(ws.len() - 1, ws.last().push(c))) == join_hyphen(ws).push(c),
    decreases ws.len(),
{
    let ws2 = ws.update(ws.len() - 1, ws.last().push(c));
    if ws.len() == 1 {
        assert(join_hyphen(ws2) == ws2[0]);
        assert(ws2[0] == ws[0].push(c));
    } else {
        assert(ws2.drop_last() =~= ws.drop_last());
        assert(join_hyphen(ws2) == join_hyphen(ws.drop_last()) + seq!['-'] + ws.last().push(c));
        assert(join_hyphen(ws.drop_last()) + seq!['-'] + ws.last().push(c) =~= (join_hyphen(
            ws.drop_last(),
        ) + seq!['-'] + ws.last()).push(c));
    }
}

/// Appending a new word to a nonempty word list joins with a hyphen.
proof fn lemma_join_push_word(ws: Seq<Seq<char>>, w: Seq<char>)
    ensures
        ws.len() == 0 ==> join_hyphen(ws.push(w)) == w,
        ws.len() > 0 ==> join_hyphen(ws.push(w)) == join_hyphen(ws) + seq!['-'] + w,
{
    let p = ws.push(w);
    if ws.len() == 0 {
        assert(join_hyphen(p) == p[0]);
    } else {
        assert(p.drop_last() =~= ws);
        assert(p.last() == w);
    }
}

/// Converts a text to its slug.
pub fn slugify(text: &str) -> (r: String)
    ensures
        r@ == spec_slugify(text@),
{
    let cs = str_to_chars(text);
    let n = cs.len();
    let mut out: Vec<char> = Vec::new();
    let mut i: usize = 0;
    let mut prev_keep: bool = false;
    let ghost norm = cs@.map_values(|c: char| norm_char(c));
    while i < n
        invariant
            i <= n,
            n == cs@.len(),
            norm == cs@.map_values(|c: char| norm_char(c)),
            out@ == join_hyphen(slug_words(norm.take(i as int))),
            prev_keep == (i > 0 && is_slug_keep(norm[i - 1])),
            (out@.len() == 0) == (slug_words(norm.take(i as int)).len() == 0),
        decreases n - i,
    {
        let ghost prefix = norm.take(i as int);
        let ghost prefix1 = norm.take(i + 1);
        proof {
            assert(prefix1.drop_last() =~= prefix);
            assert(prefix1.last() == norm[i as int]);
            lemma_slug_words_valid(prefix);
        }
        let nc = normalize_char(cs[i]);
        let is_keep = nc != '-';
        proof {
            assert(nc == norm[i as int]);
            assert(is_keep == is_slug_keep(norm[i as int]));
        }
        if is_keep {
            if prev_keep {
                out.push(nc);
                proof {
                    let ws = slug_words(prefix);
                    assert(prefix.len() > 0 && is_slug_keep(prefix.last()));
                    lemma_words_nonempty(prefix);
                    assert(slug_words(prefix1) == ws.update(ws.len() - 1, ws.last().push(nc)));
                    lemma_join_extend_last(ws, nc);
                }
            } else {
                if out.len() > 0 {
                    out.push('-');
                }
                out.push(nc);
                proof {
                    let ws = slug_words(prefix);
                    assert(slug_words(prefix1) == ws.push(seq![nc]));
                    lemma_join_push_word(ws, seq![nc]);
                    if ws.len() == 0 {
                        assert(out@ =~= seq![nc]);
                        assert(join_hyphen(slug_words(prefix1)) == seq![nc]);
                    } else {
                        assert(out@ =~= join_hyphen(ws) + seq!['-'] + seq![nc]);
                    }
                }
            }
        } else {
            proof {
                assert(slug_words(prefix1) == slug_words(prefix));
            }
        }
        prev_keep = is_keep;
        i = i + 1;
    }
    proof {
        assert(norm.take(n as int) =~= norm);
    }
    chars_to_string(&out)
}

/// Every character of a join of valid words is kept or a hyphen.
proof fn lemma_join_chars(ws: Seq<Seq<char>>)
    requires
        forall|j: int| 0 <= j < ws.len() ==> valid_word(#[trigger] ws[j]),
    ensures
        forall|k: int|
            0 <= k < join_hyphen(ws).len() ==> is_slug_keep(#[trigger] join_hyphen(ws)[k])
                || join_hyphen(ws)[k] == '-',
    decreases ws.len(),
{
    if ws.len() == 0 {
    } else if ws.len() == 1 {
        assert(join_hyphen(ws) == ws[0]);
    } else {
        lemma_join_chars(ws.drop_last());
        let a = join_hyphen(ws.drop_last());
        let j = join_hyphen(ws);
        assert(j == a + seq!['-'] + ws.last());
        assert forall|k: int| 0 <= k < j.len() implies is_slug_keep(#[trigger] j[k]) || j[k]
            == '-' by {
            if k < a.len() {
                assert(j[k] == a[k]);
            } else if k == a.len() {
                assert(j[k] == '-');
            } else {
                assert(j[k] == ws.last()[k - a.len() - 1]);
                assert(ws.last() == ws[ws.len() - 1]);
            }
        }
    }
}

/// Normalization fixes every character a slug can contain.
proof fn lemma_norm_fixes_slug(s: Seq<char>)
    requires
        forall|k: int| 0 <= k < s.len() ==> is_slug_keep(#[trigger] s[k]) || s[k] == '-',
    ensures
        s.map_values(|c: char| norm_char(c)) == s,
{
    let m = s.map_values(|c: char| norm_char(c));
    assert forall|k: int| 0 <= k < s.len() implies m[k] == s[k] by {
        assert(is_slug_keep(s[k]) || s[k] == '-');
    }
    assert(m =~= s);
}

/// The words of a single valid word are that word.
proof fn lemma_words_of_word(w: Seq<char>)
    requires
        valid_word(w),
    ensures
        slug_words(w) == seq![w],
    decreases w.len(),
{
    if w.len() == 1 {
        assert(is_slug_keep(w.last()));
        assert(slug_words(w) == slug_words(w.drop_last()).push(seq![w.last()]));
        assert(slug_words(w.drop_last()) =~= Seq::<Seq<char>>::empty());
        assert(seq![w.last()] =~= w);
        assert(slug_words(w) =~= seq![w]);
    } else {
        assert forall|k: int| 0 <= k < w.len() - 1 implies is_slug_keep(
            #[trigger] w.drop_last()[k],
        ) by {
            assert(w.drop_last()[k] == w[k]);
        }
        lemma_words_of_word(w.drop_last());
        let ws = slug_words(w.drop_last());
        assert(is_slug_keep(w.last()) && is_slug_keep(w[w.len() - 2]));
        assert(slug_words(w) == ws.update(0, ws[0].push(w.last())));
        assert(ws[0].push(w.last()) =~= w);
        assert(slug_words(w) =~= seq![w]);
    }
}

/// Appending a hyphen and then a valid word appends one word.
proof fn lemma_words_append_word(a: Seq<char>, w: Seq<char>)
    requires
        a.len() == 0 || a.last() == '-',
        valid_word(w),
    ensures
        slug_words(a + w) == slug_words(a).push(w),
    decreases w.len(),
{
    let full = a + w;
    if w.len() == 1 {
        assert(full.drop_last() =~= a);
        assert(full.last() == w[0]);
        assert(is_slug_keep(full.last()));
        if a.len() >= 1 {
            assert(full[full.len() - 2] == a.last());
            assert(!is_slug_keep(a.last()));
        }
        assert(slug_words(full) == slug_words(a).push(seq![w[0]]));
        assert(seq![w[0]] =~= w);
    } else {
        let w0 = w.drop_last();
        assert forall|k: int| 0 <= k < w0.len() implies is_slug_keep(#[trigger] w0[k]) by {
            assert(w0[k] == w[k]);
        }
        lemma_words_append_word(a, w0);
        assert(full.drop_last() =~= a + w0);
        assert(full.last() == w.last());
        assert(full[full.len() - 2] == w[w.len() - 2]);
        let ws = slug_words(a + w0);
        assert(ws == slug_words(a).push(w0));
        assert(ws.len() > 0);
        assert(slug_words(full) == ws.update(ws.len() - 1, ws.last().push(w.last())));
        assert(ws.last() == w0);
        assert(w0.push(w.last()) =~= w);
        assert(slug_words(full) =~= slug_words(a).push(w));
    }
}

/// The words of a join of valid words are exactly those words.
proof fn lemma_words_of_join(ws: Seq<Seq<char>>)
    requires
        forall|j: int| 0 <= j < ws.len() ==> valid_word(#[trigger] ws[j]),
    ensures
        slug_words(join_hyphen(ws)) == ws,
    decreases ws.len(),
{
    if ws.len() == 0 {
        assert(slug_words(join_hyphen(ws)) =~= ws);
    } else if ws.len() == 1 {
        assert(join_hyphen(ws) == ws[0]);
        lemma_words_of_word(ws[0]);
        assert(slug_words(join_hyphen(ws)) =~= ws);
    } else {
        lemma_words_of_join(ws.drop_last());
        let a = join_hyphen(ws.drop_last());
        assert(join_hyphen(ws) == a + seq!['-'] + ws.last());
        assert((a + seq!['-'] + ws.last()) =~= (a + seq!['-']) + ws.last());
        assert(slug_words((a + seq!['-']).drop_last()) == slug_words(a)) by {
            assert((a + seq!['-']).drop_last() =~= a);
        }
        assert(slug_words(a + seq!['-']) == slug_words(a));
        lemma_words_append_word(a + seq!['-'], ws.last());
        assert(slug_words(join_hyphen(ws)) == slug_words(a + seq!['-']).push(ws.last()));
        assert(slug_words(a).push(ws.last()) =~= ws);
    }
}

/// Slugification is idempotent: slugifying a slug changes nothing.
pub proof fn lemma_slugify_idempotent(s: Seq<char>)
    ensures
        spec_slugify(spec_slugify(s)) == spec_slugify(s),
{
    let norm = s.map_values(|c: char| norm_char(c));
    let ws = slug_words(norm);
    let slug = join_hyphen(ws);
    lemma_slug_words_valid(norm);
    lemma_join_chars(ws);
    lemma_norm_fixes_slug(slug);
    lemma_words_of_join(ws);
}

/// A page slug is path-safe when it holds no `..` sequence and no path
/// separator; only such slugs may reach the filesystem.
pub open spec fn valid_page_slug(s: Seq<char>) -> bool {
    &&& forall|i: int| 0 <= i < s.len() ==> s[i] != '/' && s[i] != '\\'
    &&& forall|i: int| 0 <= i && i + 1 < s.len() ==> !(#[trigger] s[i] == '.' && s[i + 1] == '.')
}

/// Checks that a page slug is path-safe.
pub fn check_page_slug(slug: &str) -> (r: bool)
    ensures
        r == valid_page_slug(slug@),
{
    let cs = str_to_chars(slug);
    let n = cs.len();
    let mut i: usize = 0;
    while i < n
        invariant
            i <= n,
            n == cs@.len(),
            cs@ == slug@,
            forall|k: int| 0 <= k < i ==> cs@[k] != '/' && cs@[k] != '\\',
            forall|k: int| 0 <= k < i && k + 1 < n ==> !(#[trigger] cs@[k] == '.' && cs@[k + 1] == '.'),
        decreases n - i,
    {
        let c = cs[i];
        if c == '/' || c == '\\' {
            return false;
        }
        if c == '.' && i + 1 < n && cs[i + 1] == '.' {
            return false;
        }
        i = i + 1;
    }
    true
}

} // verus!
