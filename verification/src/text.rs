//! Character-level text utilities shared by the parsing and rendering
//! modules: conversion between `&str` and `Vec<char>`, whitespace
//! trimming, line splitting, and HTML escaping.

use vstd::prelude::*;
use vstd::string::StrSliceExecFns;

verus! {

/// Collects a string's characters into a vector.
pub fn str_to_chars(s: &str) -> (r: Vec<char>)
    ensures
        r@ == s@,
{
    let n = s.unicode_len();
    let mut r: Vec<char> = Vec::new();
    let mut i: usize = 0;
    while i < n
        invariant
            i <= n,
            n == s@.len(),
            r@ == s@.take(i as int),
        decreases n - i,
    {
        let c = s.get_char(i);
        r.push(c);
        i = i + 1;
        assert(r@ =~= s@.take(i as int));
    }
    assert(s@.take(n as int) =~= s@);
    r
}

/// Relies on std's `FromIterator<char> for String`: collecting characters
/// yields the string made of exactly those characters, in order.
#[verifier::external_body]
pub fn chars_to_string(v: &Vec<char>) -> (r: String)
    ensures
        r@ == v@,
{
    v.iter().collect()
}

/// Whitespace for the purposes of metadata values: space, tab, and the
/// carriage return left behind by CRLF line endings.
pub open spec fn is_value_space(c: char) -> bool {
    c == ' ' || c == '\t' || c == '\r'
}

/// Executable twin of [`is_value_space`].
pub fn value_space(c: char) -> (r: bool)
    ensures
        r == is_value_space(c),
{
    c == ' ' || c == '\t' || c == '\r'
}

/// Index of the first character that is not metadata-value whitespace
/// (the length if there is none).
pub open spec fn first_non_space(s: Seq<char>) -> int
    decreases s.len(),
{
    if s.len() == 0 {
        0
    } else if is_value_space(s[0]) {
        1 + first_non_space(s.drop_first())
    } else {
        0
    }
}

pub proof fn lemma_first_non_space_bounds(s: Seq<char>)
    ensures
        0 <= first_non_space(s) <= s.len(),
        forall|k: int| 0 <= k < first_non_space(s) ==> is_value_space(s[k]),
        first_non_space(s) < s.len() ==> !is_value_space(s[first_non_space(s)]),
    decreases s.len(),
{
    if s.len() != 0 && is_value_space(s[0]) {
        lemma_first_non_space_bounds(s.drop_first());
        assert forall|k: int| 0 <= k < first_non_space(s) implies is_value_space(s[k]) by {
            if k > 0 {
                assert(s[k] == s.drop_first()[k - 1]);
            }
        }
        if first_non_space(s) < s.len() {
            assert(s[first_non_space(s)] == s.drop_first()[first_non_space(s) - 1]);
        }
    }
}

/// Index one past the last character that is not metadata-value
/// whitespace (zero if every character is whitespace).
pub open spec fn last_non_space(s: Seq<char>) -> int
    decreases s.len(),
{
    if s.len() == 0 {
        0
    } else if is_value_space(s.last()) {
        last_non_space(s.drop_last())
    } else {
        s.len() as int
    }
}

pub proof fn lemma_last_non_space_bounds(s: Seq<char>)
    ensures
        0 <= last_non_space(s) <= s.len(),
        forall|k: int| last_non_space(s) <= k < s.len() ==> is_value_space(s[k]),
        last_non_space(s) > 0 ==> !is_value_space(s[last_non_space(s) - 1]),
    decreases s.len(),
{
    if s.len() != 0 && is_value_space(s.last()) {
        lemma_last_non_space_bounds(s.drop_last());
        assert forall|k: int| last_non_space(s) <= k < s.len() implies is_value_space(s[k]) by {
            if k < s.len() - 1 {
                assert(s[k] == s.drop_last()[k]);
            }
        }
        if last_non_space(s) > 0 {
            assert(s[last_non_space(s) - 1] == s.drop_last()[last_non_space(s) - 1]);
        }
    }
}

/// A value with surrounding whitespace removed.
pub open spec fn spec_trim(s: Seq<char>) -> Seq<char> {
    let lo = first_non_space(s);
    let hi = last_non_space(s);
    if lo <= hi {
        s.subrange(lo, hi)
    } else {
        Seq::empty()
    }
}

/// Trims metadata-value whitespace from both ends of a character vector.
pub fn trim_chars(s: &Vec<char>) -> (r: Vec<char>)
    ensures
        r@ == spec_trim(s@),
{
    proof {
        lemma_first_non_space_bounds(s@);
        lemma_last_non_space_bounds(s@);
    }
    let n = s.len();
    let mut lo: usize = 0;
    while lo < n && value_space(s[lo])
        invariant
            0 <= lo <= n,
            n == s@.len(),
            forall|k: int| 0 <= k < lo ==> is_value_space(s@[k]),
            lo <= first_non_space(s@),
        decreases n - lo,
    {
        proof {
            lemma_first_non_space_prefix(s@, lo as int);
        }
        lo = lo + 1;
    }
    proof {
        lemma_first_non_space_bounds(s@);
        assert(lo == first_non_space(s@));
    }
    let mut hi: usize = n;
    while hi > lo && value_space(s[hi - 1])
        invariant
            lo <= hi <= n,
            n == s@.len(),
            lo == first_non_space(s@),
            forall|k: int| hi <= k < n ==> is_value_space(s@[k]),
            hi >= last_non_space(s@),
        decreases hi,
    {
        proof {
            lemma_last_non_space_suffix(s@, hi as int);
        }
        hi = hi - 1;
    }
    proof {
        lemma_last_non_space_bounds(s@);
        if hi > lo {
            assert(hi == last_non_space(s@));
        }
    }
    let mut r: Vec<char> = Vec::new();
    let mut i: usize = lo;
    while i < hi
        invariant
            lo <= i <= hi <= n,
            n == s@.len(),
            r@ == s@.subrange(lo as int, i as int),
        decreases hi - i,
    {
        let c = s[i];
        r.push(c);
        i = i + 1;
        assert(r@ =~= s@.subrange(lo as int, i as int));
    }
    proof {
        if lo == hi {
            // All whitespace: the trimmed value is empty either way.
            if first_non_space(s@) <= last_non_space(s@) {
                assert(s@.subrange(lo as int, hi as int) =~= Seq::<char>::empty());
            }
            assert(r@ =~= spec_trim(s@));
        } else {
            assert(first_non_space(s@) <= last_non_space(s@));
            assert(r@ == spec_trim(s@));
        }
    }
    r
}

proof fn lemma_first_non_space_prefix(s: Seq<char>, i: int)
    requires
        0 <= i < s.len(),
        forall|k: int| 0 <= k <= i ==> is_value_space(s[k]),
    ensures
        first_non_space(s) > i,
    decreases i,
{
    if i > 0 {
        assert forall|k: int| 0 <= k <= i - 1 implies is_value_space(
            #[trigger] s.drop_first()[k],
        ) by {
            assert(s.drop_first()[k] == s[k + 1]);
        }
        lemma_first_non_space_prefix(s.drop_first(), i - 1);
        assert(is_value_space(s[0]));
        assert(first_non_space(s) == 1 + first_non_space(s.drop_first()));
    } else {
        lemma_first_non_space_bounds(s.drop_first());
        assert(is_value_space(s[0]));
        assert(first_non_space(s) == 1 + first_non_space(s.drop_first()));
    }
}

proof fn lemma_last_non_space_suffix(s: Seq<char>, h: int)
    requires
        0 < h <= s.len(),
        forall|k: int| h - 1 <= k < s.len() ==> is_value_space(s[k]),
    ensures
        last_non_space(s) < h,
    decreases s.len(),
{
    if h == s.len() as int {
        if s.len() > 0 {
            lemma_last_non_space_bounds(s.drop_last());
        }
    } else {
        assert(forall|k: int| h - 1 <= k < s.len() - 1 ==> is_value_space(
            #[trigger] s.drop_last()[k],
        ));
        lemma_last_non_space_suffix(s.drop_last(), h);
    }
}

/// The pieces of a text, split at a separator; the separators are not
/// part of any piece, and a trailing separator yields a final empty
/// piece.
pub open spec fn spec_split(s: Seq<char>, sep: char) -> Seq<Seq<char>>
    decreases s.len(),
{
    if s.len() == 0 {
        seq![Seq::empty()]
    } else if s.last() == sep {
        spec_split(s.drop_last(), sep).push(Seq::empty())
    } else {
        let rest = spec_split(s.drop_last(), sep);
        rest.update(rest.len() - 1, rest.last().push(s.last()))
    }
}

pub proof fn lemma_spec_split_len(s: Seq<char>, sep: char)
    ensures
        spec_split(s, sep).len() >= 1,
    decreases s.len(),
{
    if s.len() > 0 {
        lemma_spec_split_len(s.drop_last(), sep);
    }
}

/// The lines of a text, split at `'\n'`.
pub open spec fn spec_lines(s: Seq<char>) -> Seq<Seq<char>> {
    spec_split(s, '\n')
}

/// The deep view of a character vector is its view.
pub proof fn lemma_chars_deep_view(v: Vec<char>)
    ensures
        v.deep_view() == v@,
{
    assert(v.deep_view() =~= v@);
}

/// Pushing onto a vector of character vectors pushes the inner view onto
/// the deep view.
proof fn lemma_push_deep_view(pre: Vec<Vec<char>>, post: Vec<Vec<char>>, x: Vec<char>)
    requires
        post@ == pre@.push(x),
    ensures
        post.deep_view() == pre.deep_view().push(x@),
{
    lemma_chars_deep_view(x);
    assert forall|j: int| 0 <= j < post@.len() implies post.deep_view()[j]
        == pre.deep_view().push(x@)[j] by {
        if j < pre@.len() {
            assert(post@[j] == pre@[j]);
        } else {
            assert(post@[j] == x);
        }
    }
    assert(post.deep_view() =~= pre.deep_view().push(x@));
}

/// Splits a text at a separator character.
pub fn split_chars(s: &Vec<char>, sep: char) -> (r: Vec<Vec<char>>)
    ensures
        r.deep_view() == spec_split(s@, sep),
{
    let mut r: Vec<Vec<char>> = Vec::new();
    let mut cur: Vec<char> = Vec::new();
    let n = s.len();
    let mut i: usize = 0;
    proof {
        lemma_spec_split_len(s@, sep);
    }
    while i < n
        invariant
            i <= n,
            n == s@.len(),
            spec_split(s@.take(i as int), sep).len() >= 1,
            r.deep_view().push(cur@) == spec_split(s@.take(i as int), sep),
        decreases n - i,
    {
        proof {
            assert(s@.take(i + 1).drop_last() =~= s@.take(i as int));
            lemma_spec_split_len(s@.take(i as int), sep);
        }
        let ghost pre_r = r;
        let ghost pre_cur = cur;
        let c = s[i];
        if c == sep {
            r.push(cur);
            cur = Vec::new();
            proof {
                lemma_push_deep_view(pre_r, r, pre_cur);
                let prev = spec_split(s@.take(i as int), sep);
                assert(pre_r.deep_view() =~= prev.drop_last());
                assert(r.deep_view().push(cur@) =~= spec_split(s@.take(i + 1), sep));
            }
        } else {
            cur.push(c);
            proof {
                let prev = spec_split(s@.take(i as int), sep);
                let now = spec_split(s@.take(i + 1), sep);
                assert(now == prev.update(prev.len() - 1, prev.last().push(s@[i as int])));
                assert(cur@ == pre_cur@.push(s@[i as int]));
                assert(r.deep_view().push(cur@) =~= now);
            }
        }
        i = i + 1;
    }
    proof {
        assert(s@.take(n as int) =~= s@);
    }
    let ghost pre_r = r;
    let ghost pre_cur = cur;
    r.push(cur);
    proof {
        lemma_push_deep_view(pre_r, r, pre_cur);
        assert(r.deep_view() =~= spec_split(s@, sep));
    }
    r
}

/// Splits a text into its lines.
pub fn split_lines(s: &Vec<char>) -> (r: Vec<Vec<char>>)
    ensures
        r.deep_view() == spec_lines(s@),
{
    split_chars(s, '\n')
}

/// The index of the first occurrence of a character (the length if it
/// does not occur).
pub open spec fn first_index_of(s: Seq<char>, c: char) -> int
    decreases s.len(),
{
    if s.len() == 0 {
        0
    } else if s[0] == c {
        0
    } else {
        1 + first_index_of(s.drop_first(), c)
    }
}

pub proof fn lemma_first_index_of_bounds(s: Seq<char>, c: char)
    ensures
        0 <= first_index_of(s, c) <= s.len(),
        forall|k: int| 0 <= k < first_index_of(s, c) ==> s[k] != c,
        first_index_of(s, c) < s.len() ==> s[first_index_of(s, c)] == c,
    decreases s.len(),
{
    if s.len() != 0 && s[0] != c {
        lemma_first_index_of_bounds(s.drop_first(), c);
        assert forall|k: int| 0 <= k < first_index_of(s, c) implies s[k] != c by {
            if k > 0 {
                assert(s[k] == s.drop_first()[k - 1]);
            }
        }
        if first_index_of(s, c) < s.len() {
            assert(s[first_index_of(s, c)] == s.drop_first()[first_index_of(s, c) - 1]);
        }
    }
}

proof fn lemma_first_index_of_prefix(s: Seq<char>, c: char, i: int)
    requires
        0 <= i < s.len(),
        forall|k: int| 0 <= k <= i ==> s[k] != c,
    ensures
        first_index_of(s, c) > i,
    decreases i,
{
    if i > 0 {
        assert forall|k: int| 0 <= k <= i - 1 implies s.drop_first()[k] != c by {
            assert(s.drop_first()[k] == s[k + 1]);
        }
        lemma_first_index_of_prefix(s.drop_first(), c, i - 1);
        assert(first_index_of(s, c) == 1 + first_index_of(s.drop_first(), c));
    } else {
        lemma_first_index_of_bounds(s.drop_first(), c);
        assert(first_index_of(s, c) == 1 + first_index_of(s.drop_first(), c));
    }
}

/// Finds the first occurrence of a character, or the length if absent.
pub fn find_char(s: &Vec<char>, c: char) -> (r: usize)
    ensures
        r == first_index_of(s@, c),
{
    let n = s.len();
    let mut i: usize = 0;
    while i < n
        invariant
            i <= n,
            n == s@.len(),
            forall|k: int| 0 <= k < i ==> s@[k] != c,
        decreases n - i,
    {
        if s[i] == c {
            proof {
                if i > 0 {
                    lemma_first_index_of_prefix(s@, c, i - 1);
                }
                lemma_first_index_of_bounds(s@, c);
            }
            return i;
        }
        proof {
            lemma_first_index_of_prefix(s@, c, i as int);
        }
        i = i + 1;
    }
    proof {
        lemma_first_index_of_bounds(s@, c);
    }
    n
}

/// Copies the characters in positions `lo..hi`.
pub fn subrange_chars(s: &Vec<char>, lo: usize, hi: usize) -> (r: Vec<char>)
    requires
        lo <= hi <= s@.len(),
    ensures
        r@ == s@.subrange(lo as int, hi as int),
{
    let mut r: Vec<char> = Vec::new();
    let mut i: usize = lo;
    while i < hi
        invariant
            lo <= i <= hi <= s@.len(),
            r@ == s@.subrange(lo as int, i as int),
        decreases hi - i,
    {
        let c = s[i];
        r.push(c);
        i = i + 1;
        assert(r@ =~= s@.subrange(lo as int, i as int));
    }
    r
}

/// How one character is written inside HTML text: `&`, `<` and `>` become
/// entities, everything else stands for itself.
pub open spec fn escape_char(c: char) -> Seq<char> {
    if c == '&' {
        seq!['&', 'a', 'm', 'p', ';']
    } else if c == '<' {
        seq!['&', 'l', 't', ';']
    } else if c == '>' {
        seq!['&', 'g', 't', ';']
    } else {
        seq![c]
    }
}

/// A text with every character written as HTML text: exactly `&`, `<` and
/// `>` are replaced by their entities.
pub open spec fn spec_escape_html(s: Seq<char>) -> Seq<char>
    decreases s.len(),
{
    if s.len() == 0 {
        Seq::empty()
    } else {
        spec_escape_html(s.drop_last()) + escape_char(s.last())
    }
}

/// Escapes a text for inclusion in HTML: this is the injection-safety
/// boundary for content that bypasses the markdown renderer.
pub fn escape_html_chars(s: &Vec<char>) -> (r: Vec<char>)
    ensures
        r@ == spec_escape_html(s@),
{
    let n = s.len();
    let mut r: Vec<char> = Vec::new();
    let mut i: usize = 0;
    while i < n
        invariant
            i <= n,
            n == s@.len(),
            r@ == spec_escape_html(s@.take(i as int)),
        decreases n - i,
    {
        let c = s[i];
        if c == '&' {
            r.push('&');
            r.push('a');
            r.push('m');
            r.push('p');
            r.push(';');
        } else if c == '<' {
            r.push('&');
            r.push('l');
            r.push('t');
            r.push(';');
        } else if c == '>' {
            r.push('&');
            r.push('g');
            r.push('t');
            r.push(';');
        } else {
            r.push(c);
        }
        i = i + 1;
        proof {
            assert(s@.take(i as int).drop_last() =~= s@.take(i - 1));
            assert(r@ =~= spec_escape_html(s@.take(i - 1)) + escape_char(s@[i - 1]));
        }
    }
    proof {
        assert(s@.take(n as int) =~= s@);
    }
    r
}

/// Escapes a string for inclusion in HTML text.
pub fn escape_html(s: &str) -> (r: String)
    ensures
        r@ == spec_escape_html(s@),
{
    let cs = str_to_chars(s);
    let escaped = escape_html_chars(&cs);
    chars_to_string(&escaped)
}

/// Escaped text holds no raw markup: no `<` and no `>` survives escaping,
/// so content routed through [`spec_escape_html`] cannot open a tag.
pub proof fn lemma_escape_html_safe(s: Seq<char>)
    ensures
        forall|i: int|
            0 <= i < spec_escape_html(s).len() ==> spec_escape_html(s)[i] != '<'
                && spec_escape_html(s)[i] != '>',
    decreases s.len(),
{
    if s.len() > 0 {
        lemma_escape_html_safe(s.drop_last());
        let a = spec_escape_html(s.drop_last());
        let b = escape_char(s.last());
        let e = spec_escape_html(s);
        assert forall|i: int| 0 <= i < e.len() implies e[i] != '<' && e[i] != '>' by {
            if i < a.len() {
                assert(e[i] == a[i]);
            } else {
                assert(e[i] == b[i - a.len()]);
            }
        }
    }
}

} // verus!
