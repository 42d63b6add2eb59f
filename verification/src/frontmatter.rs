//! The document loader.
//!
//! A document is a text file that begins with a metadata block: a first
//! line `---`, then `key: value` lines, then a line `---`; everything
//! after the closing line is the body. Values may be bare, single- or
//! double-quoted; `tags` takes an inline list `[a, b]`; `related_posts`
//! takes an inline empty list `[]` or a block of `- slug: ...` items,
//! each optionally followed by an indented `relationship: ...` line.
//! Lines whose first non-blank character is `#` are comments.

use vstd::prelude::*;
use vstd::string::StringExecFns;
use crate::date::{spec_parse_date, spec_parse_datetime, parse_date, parse_datetime, DateTime};
use crate::models::{
    chars_eq_str, relation_from_name, spec_relation_name, Frontmatter, FrontmatterV, Page,
    PageFrontmatterV, Post, RelatedPost, RelatedPostV, SourceFile,
};
use crate::slug::{check_page_slug, valid_page_slug};
use crate::text::{
    chars_to_string, first_index_of, lemma_first_index_of_bounds, spec_lines, spec_split,
    spec_trim, split_lines, str_to_chars, subrange_chars, trim_chars, find_char,
};

verus! {

/// What can go wrong while loading content.
#[derive(Debug)]
pub enum ContentError {
    /// A file could not be read; the payload describes the failure.
    FileRead(String),
    /// The metadata block could not be parsed.
    FrontmatterParse(String),
    /// A required part of the document is absent.
    MissingField(String),
    /// No post carries the requested slug.
    PostNotFound(String),
    /// No page carries the requested slug.
    PageNotFound(String),
    /// A page slug is not path-safe.
    InvalidPath(String),
}

impl ContentError {
    /// A human-readable description of the error.
    pub fn message(&self) -> (r: String)
    {
        match self {
            ContentError::FileRead(s) => String::from_str("Failed to read file: ").concat(
                s.as_str(),
            ),
            ContentError::FrontmatterParse(s) => String::from_str(
                "Failed to parse frontmatter: ",
            ).concat(s.as_str()),
            ContentError::MissingField(s) => String::from_str(
                "Missing required frontmatter field: ",
            ).concat(s.as_str()),
            ContentError::PostNotFound(s) => String::from_str("Post not found: ").concat(
                s.as_str(),
            ),
            ContentError::PageNotFound(s) => String::from_str("Page not found: ").concat(
                s.as_str(),
            ),
            ContentError::InvalidPath(s) => String::from_str("Invalid content path: ").concat(
                s.as_str(),
            ),
        }
    }
}

/// Why a document failed to load: its metadata block is absent, or it
/// does not parse.
pub ghost enum LoadErr {
    Missing,
    Parse,
}

/// A value with its quotes removed: one matching pair of double or single
/// quotes around the whole value, if present.
pub open spec fn spec_unquote(v: Seq<char>) -> Seq<char> {
    if v.len() >= 2 && ((v[0] == '"' && v.last() == '"') || (v[0] == '\'' && v.last() == '\'')) {
        v.subrange(1, v.len() - 1)
    } else {
        v
    }
}

/// Removes one pair of surrounding quotes.
pub fn unquote(v: &Vec<char>) -> (r: Vec<char>)
    ensures
        r@ == spec_unquote(v@),
{
    let n = v.len();
    if n >= 2 && ((v[0] == '"' && v[n - 1] == '"') || (v[0] == '\'' && v[n - 1] == '\'')) {
        subrange_chars(v, 1, n - 1)
    } else {
        let r = subrange_chars(v, 0, n);
        proof {
            assert(r@ =~= v@);
        }
        r
    }
}

/// The items of an inline list body: each piece trimmed and unquoted,
/// empty pieces dropped.
pub open spec fn spec_list_items(parts: Seq<Seq<char>>) -> Seq<Seq<char>>
    decreases parts.len(),
{
    if parts.len() == 0 {
        Seq::empty()
    } else {
        let rest = spec_list_items(parts.drop_last());
        let t = spec_trim(parts.last());
        if t.len() == 0 {
            rest
        } else {
            rest.push(spec_unquote(t))
        }
    }
}

/// An inline list `[a, b, c]`, or nothing if the value is not bracketed.
pub open spec fn spec_inline_list(v: Seq<char>) -> Option<Seq<Seq<char>>> {
    if v.len() >= 2 && v[0] == '[' && v.last() == ']' {
        Some(spec_list_items(spec_split(v.subrange(1, v.len() - 1), ',')))
    } else {
        None
    }
}

/// Parses an inline list value.
pub fn inline_list(v: &Vec<char>) -> (r: Option<Vec<String>>)
    ensures
        match r {
            Some(items) => spec_inline_list(v@) == Some(items.deep_view()),
            None => spec_inline_list(v@) is None,
        },
{
    let n = v.len();
    if !(n >= 2 && v[0] == '[' && v[n - 1] == ']') {
        return None;
    }
    let inner = subrange_chars(v, 1, n - 1);
    let parts = crate::text::split_chars(&inner, ',');
    let ghost pdv = parts.deep_view();
    let mut items: Vec<String> = Vec::new();
    let m = parts.len();
    let mut i: usize = 0;
    while i < m
        invariant
            i <= m,
            m == parts@.len(),
            pdv == parts.deep_view(),
            pdv.len() == m,
            forall|k: int| 0 <= k < m ==> pdv[k] == parts@[k]@,
            items.deep_view() == spec_list_items(pdv.take(i as int)),
        decreases m - i,
    {
        proof {
            assert(pdv.take(i + 1).drop_last() =~= pdv.take(i as int));
            assert(pdv.take(i + 1).last() == pdv[i as int]);
        }
        let t = trim_chars(&parts[i]);
        if t.len() > 0 {
            let u = unquote(&t);
            let ghost pre = items.deep_view();
            items.push(chars_to_string(&u));
            proof {
                assert(items.deep_view() =~= pre.push(u@));
            }
        }
        i = i + 1;
    }
    proof {
        assert(pdv.take(m as int) =~= pdv);
    }
    Some(items)
}

/// Lines joined back into a text with newlines.
pub open spec fn join_nl(ls: Seq<Seq<char>>) -> Seq<char>
    decreases ls.len(),
{
    if ls.len() == 0 {
        Seq::empty()
    } else if ls.len() == 1 {
        ls[0]
    } else {
        join_nl(ls.drop_last()) + seq!['\n'] + ls.last()
    }
}

/// Appends the characters of `src` to `out`.
fn append_chars(out: &mut Vec<char>, src: &Vec<char>)
    ensures
        final(out)@ == old(out)@ + src@,
{
    let n = src.len();
    let mut i: usize = 0;
    while i < n
        invariant
            i <= n,
            n == src@.len(),
            out@ == old(out)@ + src@.take(i as int),
        decreases n - i,
    {
        let c = src[i];
        out.push(c);
        i = i + 1;
        assert(out@ =~= old(out)@ + src@.take(i as int));
    }
    proof {
        assert(src@.take(n as int) =~= src@);
    }
}

/// Joins the lines from position `from` on, separated by newlines.
fn join_lines_from(lines: &Vec<Vec<char>>, from: usize) -> (r: Vec<char>)
    requires
        from <= lines@.len(),
    ensures
        r@ == join_nl(lines.deep_view().skip(from as int)),
{
    let ghost dv = lines.deep_view();
    let ghost seg = dv.skip(from as int);
    let mut out: Vec<char> = Vec::new();
    let n = lines.len();
    let mut k: usize = from;
    proof {
        assert(dv.len() == n);
    }
    while k < n
        invariant
            from <= k <= n,
            n == lines@.len(),
            dv == lines.deep_view(),
            seg == dv.skip(from as int),
            forall|j: int| 0 <= j < n ==> dv[j] == lines@[j]@,
            out@ == join_nl(seg.take(k - from)),
        decreases n - k,
    {
        let ghost piece = seg.take(k - from + 1);
        proof {
            assert(piece.drop_last() =~= seg.take(k - from));
            assert(piece.last() == seg[k - from]);
            assert(seg[k - from] == dv[k as int]);
        }
        if k > from {
            out.push('\n');
        }
        append_chars(&mut out, &lines[k]);
        proof {
            if k == from {
                assert(out@ =~= join_nl(piece));
            } else {
                assert(out@ =~= join_nl(seg.take(k - from)) + seq!['\n'] + dv[k as int]);
                assert(out@ =~= join_nl(piece));
            }
        }
        k = k + 1;
    }
    proof {
        assert(seg.take(n - from) =~= seg);
    }
    out
}

/// The index of the first closing delimiter line at or after `i`: a line
/// that trims to `---` (the line count if there is none).
pub open spec fn find_close(lines: Seq<Seq<char>>, i: int) -> int
    decreases lines.len() - i,
{
    if i < 0 || i >= lines.len() {
        lines.len() as int
    } else if spec_trim(lines[i]) == "---"@ {
        i
    } else {
        find_close(lines, i + 1)
    }
}

pub proof fn lemma_find_close_bounds(lines: Seq<Seq<char>>, i: int)
    requires
        0 <= i <= lines.len(),
    ensures
        i <= find_close(lines, i) <= lines.len(),
        forall|k: int| i <= k < find_close(lines, i) ==> spec_trim(#[trigger] lines[k]) != "---"@,
        find_close(lines, i) < lines.len() ==> spec_trim(lines[find_close(lines, i)]) == "---"@,
    decreases lines.len() - i,
{
    if i < lines.len() && spec_trim(lines[i]) != "---"@ {
        lemma_find_close_bounds(lines, i + 1);
    }
}

/// A document split into its metadata lines and its body.
pub open spec fn spec_split_frontmatter(text: Seq<char>) -> Option<(Seq<Seq<char>>, Seq<char>)> {
    let lines = spec_lines(text);
    if lines.len() == 0 || spec_trim(lines[0]) != "---"@ {
        None
    } else {
        let j = find_close(lines, 1);
        if j >= lines.len() {
            None
        } else {
            Some((lines.subrange(1, j), join_nl(lines.skip(j + 1))))
        }
    }
}

/// Splits a document into metadata lines and body.
pub fn split_frontmatter(cs: &Vec<char>) -> (r: Option<(Vec<Vec<char>>, Vec<char>)>)
    ensures
        match r {
            Some(parts) => spec_split_frontmatter(cs@) == Some(
                (parts.0.deep_view(), parts.1@),
            ),
            None => spec_split_frontmatter(cs@) is None,
        },
{
    let lines = split_lines(cs);
    let ghost dv = lines.deep_view();
    proof {
        crate::text::lemma_spec_split_len(cs@, '\n');
        assert(dv.len() >= 1);
        assert(forall|j: int| 0 <= j < dv.len() ==> dv[j] == lines@[j]@);
    }
    let head = trim_chars(&lines[0]);
    if !chars_eq_str(&head, "---") {
        return None;
    }
    let n = lines.len();
    let mut j: usize = 1;
    let mut found: bool = false;
    while j < n && !found
        invariant
            1 <= j <= n,
            n == lines@.len(),
            dv == lines.deep_view(),
            forall|jj: int| 0 <= jj < dv.len() ==> dv[jj] == lines@[jj]@,
            forall|k: int| 1 <= k < j ==> spec_trim(#[trigger] dv[k]) != "---"@,
            found ==> j < n && spec_trim(dv[j as int]) == "---"@,
        decreases n - j + (if found { 0int } else { 1int }),
    {
        let t = trim_chars(&lines[j]);
        if chars_eq_str(&t, "---") {
            found = true;
        } else {
            j = j + 1;
        }
    }
    proof {
        lemma_find_close_bounds(dv, 1);
        if found {
            assert(spec_trim(dv[j as int]) == "---"@);
            assert(find_close(dv, 1) == j) by {
                if find_close(dv, 1) < j {
                    assert(spec_trim(dv[find_close(dv, 1)]) != "---"@);
                }
            }
        } else {
            assert(j == n);
            assert(find_close(dv, 1) == n);
        }
    }
    if !found {
        return None;
    }
    proof {
        assert(j < n);
    }
    let mut matter: Vec<Vec<char>> = Vec::new();
    let mut k: usize = 1;
    while k < j
        invariant
            1 <= k <= j < n,
            n == lines@.len(),
            dv == lines.deep_view(),
            forall|jj: int| 0 <= jj < dv.len() ==> dv[jj] == lines@[jj]@,
            matter.deep_view() == dv.subrange(1, k as int),
        decreases j - k,
    {
        let line = subrange_chars(&lines[k], 0, lines[k].len());
        let ghost pre = matter.deep_view();
        matter.push(line);
        proof {
            assert(line@ =~= dv[k as int]);
            assert(matter.deep_view() =~= pre.push(dv[k as int]));
            assert(matter.deep_view() =~= dv.subrange(1, k + 1));
        }
        k = k + 1;
    }
    let body = join_lines_from(&lines, j + 1);
    proof {
        assert(matter.deep_view() =~= dv.subrange(1, j as int));
    }
    Some((matter, body))
}

/// True when the line holds a `:` separator.
pub open spec fn has_colon(line: Seq<char>) -> bool {
    first_index_of(line, ':') < line.len()
}

/// The key of a `key: value` line: the trimmed text before the first
/// colon.
pub open spec fn key_of(line: Seq<char>) -> Seq<char> {
    spec_trim(line.take(first_index_of(line, ':')))
}

/// The value of a `key: value` line: the trimmed text after the first
/// colon.
pub open spec fn value_of(line: Seq<char>) -> Seq<char> {
    spec_trim(line.skip(first_index_of(line, ':') + 1))
}

/// Splits a `key: value` line at its first colon.
fn split_key_value(line: &Vec<char>) -> (r: Option<(Vec<char>, Vec<char>)>)
    ensures
        r is Some <==> has_colon(line@),
        r is Some ==> (r->0).0@ == key_of(line@) && (r->0).1@ == value_of(line@),
{
    proof {
        lemma_first_index_of_bounds(line@, ':');
    }
    let pos = find_char(line, ':');
    if pos == line.len() {
        return None;
    }
    let rawk = subrange_chars(line, 0, pos);
    let rawv = subrange_chars(line, pos + 1, line.len());
    proof {
        assert(rawk@ =~= line@.take(pos as int));
        assert(rawv@ =~= line@.skip(pos + 1));
    }
    let key = trim_chars(&rawk);
    let value = trim_chars(&rawv);
    Some((key, value))
}

/// The line kinds the metadata folds distinguish.
///
/// Blank lines and comment lines are skipped; indented lines belong to a
/// block; everything else must be a top-level `key: value` line.
pub open spec fn line_blank(line: Seq<char>) -> bool {
    spec_trim(line).len() == 0
}

pub open spec fn line_comment(line: Seq<char>) -> bool {
    !line_blank(line) && spec_trim(line)[0] == '#'
}

pub open spec fn line_indented(line: Seq<char>) -> bool {
    line.len() > 0 && crate::text::is_value_space(line[0])
}

/// Classifies a line and hands back its trimmed text.
fn classify_line(line: &Vec<char>) -> (r: (Vec<char>, bool, bool, bool))
    ensures
        r.0@ == spec_trim(line@),
        r.1 == line_blank(line@),
        r.2 == line_comment(line@),
        r.3 == line_indented(line@),
{
    let t = trim_chars(line);
    let blank = t.len() == 0;
    let comment = !blank && t[0] == '#';
    let indented = line.len() > 0 && crate::text::value_space(line[0]);
    (t, blank, comment, indented)
}

/// The page-metadata fold state.
pub struct PgBuild {
    pub title: Option<String>,
    pub slug: Option<String>,
    pub template: Option<String>,
    pub failed: bool,
}

/// The view of a [`PgBuild`].
pub ghost struct PgBuildV {
    pub title: Option<Seq<char>>,
    pub slug: Option<Seq<char>>,
    pub template: Option<Seq<char>>,
    pub failed: bool,
}

impl View for PgBuild {
    type V = PgBuildV;

    open spec fn view(&self) -> PgBuildV {
        PgBuildV {
            title: crate::models::view_opt_string(self.title),
            slug: crate::models::view_opt_string(self.slug),
            template: crate::models::view_opt_string(self.template),
            failed: self.failed,
        }
    }
}

/// The empty page-metadata state.
pub open spec fn pg_init() -> PgBuildV {
    PgBuildV { title: None, slug: None, template: None, failed: false }
}

/// How one metadata line changes the page state. Pages know the keys
/// `title`, `slug` and `template`; other keys and indented lines are
/// ignored.
pub open spec fn spec_pg_step(st: PgBuildV, line: Seq<char>) -> PgBuildV {
    if st.failed {
        st
    } else if line_blank(line) || line_comment(line) || line_indented(line) {
        st
    } else if !has_colon(line) {
        PgBuildV { failed: true, ..st }
    } else {
        let key = key_of(line);
        let value = value_of(line);
        if value.len() == 0 {
            st
        } else if key == "title"@ {
            PgBuildV { title: Some(spec_unquote(value)), ..st }
        } else if key == "slug"@ {
            PgBuildV { slug: Some(spec_unquote(value)), ..st }
        } else if key == "template"@ {
            PgBuildV { template: Some(spec_unquote(value)), ..st }
        } else {
            st
        }
    }
}

/// The page state after all metadata lines.
pub open spec fn spec_pg_fold(lines: Seq<Seq<char>>) -> PgBuildV
    decreases lines.len(),
{
    if lines.len() == 0 {
        pg_init()
    } else {
        spec_pg_step(spec_pg_fold(lines.drop_last()), lines.last())
    }
}

/// Applies one metadata line to the page state.
fn pg_step(st: &mut PgBuild, line: &Vec<char>)
    ensures
        final(st)@ == spec_pg_step(old(st)@, line@),
{
    if st.failed {
        return ;
    }
    let (_t, blank, comment, indented) = classify_line(line);
    if blank || comment || indented {
        return ;
    }
    let kv = match split_key_value(line) {
        Some(kv) => kv,
        None => {
            st.failed = true;
            return ;
        },
    };
    let (key, value) = kv;
    if value.len() == 0 {
        return ;
    }
    if chars_eq_str(&key, "title") {
        let u = unquote(&value);
        st.title = Some(chars_to_string(&u));
    } else if chars_eq_str(&key, "slug") {
        let u = unquote(&value);
        st.slug = Some(chars_to_string(&u));
    } else if chars_eq_str(&key, "template") {
        let u = unquote(&value);
        st.template = Some(chars_to_string(&u));
    }
}

/// The page metadata a block of lines denotes: `title` and `slug` are
/// required, `template` defaults to `page`.
pub open spec fn spec_page_fm(lines: Seq<Seq<char>>) -> Option<PageFrontmatterV> {
    let st = spec_pg_fold(lines);
    if st.failed {
        None
    } else {
        match (st.title, st.slug) {
            (Some(title), Some(slug)) => Some(
                PageFrontmatterV {
                    title: title,
                    slug: slug,
                    template: match st.template {
                        Some(t) => t,
                        None => "page"@,
                    },
                },
            ),
            _ => None,
        }
    }
}

/// What loading a page document from its text yields.
pub open spec fn spec_load_page_doc(text: Seq<char>) -> Result<
    (PageFrontmatterV, Seq<char>),
    LoadErr,
> {
    match spec_split_frontmatter(text) {
        None => Err(LoadErr::Missing),
        Some((matter, body)) => match spec_page_fm(matter) {
            None => Err(LoadErr::Parse),
            Some(pf) => Ok((pf, body)),
        },
    }
}

/// Loads a static page from the document looked up for its slug.
///
/// A slug that is not path-safe is rejected before anything else, so no
/// caller may touch the filesystem for it; `None` for the document means
/// the lookup found no file.
pub fn load_page(slug: &str, file: Option<&SourceFile>) -> (r: Result<Page, ContentError>)
    ensures
        !valid_page_slug(slug@) ==> r is Err && r->Err_0 is InvalidPath,
        valid_page_slug(slug@) && file is None ==> r is Err && r->Err_0 is PageNotFound,
        valid_page_slug(slug@) && file is Some ==> match spec_load_page_doc(file->0.text@) {
            Ok(parts) => r is Ok && r->Ok_0@.title == parts.0.title && r->Ok_0@.slug == parts.0.slug
                && r->Ok_0@.template == parts.0.template && r->Ok_0@.raw_content == parts.1
                && r->Ok_0@.file_path == file->0.path@,
            Err(LoadErr::Missing) => r is Err && r->Err_0 is MissingField,
            Err(LoadErr::Parse) => r is Err && r->Err_0 is FrontmatterParse,
        },
{
    if !check_page_slug(slug) {
        return Err(ContentError::InvalidPath(slug.to_owned()));
    }
    let sf = match file {
        Some(sf) => sf,
        None => {
            return Err(ContentError::PageNotFound(slug.to_owned()));
        },
    };
    let cs = str_to_chars(sf.text.as_str());
    let (matter, body) = match split_frontmatter(&cs) {
        Some(parts) => parts,
        None => {
            return Err(ContentError::MissingField("frontmatter".to_owned()));
        },
    };
    let ghost mdv = matter.deep_view();
    let mut st = PgBuild { title: None, slug: None, template: None, failed: false };
    let m = matter.len();
    let mut i: usize = 0;
    proof {
        assert(st@ == spec_pg_fold(mdv.take(0)));
    }
    while i < m
        invariant
            i <= m,
            m == matter@.len(),
            mdv == matter.deep_view(),
            forall|j: int| 0 <= j < mdv.len() ==> mdv[j] == matter@[j]@,
            st@ == spec_pg_fold(mdv.take(i as int)),
        decreases m - i,
    {
        proof {
            assert(mdv.take(i + 1).drop_last() =~= mdv.take(i as int));
            assert(mdv.take(i + 1).last() == mdv[i as int]);
        }
        pg_step(&mut st, &matter[i]);
        i = i + 1;
    }
    proof {
        assert(mdv.take(m as int) =~= mdv);
    }
    if st.failed {
        return Err(ContentError::FrontmatterParse(slug.to_owned()));
    }
    let title = match st.title {
        Some(t) => t,
        None => {
            return Err(ContentError::FrontmatterParse("title".to_owned()));
        },
    };
    let pslug = match st.slug {
        Some(sl) => sl,
        None => {
            return Err(ContentError::FrontmatterParse("slug".to_owned()));
        },
    };
    let template = match st.template {
        Some(t) => t,
        None => crate::models::default_page_template(),
    };
    Ok(
        Page {
            title,
            slug: pslug,
            template,
            raw_content: chars_to_string(&body),
            file_path: sf.path.clone(),
        },
    )
}

/// The post-metadata fold state.
pub struct FmBuild {
    pub title: Option<String>,
    pub slug: Option<String>,
    pub date: Option<DateTime>,
    pub updated: Option<DateTime>,
    pub author: Option<String>,
    pub description: Option<String>,
    pub tags: Vec<String>,
    pub category: Option<String>,
    pub template: Option<String>,
    pub draft: bool,
    pub toc: bool,
    pub featured_image: Option<String>,
    pub related: Vec<RelatedPost>,
    pub in_related: bool,
    pub failed: bool,
}

/// The view of a [`FmBuild`].
pub ghost struct FmBuildV {
    pub title: Option<Seq<char>>,
    pub slug: Option<Seq<char>>,
    pub date: Option<DateTime>,
    pub updated: Option<DateTime>,
    pub author: Option<Seq<char>>,
    pub description: Option<Seq<char>>,
    pub tags: Seq<Seq<char>>,
    pub category: Option<Seq<char>>,
    pub template: Option<Seq<char>>,
    pub draft: bool,
    pub toc: bool,
    pub featured_image: Option<Seq<char>>,
    pub related: Seq<RelatedPostV>,
    pub in_related: bool,
    pub failed: bool,
}

impl View for FmBuild {
    type V = FmBuildV;

    open spec fn view(&self) -> FmBuildV {
        FmBuildV {
            title: crate::models::view_opt_string(self.title),
            slug: crate::models::view_opt_string(self.slug),
            date: self.date,
            updated: self.updated,
            author: crate::models::view_opt_string(self.author),
            description: crate::models::view_opt_string(self.description),
            tags: self.tags.deep_view(),
            category: crate::models::view_opt_string(self.category),
            template: crate::models::view_opt_string(self.template),
            draft: self.draft,
            toc: self.toc,
            featured_image: crate::models::view_opt_string(self.featured_image),
            related: self.related.deep_view(),
            in_related: self.in_related,
            failed: self.failed,
        }
    }
}

/// The empty post-metadata state.
pub open spec fn fm_init() -> FmBuildV {
    FmBuildV {
        title: None,
        slug: None,
        date: None,
        updated: None,
        author: None,
        description: None,
        tags: Seq::empty(),
        category: None,
        template: None,
        draft: false,
        toc: false,
        featured_image: None,
        related: Seq::empty(),
        in_related: false,
        failed: false,
    }
}

/// The failed copy of a state.
pub open spec fn fm_fail(st: FmBuildV) -> FmBuildV {
    FmBuildV { failed: true, ..st }
}

/// How an indented line inside the `related_posts` block changes the
/// state: `- slug: x` starts an item, `relationship: y` names the kind of
/// the item last started.
pub open spec fn spec_fm_related_line(st: FmBuildV, t: Seq<char>) -> FmBuildV {
    if t.len() >= 2 && t[0] == '-' && t[1] == ' ' {
        let rest = spec_trim(t.skip(2));
        if !has_colon(rest) {
            fm_fail(st)
        } else {
            let k = key_of(rest);
            let v = value_of(rest);
            if k == "slug"@ && v.len() > 0 {
                FmBuildV {
                    related: st.related.push(
                        RelatedPostV {
                            slug: spec_unquote(v),
                            relationship: crate::models::RelationType::Related,
                        },
                    ),
                    ..st
                }
            } else {
                fm_fail(st)
            }
        }
    } else {
        if !has_colon(t) {
            fm_fail(st)
        } else {
            let k = key_of(t);
            let v = value_of(t);
            if k == "relationship"@ && st.related.len() > 0 {
                match spec_relation_name(spec_unquote(v)) {
                    Some(rel) => FmBuildV {
                        related: st.related.update(
                            st.related.len() - 1,
                            RelatedPostV { relationship: rel, ..st.related.last() },
                        ),
                        ..st
                    },
                    None => fm_fail(st),
                }
            } else {
                fm_fail(st)
            }
        }
    }
}

/// How a top-level `key: value` line changes the state.
pub open spec fn spec_fm_keyed_line(st: FmBuildV, line: Seq<char>) -> FmBuildV {
    let key = key_of(line);
    let value = value_of(line);
    let st1 = FmBuildV { in_related: false, ..st };
    if key == "related_posts"@ {
        if value.len() == 0 {
            FmBuildV { related: Seq::empty(), in_related: true, ..st }
        } else {
            match spec_inline_list(value) {
                Some(items) => if items.len() == 0 {
                    FmBuildV { related: Seq::empty(), ..st1 }
                } else {
                    fm_fail(st1)
                },
                None => fm_fail(st1),
            }
        }
    } else if value.len() == 0 {
        st1
    } else if key == "title"@ {
        FmBuildV { title: Some(spec_unquote(value)), ..st1 }
    } else if key == "slug"@ {
        FmBuildV { slug: Some(spec_unquote(value)), ..st1 }
    } else if key == "author"@ {
        FmBuildV { author: Some(spec_unquote(value)), ..st1 }
    } else if key == "description"@ {
        FmBuildV { description: Some(spec_unquote(value)), ..st1 }
    } else if key == "category"@ {
        FmBuildV { category: Some(spec_unquote(value)), ..st1 }
    } else if key == "template"@ {
        FmBuildV { template: Some(spec_unquote(value)), ..st1 }
    } else if key == "featured_image"@ {
        FmBuildV { featured_image: Some(spec_unquote(value)), ..st1 }
    } else if key == "date"@ {
        match spec_parse_datetime(spec_unquote(value)) {
            Some(d) => FmBuildV { date: Some(d), ..st1 },
            None => fm_fail(st1),
        }
    } else if key == "updated"@ {
        match spec_parse_date(spec_unquote(value)) {
            Some(d) => FmBuildV { updated: Some(d), ..st1 },
            None => fm_fail(st1),
        }
    } else if key == "tags"@ {
        match spec_inline_list(value) {
            Some(items) => FmBuildV { tags: items, ..st1 },
            None => fm_fail(st1),
        }
    } else if key == "draft"@ {
        if value == "true"@ {
            FmBuildV { draft: true, ..st1 }
        } else if value == "false"@ {
            FmBuildV { draft: false, ..st1 }
        } else {
            fm_fail(st1)
        }
    } else if key == "toc"@ {
        if value == "true"@ {
            FmBuildV { toc: true, ..st1 }
        } else if value == "false"@ {
            FmBuildV { toc: false, ..st1 }
        } else {
            fm_fail(st1)
        }
    } else {
        st1
    }
}

/// How one metadata line changes the post state.
pub open spec fn spec_fm_step(st: FmBuildV, line: Seq<char>) -> FmBuildV {
    if st.failed {
        st
    } else if line_blank(line) || line_comment(line) {
        st
    } else if line_indented(line) {
        if !st.in_related {
            fm_fail(st)
        } else {
            spec_fm_related_line(st, spec_trim(line))
        }
    } else if !has_colon(line) {
        fm_fail(st)
    } else {
        spec_fm_keyed_line(st, line)
    }
}

/// The post state after all metadata lines.
pub open spec fn spec_fm_fold(lines: Seq<Seq<char>>) -> FmBuildV
    decreases lines.len(),
{
    if lines.len() == 0 {
        fm_init()
    } else {
        spec_fm_step(spec_fm_fold(lines.drop_last()), lines.last())
    }
}

/// Applies one metadata line to the post state.
fn fm_step(st: &mut FmBuild, line: &Vec<char>)
    ensures
        final(st)@ == spec_fm_step(old(st)@, line@),
{
    if st.failed {
        return ;
    }
    let (t, blank, comment, indented) = classify_line(line);
    if blank || comment {
        return ;
    }
    if indented {
        if !st.in_related {
            st.failed = true;
            return ;
        }
        fm_related_line(st, &t);
        return ;
    }
    if !chars_has_colon(line) {
        st.failed = true;
        return ;
    }
    fm_keyed_line(st, line);
}

/// Whether a line holds a colon.
fn chars_has_colon(line: &Vec<char>) -> (r: bool)
    ensures
        r == has_colon(line@),
{
    proof {
        lemma_first_index_of_bounds(line@, ':');
    }
    let pos = find_char(line, ':');
    pos < line.len()
}

/// Applies an indented related-post line; `t` is the trimmed line.
fn fm_related_line(st: &mut FmBuild, t: &Vec<char>)
    requires
        !old(st)@.failed,
        old(st)@.in_related,
    ensures
        final(st)@ == spec_fm_related_line(old(st)@, t@),
{
    if t.len() >= 2 && t[0] == '-' && t[1] == ' ' {
        let after = subrange_chars(t, 2, t.len());
        proof {
            assert(after@ =~= t@.skip(2));
        }
        let rest = trim_chars(&after);
        let kv = match split_key_value(&rest) {
            Some(kv) => kv,
            None => {
                st.failed = true;
                return ;
            },
        };
        let (k, v) = kv;
        if chars_eq_str(&k, "slug") && v.len() > 0 {
            let u = unquote(&v);
            let item = RelatedPost {
                slug: chars_to_string(&u),
                relationship: crate::models::RelationType::Related,
            };
            let ghost pre = st.related.deep_view();
            st.related.push(item);
            proof {
                assert(st.related.deep_view() =~= pre.push(
                    RelatedPostV {
                        slug: spec_unquote(value_of(spec_trim(t@.skip(2)))),
                        relationship: crate::models::RelationType::Related,
                    },
                ));
            }
        } else {
            st.failed = true;
        }
    } else {
        let kv = match split_key_value(t) {
            Some(kv) => kv,
            None => {
                st.failed = true;
                return ;
            },
        };
        let (k, v) = kv;
        if chars_eq_str(&k, "relationship") && st.related.len() > 0 {
            let u = unquote(&v);
            match relation_from_name(&u) {
                Some(rel) => {
                    let ghost pre = st.related.deep_view();
                    let last = match st.related.pop() {
                        Some(item) => item,
                        None => {
                            proof {
                                assert(false);
                            }
                            return ;
                        },
                    };
                    let updated = RelatedPost { slug: last.slug, relationship: rel };
                    st.related.push(updated);
                    proof {
                        assert(st.related.deep_view() =~= pre.update(
                            pre.len() - 1,
                            RelatedPostV { relationship: rel, ..pre.last() },
                        ));
                    }
                },
                None => {
                    st.failed = true;
                },
            }
        } else {
            st.failed = true;
        }
    }
}

/// Applies a top-level `key: value` line.
fn fm_keyed_line(st: &mut FmBuild, line: &Vec<char>)
    requires
        !old(st)@.failed,
        has_colon(line@),
    ensures
        final(st)@ == spec_fm_keyed_line(old(st)@, line@),
{
    let kv = match split_key_value(line) {
        Some(kv) => kv,
        None => {
            proof {
                assert(false);
            }
            return ;
        },
    };
    let (key, value) = kv;
    st.in_related = false;
    if chars_eq_str(&key, "related_posts") {
        if value.len() == 0 {
            st.related = Vec::new();
            st.in_related = true;
            proof {
                assert(st.related.deep_view() =~= Seq::<RelatedPostV>::empty());
            }
            return ;
        }
        match inline_list(&value) {
            Some(items) => {
                if items.len() == 0 {
                    st.related = Vec::new();
                    proof {
                        assert(st.related.deep_view() =~= Seq::<RelatedPostV>::empty());
                    }
                } else {
                    st.failed = true;
                }
            },
            None => {
                st.failed = true;
            },
        }
        return ;
    }
    if value.len() == 0 {
        return ;
    }
    if chars_eq_str(&key, "title") {
        let u = unquote(&value);
        st.title = Some(chars_to_string(&u));
    } else if chars_eq_str(&key, "slug") {
        let u = unquote(&value);
        st.slug = Some(chars_to_string(&u));
    } else if chars_eq_str(&key, "author") {
        let u = unquote(&value);
        st.author = Some(chars_to_string(&u));
    } else if chars_eq_str(&key, "description") {
        let u = unquote(&value);
        st.description = Some(chars_to_string(&u));
    } else if chars_eq_str(&key, "category") {
        let u = unquote(&value);
        st.category = Some(chars_to_string(&u));
    } else if chars_eq_str(&key, "template") {
        let u = unquote(&value);
        st.template = Some(chars_to_string(&u));
    } else if chars_eq_str(&key, "featured_image") {
        let u = unquote(&value);
        st.featured_image = Some(chars_to_string(&u));
    } else if chars_eq_str(&key, "date") {
        let u = unquote(&value);
        match parse_datetime(&u) {
            Some(d) => {
                st.date = Some(d);
            },
            None => {
                st.failed = true;
            },
        }
    } else if chars_eq_str(&key, "updated") {
        let u = unquote(&value);
        match parse_date(&u) {
            Some(d) => {
                st.updated = Some(d);
            },
            None => {
                st.failed = true;
            },
        }
    } else if chars_eq_str(&key, "tags") {
        match inline_list(&value) {
            Some(items) => {
                st.tags = items;
            },
            None => {
                st.failed = true;
            },
        }
    } else if chars_eq_str(&key, "draft") {
        if chars_eq_str(&value, "true") {
            st.draft = true;
        } else if chars_eq_str(&value, "false") {
            st.draft = false;
        } else {
            st.failed = true;
        }
    } else if chars_eq_str(&key, "toc") {
        if chars_eq_str(&value, "true") {
            st.toc = true;
        } else if chars_eq_str(&value, "false") {
            st.toc = false;
        } else {
            st.failed = true;
        }
    }
}

/// The post metadata a block of lines denotes: `title`, `slug` and `date`
/// are required, `template` defaults to `post`.
pub open spec fn spec_post_fm(lines: Seq<Seq<char>>) -> Option<FrontmatterV> {
    let st = spec_fm_fold(lines);
    if st.failed {
        None
    } else {
        match (st.title, st.slug, st.date) {
            (Some(title), Some(slug), Some(date)) => Some(
                FrontmatterV {
                    title: title,
                    slug: slug,
                    date: date,
                    updated: st.updated,
                    author: st.author,
                    description: st.description,
                    tags: st.tags,
                    category: st.category,
                    template: match st.template {
                        Some(t) => t,
                        None => "post"@,
                    },
                    draft: st.draft,
                    toc: st.toc,
                    featured_image: st.featured_image,
                    related_posts: st.related,
                },
            ),
            _ => None,
        }
    }
}

/// What loading a post document from its text yields.
pub open spec fn spec_load_post_doc(text: Seq<char>) -> Result<(FrontmatterV, Seq<char>), LoadErr> {
    match spec_split_frontmatter(text) {
        None => Err(LoadErr::Missing),
        Some((matter, body)) => match spec_post_fm(matter) {
            None => Err(LoadErr::Parse),
            Some(fm) => Ok((fm, body)),
        },
    }
}

/// Loads a post from the text of its document.
///
/// The metadata block is split off and read field by field; the rest of
/// the file is the raw body. A document without a metadata block is
/// missing a required part; one whose metadata does not parse fails with
/// a parse error.
pub fn load_post(content: &str, path: &str) -> (r: Result<Post, ContentError>)
    ensures
        match spec_load_post_doc(content@) {
            Ok(parts) => r is Ok && r->Ok_0@.frontmatter == parts.0 && r->Ok_0@.raw_content
                == parts.1 && r->Ok_0@.file_path == path@,
            Err(LoadErr::Missing) => r is Err && r->Err_0 is MissingField,
            Err(LoadErr::Parse) => r is Err && r->Err_0 is FrontmatterParse,
        },
{
    let cs = str_to_chars(content);
    let (matter, body) = match split_frontmatter(&cs) {
        Some(parts) => parts,
        None => {
            return Err(ContentError::MissingField("frontmatter".to_owned()));
        },
    };
    let ghost mdv = matter.deep_view();
    let mut st = FmBuild {
        title: None,
        slug: None,
        date: None,
        updated: None,
        author: None,
        description: None,
        tags: Vec::new(),
        category: None,
        template: None,
        draft: false,
        toc: false,
        featured_image: None,
        related: Vec::new(),
        in_related: false,
        failed: false,
    };
    proof {
        assert(st.tags.deep_view() =~= Seq::<Seq<char>>::empty());
        assert(st.related.deep_view() =~= Seq::<RelatedPostV>::empty());
        assert(st@ == spec_fm_fold(mdv.take(0)));
    }
    let m = matter.len();
    let mut i: usize = 0;
    while i < m
        invariant
            i <= m,
            m == matter@.len(),
            mdv == matter.deep_view(),
            forall|j: int| 0 <= j < mdv.len() ==> mdv[j] == matter@[j]@,
            st@ == spec_fm_fold(mdv.take(i as int)),
        decreases m - i,
    {
        proof {
            assert(mdv.take(i + 1).drop_last() =~= mdv.take(i as int));
            assert(mdv.take(i + 1).last() == mdv[i as int]);
        }
        fm_step(&mut st, &matter[i]);
        i = i + 1;
    }
    proof {
        assert(mdv.take(m as int) =~= mdv);
    }
    if st.failed {
        return Err(ContentError::FrontmatterParse("metadata".to_owned()));
    }
    let title = match st.title {
        Some(t) => t,
        None => {
            return Err(ContentError::FrontmatterParse("title".to_owned()));
        },
    };
    let pslug = match st.slug {
        Some(sl) => sl,
        None => {
            return Err(ContentError::FrontmatterParse("slug".to_owned()));
        },
    };
    let date = match st.date {
        Some(d) => d,
        None => {
            return Err(ContentError::FrontmatterParse("date".to_owned()));
        },
    };
    let template = match st.template {
        Some(t) => t,
        None => crate::models::default_template(),
    };
    let fm = Frontmatter {
        title,
        slug: pslug,
        date,
        updated: st.updated,
        author: st.author,
        description: st.description,
        tags: st.tags,
        category: st.category,
        template,
        draft: st.draft,
        toc: st.toc,
        featured_image: st.featured_image,
        related_posts: st.related,
    };
    Ok(Post { frontmatter: fm, raw_content: chars_to_string(&body), file_path: path.to_owned() })
}

/// A date the fold has accepted is a real calendar date.
#[verifier::rlimit(100)]
proof fn lemma_fm_step_date_valid(st: FmBuildV, line: Seq<char>)
    requires
        match st.date {
            Some(d) => crate::date::dt_valid(d),
            None => true,
        },
    ensures
        match spec_fm_step(st, line).date {
            Some(d) => crate::date::dt_valid(d),
            None => true,
        },
{
}

proof fn lemma_fm_fold_date_valid(lines: Seq<Seq<char>>)
    ensures
        match spec_fm_fold(lines).date {
            Some(d) => crate::date::dt_valid(d),
            None => true,
        },
    decreases lines.len(),
{
    if lines.len() > 0 {
        lemma_fm_fold_date_valid(lines.drop_last());
        lemma_fm_step_date_valid(spec_fm_fold(lines.drop_last()), lines.last());
    }
}

/// The date of a successfully loaded post is a real calendar date.
pub proof fn lemma_post_fm_date_valid(text: Seq<char>)
    ensures
        match spec_load_post_doc(text) {
            Ok(parts) => crate::date::dt_valid(parts.0.date),
            Err(_) => true,
        },
{
    match spec_split_frontmatter(text) {
        Some(parts) => {
            lemma_fm_fold_date_valid(parts.0);
        },
        None => {},
    }
}

} // verus!
