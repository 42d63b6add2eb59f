//! The data model: document metadata, posts, pages, rendered artifacts,
//! and the configuration record, together with their mathematical views.

use vstd::prelude::*;
use crate::date::DateTime;
use crate::text::str_to_chars;

verus! {

/// The view of an optional owned string.
pub open spec fn view_opt_string(o: Option<String>) -> Option<Seq<char>> {
    match o {
        Some(s) => Some(s@),
        None => None,
    }
}

/// Compares a character vector with a string.
pub fn chars_eq_str(v: &Vec<char>, s: &str) -> (r: bool)
    ensures
        r == (v@ == s@),
{
    let sc = str_to_chars(s);
    if v.len() != sc.len() {
        proof {
            assert(v@.len() != s@.len());
        }
        return false;
    }
    let n = v.len();
    let mut i: usize = 0;
    while i < n
        invariant
            i <= n,
            n == v@.len(),
            n == sc@.len(),
            sc@ == s@,
            forall|k: int| 0 <= k < i ==> v@[k] == sc@[k],
        decreases n - i,
    {
        if v[i] != sc[i] {
            return false;
        }
        i = i + 1;
    }
    proof {
        assert(v@ =~= s@);
    }
    true
}

/// Clones a string, preserving its view.
pub fn clone_string(s: &String) -> (r: String)
    ensures
        r@ == s@,
{
    s.clone()
}

/// Clones an optional string, preserving its view.
pub fn clone_opt_string(o: &Option<String>) -> (r: Option<String>)
    ensures
        view_opt_string(r) == view_opt_string(*o),
{
    match o {
        Some(s) => Some(s.clone()),
        None => None,
    }
}

/// Clones a vector of strings, preserving its deep view.
pub fn clone_strings(v: &Vec<String>) -> (r: Vec<String>)
    ensures
        r.deep_view() == v.deep_view(),
{
    let mut r: Vec<String> = Vec::new();
    let n = v.len();
    let mut i: usize = 0;
    while i < n
        invariant
            i <= n,
            n == v@.len(),
            r@.len() == i,
            forall|k: int| 0 <= k < i ==> r@[k]@ == v@[k]@,
        decreases n - i,
    {
        r.push(v[i].clone());
        i = i + 1;
    }
    proof {
        assert(r.deep_view() =~= v.deep_view());
    }
    r
}

/// How one post may relate to another: a closed set of relation kinds.
#[derive(Debug, Clone, Copy, PartialEq, Eq, Structural)]
pub enum RelationType {
    Related,
    Sequel,
    Prequel,
    Conversation,
}

impl Default for RelationType {
    /// The relation kind assumed when none is named.
    fn default() -> (r: Self)
        ensures
            r == RelationType::Related,
    {
        RelationType::Related
    }
}

impl RelationType {
    /// The fixed display label of a relation kind.
    pub fn label(&self) -> (r: &str)
        ensures
            *self == RelationType::Related ==> r@ == "Related Post"@,
            *self == RelationType::Sequel ==> r@ == "Sequel"@,
            *self == RelationType::Prequel ==> r@ == "Prequel"@,
            *self == RelationType::Conversation ==> r@ == "In Conversation"@,
    {
        match self {
            RelationType::Related => "Related Post",
            RelationType::Sequel => "Sequel",
            RelationType::Prequel => "Prequel",
            RelationType::Conversation => "In Conversation",
        }
    }
}

/// The metadata name of a relation kind, as written in a document.
pub open spec fn spec_relation_name(s: Seq<char>) -> Option<RelationType> {
    if s == "related"@ {
        Some(RelationType::Related)
    } else if s == "sequel"@ {
        Some(RelationType::Sequel)
    } else if s == "prequel"@ {
        Some(RelationType::Prequel)
    } else if s == "conversation"@ {
        Some(RelationType::Conversation)
    } else {
        None
    }
}

/// Reads a relation kind from its metadata name.
pub fn relation_from_name(v: &Vec<char>) -> (r: Option<RelationType>)
    ensures
        r == spec_relation_name(v@),
{
    if chars_eq_str(v, "related") {
        Some(RelationType::Related)
    } else if chars_eq_str(v, "sequel") {
        Some(RelationType::Sequel)
    } else if chars_eq_str(v, "prequel") {
        Some(RelationType::Prequel)
    } else if chars_eq_str(v, "conversation") {
        Some(RelationType::Conversation)
    } else {
        None
    }
}

/// A reference from one post to another, by slug.
#[derive(Debug)]
pub struct RelatedPost {
    pub slug: String,
    pub relationship: RelationType,
}

/// The view of a [`RelatedPost`].
pub ghost struct RelatedPostV {
    pub slug: Seq<char>,
    pub relationship: RelationType,
}

impl View for RelatedPost {
    type V = RelatedPostV;

    open spec fn view(&self) -> RelatedPostV {
        RelatedPostV { slug: self.slug@, relationship: self.relationship }
    }
}

impl DeepView for RelatedPost {
    type V = RelatedPostV;

    open spec fn deep_view(&self) -> RelatedPostV {
        self.view()
    }
}

impl Clone for RelatedPost {
    fn clone(&self) -> (r: Self)
        ensures
            r@ == self@,
    {
        RelatedPost { slug: self.slug.clone(), relationship: self.relationship }
    }
}

/// Clones a vector of related-post references, preserving its deep view.
pub fn clone_related(v: &Vec<RelatedPost>) -> (r: Vec<RelatedPost>)
    ensures
        r.deep_view() == v.deep_view(),
{
    let mut r: Vec<RelatedPost> = Vec::new();
    let n = v.len();
    let mut i: usize = 0;
    while i < n
        invariant
            i <= n,
            n == v@.len(),
            r@.len() == i,
            forall|k: int| 0 <= k < i ==> r@[k]@ == v@[k]@,
        decreases n - i,
    {
        let item = RelatedPost { slug: v[i].slug.clone(), relationship: v[i].relationship };
        r.push(item);
        i = i + 1;
    }
    proof {
        assert(r.deep_view() =~= v.deep_view());
    }
    r
}

/// The metadata of a post.
#[derive(Debug)]
pub struct Frontmatter {
    pub title: String,
    pub slug: String,
    pub date: DateTime,
    pub updated: Option<DateTime>,
    pub author: Option<String>,
    pub description: Option<String>,
    pub tags: Vec<String>,
    pub category: Option<String>,
    pub template: String,
    pub draft: bool,
    pub toc: bool,
    pub featured_image: Option<String>,
    pub related_posts: Vec<RelatedPost>,
}

/// The view of a [`Frontmatter`].
pub ghost struct FrontmatterV {
    pub title: Seq<char>,
    pub slug: Seq<char>,
    pub date: DateTime,
    pub updated: Option<DateTime>,
    pub author: Option<Seq<char>>,
    pub description: Option<Seq<char>>,
    pub tags: Seq<Seq<char>>,
    pub category: Option<Seq<char>>,
    pub template: Seq<char>,
    pub draft: bool,
    pub toc: bool,
    pub featured_image: Option<Seq<char>>,
    pub related_posts: Seq<RelatedPostV>,
}

impl View for Frontmatter {
    type V = FrontmatterV;

    open spec fn view(&self) -> FrontmatterV {
        FrontmatterV {
            title: self.title@,
            slug: self.slug@,
            date: self.date,
            updated: self.updated,
            author: view_opt_string(self.author),
            description: view_opt_string(self.description),
            tags: self.tags.deep_view(),
            category: view_opt_string(self.category),
            template: self.template@,
            draft: self.draft,
            toc: self.toc,
            featured_image: view_opt_string(self.featured_image),
            related_posts: self.related_posts.deep_view(),
        }
    }
}

impl DeepView for Frontmatter {
    type V = FrontmatterV;

    open spec fn deep_view(&self) -> FrontmatterV {
        self.view()
    }
}

impl Clone for Frontmatter {
    fn clone(&self) -> (r: Self)
        ensures
            r@ == self@,
    {
        Frontmatter {
            title: self.title.clone(),
            slug: self.slug.clone(),
            date: self.date,
            updated: self.updated,
            author: clone_opt_string(&self.author),
            description: clone_opt_string(&self.description),
            tags: clone_strings(&self.tags),
            category: clone_opt_string(&self.category),
            template: self.template.clone(),
            draft: self.draft,
            toc: self.toc,
            featured_image: clone_opt_string(&self.featured_image),
            related_posts: clone_related(&self.related_posts),
        }
    }
}

/// A loaded post: metadata, raw body, and the path it came from.
/// Built once at load time and never changed.
#[derive(Debug)]
pub struct Post {
    pub frontmatter: Frontmatter,
    pub raw_content: String,
    pub file_path: String,
}

/// The view of a [`Post`].
pub ghost struct PostV {
    pub frontmatter: FrontmatterV,
    pub raw_content: Seq<char>,
    pub file_path: Seq<char>,
}

impl View for Post {
    type V = PostV;

    open spec fn view(&self) -> PostV {
        PostV {
            frontmatter: self.frontmatter@,
            raw_content: self.raw_content@,
            file_path: self.file_path@,
        }
    }
}

impl DeepView for Post {
    type V = PostV;

    open spec fn deep_view(&self) -> PostV {
        self.view()
    }
}

impl Clone for Post {
    fn clone(&self) -> (r: Self)
        ensures
            r@ == self@,
    {
        Post {
            frontmatter: self.frontmatter.clone(),
            raw_content: self.raw_content.clone(),
            file_path: self.file_path.clone(),
        }
    }
}

impl Post {
    /// The post's title.
    pub fn title(&self) -> (r: &str)
        ensures
            r@ == self.frontmatter.title@,
    {
        self.frontmatter.title.as_str()
    }

    /// The post's slug.
    pub fn slug(&self) -> (r: &str)
        ensures
            r@ == self.frontmatter.slug@,
    {
        self.frontmatter.slug.as_str()
    }

    /// The post's date.
    pub fn date(&self) -> (r: DateTime)
        ensures
            r == self.frontmatter.date,
    {
        self.frontmatter.date
    }

    /// Whether the post is a draft.
    pub fn is_draft(&self) -> (r: bool)
        ensures
            r == self.frontmatter.draft,
    {
        self.frontmatter.draft
    }

    /// The post's author, if named.
    pub fn author(&self) -> (r: Option<&str>)
        ensures
            (r is Some) == (self.frontmatter.author is Some),
            r is Some ==> r->0@ == self.frontmatter.author->0@,
    {
        match &self.frontmatter.author {
            Some(a) => Some(a.as_str()),
            None => None,
        }
    }

    /// The explicitly declared related-post references.
    pub fn related_posts(&self) -> (r: &Vec<RelatedPost>)
        ensures
            r == &self.frontmatter.related_posts,
    {
        &self.frontmatter.related_posts
    }
}

/// The metadata of a static page.
#[derive(Debug)]
pub struct PageFrontmatter {
    pub title: String,
    pub slug: String,
    pub template: String,
}

/// The view of a [`PageFrontmatter`].
pub ghost struct PageFrontmatterV {
    pub title: Seq<char>,
    pub slug: Seq<char>,
    pub template: Seq<char>,
}

impl View for PageFrontmatter {
    type V = PageFrontmatterV;

    open spec fn view(&self) -> PageFrontmatterV {
        PageFrontmatterV { title: self.title@, slug: self.slug@, template: self.template@ }
    }
}

impl DeepView for PageFrontmatter {
    type V = PageFrontmatterV;

    open spec fn deep_view(&self) -> PageFrontmatterV {
        self.view()
    }
}

impl Clone for PageFrontmatter {
    fn clone(&self) -> (r: Self)
        ensures
            r@ == self@,
    {
        PageFrontmatter {
            title: self.title.clone(),
            slug: self.slug.clone(),
            template: self.template.clone(),
        }
    }
}

/// A loaded static page.
#[derive(Debug)]
pub struct Page {
    pub title: String,
    pub slug: String,
    pub template: String,
    pub raw_content: String,
    pub file_path: String,
}

/// The view of a [`Page`].
pub ghost struct PageV {
    pub title: Seq<char>,
    pub slug: Seq<char>,
    pub template: Seq<char>,
    pub raw_content: Seq<char>,
    pub file_path: Seq<char>,
}

impl View for Page {
    type V = PageV;

    open spec fn view(&self) -> PageV {
        PageV {
            title: self.title@,
            slug: self.slug@,
            template: self.template@,
            raw_content: self.raw_content@,
            file_path: self.file_path@,
        }
    }
}

impl DeepView for Page {
    type V = PageV;

    open spec fn deep_view(&self) -> PageV {
        self.view()
    }
}

impl Clone for Page {
    fn clone(&self) -> (r: Self)
        ensures
            r@ == self@,
    {
        Page {
            title: self.title.clone(),
            slug: self.slug.clone(),
            template: self.template.clone(),
            raw_content: self.raw_content.clone(),
            file_path: self.file_path.clone(),
        }
    }
}

/// Rendered markdown with its optional table-of-contents HTML.
#[derive(Debug)]
pub struct RenderedContent {
    pub html: String,
    pub toc: Option<String>,
}

/// The view of a [`RenderedContent`].
pub ghost struct RenderedContentV {
    pub html: Seq<char>,
    pub toc: Option<Seq<char>>,
}

impl View for RenderedContent {
    type V = RenderedContentV;

    open spec fn view(&self) -> RenderedContentV {
        RenderedContentV { html: self.html@, toc: view_opt_string(self.toc) }
    }
}

impl DeepView for RenderedContent {
    type V = RenderedContentV;

    open spec fn deep_view(&self) -> RenderedContentV {
        self.view()
    }
}

impl Clone for RenderedContent {
    fn clone(&self) -> (r: Self)
        ensures
            r@ == self@,
    {
        RenderedContent { html: self.html.clone(), toc: clone_opt_string(&self.toc) }
    }
}

/// One entry of a table of contents.
#[derive(Debug)]
pub struct TocEntry {
    pub level: u8,
    pub text: String,
    pub id: String,
}

/// The view of a [`TocEntry`].
pub ghost struct TocEntryV {
    pub level: u8,
    pub text: Seq<char>,
    pub id: Seq<char>,
}

impl View for TocEntry {
    type V = TocEntryV;

    open spec fn view(&self) -> TocEntryV {
        TocEntryV { level: self.level, text: self.text@, id: self.id@ }
    }
}

impl DeepView for TocEntry {
    type V = TocEntryV;

    open spec fn deep_view(&self) -> TocEntryV {
        self.view()
    }
}

impl Clone for TocEntry {
    fn clone(&self) -> (r: Self)
        ensures
            r@ == self@,
    {
        TocEntry { level: self.level, text: self.text.clone(), id: self.id.clone() }
    }
}

/// A source document handed to the loader: where it came from and what it
/// holds.
#[derive(Debug)]
pub struct SourceFile {
    pub path: String,
    pub text: String,
}

/// The view of a [`SourceFile`].
pub ghost struct SourceFileV {
    pub path: Seq<char>,
    pub text: Seq<char>,
}

impl View for SourceFile {
    type V = SourceFileV;

    open spec fn view(&self) -> SourceFileV {
        SourceFileV { path: self.path@, text: self.text@ }
    }
}

impl DeepView for SourceFile {
    type V = SourceFileV;

    open spec fn deep_view(&self) -> SourceFileV {
        self.view()
    }
}

impl Clone for SourceFile {
    fn clone(&self) -> (r: Self)
        ensures
            r@ == self@,
    {
        SourceFile { path: self.path.clone(), text: self.text.clone() }
    }
}

/// Server configuration. Paths are plain strings here; the surrounding
/// application interprets them against its filesystem.
#[derive(Debug)]
pub struct Config {
    pub host: String,
    pub port: u16,
    pub content_path: String,
    pub templates_path: String,
    pub static_path: String,
    pub posts_per_page: usize,
    pub enable_drafts: bool,
}

impl Clone for Config {
    fn clone(&self) -> (r: Self)
        ensures
            r.host@ == self.host@,
            r.port == self.port,
            r.content_path@ == self.content_path@,
            r.templates_path@ == self.templates_path@,
            r.static_path@ == self.static_path@,
            r.posts_per_page == self.posts_per_page,
            r.enable_drafts == self.enable_drafts,
    {
        Config {
            host: self.host.clone(),
            port: self.port,
            content_path: self.content_path.clone(),
            templates_path: self.templates_path.clone(),
            static_path: self.static_path.clone(),
            posts_per_page: self.posts_per_page,
            enable_drafts: self.enable_drafts,
        }
    }
}

impl Default for Config {
    /// The built-in defaults, used when the environment sets nothing.
    fn default() -> (r: Self)
        ensures
            r.host@ == "127.0.0.1"@,
            r.port == 3311,
            r.content_path@ == "./content"@,
            r.templates_path@ == "./templates"@,
            r.static_path@ == "./static"@,
            r.posts_per_page == 10,
            r.enable_drafts == false,
    {
        Config {
            host: "127.0.0.1".to_owned(),
            port: 3311,
            content_path: "./content".to_owned(),
            templates_path: "./templates".to_owned(),
            static_path: "./static".to_owned(),
            posts_per_page: 10,
            enable_drafts: false,
        }
    }
}

/// The query parameters a post-listing request may carry.
#[derive(Debug)]
pub struct ListQuery {
    pub page: Option<usize>,
    pub author: Option<String>,
    pub category: Option<String>,
}

/// The fixed set of post categories: each slug with its display name.
pub fn categories() -> (r: Vec<(String, String)>)
    ensures
        r@.len() == 6,
        r@[0].0@ == "engineering"@ && r@[0].1@ == "Engineering"@,
        r@[1].0@ == "programming"@ && r@[1].1@ == "Programming"@,
        r@[2].0@ == "devops"@ && r@[2].1@ == "DevOps"@,
        r@[3].0@ == "web-development"@ && r@[3].1@ == "Web Development"@,
        r@[4].0@ == "reflections"@ && r@[4].1@ == "Reflections"@,
        r@[5].0@ == "reference"@ && r@[5].1@ == "Reference"@,
{
    let mut r: Vec<(String, String)> = Vec::new();
    r.push(("engineering".to_owned(), "Engineering".to_owned()));
    r.push(("programming".to_owned(), "Programming".to_owned()));
    r.push(("devops".to_owned(), "DevOps".to_owned()));
    r.push(("web-development".to_owned(), "Web Development".to_owned()));
    r.push(("reflections".to_owned(), "Reflections".to_owned()));
    r.push(("reference".to_owned(), "Reference".to_owned()));
    r
}

/// The display name of a category slug; an unknown slug displays as
/// itself.
pub open spec fn spec_category_display_name(s: Seq<char>) -> Seq<char> {
    if s == "engineering"@ {
        "Engineering"@
    } else if s == "programming"@ {
        "Programming"@
    } else if s == "devops"@ {
        "DevOps"@
    } else if s == "web-development"@ {
        "Web Development"@
    } else if s == "reflections"@ {
        "Reflections"@
    } else if s == "reference"@ {
        "Reference"@
    } else {
        s
    }
}

/// Looks up the display name of a category slug.
pub fn category_display_name<'a>(slug: &'a str) -> (r: &'a str)
    ensures
        r@ == spec_category_display_name(slug@),
{
    let cs = str_to_chars(slug);
    if chars_eq_str(&cs, "engineering") {
        "Engineering"
    } else if chars_eq_str(&cs, "programming") {
        "Programming"
    } else if chars_eq_str(&cs, "devops") {
        "DevOps"
    } else if chars_eq_str(&cs, "web-development") {
        "Web Development"
    } else if chars_eq_str(&cs, "reflections") {
        "Reflections"
    } else if chars_eq_str(&cs, "reference") {
        "Reference"
    } else {
        slug
    }
}

/// The template used by posts that name none.
pub fn default_template() -> (r: String)
    ensures
        r@ == "post"@,
{
    "post".to_owned()
}

/// The template used by pages that name none.
pub fn default_page_template() -> (r: String)
    ensures
        r@ == "page"@,
{
    "page".to_owned()
}

} // verus!
