//! Markdown rendering and table-of-contents extraction.
//!
//! The raw body is parsed once into an event stream. One verified pass
//! rewrites the stream: code blocks are captured and replaced by
//! highlighted HTML, heading ids are suppressed on the tag and re-emitted
//! as anchor elements before the heading closes, everything else passes
//! through unchanged. An independent pass over the same stream collects
//! the headings into a table of contents whose anchor ids come from
//! [`crate::slug::spec_slugify`].

use vstd::prelude::*;
use vstd::string::StringExecFns;
use pulldown_cmark::{CodeBlockKind as K, CowStr, Event as E, Options, Parser, Tag as T, TagEnd as TE};
use crate::highlight::{highlight_code, spec_highlight};
use crate::models::{Post, RenderedContent, TocEntry, TocEntryV};
use crate::slug::{slugify, spec_slugify};
use crate::text::{chars_to_string, escape_html, spec_escape_html, str_to_chars};

verus! {

#[verifier::external_type_specification]
#[verifier::external_body]
pub struct ExHeadingLevel(pulldown_cmark::HeadingLevel);

#[verifier::external_type_specification]
#[verifier::external_body]
pub struct ExEvent<'a>(E<'a>);

/// One event of the parsed markdown stream, reduced to what the passes
/// here distinguish; everything else is `Other` and passes through by
/// position.
#[derive(Debug)]
pub enum ParsedEvent {
    HeadingStart { level: u8, id: Option<String> },
    HeadingEnd { level: u8 },
    CodeStart { lang: String },
    CodeEnd,
    Text { text: String },
    InlineCode { text: String },
    Other,
}

/// The view of a [`ParsedEvent`].
pub ghost enum ParsedEventV {
    HeadingStart { level: u8, id: Option<Seq<char>> },
    HeadingEnd { level: u8 },
    CodeStart { lang: Seq<char> },
    CodeEnd,
    Text { text: Seq<char> },
    InlineCode { text: Seq<char> },
    Other,
}

impl View for ParsedEvent {
    type V = ParsedEventV;

    open spec fn view(&self) -> ParsedEventV {
        match self {
            ParsedEvent::HeadingStart { level, id } => ParsedEventV::HeadingStart {
                level: *level,
                id: crate::models::view_opt_string(*id),
            },
            ParsedEvent::HeadingEnd { level } => ParsedEventV::HeadingEnd { level: *level },
            ParsedEvent::CodeStart { lang } => ParsedEventV::CodeStart { lang: lang@ },
            ParsedEvent::CodeEnd => ParsedEventV::CodeEnd,
            ParsedEvent::Text { text } => ParsedEventV::Text { text: text@ },
            ParsedEvent::InlineCode { text } => ParsedEventV::InlineCode { text: text@ },
            ParsedEvent::Other => ParsedEventV::Other,
        }
    }
}

impl DeepView for ParsedEvent {
    type V = ParsedEventV;

    open spec fn deep_view(&self) -> ParsedEventV {
        self.view()
    }
}

/// A well-formed stream: heading levels lie in `1..=6`.
pub open spec fn wf_events(evs: Seq<ParsedEventV>) -> bool {
    forall|k: int|
        0 <= k < evs.len() ==> match #[trigger] evs[k] {
            ParsedEventV::HeadingStart { level, .. } => 1 <= level <= 6,
            ParsedEventV::HeadingEnd { level } => 1 <= level <= 6,
            _ => true,
        }
}

/// The event stream of a markdown text: what the parser yields, in
/// order, one entry per event.
pub uninterp spec fn md_events(s: Seq<char>) -> Seq<ParsedEventV>;

/// Relies on pulldown_cmark's `Parser::new_ext` with all extensions
/// enabled: the event stream is a function of the input text alone, and
/// heading levels are one of the six HTML levels. Each event is reduced
/// to the shape the passes here need; the fields moved over are the
/// heading level and id, the fence's language token, and literal text.
#[verifier::external_body]
fn parse_markdown(md: &str) -> (r: Vec<ParsedEvent>)
    ensures
        r.deep_view() == md_events(md@),
        wf_events(r.deep_view()),
{
    Parser::new_ext(md, Options::all()).map(convert_event).collect()
}

/// Relies on pulldown_cmark's event type: one arm per event kind the
/// passes here distinguish, moving over the heading level and id, the
/// fence's language token, and literal text.
#[verifier::external_body]
fn convert_event(ev: E<'_>) -> ParsedEvent {
    match ev {
        E::Start(T::Heading { level, id, .. }) => ParsedEvent::HeadingStart { level: level as u8, id: id.map(|s| s.to_string()) },
        E::End(TE::Heading(level)) => ParsedEvent::HeadingEnd { level: level as u8 },
        E::Start(T::CodeBlock(K::Fenced(lang))) => ParsedEvent::CodeStart { lang: lang.to_string() },
        E::Start(T::CodeBlock(K::Indented)) => ParsedEvent::CodeStart { lang: String::new() },
        E::End(TE::CodeBlock) => ParsedEvent::CodeEnd,
        E::Text(t) => ParsedEvent::Text { text: t.to_string() },
        E::Code(c) => ParsedEvent::InlineCode { text: c.to_string() },
        _ => ParsedEvent::Other,
    }
}

// ------------------------------------------------------------------
// Table of contents
// ------------------------------------------------------------------

/// The anchor id of a heading, shared by the TOC pass and the rewrite
/// pass so that in-page TOC links always resolve: the parser-supplied
/// explicit id when the heading carries a nonempty one, else the slug of
/// the heading's collected text.
pub open spec fn heading_anchor_id(id: Option<Seq<char>>, text: Seq<char>) -> Seq<char> {
    match id {
        Some(s) => if s.len() > 0 {
            s
        } else {
            spec_slugify(text)
        },
        None => spec_slugify(text),
    }
}

/// Computes a heading's anchor id.
fn anchor_id_of(id: &Option<String>, text: &Vec<char>) -> (r: String)
    ensures
        r@ == heading_anchor_id(crate::models::view_opt_string(*id), text@),
{
    match id {
        Some(s) => {
            if !s.as_str().is_empty() {
                crate::models::clone_string(s)
            } else {
                let t = chars_to_string(text);
                slugify(t.as_str())
            }
        },
        None => {
            let t = chars_to_string(text);
            slugify(t.as_str())
        },
    }
}

/// The TOC pass state: the heading being collected, if any, and the
/// entries finished so far.
pub struct TocState {
    pub open_heading: bool,
    pub level: u8,
    pub text: Vec<char>,
    pub explicit_id: Option<String>,
    pub entries: Vec<TocEntry>,
}

/// The view of a [`TocState`].
pub ghost struct TocStateV {
    pub open_heading: bool,
    pub level: u8,
    pub text: Seq<char>,
    pub explicit_id: Option<Seq<char>>,
    pub entries: Seq<TocEntryV>,
}

impl View for TocState {
    type V = TocStateV;

    open spec fn view(&self) -> TocStateV {
        TocStateV {
            open_heading: self.open_heading,
            level: self.level,
            text: self.text@,
            explicit_id: crate::models::view_opt_string(self.explicit_id),
            entries: self.entries.deep_view(),
        }
    }
}

/// The empty TOC state.
pub open spec fn toc_init() -> TocStateV {
    TocStateV {
        open_heading: false,
        level: 0,
        text: Seq::empty(),
        explicit_id: None,
        entries: Seq::empty(),
    }
}

/// How one event changes the TOC state: a heading start opens an entry
/// and records any explicit id, literal text and inline code accumulate
/// into it, the heading end finishes it with its anchor id — the one
/// [`heading_anchor_id`] also gives the rewrite pass.
pub open spec fn spec_toc_step(st: TocStateV, ev: ParsedEventV) -> TocStateV {
    match ev {
        ParsedEventV::HeadingStart { level, id } => TocStateV {
            open_heading: true,
            level: level,
            text: Seq::empty(),
            explicit_id: id,
            ..st
        },
        ParsedEventV::Text { text } => if st.open_heading {
            TocStateV { text: st.text + text, ..st }
        } else {
            st
        },
        ParsedEventV::InlineCode { text } => if st.open_heading {
            TocStateV { text: st.text + text, ..st }
        } else {
            st
        },
        ParsedEventV::HeadingEnd { .. } => if st.open_heading {
            TocStateV {
                open_heading: false,
                text: Seq::empty(),
                explicit_id: None,
                entries: st.entries.push(
                    TocEntryV {
                        level: st.level,
                        text: st.text,
                        id: heading_anchor_id(st.explicit_id, st.text),
                    },
                ),
                ..st
            }
        } else {
            st
        },
        _ => st,
    }
}

/// The TOC state after a prefix of the event stream.
pub open spec fn spec_toc_fold(evs: Seq<ParsedEventV>, i: int) -> TocStateV
    decreases i,
{
    if i <= 0 {
        toc_init()
    } else {
        spec_toc_step(spec_toc_fold(evs, i - 1), evs[i - 1])
    }
}

/// The table of contents of an event stream.
pub open spec fn spec_toc(evs: Seq<ParsedEventV>) -> Seq<TocEntryV> {
    spec_toc_fold(evs, evs.len() as int).entries
}

/// On a well-formed stream every entry's level lies in `1..=6`.
pub proof fn lemma_toc_entries_wf(evs: Seq<ParsedEventV>, i: int)
    requires
        0 <= i <= evs.len(),
    ensures
        wf_events(evs) ==> forall|k: int|
            0 <= k < spec_toc_fold(evs, i).entries.len() ==> 1 <= (#[trigger] spec_toc_fold(
                evs,
                i,
            ).entries[k]).level <= 6,
        wf_events(evs) && spec_toc_fold(evs, i).open_heading ==> 1 <= spec_toc_fold(evs, i).level
            <= 6,
    decreases i,
{
    if i > 0 {
        lemma_toc_entries_wf(evs, i - 1);
        let pre = spec_toc_fold(evs, i - 1);
        let post = spec_toc_fold(evs, i);
        assert(post == spec_toc_step(pre, evs[i - 1]));
        if wf_events(evs) {
            assert forall|k: int| 0 <= k < post.entries.len() implies 1 <= (
            #[trigger] post.entries[k]).level <= 6 by {
                if k < pre.entries.len() {
                    assert(post.entries[k] == pre.entries[k]);
                }
            }
        }
    }
}

/// Applies one event to the TOC state.
fn toc_step(st: &mut TocState, ev: &ParsedEvent)
    ensures
        final(st)@ == spec_toc_step(old(st)@, ev@),
{
    match ev {
        ParsedEvent::HeadingStart { level, id } => {
            st.open_heading = true;
            st.level = *level;
            st.text = Vec::new();
            st.explicit_id = crate::models::clone_opt_string(id);
            proof {
                assert(st.text@ =~= Seq::<char>::empty());
            }
        },
        ParsedEvent::Text { text } => {
            if st.open_heading {
                let tc = str_to_chars(text.as_str());
                crate::markdown::append_vec(&mut st.text, &tc);
            }
        },
        ParsedEvent::InlineCode { text } => {
            if st.open_heading {
                let tc = str_to_chars(text.as_str());
                crate::markdown::append_vec(&mut st.text, &tc);
            }
        },
        ParsedEvent::HeadingEnd { .. } => {
            if st.open_heading {
                st.open_heading = false;
                let id = anchor_id_of(&st.explicit_id, &st.text);
                let text_str = chars_to_string(&st.text);
                let entry = TocEntry { level: st.level, text: text_str, id };
                let ghost pre = st.entries.deep_view();
                st.entries.push(entry);
                st.text = Vec::new();
                st.explicit_id = None;
                proof {
                    assert(st.text@ =~= Seq::<char>::empty());
                    assert(st.entries.deep_view() =~= pre.push(
                        TocEntryV {
                            level: st.level,
                            text: old(st)@.text,
                            id: heading_anchor_id(old(st)@.explicit_id, old(st)@.text),
                        },
                    ));
                }
            }
        },
        _ => {},
    }
}

/// Appends the characters of `src` to `dst`.
pub fn append_vec(dst: &mut Vec<char>, src: &Vec<char>)
    ensures
        final(dst)@ == old(dst)@ + src@,
{
    let n = src.len();
    let mut i: usize = 0;
    while i < n
        invariant
            i <= n,
            n == src@.len(),
            dst@ == old(dst)@ + src@.take(i as int),
        decreases n - i,
    {
        let c = src[i];
        dst.push(c);
        i = i + 1;
        assert(dst@ =~= old(dst)@ + src@.take(i as int));
    }
    proof {
        assert(src@.take(n as int) =~= src@);
    }
}

/// Extracts the table of contents of a markdown text: one entry per
/// heading, in order, its text the heading's literal content and its id
/// the heading's anchor id — the explicit one if the heading carries
/// one, else the slug of its text.
pub fn extract_toc(markdown: &str) -> (r: Vec<TocEntry>)
    ensures
        r.deep_view() == spec_toc(md_events(markdown@)),
        forall|k: int| 0 <= k < r.deep_view().len() ==> 1 <= (#[trigger] r.deep_view()[k]).level
            <= 6,
{
    let evs = parse_markdown(markdown);
    let ghost edv = evs.deep_view();
    let mut st = TocState {
        open_heading: false,
        level: 0,
        text: Vec::new(),
        explicit_id: None,
        entries: Vec::new(),
    };
    proof {
        assert(st.text@ =~= Seq::<char>::empty());
        assert(st.entries.deep_view() =~= Seq::<TocEntryV>::empty());
        assert(st@ == spec_toc_fold(edv, 0));
    }
    let n = evs.len();
    let mut i: usize = 0;
    while i < n
        invariant
            i <= n,
            n == evs@.len(),
            edv == evs.deep_view(),
            forall|j: int| 0 <= j < edv.len() ==> edv[j] == evs@[j]@,
            st@ == spec_toc_fold(edv, i as int),
        decreases n - i,
    {
        toc_step(&mut st, &evs[i]);
        i = i + 1;
    }
    proof {
        lemma_toc_entries_wf(edv, n as int);
        let fin = spec_toc_fold(edv, n as int).entries;
        assert(st.entries.deep_view() == fin);
        assert forall|k: int| 0 <= k < st.entries.deep_view().len() implies 1 <= (
        #[trigger] st.entries.deep_view()[k]).level <= 6 by {
            assert(st.entries.deep_view()[k] == fin[k]);
        }
    }
    st.entries
}

// ------------------------------------------------------------------
// Rendering the table of contents
// ------------------------------------------------------------------

/// One list item of the rendered TOC; only levels 2 and 3 are rendered,
/// level 3 indented by a distinct class but in the same flat list.
pub open spec fn spec_toc_item(e: TocEntryV) -> Seq<char> {
    (if e.level == 3 {
        "  <li class=\"toc-item toc-level-3\"><a href=\"#"@
    } else {
        "<li class=\"toc-item toc-level-2\"><a href=\"#"@
    }) + e.id + "\">"@ + spec_escape_html(e.text) + "</a></li>\n"@
}

/// The rendered items of the entries at levels 2 and 3, in order.
pub open spec fn spec_toc_items(entries: Seq<TocEntryV>) -> Seq<char>
    decreases entries.len(),
{
    if entries.len() == 0 {
        Seq::empty()
    } else {
        let rest = spec_toc_items(entries.drop_last());
        if 2 <= entries.last().level <= 3 {
            rest + spec_toc_item(entries.last())
        } else {
            rest
        }
    }
}

/// The rendered TOC: an empty entry list renders as nothing at all;
/// otherwise a flat navigation list holding exactly the entries at
/// levels 2 and 3.
pub open spec fn spec_render_toc(entries: Seq<TocEntryV>) -> Seq<char> {
    if entries.len() == 0 {
        Seq::empty()
    } else {
        "<nav class=\"toc\" aria-label=\"Table of contents\">\n<h2 class=\"toc-title\">Contents</h2>\n<ul class=\"toc-list\">\n"@
            + spec_toc_items(entries) + "</ul>\n</nav>\n"@
    }
}

/// Renders a table of contents to HTML.
pub fn render_toc(entries: &Vec<TocEntry>) -> (r: String)
    ensures
        r@ == spec_render_toc(entries.deep_view()),
{
    let ghost dv = entries.deep_view();
    if entries.len() == 0 {
        let r = String::new();
        proof {
            assert(r@ =~= spec_render_toc(dv));
        }
        return r;
    }
    let mut out = String::new();
    out.append(
        "<nav class=\"toc\" aria-label=\"Table of contents\">\n<h2 class=\"toc-title\">Contents</h2>\n<ul class=\"toc-list\">\n",
    );
    let ghost header = out@;
    let n = entries.len();
    let mut i: usize = 0;
    while i < n
        invariant
            i <= n,
            n == entries@.len(),
            dv == entries.deep_view(),
            forall|j: int| 0 <= j < dv.len() ==> dv[j] == entries@[j]@,
            out@ == header + spec_toc_items(dv.take(i as int)),
            header
                == "<nav class=\"toc\" aria-label=\"Table of contents\">\n<h2 class=\"toc-title\">Contents</h2>\n<ul class=\"toc-list\">\n"@,
        decreases n - i,
    {
        proof {
            assert(dv.take(i + 1).drop_last() =~= dv.take(i as int));
            assert(dv.take(i + 1).last() == dv[i as int]);
        }
        let e = &entries[i];
        if 2 <= e.level && e.level <= 3 {
            if e.level == 3 {
                out.append("  <li class=\"toc-item toc-level-3\"><a href=\"#");
            } else {
                out.append("<li class=\"toc-item toc-level-2\"><a href=\"#");
            }
            out.append(e.id.as_str());
            out.append("\">");
            let escaped = escape_html(e.text.as_str());
            out.append(escaped.as_str());
            out.append("</a></li>\n");
            proof {
                assert(out@ =~= header + spec_toc_items(dv.take(i + 1)));
            }
        } else {
            proof {
                assert(out@ =~= header + spec_toc_items(dv.take(i + 1)));
            }
        }
        i = i + 1;
    }
    out.append("</ul>\n</nav>\n");
    proof {
        assert(dv.take(n as int) =~= dv);
        assert(out@ =~= spec_render_toc(dv));
    }
    out
}

// ------------------------------------------------------------------
// The rewriting pass
// ------------------------------------------------------------------

/// One event of the rewritten stream. `Orig` points back at the parsed
/// event that passes through unchanged; `Code` is a captured code block
/// not yet highlighted; `Html` is raw HTML injected by the pass.
#[derive(Debug)]
pub enum OutEvent {
    Orig { idx: usize },
    Html { html: String },
    Code { lang: String, text: String },
    HeadingStart { level: u8 },
    HeadingEnd { level: u8 },
}

/// The view of an [`OutEvent`].
pub ghost enum OutEventV {
    Orig { idx: usize },
    Html { html: Seq<char> },
    Code { lang: Seq<char>, text: Seq<char> },
    HeadingStart { level: u8 },
    HeadingEnd { level: u8 },
}

impl View for OutEvent {
    type V = OutEventV;

    open spec fn view(&self) -> OutEventV {
        match self {
            OutEvent::Orig { idx } => OutEventV::Orig { idx: *idx },
            OutEvent::Html { html } => OutEventV::Html { html: html@ },
            OutEvent::Code { lang, text } => OutEventV::Code { lang: lang@, text: text@ },
            OutEvent::HeadingStart { level } => OutEventV::HeadingStart { level: *level },
            OutEvent::HeadingEnd { level } => OutEventV::HeadingEnd { level: *level },
        }
    }
}

impl DeepView for OutEvent {
    type V = OutEventV;

    open spec fn deep_view(&self) -> OutEventV {
        self.view()
    }
}

/// The anchor element injected before a heading's closing tag.
pub open spec fn spec_anchor(id: Seq<char>) -> Seq<char> {
    "<a id=\""@ + id + "\"></a>"@
}

/// The rewriting state.
pub struct RwState {
    pub in_code: bool,
    pub lang: Vec<char>,
    pub buffer: Vec<char>,
    pub in_heading: bool,
    pub heading_text: Vec<char>,
    pub explicit_id: Option<String>,
    pub out: Vec<OutEvent>,
}

/// The view of an [`RwState`].
pub ghost struct RwStateV {
    pub in_code: bool,
    pub lang: Seq<char>,
    pub buffer: Seq<char>,
    pub in_heading: bool,
    pub heading_text: Seq<char>,
    pub explicit_id: Option<Seq<char>>,
    pub out: Seq<OutEventV>,
}

impl View for RwState {
    type V = RwStateV;

    open spec fn view(&self) -> RwStateV {
        RwStateV {
            in_code: self.in_code,
            lang: self.lang@,
            buffer: self.buffer@,
            in_heading: self.in_heading,
            heading_text: self.heading_text@,
            explicit_id: crate::models::view_opt_string(self.explicit_id),
            out: self.out.deep_view(),
        }
    }
}

/// The empty rewriting state.
pub open spec fn rw_init() -> RwStateV {
    RwStateV {
        in_code: false,
        lang: Seq::empty(),
        buffer: Seq::empty(),
        in_heading: false,
        heading_text: Seq::empty(),
        explicit_id: None,
        out: Seq::empty(),
    }
}

/// How one event at position `i` changes the rewriting state.
///
/// A code-block start captures the fence's language and begins
/// buffering; literal text inside the block accumulates instead of being
/// emitted; the block's end emits one captured `Code` event in place of
/// the whole block. A heading start suppresses any explicit id on the
/// tag and begins collecting the heading's text; the heading end emits
/// an anchor just before the closing tag, carrying the same id the TOC
/// pass gives this heading ([`heading_anchor_id`]) — omitted only when
/// that id is empty. Everything else passes through by position.
pub open spec fn spec_rw_step(st: RwStateV, ev: ParsedEventV, i: int) -> RwStateV {
    match ev {
        ParsedEventV::CodeStart { lang } => RwStateV {
            in_code: true,
            lang: lang,
            buffer: Seq::empty(),
            ..st
        },
        ParsedEventV::CodeEnd => RwStateV {
            in_code: false,
            out: st.out.push(OutEventV::Code { lang: st.lang, text: st.buffer }),
            ..st
        },
        ParsedEventV::Text { text } => {
            let collected = if st.in_heading {
                st.heading_text + text
            } else {
                st.heading_text
            };
            if st.in_code {
                RwStateV { heading_text: collected, buffer: st.buffer + text, ..st }
            } else {
                RwStateV {
                    heading_text: collected,
                    out: st.out.push(OutEventV::Orig { idx: i as usize }),
                    ..st
                }
            }
        },
        ParsedEventV::InlineCode { text } => {
            let collected = if st.in_heading {
                st.heading_text + text
            } else {
                st.heading_text
            };
            RwStateV {
                heading_text: collected,
                out: st.out.push(OutEventV::Orig { idx: i as usize }),
                ..st
            }
        },
        ParsedEventV::HeadingStart { level, id } => RwStateV {
            in_heading: true,
            heading_text: Seq::empty(),
            explicit_id: id,
            out: st.out.push(OutEventV::HeadingStart { level: level }),
            ..st
        },
        ParsedEventV::HeadingEnd { level } => {
            let aid = heading_anchor_id(st.explicit_id, st.heading_text);
            let closed = RwStateV {
                in_heading: false,
                heading_text: Seq::empty(),
                explicit_id: None,
                ..st
            };
            if aid.len() == 0 {
                RwStateV { out: st.out.push(OutEventV::HeadingEnd { level: level }), ..closed }
            } else {
                RwStateV {
                    out: st.out.push(OutEventV::Html { html: spec_anchor(aid) }).push(
                        OutEventV::HeadingEnd { level: level },
                    ),
                    ..closed
                }
            }
        },
        _ => RwStateV { out: st.out.push(OutEventV::Orig { idx: i as usize }), ..st },
    }
}

/// The rewriting state after the first `i` events.
pub open spec fn spec_rw_fold(evs: Seq<ParsedEventV>, i: int) -> RwStateV
    decreases i,
{
    if i <= 0 {
        rw_init()
    } else {
        spec_rw_step(spec_rw_fold(evs, i - 1), evs[i - 1], i - 1)
    }
}

/// The rewritten stream of an event stream.
pub open spec fn spec_rewrite(evs: Seq<ParsedEventV>) -> Seq<OutEventV> {
    spec_rw_fold(evs, evs.len() as int).out
}

/// The two passes walk headings in lockstep: at every prefix they agree
/// on whether a heading is open, on its collected text, and on its
/// explicit id.
proof fn lemma_heading_state_sync(evs: Seq<ParsedEventV>, i: int)
    requires
        0 <= i <= evs.len(),
    ensures
        spec_toc_fold(evs, i).open_heading == spec_rw_fold(evs, i).in_heading,
        spec_toc_fold(evs, i).text == spec_rw_fold(evs, i).heading_text,
        spec_toc_fold(evs, i).explicit_id == spec_rw_fold(evs, i).explicit_id,
        !spec_toc_fold(evs, i).open_heading ==> spec_toc_fold(evs, i).text
            == Seq::<char>::empty() && spec_toc_fold(evs, i).explicit_id is None,
    decreases i,
{
    if i > 0 {
        lemma_heading_state_sync(evs, i - 1);
    }
}

/// The cross-pass anchor law: when a heading closes, the rewrite pass
/// attaches an anchor carrying exactly the id the TOC pass gives that
/// heading's entry, so every in-page TOC link resolves; the anchor is
/// omitted only when that id is empty.
pub proof fn lemma_anchor_matches_toc(evs: Seq<ParsedEventV>, j: int)
    requires
        0 <= j < evs.len(),
        evs[j] is HeadingEnd,
        spec_toc_fold(evs, j).open_heading,
    ensures
        ({
            let entries = spec_toc_fold(evs, j + 1).entries;
            let pre_out = spec_rw_fold(evs, j).out;
            let post_out = spec_rw_fold(evs, j + 1).out;
            let id = entries.last().id;
            let level = evs[j]->HeadingEnd_level;
            &&& entries.len() == spec_toc_fold(evs, j).entries.len() + 1
            &&& id.len() > 0 ==> post_out == pre_out.push(
                OutEventV::Html { html: spec_anchor(id) },
            ).push(OutEventV::HeadingEnd { level: level })
            &&& id.len() == 0 ==> post_out == pre_out.push(
                OutEventV::HeadingEnd { level: level },
            )
        }),
{
    lemma_heading_state_sync(evs, j);
}

/// Applies one event to the rewriting state.
fn rw_step(st: &mut RwState, ev: &ParsedEvent, i: usize)
    ensures
        final(st)@ == spec_rw_step(old(st)@, ev@, i as int),
{
    match ev {
        ParsedEvent::CodeStart { lang } => {
            st.in_code = true;
            st.lang = str_to_chars(lang.as_str());
            st.buffer = Vec::new();
            proof {
                assert(st.buffer@ =~= Seq::<char>::empty());
            }
        },
        ParsedEvent::CodeEnd => {
            st.in_code = false;
            let item = OutEvent::Code {
                lang: chars_to_string(&st.lang),
                text: chars_to_string(&st.buffer),
            };
            let ghost pre = st.out.deep_view();
            st.out.push(item);
            proof {
                assert(st.out.deep_view() =~= pre.push(
                    OutEventV::Code { lang: st.lang@, text: st.buffer@ },
                ));
            }
        },
        ParsedEvent::Text { text } => {
            if st.in_heading {
                let tc = str_to_chars(text.as_str());
                append_vec(&mut st.heading_text, &tc);
            }
            if st.in_code {
                let tc = str_to_chars(text.as_str());
                append_vec(&mut st.buffer, &tc);
            } else {
                let ghost pre = st.out.deep_view();
                st.out.push(OutEvent::Orig { idx: i });
                proof {
                    assert(st.out.deep_view() =~= pre.push(OutEventV::Orig { idx: i }));
                }
            }
        },
        ParsedEvent::InlineCode { text } => {
            if st.in_heading {
                let tc = str_to_chars(text.as_str());
                append_vec(&mut st.heading_text, &tc);
            }
            let ghost pre = st.out.deep_view();
            st.out.push(OutEvent::Orig { idx: i });
            proof {
                assert(st.out.deep_view() =~= pre.push(OutEventV::Orig { idx: i }));
            }
        },
        ParsedEvent::HeadingStart { level, id } => {
            st.in_heading = true;
            st.heading_text = Vec::new();
            st.explicit_id = crate::models::clone_opt_string(id);
            let ghost pre = st.out.deep_view();
            st.out.push(OutEvent::HeadingStart { level: *level });
            proof {
                assert(st.heading_text@ =~= Seq::<char>::empty());
                assert(st.out.deep_view() =~= pre.push(
                    OutEventV::HeadingStart { level: ev@->HeadingStart_level },
                ));
            }
        },
        ParsedEvent::HeadingEnd { level } => {
            let aid = anchor_id_of(&st.explicit_id, &st.heading_text);
            st.in_heading = false;
            st.heading_text = Vec::new();
            st.explicit_id = None;
            proof {
                assert(st.heading_text@ =~= Seq::<char>::empty());
            }
            if aid.as_str().is_empty() {
                let ghost pre = st.out.deep_view();
                st.out.push(OutEvent::HeadingEnd { level: *level });
                proof {
                    assert(st.out.deep_view() =~= pre.push(
                        OutEventV::HeadingEnd { level: ev@->HeadingEnd_level },
                    ));
                }
            } else {
                let mut anchor = String::new();
                anchor.append("<a id=\"");
                anchor.append(aid.as_str());
                anchor.append("\"></a>");
                proof {
                    assert(anchor@ =~= spec_anchor(aid@));
                }
                let ghost pre = st.out.deep_view();
                st.out.push(OutEvent::Html { html: anchor });
                st.out.push(OutEvent::HeadingEnd { level: *level });
                proof {
                    assert(st.out.deep_view() =~= pre.push(
                        OutEventV::Html {
                            html: spec_anchor(
                                heading_anchor_id(old(st)@.explicit_id, old(st)@.heading_text),
                            ),
                        },
                    ).push(OutEventV::HeadingEnd { level: ev@->HeadingEnd_level }));
                }
            }
        },
        ParsedEvent::Other => {
            let ghost pre = st.out.deep_view();
            st.out.push(OutEvent::Orig { idx: i });
            proof {
                assert(st.out.deep_view() =~= pre.push(OutEventV::Orig { idx: i }));
            }
        },
    }
}

/// Rewrites an event stream.
pub fn rewrite_events(evs: &Vec<ParsedEvent>) -> (r: Vec<OutEvent>)
    ensures
        r.deep_view() == spec_rewrite(evs.deep_view()),
{
    let ghost edv = evs.deep_view();
    let mut st = RwState {
        in_code: false,
        lang: Vec::new(),
        buffer: Vec::new(),
        in_heading: false,
        heading_text: Vec::new(),
        explicit_id: None,
        out: Vec::new(),
    };
    proof {
        assert(st.lang@ =~= Seq::<char>::empty());
        assert(st.buffer@ =~= Seq::<char>::empty());
        assert(st.heading_text@ =~= Seq::<char>::empty());
        assert(st.out.deep_view() =~= Seq::<OutEventV>::empty());
        assert(st@ == spec_rw_fold(edv, 0));
    }
    let n = evs.len();
    let mut i: usize = 0;
    while i < n
        invariant
            i <= n,
            n == evs@.len(),
            edv == evs.deep_view(),
            forall|j: int| 0 <= j < edv.len() ==> edv[j] == evs@[j]@,
            st@ == spec_rw_fold(edv, i as int),
        decreases n - i,
    {
        rw_step(&mut st, &evs[i], i);
        i = i + 1;
    }
    st.out
}

/// Every passthrough index of the rewritten stream points into the
/// parsed stream.
pub proof fn lemma_rewrite_orig_bounds(evs: Seq<ParsedEventV>, i: int)
    requires
        0 <= i <= evs.len(),
    ensures
        forall|k: int|
            0 <= k < spec_rw_fold(evs, i).out.len() ==> match #[trigger] spec_rw_fold(
                evs,
                i,
            ).out[k] {
                OutEventV::Orig { idx } => idx < i,
                _ => true,
            },
    decreases i,
{
    if i > 0 {
        lemma_rewrite_orig_bounds(evs, i - 1);
        let pre = spec_rw_fold(evs, i - 1).out;
        let post = spec_rw_fold(evs, i).out;
        assert forall|k: int| 0 <= k < post.len() implies match #[trigger] post[k] {
            OutEventV::Orig { idx } => idx < i,
            _ => true,
        } by {
            if k < pre.len() {
                assert(post[k] == pre[k]);
            }
        }
    }
}

// ------------------------------------------------------------------
// Filling in the highlighted code blocks
// ------------------------------------------------------------------

/// The captured code blocks of a rewritten stream: each `Code` event's
/// language and text, in order.
pub open spec fn spec_code_blocks(out: Seq<OutEventV>) -> Seq<(Seq<char>, Seq<char>)>
    decreases out.len(),
{
    if out.len() == 0 {
        Seq::empty()
    } else {
        let rest = spec_code_blocks(out.drop_last());
        match out.last() {
            OutEventV::Code { lang, text } => rest.push((lang, text)),
            _ => rest,
        }
    }
}

/// The stream with its `k`-th code block replaced by the `k`-th
/// highlighted HTML.
pub open spec fn spec_fill(out: Seq<OutEventV>, hl: Seq<Seq<char>>) -> Seq<OutEventV>
    decreases out.len(),
{
    if out.len() == 0 {
        Seq::empty()
    } else {
        let rest = spec_fill(out.drop_last(), hl);
        match out.last() {
            OutEventV::Code { .. } => rest.push(
                OutEventV::Html { html: hl[spec_code_blocks(out.drop_last()).len() as int] },
            ),
            e => rest.push(e),
        }
    }
}

/// The filled stream holds no code marker, and keeps every passthrough
/// bound.
pub proof fn lemma_fill_wf(out: Seq<OutEventV>, hl: Seq<Seq<char>>, n: int)
    requires
        forall|k: int|
            0 <= k < out.len() ==> match #[trigger] out[k] {
                OutEventV::Orig { idx } => idx < n,
                _ => true,
            },
    ensures
        spec_fill(out, hl).len() == out.len(),
        forall|k: int|
            0 <= k < spec_fill(out, hl).len() ==> match #[trigger] spec_fill(out, hl)[k] {
                OutEventV::Orig { idx } => idx < n,
                OutEventV::Code { .. } => false,
                _ => true,
            },
    decreases out.len(),
{
    if out.len() > 0 {
        assert forall|k: int| 0 <= k < out.drop_last().len() implies match #[trigger] out.drop_last(
        )[k] {
            OutEventV::Orig { idx } => idx < n,
            _ => true,
        } by {
            assert(out.drop_last()[k] == out[k]);
        }
        lemma_fill_wf(out.drop_last(), hl, n);
        let rest = spec_fill(out.drop_last(), hl);
        let r = spec_fill(out, hl);
        assert forall|k: int| 0 <= k < r.len() implies match #[trigger] r[k] {
            OutEventV::Orig { idx } => idx < n,
            OutEventV::Code { .. } => false,
            _ => true,
        } by {
            if k < rest.len() {
                assert(r[k] == rest[k]);
            }
        }
    }
}

/// Collects the code blocks of a rewritten stream.
fn collect_code_blocks(out: &Vec<OutEvent>) -> (r: Vec<(String, String)>)
    ensures
        r.deep_view() == spec_code_blocks(out.deep_view()),
{
    let ghost odv = out.deep_view();
    let mut r: Vec<(String, String)> = Vec::new();
    let n = out.len();
    let mut i: usize = 0;
    while i < n
        invariant
            i <= n,
            n == out@.len(),
            odv == out.deep_view(),
            forall|j: int| 0 <= j < odv.len() ==> odv[j] == out@[j]@,
            r.deep_view() == spec_code_blocks(odv.take(i as int)),
        decreases n - i,
    {
        proof {
            assert(odv.take(i + 1).drop_last() =~= odv.take(i as int));
            assert(odv.take(i + 1).last() == odv[i as int]);
        }
        match &out[i] {
            OutEvent::Code { lang, text } => {
                let item = (crate::models::clone_string(lang), crate::models::clone_string(text));
                let ghost pre = r.deep_view();
                r.push(item);
                proof {
                    assert(r.deep_view() =~= pre.push((odv[i as int]->Code_lang,
                        odv[i as int]->Code_text)));
                    assert(r.deep_view() =~= spec_code_blocks(odv.take(i + 1)));
                }
            },
            _ => {
                proof {
                    assert(r.deep_view() =~= spec_code_blocks(odv.take(i + 1)));
                }
            },
        }
        i = i + 1;
    }
    proof {
        assert(odv.take(n as int) =~= odv);
    }
    r
}

/// Replaces each code marker by its highlighted HTML.
fn fill_code_blocks(out: &Vec<OutEvent>, hl: &Vec<String>) -> (r: Vec<OutEvent>)
    requires
        hl.deep_view().len() == spec_code_blocks(out.deep_view()).len(),
    ensures
        r.deep_view() == spec_fill(out.deep_view(), hl.deep_view()),
{
    let ghost odv = out.deep_view();
    let ghost hdv = hl.deep_view();
    let mut r: Vec<OutEvent> = Vec::new();
    let mut k: usize = 0;
    let n = out.len();
    let mut i: usize = 0;
    while i < n
        invariant
            i <= n,
            n == out@.len(),
            odv == out.deep_view(),
            hdv == hl.deep_view(),
            hdv.len() == spec_code_blocks(odv).len(),
            forall|j: int| 0 <= j < odv.len() ==> odv[j] == out@[j]@,
            forall|j: int| 0 <= j < hdv.len() ==> hdv[j] == hl@[j]@,
            k == spec_code_blocks(odv.take(i as int)).len(),
            k <= i,
            k <= hdv.len(),
            r.deep_view() == spec_fill(odv.take(i as int), hdv),
        decreases n - i,
    {
        proof {
            assert(odv.take(i + 1).drop_last() =~= odv.take(i as int));
            assert(odv.take(i + 1).last() == odv[i as int]);
            lemma_code_blocks_prefix(odv, i as int);
        }
        match &out[i] {
            OutEvent::Code { .. } => {
                proof {
                    assert(odv[i as int] is Code);
                    assert(k < hdv.len());
                }
                let html = crate::models::clone_string(&hl[k]);
                let ghost pre = r.deep_view();
                r.push(OutEvent::Html { html });
                k = k + 1;
                proof {
                    assert(r.deep_view() =~= pre.push(OutEventV::Html { html: hdv[k - 1] }));
                    assert(r.deep_view() =~= spec_fill(odv.take(i + 1), hdv));
                }
            },
            _ => {
                let ghost pre = r.deep_view();
                let copied = copy_out_event(&out[i]);
                r.push(copied);
                proof {
                    assert(r.deep_view() =~= pre.push(odv[i as int]));
                    assert(r.deep_view() =~= spec_fill(odv.take(i + 1), hdv));
                }
            },
        }
        i = i + 1;
    }
    proof {
        assert(odv.take(n as int) =~= odv);
    }
    r
}

/// The code blocks of a prefix never outnumber those of the whole
/// stream.
proof fn lemma_code_blocks_prefix(out: Seq<OutEventV>, i: int)
    requires
        0 <= i <= out.len(),
    ensures
        spec_code_blocks(out.take(i)).len() <= spec_code_blocks(out).len(),
        i < out.len() && out[i] is Code ==> spec_code_blocks(out.take(i)).len() < spec_code_blocks(
            out,
        ).len(),
    decreases out.len() - i,
{
    if i < out.len() {
        lemma_code_blocks_prefix(out, i + 1);
        assert(out.take(i + 1).drop_last() =~= out.take(i));
        assert(out.take(i + 1).last() == out[i]);
    } else {
        assert(out.take(i) =~= out);
    }
}

/// Copies one non-code rewritten event.
fn copy_out_event(ev: &OutEvent) -> (r: OutEvent)
    requires
        !(ev@ is Code),
    ensures
        r@ == ev@,
{
    match ev {
        OutEvent::Orig { idx } => OutEvent::Orig { idx: *idx },
        OutEvent::Html { html } => OutEvent::Html { html: crate::models::clone_string(html) },
        OutEvent::HeadingStart { level } => OutEvent::HeadingStart { level: *level },
        OutEvent::HeadingEnd { level } => OutEvent::HeadingEnd { level: *level },
        OutEvent::Code { .. } => {
            proof {
                assert(false);
            }
            OutEvent::Orig { idx: 0 }
        },
    }
}

// ------------------------------------------------------------------
// Producing HTML
// ------------------------------------------------------------------

/// A rewritten stream ready for HTML production: no code marker is left,
/// and every passthrough points into the text's event stream.
pub open spec fn out_events_ok(md: Seq<char>, evs: Seq<OutEventV>) -> bool {
    forall|k: int|
        0 <= k < evs.len() ==> match #[trigger] evs[k] {
            OutEventV::Orig { idx } => idx < md_events(md).len(),
            OutEventV::Code { .. } => false,
            _ => true,
        }
}

/// The HTML that pulldown_cmark's renderer produces for a rewritten
/// stream of a text: a function of the text and the stream alone.
pub uninterp spec fn html_of(md: Seq<char>, evs: Seq<OutEventV>) -> Seq<char>;

/// Relies on pulldown_cmark's `Parser` (deterministic over the same
/// input text, so the re-parse yields the stream `md_events` names) and
/// `html::push_html`, which renders the finished event stream. Each
/// rewritten event is converted back: passthroughs to the parsed event
/// they point at, injected HTML to a raw HTML event, reshaped headings
/// to heading tags without an id.
#[verifier::external_body]
fn events_to_html(md: &str, evs: &Vec<OutEvent>) -> (r: String)
    requires
        out_events_ok(md@, evs.deep_view()),
    ensures
        r@ == html_of(md@, evs.deep_view()),
{
    let orig: Vec<E> = Parser::new_ext(md, Options::all()).collect();
    let mut out = String::new();
    let events = evs.iter().filter_map(|ev| match ev {
        OutEvent::Orig { idx } => orig.get(*idx).cloned(),
        OutEvent::Html { html } => Some(E::Html(CowStr::from(html.clone()))),
        OutEvent::Code { .. } => None,
        OutEvent::HeadingStart { level } => Some(E::Start(T::Heading {
            level: heading_level(*level), id: None, classes: vec![], attrs: vec![] })),
        OutEvent::HeadingEnd { level } => Some(E::End(TE::Heading(heading_level(*level)))),
    });
    pulldown_cmark::html::push_html(&mut out, events);
    out
}

/// Relies on `HeadingLevel::try_from` for the six levels; anything else
/// falls back to the top level.
#[verifier::external_body]
fn heading_level(level: u8) -> pulldown_cmark::HeadingLevel {
    pulldown_cmark::HeadingLevel::try_from(level as usize).unwrap_or(
        pulldown_cmark::HeadingLevel::H1,
    )
}

/// The highlighted HTML of each captured code block, in order: for a
/// block with language `lang` and text `code`, exactly what
/// [`crate::highlight::highlight_code`] returns for them.
pub open spec fn spec_highlights(blocks: Seq<(Seq<char>, Seq<char>)>) -> Seq<Seq<char>> {
    Seq::new(blocks.len(), |k: int| spec_highlight(blocks[k].1, blocks[k].0))
}

/// The fully rendered HTML of a markdown text: the rewritten stream with
/// each captured code block replaced by its highlighted HTML, handed to
/// the renderer.
pub open spec fn spec_rendered_html(content: Seq<char>) -> Seq<char> {
    let rw = spec_rewrite(md_events(content));
    html_of(content, spec_fill(rw, spec_highlights(spec_code_blocks(rw))))
}

/// Renders a markdown text to HTML: one streaming rewrite pass whose
/// code blocks come back highlighted and whose headings carry anchor
/// elements, handed to the HTML renderer.
pub fn render_markdown_with_highlighting(content: &str) -> (r: String)
    ensures
        r@ == spec_rendered_html(content@),
{
    let ghost rwg = spec_rewrite(md_events(content@));
    let ghost blocksg = spec_code_blocks(rwg);
    let evs = parse_markdown(content);
    let rw = rewrite_events(&evs);
    let blocks = collect_code_blocks(&rw);
    let ghost bdv = blocks.deep_view();
    let mut hl: Vec<String> = Vec::new();
    let n = blocks.len();
    let mut i: usize = 0;
    while i < n
        invariant
            i <= n,
            n == blocks@.len(),
            bdv == blocks.deep_view(),
            bdv == blocksg,
            forall|j: int| 0 <= j < bdv.len() ==> bdv[j] == (blocks@[j].0@, blocks@[j].1@),
            hl.deep_view() == spec_highlights(blocksg).take(i as int),
        decreases n - i,
    {
        let highlighted = highlight_code(blocks[i].1.as_str(), blocks[i].0.as_str());
        let ghost pre = hl.deep_view();
        hl.push(highlighted);
        proof {
            assert(hl.deep_view() =~= pre.push(spec_highlight(bdv[i as int].1, bdv[i as int].0)));
            assert(hl.deep_view() =~= spec_highlights(blocksg).take(i + 1));
        }
        i = i + 1;
    }
    proof {
        assert(spec_highlights(blocksg).take(n as int) =~= spec_highlights(blocksg));
        assert(hl.deep_view() == spec_highlights(blocksg));
        lemma_rewrite_orig_bounds(evs.deep_view(), evs.deep_view().len() as int);
        lemma_fill_wf(rw.deep_view(), hl.deep_view(), md_events(content@).len() as int);
    }
    let filled = fill_code_blocks(&rw, &hl);
    let html = events_to_html(content, &filled);
    html
}

/// Renders a post's body: the HTML of the rewritten markdown, and — when
/// the post asks for one — the rendered table of contents of the same
/// body.
pub fn render_post_content(post: &Post) -> (r: RenderedContent)
    ensures
        post.frontmatter.toc ==> r@.toc == Some(
            spec_render_toc(spec_toc(md_events(post.raw_content@))),
        ),
        !post.frontmatter.toc ==> r@.toc is None,
        r@.html == spec_rendered_html(post.raw_content@),
{
    let toc = if post.frontmatter.toc {
        let entries = extract_toc(post.raw_content.as_str());
        Some(render_toc(&entries))
    } else {
        None
    };
    let html = render_markdown_with_highlighting(post.raw_content.as_str());
    RenderedContent { html, toc }
}

} // verus!
