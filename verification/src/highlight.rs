//! Syntax highlighting.
//!
//! Resolution order for a language token: exact token match, then file
//! extension, then plain text. With the bundled syntax and theme
//! definitions fixed, the engine's HTML is a function of the code and
//! the token alone; [`engine_html_of`] names it, and [`highlight_code`]
//! is pinned exactly against that name. The function is total: when the
//! engine's definitions cannot be used or the engine itself fails, the
//! output falls back to the HTML-escaped raw code in a minimal code
//! block — the one path that bypasses the engine's own escaping, and
//! therefore proven to escape every markup metacharacter.

use vstd::prelude::*;
use crate::models::view_opt_string;
use crate::text::{escape_html, spec_escape_html};

verus! {

#[verifier::external_type_specification]
#[verifier::external_body]
pub struct ExSyntaxSet(syntect::parsing::SyntaxSet);

/// The highlighted HTML the engine produces for a code text and a
/// language token, using the bundled syntax definitions, the
/// `base16-ocean.dark` theme, and the resolution order above; nothing
/// when no syntax or theme resolves or the engine fails.
pub uninterp spec fn engine_html_of(code: Seq<char>, lang: Seq<char>) -> Option<Seq<char>>;

/// Relies on syntect's bundled definitions (`load_defaults_newlines`,
/// `ThemeSet::load_defaults`), its resolution methods
/// (`find_syntax_by_token`, `find_syntax_by_extension`,
/// `find_syntax_by_name`) and `highlighted_html_for_string`: with the
/// bundled data fixed, the result is a function of the code and the
/// token alone. The body resolves the token by exact match, then file
/// extension, then the `Plain Text` syntax, and folds every failure —
/// an unresolvable syntax or theme, or an engine error — into `None`.
#[verifier::external_body]
fn engine_highlight(code: &str, language: &str) -> (r: Option<String>)
    ensures
        view_opt_string(r) == engine_html_of(code@, language@),
{
    let ss = syntect::parsing::SyntaxSet::load_defaults_newlines();
    let ts = syntect::highlighting::ThemeSet::load_defaults();
    let syntax = ss
        .find_syntax_by_token(language)
        .or_else(|| ss.find_syntax_by_extension(language))
        .or_else(|| ss.find_syntax_by_name("Plain Text"))?;
    let theme = ts.themes.get("base16-ocean.dark")?;
    syntect::html::highlighted_html_for_string(code, &ss, syntax, theme).ok()
}

/// Relies on `SyntaxSet::load_defaults_newlines`: loads the bundled
/// syntax definitions.
#[verifier::external_body]
fn load_default_syntaxes() -> syntect::parsing::SyntaxSet {
    syntect::parsing::SyntaxSet::load_defaults_newlines()
}

/// Relies on `SyntaxSet::syntaxes`: hands out each syntax's name.
#[verifier::external_body]
fn syntax_names(ss: &syntect::parsing::SyntaxSet) -> Vec<String> {
    ss.syntaxes().iter().map(|s| s.name.clone()).collect()
}

/// The escaped minimal code block a failed highlighting falls back to.
pub open spec fn spec_fallback_html(code: Seq<char>) -> Seq<char> {
    "<pre><code>"@ + spec_escape_html(code) + "</code></pre>"@
}

/// What highlighting a code text with a language token returns: the
/// engine's HTML, or — when the engine produced nothing — the escaped
/// fallback block.
pub open spec fn spec_highlight(code: Seq<char>, lang: Seq<char>) -> Seq<char> {
    match engine_html_of(code, lang) {
        Some(h) => h,
        None => spec_fallback_html(code),
    }
}

/// Wraps HTML-escaped code in a minimal code block.
pub fn fallback_html(code: &str) -> (r: String)
    ensures
        r@ == spec_fallback_html(code@),
{
    let escaped = escape_html(code);
    let mut out = String::new();
    vstd::string::StringExecFns::append(&mut out, "<pre><code>");
    vstd::string::StringExecFns::append(&mut out, escaped.as_str());
    vstd::string::StringExecFns::append(&mut out, "</code></pre>");
    proof {
        assert(out@ =~= spec_fallback_html(code@));
    }
    out
}

/// What highlighting returns for each engine outcome: the engine's HTML
/// when it produced some, otherwise the escaped fallback block.
pub fn highlight_or_fallback(engine_result: Option<String>, code: &str) -> (r: String)
    ensures
        match engine_result {
            Some(html) => r == html,
            None => r@ == spec_fallback_html(code@),
        },
{
    match engine_result {
        Some(html) => html,
        None => fallback_html(code),
    }
}

/// Highlights a code block for the given language token and never fails:
/// the token is resolved as an exact match, then as a file extension,
/// then as plain text, and any engine failure degrades to the escaped
/// fallback block.
pub fn highlight_code(code: &str, language: &str) -> (r: String)
    ensures
        r@ == spec_highlight(code@, language@),
{
    let engine_result = engine_highlight(code, language);
    highlight_or_fallback(engine_result, code)
}

/// The names of the languages the bundled syntax definitions cover.
pub fn supported_languages() -> Vec<String> {
    let ss = load_default_syntaxes();
    syntax_names(&ss)
}

} // verus!
