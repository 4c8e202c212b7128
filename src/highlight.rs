//! Syntax highlighting of code blocks through syntect, and the markup that
//! wraps its output.

use vstd::prelude::*;

use syntect::highlighting::{Theme, ThemeSet};
use syntect::parsing::SyntaxSet;

use crate::error::MarkupError;
use crate::text::{trim, trimmed};

verus! {

/// Declares syntect's `SyntaxSet`, held opaque.
#[verifier::external_type_specification]
#[verifier::external_body]
pub struct ExSyntaxSet(SyntaxSet);

/// Declares syntect's `Theme`, held opaque.
#[verifier::external_type_specification]
#[verifier::external_body]
pub struct ExTheme(Theme);

/// Relies on `SyntaxSet::load_defaults_newlines`: syntect's bundled syntaxes.
pub assume_specification[ SyntaxSet::load_defaults_newlines ]() -> SyntaxSet;

/// The names of the themes that `ThemeSet::load_defaults` documents as its
/// keys.
pub open spec fn is_bundled_theme(name: Seq<char>) -> bool {
    ||| name == "base16-ocean.dark"@
    ||| name == "base16-eighties.dark"@
    ||| name == "base16-mocha.dark"@
    ||| name == "base16-ocean.light"@
    ||| name == "InspiredGitHub"@
    ||| name == "Solarized (dark)"@
    ||| name == "Solarized (light)"@
}

/// Relies on `ThemeSet::load_defaults`, whose documented keys are the
/// bundled theme names: takes the theme of that name out of its `themes`.
#[verifier::external_body]
fn bundled_theme(name: &str) -> (r: Option<Theme>)
    ensures
        is_bundled_theme(name@) ==> r is Some,
{
    ThemeSet::load_defaults().themes.remove(name)
}

/// The syntaxes of syntect's bundle and the theme that code blocks are shown
/// in, loaded once and shared by every document. Nothing else can be put in
/// one.
pub struct Highlighter {
    syntaxes: SyntaxSet,
    theme: Theme,
}

/// The theme that code blocks are shown in.
pub const THEME: &'static str = "base16-eighties.dark";

/// The syntax that shows text as it is.
pub const PLAIN_TEXT: &'static str = "Plain Text";

impl Highlighter {
    /// The bundled syntaxes with the bundled theme `THEME`.
    pub fn new() -> (r: Highlighter) {
        let syntaxes = SyntaxSet::load_defaults_newlines();
        assert(is_bundled_theme(THEME@));
        match bundled_theme(THEME) {
            Some(theme) => Highlighter { syntaxes, theme },
            None => vstd::pervasive::unreached(),
        }
    }
}

pub open spec fn opt_view(o: Option<String>) -> Option<Seq<char>> {
    match o {
        Some(s) => Some(s@),
        None => None,
    }
}

/// The name of the bundled syntax that a language hint names, by file
/// extension or by name.
pub uninterp spec fn syntax_for_token(token: Seq<char>) -> Option<Seq<char>>;

/// Relies on `SyntaxSet::find_syntax_by_token` over the bundled syntaxes, the
/// only ones a `Highlighter` holds: the name of the syntax it finds.
#[verifier::external_body]
fn token_syntax(hl: &Highlighter, token: &str) -> (r: Option<String>)
    ensures
        opt_view(r) == syntax_for_token(token@),
{
    hl.syntaxes.find_syntax_by_token(token).map(|s| s.name.clone())
}

/// The name of the bundled syntax that the first line of the code reveals.
pub uninterp spec fn syntax_for_first_line(code: Seq<char>) -> Option<Seq<char>>;

/// Relies on `SyntaxSet::find_syntax_by_first_line` over the bundled
/// syntaxes: the name of the syntax it finds.
#[verifier::external_body]
fn first_line_syntax(hl: &Highlighter, code: &str) -> (r: Option<String>)
    ensures
        opt_view(r) == syntax_for_first_line(code@),
{
    hl.syntaxes.find_syntax_by_first_line(code).map(|s| s.name.clone())
}

/// The styled HTML that syntect makes of the code in the bundled syntax of
/// that name and the theme `THEME`, or `None` where it fails or has no such
/// syntax.
pub uninterp spec fn syntect_html(code: Seq<char>, syntax: Seq<char>) -> Option<Seq<char>>;

/// Relies on `syntect::html::highlighted_html_for_string`, given the bundled
/// syntax that `SyntaxSet::find_syntax_by_name` finds and the held theme.
#[verifier::external_body]
fn highlight_as(hl: &Highlighter, code: &str, syntax: &str) -> (r: Option<String>)
    ensures
        opt_view(r) == syntect_html(code@, syntax@),
{
    let syntax = hl.syntaxes.find_syntax_by_name(syntax)?;
    syntect::html::highlighted_html_for_string(code, &hl.syntaxes, syntax, &hl.theme).ok()
}

/// The syntax that code is shown in: the one its language hint names, else
/// the one its first line reveals, else plain text.
pub open spec fn chosen_syntax(code: Seq<char>, lang: Option<Seq<char>>) -> Seq<char> {
    let by_hint = match lang {
        Some(l) => syntax_for_token(l),
        None => None,
    };
    match by_hint {
        Some(n) => n,
        None => match syntax_for_first_line(code) {
            Some(n) => n,
            None => PLAIN_TEXT@,
        },
    }
}

/// The code block that `highlight_code` makes of `code`, where syntect
/// highlights it.
pub open spec fn highlighted(code: Seq<char>, lang: Option<Seq<char>>) -> Option<Seq<char>> {
    match syntect_html(code, chosen_syntax(code, lang)) {
        Some(raw) => code_block(raw),
        None => None,
    }
}

/// A language hint that names no syntax is as good as none.
pub proof fn lemma_unknown_hint(code: Seq<char>, l: Seq<char>)
    requires
        syntax_for_token(l) is None,
    ensures
        highlighted(code, Some(l)) == highlighted(code, None),
{
}

/// The first position at or after `i` that holds `c` (the length when there
/// is none).
pub open spec fn find_char(s: Seq<char>, c: char, i: int) -> int
    decreases s.len() - i,
{
    if i >= s.len() {
        s.len() as int
    } else if s[i] == c {
        i
    } else {
        find_char(s, c, i + 1)
    }
}

/// `</pre>` stands in `s` at `p`.
pub open spec fn pre_end_at(s: Seq<char>, p: int) -> bool {
    &&& 0 <= p
    &&& p + 6 <= s.len()
    &&& s[p] == '<'
    &&& s[p + 1] == '/'
    &&& s[p + 2] == 'p'
    &&& s[p + 3] == 'r'
    &&& s[p + 4] == 'e'
    &&& s[p + 5] == '>'
}

/// The first position at or after `i` where `</pre>` stands (the length
/// when there is none).
pub open spec fn find_pre_end(s: Seq<char>, i: int) -> int
    decreases s.len() - i,
{
    if i >= s.len() {
        s.len() as int
    } else if pre_end_at(s, i) {
        i
    } else {
        find_pre_end(s, i + 1)
    }
}

/// The highlighted HTML `raw` with its `<pre …>` element, and the background
/// colour that it carries, replaced by a plain code block: what lies between
/// the first `>` and the first `</pre>`, trimmed. `None` where `raw` has not
/// that shape.
pub open spec fn code_block(raw: Seq<char>) -> Option<Seq<char>> {
    let g = find_char(raw, '>', 0);
    let e = find_pre_end(raw, 0);
    if g < raw.len() && e < raw.len() && g + 1 <= e {
        Some(
            "<pre><code class=\"code-block\">"@ + trimmed(raw.subrange(g + 1, e))
                + "</code></pre>"@,
        )
    } else {
        None
    }
}

fn char_position(s: &str, c: char) -> (r: usize)
    ensures
        r == find_char(s@, c, 0),
{
    let n = s.unicode_len();
    let mut i: usize = 0;
    while i < n && s.get_char(i) != c
        invariant
            n == s@.len(),
            i <= n,
            find_char(s@, c, i as int) == find_char(s@, c, 0),
        decreases n - i,
    {
        i = i + 1;
    }
    i
}

fn pre_end_position(s: &str) -> (r: usize)
    ensures
        r == find_pre_end(s@, 0),
{
    let n = s.unicode_len();
    let mut i: usize = 0;
    while i < n && !(n - i >= 6 && s.get_char(i) == '<' && s.get_char(i + 1) == '/' && s.get_char(
        i + 2,
    ) == 'p' && s.get_char(i + 3) == 'r' && s.get_char(i + 4) == 'e' && s.get_char(i + 5) == '>')
        invariant
            n == s@.len(),
            i <= n,
            find_pre_end(s@, i as int) == find_pre_end(s@, 0),
        decreases n - i,
    {
        i = i + 1;
    }
    i
}

proof fn lemma_find_char(s: Seq<char>, c: char, i: int)
    requires
        0 <= i <= s.len(),
    ensures
        i <= find_char(s, c, i) <= s.len(),
    decreases s.len() - i,
{
    if i < s.len() && s[i] != c {
        lemma_find_char(s, c, i + 1);
    }
}

proof fn lemma_find_pre_end(s: Seq<char>, i: int)
    requires
        0 <= i <= s.len(),
    ensures
        i <= find_pre_end(s, i) <= s.len(),
    decreases s.len() - i,
{
    if i < s.len() && !pre_end_at(s, i) {
        lemma_find_pre_end(s, i + 1);
    }
}

/// Turns syntect's highlighted HTML into a plain code block (see
/// `code_block`).
pub fn code_block_html(raw: &str) -> (r: Option<String>)
    ensures
        r matches Some(m) ==> code_block(raw@) == Some(m@),
        r is None ==> code_block(raw@) is None,
{
    let g = char_position(raw, '>');
    let e = pre_end_position(raw);
    let n = raw.unicode_len();
    proof {
        lemma_find_char(raw@, '>', 0);
        lemma_find_pre_end(raw@, 0);
    }
    if g < n && e < n && g + 1 <= e {
        let inner = raw.substring_char(g + 1, e);
        let body = trim(inner);
        let mut out = String::from_str("<pre><code class=\"code-block\">");
        out.append(body);
        out.append("</code></pre>");
        Some(out)
    } else {
        None
    }
}

/// Highlights `code` as the language `language` names. Where no syntax
/// has that name or extension, the first line decides; failing that, the
/// code is shown as plain text.
pub fn highlight_code(hl: &Highlighter, code: &str, language: Option<String>) -> (r: Result<
    String,
    MarkupError,
>)
    ensures
        match r {
            Ok(m) => highlighted(code@, opt_view(language)) == Some(m@),
            Err(e) => e == MarkupError::Highlight && highlighted(code@, opt_view(language)) is None,
        },
{
    let by_hint = match &language {
        Some(l) => token_syntax(hl, l.as_str()),
        None => None,
    };
    let name = match by_hint {
        Some(n) => n,
        None => match first_line_syntax(hl, code) {
            Some(n) => n,
            None => PLAIN_TEXT.to_owned(),
        },
    };
    assert(name@ == chosen_syntax(code@, opt_view(language)));
    match highlight_as(hl, code, name.as_str()) {
        Some(raw) => match code_block_html(raw.as_str()) {
            Some(m) => Ok(m),
            None => Err(MarkupError::Highlight),
        },
        None => Err(MarkupError::Highlight),
    }
}

} // verus!
