//! Minification of finished pages and of stylesheets.

use vstd::prelude::*;
use vstd::utf8::{decode_utf8, encode_utf8, valid_utf8};

use css_minify::optimizations::{Level, Minifier};

use crate::annotate::{decimal, digits_end, is_digit, lemma_digits_end};

verus! {

/// The bytes that minify-html makes of a page, in its spec-compliant
/// configuration (which leaves CSS and JavaScript as they are).
pub uninterp spec fn minified_html(src: Seq<u8>) -> Seq<u8>;

/// Relies on `minify_html::minify` with `Cfg::spec_compliant()`: the output
/// depends on the input bytes alone.
#[verifier::external_body]
fn minify_bytes(src: &[u8]) -> (r: Vec<u8>)
    ensures
        r@ == minified_html(src@),
{
    minify_html::minify(src, &minify_html::Cfg::spec_compliant())
}

/// The bytes that minify-html makes of a page, in its spec-compliant
/// configuration with CSS minification on.
pub uninterp spec fn minified_html_css(src: Seq<u8>) -> Seq<u8>;

/// Relies on `minify_html::minify` with `Cfg::spec_compliant()` and
/// `minify_css` set: the output depends on the page alone. It hands the page's
/// `<style>` contents and decoded `style` values to css-minify, which the
/// requirement keeps from panicking.
#[verifier::external_body]
fn minify_page_css(page: &str) -> (r: Vec<u8>)
    requires
        page_css_minifiable(page@),
    ensures
        r@ == minified_html_css(encode_utf8(page@)),
{
    let mut cfg = minify_html::Cfg::spec_compliant();
    cfg.minify_css = true;
    minify_html::minify(page.as_bytes(), &cfg)
}

/// Declares `FromUtf8Error`, which `String::from_utf8` returns on invalid bytes.
#[verifier::external_type_specification]
#[verifier::external_body]
pub struct ExFromUtf8Error(std::string::FromUtf8Error);

/// Relies on `String::from_utf8`: the bytes as a string exactly when they
/// are valid UTF-8.
pub assume_specification[ String::from_utf8 ](vec: Vec<u8>) -> (r: Result<
    String,
    std::string::FromUtf8Error,
>)
    ensures
        r is Ok <==> valid_utf8(vec@),
        r matches Ok(s) ==> s@ == decode_utf8(vec@),
;

/// What the page minifier makes of a page: with its CSS minified too where
/// the CSS minifier can take it, else with its CSS as it is.
pub open spec fn page_minified(html: Seq<char>) -> Seq<u8> {
    if page_css_minifiable(html) {
        minified_html_css(encode_utf8(html))
    } else {
        minified_html(encode_utf8(html))
    }
}

/// Minifies a page (see `page_minified`). `None` where the minified bytes
/// are not UTF-8.
pub fn minify_html(html: &String) -> (r: Option<String>)
    ensures
        r is Some <==> valid_utf8(page_minified(html@)),
        r matches Some(s) ==> s@ == decode_utf8(page_minified(html@)),
{
    let bytes = if is_page_css_minifiable(html.as_str()) {
        minify_page_css(html.as_str())
    } else {
        minify_bytes(html.as_str().as_bytes())
    };
    match String::from_utf8(bytes) {
        Ok(s) => Some(s),
        Err(_) => None,
    }
}

/// The stylesheet that css-minify makes of `css` at its highest level, or
/// `None` where it cannot parse it.
pub uninterp spec fn css_minified(css: Seq<char>) -> Option<Seq<char>>;

/// A hexadecimal digit.
pub open spec fn is_hex(c: char) -> bool {
    ('0' <= c && c <= '9') || ('a' <= c && c <= 'f') || ('A' <= c && c <= 'F')
}

/// A `#` at `i` followed by one or two hexadecimal digits, no more: the
/// colour rewriting slices such a colour as if it had three.
pub open spec fn short_hex_at(s: Seq<char>, i: int) -> bool {
    &&& s[i] == '#'
    &&& i + 1 < s.len()
    &&& is_hex(s[i + 1])
    &&& !(i + 3 < s.len() && is_hex(s[i + 2]) && is_hex(s[i + 3]))
}

/// A character that ends a selector, a property or a value, or opens a
/// comment or a string; in a page, a tag's `<` and `>` too.
pub open spec fn is_mark(c: char, page: bool) -> bool {
    c == '{' || c == '}' || c == ';' || c == ':' || c == '/' || c == '"' || c == '\'' || (page && (
    c == '<' || c == '>'))
}

/// The first position at or after `i` that holds a mark (the length when
/// there is none).
pub open spec fn next_mark(s: Seq<char>, i: int, page: bool) -> int
    decreases s.len() - i,
{
    if i >= s.len() {
        s.len() as int
    } else if is_mark(s[i], page) {
        i
    } else {
        next_mark(s, i + 1, page)
    }
}

/// What follows `i` up to its next mark is part of a selector: that mark
/// is a `{`.
pub open spec fn in_selector(s: Seq<char>, i: int, page: bool) -> bool {
    next_mark(s, i, page) < s.len() && s[next_mark(s, i, page)] == '{'
}

/// `rgb` stands at `i`, not as the start of `rgba`: an `rgb(…)` colour,
/// whose parts the colour rewriting unwraps as bytes.
pub open spec fn rgb_at(s: Seq<char>, i: int) -> bool {
    &&& i + 2 < s.len()
    &&& s[i] == 'r'
    &&& s[i + 1] == 'g'
    &&& s[i + 2] == 'b'
    &&& !(i + 3 < s.len() && s[i + 3] == 'a')
}

/// The first `)` at or after `i` (the length when there is none).
pub open spec fn close_paren(s: Seq<char>, i: int) -> int
    decreases s.len() - i,
{
    if i >= s.len() {
        s.len() as int
    } else if s[i] == ')' {
        i
    } else {
        close_paren(s, i + 1)
    }
}

/// Position `k` of an `rgb(…)` colour opened at `j` holds no comment, and
/// a number that starts at `k` is at most 255.
pub open spec fn rgb_part_ok(s: Seq<char>, j: int, k: int) -> bool {
    &&& s[k] != '/'
    &&& (is_digit(s[k]) && (k == j || !is_digit(s[k - 1]))) ==> decimal(s, k, digits_end(s, k))
        <= 255
}

/// Position `i` holds nothing that the colour rewriting panics on: no
/// colour of one or two hexadecimal digits outside a selector, and no
/// `rgb(…)` part above 255 (nor a comment, which hides where the parts are).
pub open spec fn safe_at(s: Seq<char>, i: int) -> bool {
    &&& short_hex_at(s, i) ==> in_selector(s, i + 1, false)
    &&& rgb_parts_safe(s, i)
}

/// Every part of an `rgb(…)` colour at `i` is fine (see `rgb_part_ok`).
pub open spec fn rgb_parts_safe(s: Seq<char>, i: int) -> bool {
    rgb_at(s, i) ==> forall|k: int|
        i + 3 <= k < close_paren(s, i + 3) ==> #[trigger] rgb_part_ok(s, i + 3, k)
}

/// A stylesheet on which the CSS minifier's colour rewriting, run on every
/// value, cannot panic. It leaves out every stylesheet that would panic, and
/// a few that would not: a short colour followed by a mark other than `{`
/// even outside a value, and a comment inside `rgb(…)`.
pub open spec fn css_minifiable(s: Seq<char>) -> bool {
    forall|i: int| 0 <= i < s.len() ==> #[trigger] safe_at(s, i)
}

fn hex(c: char) -> (r: bool)
    ensures
        r == is_hex(c),
{
    ('0' <= c && c <= '9') || ('a' <= c && c <= 'f') || ('A' <= c && c <= 'F')
}

fn mark(c: char, page: bool) -> (r: bool)
    ensures
        r == is_mark(c, page),
{
    c == '{' || c == '}' || c == ';' || c == ':' || c == '/' || c == '"' || c == '\'' || (page && (
    c == '<' || c == '>'))
}

fn digit(c: char) -> (r: bool)
    ensures
        r == is_digit(c),
{
    '0' <= c && c <= '9'
}

proof fn lemma_close_paren(s: Seq<char>, i: int)
    requires
        0 <= i <= s.len(),
    ensures
        i <= close_paren(s, i) <= s.len(),
        forall|k: int| i <= k < close_paren(s, i) ==> s[k] != ')',
    decreases s.len() - i,
{
    if i < s.len() && s[i] != ')' {
        lemma_close_paren(s, i + 1);
    }
}

fn selector_follows(s: &str, n: usize, i: usize, page: bool) -> (r: bool)
    requires
        n == s@.len(),
        i <= n,
    ensures
        r == in_selector(s@, i as int, page),
{
    let mut j = i;
    while j < n && !mark(s.get_char(j), page)
        invariant
            n == s@.len(),
            i <= j <= n,
            next_mark(s@, j as int, page) == next_mark(s@, i as int, page),
        decreases n - j,
    {
        j = j + 1;
    }
    j < n && s.get_char(j) == '{'
}

/// Whether the number that starts at `k` is at most 255.
fn small_number(s: &str, n: usize, k: usize) -> (r: bool)
    requires
        n == s@.len(),
        k <= n,
    ensures
        r == (decimal(s@, k as int, digits_end(s@, k as int)) <= 255),
{
    proof {
        lemma_digits_end(s@, k as int);
    }
    let mut e = k;
    let mut v: u64 = 0;
    while e < n && digit(s.get_char(e))
        invariant
            n == s@.len(),
            k <= e <= n,
            digits_end(s@, e as int) == digits_end(s@, k as int),
            forall|m: int| k <= m < e ==> is_digit(s@[m]),
            v == (if decimal(s@, k as int, e as int) > 255 {
                256
            } else {
                decimal(s@, k as int, e as int)
            }),
        decreases n - e,
    {
        let d = (s.get_char(e) as u32 - '0' as u32) as u64;
        assert(decimal(s@, k as int, e + 1) == decimal(s@, k as int, e as int) * 10 + d);
        v = if v * 10 + d > 255 {
            256
        } else {
            v * 10 + d
        };
        e = e + 1;
    }
    v <= 255
}

fn rgb_parts_ok(s: &str, n: usize, j: usize) -> (r: bool)
    requires
        n == s@.len(),
        j <= n,
    ensures
        r == forall|k: int| j <= k < close_paren(s@, j as int) ==> #[trigger] rgb_part_ok(s@, j as int, k),
{
    proof {
        lemma_close_paren(s@, j as int);
    }
    let mut k = j;
    while k < n && s.get_char(k) != ')'
        invariant
            n == s@.len(),
            j <= k <= n,
            close_paren(s@, k as int) == close_paren(s@, j as int),
            forall|m: int| j <= m < k ==> #[trigger] rgb_part_ok(s@, j as int, m),
        decreases n - k,
    {
        let c = s.get_char(k);
        proof {
            lemma_close_paren(s@, k + 1);
            assert(k < close_paren(s@, j as int));
        }
        if c == '/' {
            assert(!rgb_part_ok(s@, j as int, k as int));
            return false;
        }
        if digit(c) && (k == j || !digit(s.get_char(k - 1))) {
            if !small_number(s, n, k) {
                assert(!rgb_part_ok(s@, j as int, k as int));
                return false;
            }
        }
        assert(rgb_part_ok(s@, j as int, k as int));
        k = k + 1;
    }
    true
}

/// Whether the CSS minifier rewrites the colours of `s` without panicking
/// (see `css_minifiable`).
pub fn is_css_minifiable(s: &str) -> (r: bool)
    ensures
        r == css_minifiable(s@),
{
    let n = s.unicode_len();
    let mut i: usize = 0;
    while i < n
        invariant
            n == s@.len(),
            i <= n,
            forall|j: int| 0 <= j < i ==> #[trigger] safe_at(s@, j),
        decreases n - i,
    {
        let c = s.get_char(i);
        if c == '#' {
            let short = n - i > 1 && hex(s.get_char(i + 1)) && !(n - i > 3 && hex(s.get_char(i + 2))
                && hex(s.get_char(i + 3)));
            if short && !selector_follows(s, n, i + 1, false) {
                assert(!safe_at(s@, i as int));
                return false;
            }
        }
        if c == 'r' && n - i > 2 && s.get_char(i + 1) == 'g' && s.get_char(i + 2) == 'b' && !(n - i
            > 3 && s.get_char(i + 3) == 'a') {
            if !rgb_parts_ok(s, n, i + 3) {
                assert(!safe_at(s@, i as int));
                return false;
            }
        }
        assert(safe_at(s@, i as int));
        i = i + 1;
    }
    true
}

/// `w` stands in `s` at `i`.
pub open spec fn follows(s: Seq<char>, i: int, w: Seq<char>) -> bool {
    0 <= i && i + w.len() <= s.len() && s.subrange(i, i + w.len()) == w
}

/// A `&` at `i` opens one of the entities that decode to a character that
/// no colour rewriting reads: `&amp;`, `&lt;`, `&gt;`, `&quot;`, `&apos;`
/// or `&nbsp;`.
pub open spec fn plain_entity_at(s: Seq<char>, i: int) -> bool {
    s[i] == '&' ==> (follows(s, i + 1, "amp;"@) || follows(s, i + 1, "lt;"@) || follows(
        s,
        i + 1,
        "gt;"@,
    ) || follows(s, i + 1, "quot;"@) || follows(s, i + 1, "apos;"@) || follows(
        s,
        i + 1,
        "nbsp;"@,
    ))
}

/// Position `i` of a page holds nothing that the CSS minifier, run on its
/// `<style>` elements and `style` attributes, panics on. Attribute values
/// are decoded before they are minified, so only entities that decode to
/// harmless characters may stand in the page.
pub open spec fn page_safe_at(s: Seq<char>, i: int) -> bool {
    &&& short_hex_at(s, i) ==> in_selector(s, i + 1, true)
    &&& rgb_parts_safe(s, i)
    &&& plain_entity_at(s, i)
}

/// A page whose CSS the page minifier can minify without panicking. It
/// leaves out every page that would panic, and some that would not (any
/// other entity, for one).
pub open spec fn page_css_minifiable(s: Seq<char>) -> bool {
    forall|i: int| 0 <= i < s.len() ==> #[trigger] page_safe_at(s, i)
}

fn follows_text(s: &str, n: usize, i: usize, w: &str) -> (r: bool)
    requires
        n == s@.len(),
        i <= n,
    ensures
        r == follows(s@, i as int, w@),
{
    let m = w.unicode_len();
    if n - i < m {
        return false;
    }
    let mut k: usize = 0;
    while k < m
        invariant
            n == s@.len(),
            m == w@.len(),
            i + m <= n,
            k <= m,
            forall|j: int| 0 <= j < k ==> s@[i + j] == w@[j],
        decreases m - k,
    {
        if s.get_char(i + k) != w.get_char(k) {
            assert(s@.subrange(i as int, i + m)[k as int] != w@[k as int]);
            return false;
        }
        k = k + 1;
    }
    assert(s@.subrange(i as int, i + m) =~= w@);
    true
}

/// Whether the CSS of the page `s` can be minified with it (see
/// `page_css_minifiable`).
pub fn is_page_css_minifiable(s: &str) -> (r: bool)
    ensures
        r == page_css_minifiable(s@),
{
    let n = s.unicode_len();
    let mut i: usize = 0;
    while i < n
        invariant
            n == s@.len(),
            i <= n,
            forall|j: int| 0 <= j < i ==> #[trigger] page_safe_at(s@, j),
        decreases n - i,
    {
        let c = s.get_char(i);
        if c == '#' {
            let short = n - i > 1 && hex(s.get_char(i + 1)) && !(n - i > 3 && hex(s.get_char(i + 2))
                && hex(s.get_char(i + 3)));
            if short && !selector_follows(s, n, i + 1, true) {
                assert(!page_safe_at(s@, i as int));
                return false;
            }
        }
        if c == 'r' && n - i > 2 && s.get_char(i + 1) == 'g' && s.get_char(i + 2) == 'b' && !(n - i
            > 3 && s.get_char(i + 3) == 'a') {
            if !rgb_parts_ok(s, n, i + 3) {
                assert(!page_safe_at(s@, i as int));
                return false;
            }
        }
        if c == '&' {
            let ok = follows_text(s, n, i + 1, "amp;") || follows_text(s, n, i + 1, "lt;")
                || follows_text(s, n, i + 1, "gt;") || follows_text(s, n, i + 1, "quot;")
                || follows_text(s, n, i + 1, "apos;") || follows_text(s, n, i + 1, "nbsp;");
            if !ok {
                assert(!page_safe_at(s@, i as int));
                return false;
            }
        }
        assert(page_safe_at(s@, i as int));
        i = i + 1;
    }
    true
}

/// Relies on `css_minify::optimizations::Minifier::minify` at `Level::Three`:
/// the outcome depends on the stylesheet alone.
#[verifier::external_body]
fn minify_stylesheet(css: &str) -> (r: Option<String>)
    requires
        css_minifiable(css@),
    ensures
        match r {
            Some(s) => css_minified(css@) == Some(s@),
            None => css_minified(css@) is None,
        },
{
    match Minifier::default().minify(css, Level::Three) {
        Ok(s) => Some(s),
        Err(_) => None,
    }
}

/// `s` from `i` on with every `;;` replaced by `;`, left to right.
pub open spec fn collapse_semicolons(s: Seq<char>, i: int) -> Seq<char>
    decreases s.len() - i,
{
    if i >= s.len() || i < 0 {
        Seq::empty()
    } else if i + 1 < s.len() && s[i] == ';' && s[i + 1] == ';' {
        seq![';'] + collapse_semicolons(s, i + 2)
    } else {
        seq![s[i]] + collapse_semicolons(s, i + 1)
    }
}

fn collapse(s: &str) -> (r: String)
    ensures
        r@ == collapse_semicolons(s@, 0),
{
    let n = s.unicode_len();
    let mut out = String::new();
    let mut i: usize = 0;
    while i < n
        invariant
            n == s@.len(),
            i <= n,
            out@ + collapse_semicolons(s@, i as int) == collapse_semicolons(s@, 0),
        decreases n - i,
    {
        let ghost before = out@;
        if i + 1 < n && s.get_char(i) == ';' && s.get_char(i + 1) == ';' {
            out.append(s.substring_char(i, i + 1));
            assert(before + collapse_semicolons(s@, i as int) =~= out@ + collapse_semicolons(
                s@,
                i + 2,
            ));
            i = i + 2;
        } else {
            out.append(s.substring_char(i, i + 1));
            assert(before + collapse_semicolons(s@, i as int) =~= out@ + collapse_semicolons(
                s@,
                i + 1,
            ));
            i = i + 1;
        }
    }
    assert(out@ =~= collapse_semicolons(s@, 0));
    out
}

/// Minifies a stylesheet, with each `;;` first made `;` (the minifier
/// fails on a doubled `;`). `None` where the minifier cannot take the result
/// (see `css_minifiable`) or cannot parse it.
pub fn minify_css(css: &String) -> (r: Option<String>)
    ensures
        match r {
            Some(s) => {
                &&& css_minifiable(collapse_semicolons(css@, 0))
                &&& css_minified(collapse_semicolons(css@, 0)) == Some(s@)
            },
            None => !css_minifiable(collapse_semicolons(css@, 0)) || css_minified(
                collapse_semicolons(css@, 0),
            ) is None,
        },
{
    let c = collapse(css.as_str());
    if !is_css_minifiable(c.as_str()) {
        return None;
    }
    minify_stylesheet(c.as_str())
}

} // verus!
