//! The equation parser: text with `$…$` (inline) or `$$…$$` (display)
//! mathematics, rendered through KaTeX.

use vstd::prelude::*;

use crate::error::MarkupError;
use crate::text::{trim_bounds, trimmed};

verus! {

/// Declares `katex::Error`, which a failed render returns.
#[verifier::external_type_specification]
#[verifier::external_body]
pub struct ExKatexError(katex::Error);

/// What KaTeX makes of an expression, in display mode or inline: its
/// markup, or `None` where it refuses the expression.
pub uninterp spec fn katex_render(expr: Seq<char>, display: bool) -> Option<Seq<char>>;

/// Relies on `katex::render_with_opts`, with fresh options that set only the
/// mode: whether it renders, and the markup, depend on the expression and
/// the mode alone.
#[verifier::external_body]
fn render_math(expr: &str, display: bool) -> (r: Result<String, katex::Error>)
    ensures
        r is Ok <==> katex_render(expr@, display) is Some,
        r matches Ok(m) ==> katex_render(expr@, display) == Some(m@),
{
    let mut opts = katex::Opts::default();
    opts.set_display_mode(display);
    katex::render_with_opts(expr, opts)
}

/// `s` begins with `$$`.
pub open spec fn opens_display(s: Seq<char>) -> bool {
    s.len() >= 2 && s[0] == '$' && s[1] == '$'
}

/// `s` ends with `$$`.
pub open spec fn closes_display(s: Seq<char>) -> bool {
    s.len() >= 2 && s[s.len() - 1] == '$' && s[s.len() - 2] == '$'
}

/// Text of more than four characters that, once trimmed, is one display
/// equation `$$…$$` (its opening and closing `$$` do not overlap).
pub open spec fn is_display(t: Seq<char>) -> bool {
    t.len() > 4 && trimmed(t).len() >= 4 && opens_display(trimmed(t)) && closes_display(
        trimmed(t),
    )
}

/// What stands between the `$$` delimiters of a display equation.
pub open spec fn display_body(t: Seq<char>) -> Seq<char> {
    trimmed(t).subrange(2, trimmed(t).len() - 2)
}

/// The `$` at `i` delimits an inline equation: no backslash escapes it.
pub open spec fn is_delimiter(t: Seq<char>, i: int) -> bool {
    t[i] == '$' && !(i > 0 && t[i - 1] == '\\')
}

/// Positions of the delimiters before `j`, left to right.
pub open spec fn delimiters_before(t: Seq<char>, j: int) -> Seq<int>
    decreases j,
{
    if j <= 0 {
        Seq::empty()
    } else if is_delimiter(t, j - 1) {
        delimiters_before(t, j - 1).push(j - 1)
    } else {
        delimiters_before(t, j - 1)
    }
}

/// Positions of all the delimiters of `t`, left to right.
pub open spec fn delimiters(t: Seq<char>) -> Seq<int> {
    delimiters_before(t, t.len() as int)
}

/// Positions that are strictly increasing and lie within `t`.
pub open spec fn positions_in(t: Seq<char>, d: Seq<int>) -> bool {
    &&& forall|a: int| 0 <= a < d.len() ==> 0 <= #[trigger] d[a] < t.len()
    &&& forall|a: int, b: int| 0 <= a < b < d.len() ==> d[a] < d[b]
}

/// `t` from `from` on, with the `k`-th pair of delimiters onwards and what
/// they enclose replaced by `r[k]`, `r[k + 1]`, …: the literal text around
/// the pairs is kept.
pub open spec fn spliced(t: Seq<char>, d: Seq<int>, r: Seq<Seq<char>>, k: int, from: int) -> Seq<
    char,
>
    decreases d.len() - 2 * k,
{
    if 0 <= k && 2 * k + 1 < d.len() {
        t.subrange(from, d[2 * k]) + r[k] + spliced(t, d, r, k + 1, d[2 * k + 1] + 1)
    } else {
        t.subrange(from, t.len() as int)
    }
}

/// What the `k`-th pair of delimiters encloses.
pub open spec fn pair_text(t: Seq<char>, d: Seq<int>, k: int) -> Seq<char> {
    t.subrange(d[2 * k] + 1, d[2 * k + 1])
}

/// KaTeX renders what every pair of delimiters encloses, inline.
pub open spec fn pairs_render(t: Seq<char>, d: Seq<int>) -> bool {
    forall|k: int| 0 <= k < d.len() / 2 ==> (#[trigger] katex_render(pair_text(t, d, k), false)) is Some
}

/// The inline rendering of what each pair of delimiters encloses.
pub open spec fn inline_renders(t: Seq<char>, d: Seq<int>) -> Seq<Seq<char>> {
    Seq::new((d.len() / 2) as nat, |k: int| katex_render(pair_text(t, d, k), false)->Some_0)
}

/// What the equation parser makes of `t`: the markup and whether math was
/// rendered, or the error.
pub open spec fn equation_markup(t: Seq<char>) -> Result<(Seq<char>, bool), MarkupError> {
    if t.len() <= 2 {
        Ok((t, false))
    } else if is_display(t) {
        if display_body(t).contains('$') {
            Err(MarkupError::NestedDelimiter)
        } else {
            match katex_render(display_body(t), true) {
                Some(m) => Ok((m, true)),
                None => Err(MarkupError::MathRender),
            }
        }
    } else if delimiters(t).len() % 2 == 1 {
        Err(MarkupError::UnbalancedDelimiters)
    } else if delimiters(t).len() == 0 {
        Ok((t, false))
    } else if !pairs_render(t, delimiters(t)) {
        Err(MarkupError::MathRender)
    } else {
        Ok((spliced(t, delimiters(t), inline_renders(t, delimiters(t)), 0, 0), true))
    }
}

pub open spec fn ints(v: Seq<usize>) -> Seq<int> {
    v.map_values(|x: usize| x as int)
}

pub open spec fn views(v: Seq<String>) -> Seq<Seq<char>> {
    v.map_values(|s: String| s@)
}

pub open spec fn outcome_view(r: Result<(String, bool), MarkupError>) -> Result<
    (Seq<char>, bool),
    MarkupError,
> {
    match r {
        Ok((s, b)) => Ok((s@, b)),
        Err(e) => Err(e),
    }
}

proof fn lemma_delimiters_before(t: Seq<char>, j: int)
    requires
        0 <= j <= t.len(),
    ensures
        positions_in(t, delimiters_before(t, j)),
        forall|a: int|
            0 <= a < delimiters_before(t, j).len() ==> #[trigger] delimiters_before(t, j)[a] < j
                && is_delimiter(t, delimiters_before(t, j)[a]),
    decreases j,
{
    if j > 0 {
        lemma_delimiters_before(t, j - 1);
    }
}

pub proof fn lemma_delimiters(t: Seq<char>)
    ensures
        positions_in(t, delimiters(t)),
        forall|a: int|
            0 <= a < delimiters(t).len() ==> is_delimiter(t, #[trigger] delimiters(t)[a]),
{
    lemma_delimiters_before(t, t.len() as int);
}

proof fn lemma_pair_index(k: int, len: int)
    requires
        0 <= k < len / 2,
    ensures
        2 * k + 1 < len,
{
}

/// Whether `c` occurs in `s`.
pub fn contains_char(s: &str, c: char) -> (r: bool)
    ensures
        r == s@.contains(c),
{
    let n = s.unicode_len();
    let mut i: usize = 0;
    while i < n
        invariant
            n == s@.len(),
            i <= n,
            forall|k: int| 0 <= k < i ==> s@[k] != c,
        decreases n - i,
    {
        if s.get_char(i) == c {
            return true;
        }
        i = i + 1;
    }
    false
}

/// The positions, in characters, of the unescaped `$` of `text`.
pub fn delimiter_positions(text: &str) -> (v: Vec<usize>)
    ensures
        ints(v@) == delimiters(text@),
{
    let n = text.unicode_len();
    let mut v: Vec<usize> = Vec::new();
    let mut i: usize = 0;
    while i < n
        invariant
            n == text@.len(),
            i <= n,
            ints(v@) == delimiters_before(text@, i as int),
        decreases n - i,
    {
        let c = text.get_char(i);
        if c == '$' && !(i > 0 && text.get_char(i - 1) == '\\') {
            v.push(i);
            assert(ints(v@) =~= delimiters_before(text@, i + 1));
        }
        i = i + 1;
    }
    v
}

/// Replaces each pair of delimiters of `text` at `delims` (the first with
/// the second, the third with the fourth, …), and what the pair encloses,
/// by the matching entry of `rendered`; the text around the pairs is kept.
pub fn splice_equations(text: &str, delims: &Vec<usize>, rendered: &Vec<String>) -> (r: String)
    requires
        positions_in(text@, ints(delims@)),
        rendered@.len() == delims@.len() / 2,
    ensures
        r@ == spliced(text@, ints(delims@), views(rendered@), 0, 0),
{
    let ghost t = text@;
    let ghost d = ints(delims@);
    let ghost rs = views(rendered@);
    let n = text.unicode_len();
    let len = delims.len();
    let pairs = len / 2;
    let mut out = String::new();
    let mut from: usize = 0;
    let mut k: usize = 0;
    while k < pairs
        invariant
            n == t.len(),
            t == text@,
            len == delims@.len(),
            pairs == len / 2,
            rendered@.len() == pairs,
            positions_in(t, d),
            d == ints(delims@),
            rs == views(rendered@),
            k <= pairs,
            from <= n,
            k == 0 ==> from == 0,
            k > 0 ==> from == d[2 * k - 1] + 1,
            out@ + spliced(t, d, rs, k as int, from as int) == spliced(t, d, rs, 0, 0),
        decreases pairs - k,
    {
        proof {
            lemma_pair_index(k as int, delims@.len() as int);
        }
        let a = delims[2 * k];
        let b = delims[2 * k + 1];
        assert(2 * k + 1 < d.len());
        assert(d[2 * k as int] == a as int);
        assert(d[2 * k + 1] == b as int);
        assert(d[2 * k as int] < d[2 * k + 1]);
        assert(b < n);
        proof {
            if k > 0 {
                assert(d[2 * k - 1] < d[2 * k as int]);
            }
        }
        assert(from <= a);
        let ghost before = out@;
        let lit = text.substring_char(from, a);
        out.append(lit);
        out.append(rendered[k].as_str());
        assert(rendered@[k as int]@ == rs[k as int]);
        assert(before + spliced(t, d, rs, k as int, from as int) =~= out@ + spliced(
            t,
            d,
            rs,
            k + 1,
            b + 1,
        ));
        from = b + 1;
        k = k + 1;
    }
    let ghost before = out@;
    let rest = text.substring_char(from, n);
    out.append(rest);
    assert(out@ =~= before + spliced(t, d, rs, k as int, from as int));
    out
}

/// Renders the mathematics in `text`.
///
/// Text of at most two characters is returned as it is. Text of more than
/// four characters that, trimmed, is `$$…$$` is one display equation, whose
/// body may hold no further `$`. Otherwise an odd number of unescaped `$`,
/// a lone one included, is an error; with none the text is returned as it
/// is; and otherwise they are paired left to right and each pair is
/// rendered inline. The
/// flag says whether math was rendered.
pub fn parse_equation(text: &str) -> (r: Result<(String, bool), MarkupError>)
    ensures
        outcome_view(r) == equation_markup(text@),
{
    let n = text.unicode_len();
    if n <= 2 {
        return Ok((text.to_owned(), false));
    }
    let (a, b) = trim_bounds(text);
    if n > 4 && b - a >= 4 && text.get_char(a) == '$' && text.get_char(a + 1) == '$' && text.get_char(b - 1)
        == '$' && text.get_char(b - 2) == '$' {
        let body = text.substring_char(a + 2, b - 2);
        assert(body@ =~= display_body(text@));
        if contains_char(body, '$') {
            return Err(MarkupError::NestedDelimiter);
        }
        return match render_math(body, true) {
            Ok(m) => Ok((m, true)),
            Err(_) => Err(MarkupError::MathRender),
        };
    }
    assert(!is_display(text@));
    let d = delimiter_positions(text);
    let ghost dd = delimiters(text@);
    proof {
        lemma_delimiters(text@);
    }
    assert(d@.len() == dd.len());
    if d.len() % 2 == 1 {
        return Err(MarkupError::UnbalancedDelimiters);
    }
    if d.len() == 0 {
        return Ok((text.to_owned(), false));
    }
    let len = d.len();
    let pairs = len / 2;
    let mut rendered: Vec<String> = Vec::new();
    let mut k: usize = 0;
    while k < pairs
        invariant
            n == text@.len(),
            len == d@.len(),
            pairs == len / 2,
            ints(d@) == dd,
            dd == delimiters(text@),
            positions_in(text@, dd),
            k <= pairs,
            rendered@.len() == k,
            forall|j: int|
                0 <= j < k ==> katex_render(pair_text(text@, dd, j), false) == Some(
                    (#[trigger] rendered@[j])@,
                ),
            n > 2,
            !is_display(text@),
            dd.len() >= 2,
            dd.len() % 2 == 0,
        decreases pairs - k,
    {
        proof {
            lemma_pair_index(k as int, d@.len() as int);
        }
        let lo = d[2 * k];
        let hi = d[2 * k + 1];
        assert(dd[2 * k as int] == lo as int);
        assert(dd[2 * k + 1] == hi as int);
        assert(dd[2 * k as int] < dd[2 * k + 1]);
        let expr = text.substring_char(lo + 1, hi);
        assert(expr@ == pair_text(text@, dd, k as int));
        match render_math(expr, false) {
            Ok(m) => rendered.push(m),
            Err(_) => {
                assert(!pairs_render(text@, dd));
                return Err(MarkupError::MathRender);
            },
        }
        k = k + 1;
    }
    assert forall|j: int| 0 <= j < dd.len() / 2 implies (#[trigger] katex_render(
        pair_text(text@, dd, j),
        false,
    )) is Some by {
        assert(katex_render(pair_text(text@, dd, j), false) == Some(rendered@[j]@));
    }
    assert(views(rendered@) =~= inline_renders(text@, dd));
    let out = splice_equations(text, &d, &rendered);
    Ok((out, true))
}

} // verus!
