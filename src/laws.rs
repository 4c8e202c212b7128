//! Properties of the equation parser and the transformer, proved over the
//! same spec functions that their contracts use.

use vstd::prelude::*;

use crate::equation::{
    closes_display, delimiters, equation_markup, inline_renders, is_display, katex_render,
    lemma_delimiters, pair_text, pairs_render, positions_in, spliced,
};
use crate::annotate::{basename, width_annotation};
use crate::error::MarkupError;
use crate::figure::{figure_head, figure_markup};
use crate::highlight::highlighted;
use crate::text::trimmed;
use crate::transform::{
    closes_equation, closing_text, emits, first_non_text, opens_equation, step, string_opt, text_of,
    run_of, texts, IterView, Step, Token,
};

verus! {

/// Text with an even number, two or more, of unescaped `$`, and that is no
/// display equation, gets one inline rendering per pair of delimiters: the
/// pairs are taken left to right without overlap, the `k`-th enclosing the
/// text between delimiters `2k` and `2k + 1`, and the literal text around
/// them is kept. It fails only where KaTeX refuses one of the pairs.
pub proof fn lemma_inline_pairs(t: Seq<char>)
    requires
        t.len() > 2,
        !is_display(t),
        delimiters(t).len() >= 2,
        delimiters(t).len() % 2 == 0,
    ensures
        positions_in(t, delimiters(t)),
        inline_renders(t, delimiters(t)).len() == delimiters(t).len() / 2,
        pairs_render(t, delimiters(t)) ==> forall|k: int|
            0 <= k < delimiters(t).len() / 2 ==> katex_render(
                #[trigger] pair_text(t, delimiters(t), k),
                false,
            ) == Some(inline_renders(t, delimiters(t))[k]),
        equation_markup(t) == if pairs_render(t, delimiters(t)) {
            Ok::<(Seq<char>, bool), MarkupError>(
                (spliced(t, delimiters(t), inline_renders(t, delimiters(t)), 0, 0), true),
            )
        } else {
            Err(MarkupError::MathRender)
        },
{
    lemma_delimiters(t);
}

/// Text of more than two characters with an odd number of unescaped `$`,
/// a lone one included, that is no display equation fails with a
/// structural error.
pub proof fn lemma_odd_delimiters_fail(t: Seq<char>)
    requires
        t.len() > 2,
        !is_display(t),
        delimiters(t).len() % 2 == 1,
    ensures
        equation_markup(t) == Err::<(Seq<char>, bool), MarkupError>(
            MarkupError::UnbalancedDelimiters,
        ),
        MarkupError::UnbalancedDelimiters.is_structural(),
{
}

/// The text tokens of a code block reach the highlighter joined in their
/// order.
pub proof fn lemma_code_block_in_order<O>(
    fence_info: Option<String>,
    a: String,
    b: String,
    c: String,
    rest: Seq<Token<O>>,
)
    ensures
        step(
            seq![
                Token::CodeBlockStart { fence_info },
                Token::Text(a),
                Token::Text(b),
                Token::Text(c),
                Token::CodeBlockEnd,
            ] + rest,
        ) == (Step::Code { consumed: 5, code: a@ + b@ + c@, lang: string_opt(fence_info) }),
{
    let s = seq![
        Token::CodeBlockStart { fence_info },
        Token::Text(a),
        Token::Text(b),
        Token::Text(c),
        Token::CodeBlockEnd,
    ] + rest;
    assert(s[1] is Text && s[2] is Text && s[3] is Text && s[4] is CodeBlockEnd);
    assert(first_non_text(s, 4) == 4);
    assert(first_non_text(s, 3) == 4);
    assert(first_non_text(s, 2) == 4);
    assert(first_non_text(s, 1) == 4);
    assert(texts(s, 1, 1) =~= Seq::<char>::empty());
    assert(texts(s, 1, 2) =~= a@);
    assert(texts(s, 1, 3) =~= a@ + b@);
    assert(texts(s, 1, 4) =~= a@ + b@ + c@);
}

proof fn lemma_all_text_runs_out<O>(s: Seq<Token<O>>, i: int)
    requires
        1 <= i <= s.len(),
        forall|k: int| 1 <= k < s.len() ==> #[trigger] s[k] is Text,
    ensures
        first_non_text(s, i) == s.len(),
    decreases s.len() - i,
{
    if i < s.len() {
        lemma_all_text_runs_out(s, i + 1);
    }
}

proof fn lemma_never_closes<O>(s: Seq<Token<O>>, i: int)
    requires
        1 <= i <= s.len(),
        forall|k: int| 1 <= k < s.len() ==> !closes_equation(#[trigger] s[k]),
    ensures
        closing_text(s, i) == s.len(),
    decreases s.len() - i,
{
    if i < s.len() {
        lemma_never_closes(s, i + 1);
    }
}

/// A stream that ends inside a code block fails, whatever text the block
/// held.
pub proof fn lemma_unterminated_code_fails<O>(s: Seq<Token<O>>)
    requires
        s.len() > 0,
        s[0] is CodeBlockStart,
        forall|k: int| 1 <= k < s.len() ==> #[trigger] s[k] is Text,
    ensures
        step(s) == Step::Fail(MarkupError::UnterminatedCodeBlock),
{
    lemma_all_text_runs_out(s, 1);
}

/// A stream that ends inside a display equation, with no closing `$$`
/// after the opening one, fails.
pub proof fn lemma_unterminated_display_fails<O>(s: Seq<Token<O>>)
    requires
        s.len() > 0,
        s[0] is Text,
        opens_equation(text_of(s[0])),
        forall|k: int| 1 <= k < s.len() ==> !closes_equation(#[trigger] s[k]),
    ensures
        step(s) == Step::Fail(MarkupError::UnterminatedDisplayEquation),
{
    let x = text_of(s[0]);
    crate::text::lemma_skip_white(x, 0);
    crate::text::lemma_back_white(x, x.len() as int);
    let a = crate::text::trim_start(x);
    assert(crate::text::trimmed(x)[0] == '$');
    assert(x[a] == '$');
    assert(x.contains('$'));
    lemma_never_closes(s, 1);
}

/// A token that the transformer does not read comes out as it went in, and
/// nothing else changes but that it is used up; handed through once more,
/// it again comes out unchanged.
pub proof fn lemma_other_passes_through<O>(
    a: IterView<O>,
    b: IterView<O>,
    r: Option<Result<Token<O>, MarkupError>>,
)
    requires
        !a.failed,
        a.pending.len() > 0,
        a.pending[0] is Other,
        emits(a, b, r),
    ensures
        r == Some(Ok::<Token<O>, MarkupError>(a.pending[0])),
        b.pending == a.pending.drop_first(),
        b.has_katex == a.has_katex,
        b.scales == a.scales,
        step(seq![r->Some_0->Ok_0]) == Step::Pass,
{
    assert(a.pending.subrange(1, a.pending.len() as int) =~= a.pending.drop_first());
}

/// An image with neither caption nor annotation makes a figure without
/// caption or scale, and records no scale.
pub proof fn lemma_bare_image<O>(
    a: IterView<O>,
    b: IterView<O>,
    r: Option<Result<Token<O>, MarkupError>>,
)
    requires
        !a.failed,
        a.pending.len() > 0,
        a.pending[0] is ImageStart,
        a.pending.len() == 1 || !(a.pending[1] is Text),
        emits(a, b, r),
    ensures
        r matches Some(Ok(Token::Figure { caption: None, scale: None, .. })),
        b.scales == a.scales,
        b.pending == a.pending.drop_first(),
{
    assert(a.pending.subrange(1, a.pending.len() as int) =~= a.pending.drop_first());
}

/// A display equation opened in one text token, continued in a second and
/// closed in a third is joined in token order and rendered once, as one
/// step that takes all three tokens.
pub proof fn lemma_display_across_tokens<O>(a: String, b: String, c: String, rest: Seq<Token<O>>)
    requires
        opens_equation(a@),
        !closes_display(trimmed(b@)),
        closes_display(trimmed(c@)),
    ensures
        step(seq![Token::Text(a), Token::Text(b), Token::Text(c)] + rest) == (Step::Math {
            consumed: 3,
            text: a@ + b@ + c@,
        }),
{
    let s = seq![Token::Text(a), Token::Text(b), Token::Text(c)] + rest;
    lemma_opening_has_dollar(a@);
    assert(s[0] == Token::<O>::Text(a));
    assert(s[1] == Token::<O>::Text(b));
    assert(s[2] == Token::<O>::Text(c));
    assert(!closes_equation(s[1]));
    assert(closes_equation(s[2]));
    assert(closing_text(s, 2) == 2);
    assert(closing_text(s, 1) == 2);
    assert(texts(s, 0, 0) =~= Seq::<char>::empty());
    assert(text_of(s[0]) == a@);
    assert(texts(s, 0, 1) =~= a@);
    assert(texts(s, 0, 2) =~= a@ + b@);
    assert(texts(s, 0, 3) =~= a@ + b@ + c@);
}

proof fn lemma_opening_has_dollar(x: Seq<char>)
    requires
        opens_equation(x),
    ensures
        x.contains('$'),
{
    crate::text::lemma_skip_white(x, 0);
    crate::text::lemma_back_white(x, x.len() as int);
    let a = crate::text::trim_start(x);
    assert(trimmed(x)[0] == '$');
    assert(x[a] == '$');
}

/// An image followed by caption text and a scale annotation makes a figure
/// with that caption and scale, takes all three tokens, and records the
/// scale under the base name of the image's URL, replacing any earlier one.
pub proof fn lemma_image_with_caption_and_scale<O>(
    a: IterView<O>,
    b: IterView<O>,
    r: Option<Result<Token<O>, MarkupError>>,
    url: String,
    title: String,
    caption: String,
    note: String,
    n: u64,
)
    requires
        !a.failed,
        a.pending.len() >= 3,
        a.pending[0] == (Token::<O>::ImageStart { url, title }),
        a.pending[1] == Token::<O>::Text(caption),
        a.pending[2] == Token::<O>::Text(note),
        width_annotation(note@) == Some(n),
        emits(a, b, r),
    ensures
        (r matches Some(Ok(Token::Figure { url: u, caption: Some(c), scale: Some(k) })) && u@
            == url@ && c@ == caption@ && k == n),
        b.scales == a.scales.insert(basename(url@), n),
        b.pending == a.pending.subrange(3, a.pending.len() as int),
        b.has_katex == a.has_katex,
{
}

/// Along a run over tokens that the transformer does not read, the state
/// after `i` steps has used up the first `i` tokens, handed each out
/// unchanged, and recorded nothing.
pub proof fn lemma_passthrough_prefix<O>(
    toks: Seq<Token<O>>,
    vs: Seq<IterView<O>>,
    outs: Seq<Token<O>>,
    i: int,
)
    requires
        forall|k: int| 0 <= k < toks.len() ==> #[trigger] toks[k] is Other,
        run_of(vs, outs),
        vs[0] == (IterView {
            pending: toks,
            has_katex: false,
            scales: Map::<Seq<char>, u64>::empty(),
            failed: false,
        }),
        0 <= i <= outs.len(),
    ensures
        i <= toks.len(),
        vs[i] == (IterView {
            pending: toks.subrange(i, toks.len() as int),
            has_katex: false,
            scales: Map::<Seq<char>, u64>::empty(),
            failed: false,
        }),
        forall|k: int| 0 <= k < i ==> outs[k] == toks[k],
    decreases i,
{
    if i > 0 {
        lemma_passthrough_prefix(toks, vs, outs, i - 1);
        let a = vs[i - 1];
        assert(emits(vs[i - 1], vs[i], Some(Ok::<Token<O>, MarkupError>(outs[i - 1]))));
        assert(a.pending.len() > 0);
        assert(a.pending[0] == toks[i - 1]);
        assert(step(a.pending) == Step::Pass);
        assert(a.pending.subrange(1, a.pending.len() as int) =~= toks.subrange(
            i,
            toks.len() as int,
        ));
    } else {
        assert(toks.subrange(0, toks.len() as int) =~= toks);
    }
}

/// A whole run over tokens that the transformer does not read hands every
/// one of them out unchanged and records nothing; so running it again on
/// what came out gives the same tokens once more.
pub proof fn lemma_passthrough_run<O>(toks: Seq<Token<O>>, vs: Seq<IterView<O>>, outs: Seq<Token<O>>)
    requires
        forall|k: int| 0 <= k < toks.len() ==> #[trigger] toks[k] is Other,
        run_of(vs, outs),
        vs[0] == (IterView {
            pending: toks,
            has_katex: false,
            scales: Map::<Seq<char>, u64>::empty(),
            failed: false,
        }),
        vs.last().pending.len() == 0,
    ensures
        outs == toks,
        !vs.last().has_katex,
        vs.last().scales == Map::<Seq<char>, u64>::empty(),
{
    lemma_passthrough_prefix(toks, vs, outs, outs.len() as int);
    assert(outs =~= toks);
}

/// A figure without a caption takes the fixed description as its
/// alternative text and holds no caption element.
pub proof fn lemma_figure_without_caption(url: Seq<char>, scale: Option<u64>, width: nat, height: nat)
    ensures
        figure_markup(url, None, scale, width, height) == figure_head(url, scale, width, height)
            + "No description"@ + "\">\n    "@ + "\n    </figure>"@,
{
    assert(figure_markup(url, None, scale, width, height) =~= figure_head(url, scale, width, height)
        + "No description"@ + "\">\n    "@ + "\n    </figure>"@);
}

/// A code block of three text tokens is highlighted once, on the three
/// texts joined in their order, with the fence's language hint; nothing
/// else is recorded.
pub proof fn lemma_code_block_highlighted<O>(
    a: IterView<O>,
    b: IterView<O>,
    r: Option<Result<Token<O>, MarkupError>>,
    fence_info: Option<String>,
    x: String,
    y: String,
    z: String,
)
    requires
        !a.failed,
        a.pending.len() >= 5,
        a.pending[0] == (Token::<O>::CodeBlockStart { fence_info }),
        a.pending[1] == Token::<O>::Text(x),
        a.pending[2] == Token::<O>::Text(y),
        a.pending[3] == Token::<O>::Text(z),
        a.pending[4] == Token::<O>::CodeBlockEnd,
        emits(a, b, r),
    ensures
        match r {
            Some(Ok(Token::Markup(m))) => highlighted(x@ + y@ + z@, string_opt(fence_info)) == Some(
                m@,
            ),
            Some(Err(e)) => e == MarkupError::Highlight && highlighted(
                x@ + y@ + z@,
                string_opt(fence_info),
            ) is None,
            _ => false,
        },
        b.has_katex == a.has_katex,
        b.scales == a.scales,
        b.pending == a.pending.subrange(5, a.pending.len() as int),
{
    let rest = a.pending.subrange(5, a.pending.len() as int);
    assert(a.pending =~= seq![
        Token::CodeBlockStart { fence_info },
        Token::Text(x),
        Token::Text(y),
        Token::Text(z),
        Token::CodeBlockEnd,
    ] + rest);
    lemma_code_block_in_order(fence_info, x, y, z, rest);
}

} // verus!
