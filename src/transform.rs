//! The event transformer: a pull-based rewrite of a document's token stream
//! that renders equations, highlights code blocks and gathers images into
//! figures, and records whether math was used and the scale of each image.

use vstd::prelude::*;

use std::collections::VecDeque;

use crate::annotate::{base_name, basename, width_annotation, width_percent};
use crate::equation::{
    closes_display, contains_char, equation_markup, opens_display, parse_equation,
};
use crate::error::MarkupError;
use crate::highlight::{highlight_code, highlighted, Highlighter};
use crate::registry::ImageScales;
use crate::text::{trim, trim_bounds, trimmed};

verus! {

/// One unit of a document's token stream. The transformer reads `Text`,
/// `ImageStart`, `CodeBlockStart` and `CodeBlockEnd`, writes `Markup` and
/// `Figure`, and hands every other token on untouched.
#[derive(Debug, PartialEq)]
pub enum Token<O> {
    /// A run of literal text.
    Text(String),
    /// The start of an image.
    ImageStart { url: String, title: String },
    /// The start of a code block, with what follows its opening fence.
    CodeBlockStart { fence_info: Option<String> },
    /// The end of a code block.
    CodeBlockEnd,
    /// Markup to be written out as it is.
    Markup(String),
    /// An image, with its caption and its scale in percent, for the figure
    /// renderer, which needs the image's size.
    Figure { url: String, caption: Option<String>, scale: Option<u64> },
    /// Anything else, which the transformer does not read.
    Other(O),
}

/// What the transformer does with the tokens ahead of it.
pub enum Step {
    /// Hand the first token on as it is.
    Pass,
    /// Render the equations of `text`, made of the first `consumed` tokens.
    Math { consumed: nat, text: Seq<char> },
    /// Highlight `code`, the body of the code block made of the first
    /// `consumed` tokens, in the language `lang`.
    Code { consumed: nat, code: Seq<char>, lang: Option<Seq<char>> },
    /// Make a figure of the image made of the first `consumed` tokens.
    Figure { consumed: nat, url: Seq<char>, caption: Option<Seq<char>>, scale: Option<u64> },
    /// Stop on a structural error.
    Fail(MarkupError),
}

pub open spec fn string_opt(o: Option<String>) -> Option<Seq<char>> {
    match o {
        Some(s) => Some(s@),
        None => None,
    }
}

/// The text of a `Text` token; nothing for any other.
pub open spec fn text_of<O>(t: Token<O>) -> Seq<char> {
    match t {
        Token::Text(x) => x@,
        _ => Seq::empty(),
    }
}

/// The text of the tokens `s[i..j]`, in their order; tokens other than text
/// add nothing.
pub open spec fn texts<O>(s: Seq<Token<O>>, i: int, j: int) -> Seq<char>
    decreases j - i,
{
    if j <= i {
        Seq::empty()
    } else {
        texts(s, i, j - 1) + text_of(s[j - 1])
    }
}

/// The first position at or after `i` that holds no `Text` (the length when
/// there is none).
pub open spec fn first_non_text<O>(s: Seq<Token<O>>, i: int) -> int
    decreases s.len() - i,
{
    if i >= s.len() {
        s.len() as int
    } else if s[i] is Text {
        first_non_text(s, i + 1)
    } else {
        i
    }
}

/// A `Text` token whose trimmed text ends with `$$`.
pub open spec fn closes_equation<O>(t: Token<O>) -> bool {
    t is Text && closes_display(trimmed(text_of(t)))
}

/// The first position at or after `i` whose token closes a display equation
/// (the length when there is none).
pub open spec fn closing_text<O>(s: Seq<Token<O>>, i: int) -> int
    decreases s.len() - i,
{
    if i >= s.len() {
        s.len() as int
    } else if closes_equation(s[i]) {
        i
    } else {
        closing_text(s, i + 1)
    }
}

/// Text that opens a display equation and does not close it: trimmed, it
/// begins with `$$` and has no second `$$` at its end.
pub open spec fn opens_equation(x: Seq<char>) -> bool {
    opens_display(trimmed(x)) && !(trimmed(x).len() >= 4 && closes_display(trimmed(x)))
}

/// What the transformer does with `s`, the tokens ahead of it, when it is
/// idle.
pub open spec fn step<O>(s: Seq<Token<O>>) -> Step {
    match s[0] {
        Token::Text(x) => {
            if !x@.contains('$') {
                Step::Pass
            } else if opens_equation(x@) {
                let j = closing_text(s, 1);
                if j < s.len() {
                    Step::Math { consumed: (j + 1) as nat, text: texts(s, 0, j + 1) }
                } else {
                    Step::Fail(MarkupError::UnterminatedDisplayEquation)
                }
            } else {
                Step::Math { consumed: 1, text: trimmed(x@) }
            }
        },
        Token::CodeBlockStart { fence_info } => {
            let j = first_non_text(s, 1);
            if j >= s.len() {
                Step::Fail(MarkupError::UnterminatedCodeBlock)
            } else if s[j] is CodeBlockEnd {
                Step::Code { consumed: (j + 1) as nat, code: texts(s, 1, j), lang: string_opt(fence_info) }
            } else {
                Step::Fail(MarkupError::StrayTokenInCodeBlock)
            }
        },
        Token::ImageStart { url, title } => {
            let cap = s.len() > 1 && s[1] is Text;
            let i: int = if cap { 2 } else { 1 };
            let scale = if i < s.len() && s[i] is Text {
                width_annotation(text_of(s[i]))
            } else {
                None
            };
            Step::Figure {
                consumed: (if scale is Some { i + 1 } else { i }) as nat,
                url: url@,
                caption: if cap { Some(text_of(s[1])) } else { None },
                scale,
            }
        },
        _ => Step::Pass,
    }
}

/// The state of a transformer: the tokens ahead of it, whether math was
/// rendered, the image scales recorded, and whether it stopped on an error.
pub struct IterView<O> {
    pub pending: Seq<Token<O>>,
    pub has_katex: bool,
    pub scales: Map<Seq<char>, u64>,
    pub failed: bool,
}

/// The transformer goes from `a` to `b` and hands out `r`.
pub open spec fn emits<O>(a: IterView<O>, b: IterView<O>, r: Option<Result<Token<O>, MarkupError>>) -> bool {
    if a.failed || a.pending.len() == 0 {
        r is None && b == a
    } else {
        let rest = |k: nat| a.pending.subrange(k as int, a.pending.len() as int);
        match step(a.pending) {
            Step::Pass => {
                &&& r == Some(Ok::<Token<O>, MarkupError>(a.pending[0]))
                &&& b == IterView { pending: rest(1), ..a }
            },
            Step::Math { consumed, text } => {
                &&& b.pending == rest(consumed)
                &&& b.scales == a.scales
                &&& match r {
                    Some(Ok(Token::Markup(m))) => {
                        &&& equation_markup(text) matches Ok((mm, used))
                        &&& mm == m@
                        &&& b.has_katex == (a.has_katex || used)
                        &&& !b.failed
                    },
                    Some(Err(e)) => {
                        &&& equation_markup(text) == Err::<(Seq<char>, bool), MarkupError>(e)
                        &&& b.has_katex == a.has_katex
                        &&& b.failed
                    },
                    _ => false,
                }
            },
            Step::Code { consumed, code, lang } => {
                &&& b.pending == rest(consumed)
                &&& b.scales == a.scales
                &&& b.has_katex == a.has_katex
                &&& match r {
                    Some(Ok(Token::Markup(m))) => highlighted(code, lang) == Some(m@) && !b.failed,
                    Some(Err(e)) => {
                        &&& e == MarkupError::Highlight
                        &&& highlighted(code, lang) is None
                        &&& b.failed
                    },
                    _ => false,
                }
            },
            Step::Figure { consumed, url, caption, scale } => {
                &&& b.pending == rest(consumed)
                &&& b.has_katex == a.has_katex
                &&& !b.failed
                &&& b.scales == match scale {
                    Some(n) => a.scales.insert(basename(url), n),
                    None => a.scales,
                }
                &&& r matches Some(Ok(Token::Figure { url: u, caption: c, scale: sc }))
                &&& u@ == url
                &&& string_opt(c) == caption
                &&& sc == scale
            },
            Step::Fail(e) => {
                &&& r == Some(Err::<Token<O>, MarkupError>(e))
                &&& b == IterView { failed: true, ..a }
            },
        }
    }
}

/// The transformer over one document's tokens. Each call of `next` rewrites
/// as many tokens as one output token needs. After an error it hands out
/// nothing more: a document is rendered whole or not at all.
pub struct EventIterator<'h, O> {
    pending: VecDeque<Token<O>>,
    highlighter: &'h Highlighter,
    has_katex: bool,
    image_scale: ImageScales,
    failed: bool,
}

impl<'h, O> View for EventIterator<'h, O> {
    type V = IterView<O>;

    closed spec fn view(&self) -> IterView<O> {
        IterView {
            pending: self.pending@,
            has_katex: self.has_katex,
            scales: self.image_scale@,
            failed: self.failed,
        }
    }
}

fn text_token_closes<O>(t: &Token<O>) -> (r: bool)
    ensures
        r == closes_equation(*t),
{
    match t {
        Token::Text(x) => {
            let tr = trim(x.as_str());
            let n = tr.unicode_len();
            n >= 2 && tr.get_char(n - 1) == '$' && tr.get_char(n - 2) == '$'
        },
        _ => false,
    }
}

/// Where the display equation that opens at the front of `q` closes.
fn closing_position<O>(q: &VecDeque<Token<O>>, from: usize) -> (r: usize)
    requires
        from <= q@.len(),
    ensures
        r == closing_text(q@, from as int),
{
    let n = q.len();
    let mut j = from;
    while j < n && !text_token_closes(&q[j])
        invariant
            n == q@.len(),
            from <= j <= n,
            closing_text(q@, j as int) == closing_text(q@, from as int),
        decreases n - j,
    {
        j = j + 1;
    }
    j
}

fn is_text<O>(t: &Token<O>) -> (r: bool)
    ensures
        r == t is Text,
{
    match t {
        Token::Text(_) => true,
        _ => false,
    }
}

/// Where the run of text tokens from `from` on ends.
fn text_run_end<O>(q: &VecDeque<Token<O>>, from: usize) -> (r: usize)
    requires
        from <= q@.len(),
    ensures
        r == first_non_text(q@, from as int),
{
    let n = q.len();
    let mut j = from;
    while j < n && is_text(&q[j])
        invariant
            n == q@.len(),
            from <= j <= n,
            first_non_text(q@, j as int) == first_non_text(q@, from as int),
        decreases n - j,
    {
        j = j + 1;
    }
    j
}

/// The text of the tokens `q[i..j]`, in their order.
fn gather_texts<O>(q: &VecDeque<Token<O>>, i: usize, j: usize) -> (r: String)
    requires
        i <= j <= q@.len(),
    ensures
        r@ == texts(q@, i as int, j as int),
{
    let mut out = String::new();
    let mut k = i;
    while k < j
        invariant
            i <= k <= j,
            j <= q@.len(),
            out@ == texts(q@, i as int, k as int),
        decreases j - k,
    {
        match &q[k] {
            Token::Text(x) => {
                out.append(x.as_str());
            },
            _ => {},
        }
        assert(out@ =~= texts(q@, i as int, k + 1));
        k = k + 1;
    }
    out
}

fn clone_opt(o: &Option<String>) -> (r: Option<String>)
    ensures
        string_opt(r) == string_opt(*o),
{
    match o {
        Some(s) => Some(s.clone()),
        None => None,
    }
}

impl<'h, O> EventIterator<'h, O> {
    pub closed spec fn wf(&self) -> bool {
        self.image_scale.wf()
    }

    /// A transformer over `tokens`, with nothing recorded yet.
    pub fn new(tokens: Vec<Token<O>>, highlighter: &'h Highlighter) -> (r: Self)
        ensures
            r.wf(),
            r@ == (IterView {
                pending: tokens@,
                has_katex: false,
                scales: Map::empty(),
                failed: false,
            }),
    {
        let mut tokens = tokens;
        let ghost all = tokens@;
        let mut pending: VecDeque<Token<O>> = VecDeque::new();
        while tokens.len() > 0
            invariant
                tokens@ + pending@ == all,
            decreases tokens@.len(),
        {
            match tokens.pop() {
                Some(t) => {
                    let ghost before = pending@;
                    pending.push_front(t);
                    assert(tokens@ + pending@ =~= all);
                },
                None => {},
            }
        }
        assert(pending@ =~= all);
        EventIterator {
            pending,
            highlighter,
            has_katex: false,
            image_scale: ImageScales::new(),
            failed: false,
        }
    }

    /// Records that math was rendered.
    pub fn enable_katex(&mut self)
        ensures
            final(self)@ == (IterView { has_katex: true, ..old(self)@ }),
            final(self).wf() == old(self).wf(),
    {
        self.has_katex = true;
    }

    /// Records `percent` as the scale of the image named `name`.
    pub fn add_image(&mut self, name: String, percent: u64)
        requires
            old(self).wf(),
        ensures
            final(self).wf(),
            final(self)@ == (IterView { scales: old(self)@.scales.insert(name@, percent), ..old(self)@ }),
    {
        self.image_scale.insert(name, percent);
    }

    /// Whether math was rendered so far.
    pub fn has_katex(&self) -> (r: bool)
        ensures
            r == self@.has_katex,
    {
        self.has_katex
    }

    /// The image scales recorded so far.
    pub fn image_scale(&self) -> (r: &ImageScales)
        requires
            self.wf(),
        ensures
            r.wf(),
            r@ == self@.scales,
    {
        &self.image_scale
    }

    fn drop_front(&mut self, k: usize)
        requires
            k <= old(self).pending@.len(),
        ensures
            final(self).pending@ == old(self).pending@.subrange(k as int, old(self).pending@.len() as int),
            final(self).has_katex == old(self).has_katex,
            final(self).image_scale == old(self).image_scale,
            final(self).failed == old(self).failed,
            final(self).highlighter == old(self).highlighter,
    {
        let mut i: usize = 0;
        while i < k
            invariant
                i <= k,
                k <= old(self).pending@.len(),
                self.pending@ == old(self).pending@.subrange(i as int, old(self).pending@.len() as int),
                self.has_katex == old(self).has_katex,
                self.image_scale == old(self).image_scale,
                self.failed == old(self).failed,
                self.highlighter == old(self).highlighter,
            decreases k - i,
        {
            let _ = self.pending.pop_front();
            assert(self.pending@ =~= old(self).pending@.subrange(i + 1, old(self).pending@.len() as int));
            i = i + 1;
        }
    }

    /// Renders the equations of `text`, made of the first `consumed` tokens.
    fn emit_math(&mut self, text: &str, consumed: usize) -> (r: Option<Result<Token<O>, MarkupError>>)
        requires
            old(self).wf(),
            !old(self)@.failed,
            consumed <= old(self).pending@.len(),
        ensures
            final(self).wf(),
            final(self)@.pending == old(self)@.pending.subrange(consumed as int, old(self)@.pending.len() as int),
            final(self)@.scales == old(self)@.scales,
            match r {
                Some(Ok(Token::Markup(m))) => {
                    &&& equation_markup(text@) matches Ok((mm, used))
                    &&& mm == m@
                    &&& final(self)@.has_katex == (old(self)@.has_katex || used)
                    &&& !final(self)@.failed
                },
                Some(Err(e)) => {
                    &&& equation_markup(text@) == Err::<(Seq<char>, bool), MarkupError>(e)
                    &&& final(self)@.has_katex == old(self)@.has_katex
                    &&& final(self)@.failed
                },
                _ => false,
            },
    {
        let out = parse_equation(text);
        self.drop_front(consumed);
        match out {
            Ok((m, used)) => {
                if used {
                    self.has_katex = true;
                }
                Some(Ok(Token::Markup(m)))
            },
            Err(e) => {
                self.failed = true;
                Some(Err(e))
            },
        }
    }

    /// The next rewritten token, an error, or `None` once the tokens are
    /// used up or after an error.
    pub fn next(&mut self) -> (r: Option<Result<Token<O>, MarkupError>>)
        requires
            old(self).wf(),
        ensures
            final(self).wf(),
            emits(old(self)@, final(self)@, r),
    {
        if self.failed || self.pending.len() == 0 {
            return None;
        }
        let n = self.pending.len();
        let ghost s = self.pending@;
        match &self.pending[0] {
            Token::Text(x) => {
                if !contains_char(x.as_str(), '$') {
                    let t = self.pending.pop_front();
                    return match t {
                        Some(t) => Some(Ok(t)),
                        None => None,
                    };
                }
                let (a, b) = trim_bounds(x.as_str());
                let opens = b - a >= 2 && x.as_str().get_char(a) == '$' && x.as_str().get_char(a + 1) == '$';
                let closes = b - a >= 4 && x.as_str().get_char(b - 1) == '$' && x.as_str().get_char(b - 2) == '$';
                assert(opens == opens_display(trimmed(x@)));
                if opens && !closes {
                    let j = closing_position(&self.pending, 1);
                    if j >= n {
                        self.failed = true;
                        return Some(Err(MarkupError::UnterminatedDisplayEquation));
                    }
                    let buffer = gather_texts(&self.pending, 0, j + 1);
                    self.emit_math(buffer.as_str(), j + 1)
                } else {
                    let tr = trim(x.as_str()).to_owned();
                    self.emit_math(tr.as_str(), 1)
                }
            },
            Token::CodeBlockStart { fence_info } => {
                let lang = clone_opt(fence_info);
                let j = text_run_end(&self.pending, 1);
                if j >= n {
                    self.failed = true;
                    return Some(Err(MarkupError::UnterminatedCodeBlock));
                }
                let is_end = match &self.pending[j] {
                    Token::CodeBlockEnd => true,
                    _ => false,
                };
                if !is_end {
                    self.failed = true;
                    return Some(Err(MarkupError::StrayTokenInCodeBlock));
                }
                let code = gather_texts(&self.pending, 1, j);
                let out = highlight_code(self.highlighter, code.as_str(), lang);
                self.drop_front(j + 1);
                match out {
                    Ok(m) => Some(Ok(Token::Markup(m))),
                    Err(e) => {
                        self.failed = true;
                        Some(Err(e))
                    },
                }
            },
            Token::ImageStart { url, .. } => {
                let url = url.clone();
                let caption = if n > 1 {
                    match &self.pending[1] {
                        Token::Text(c) => Some(c.clone()),
                        _ => None,
                    }
                } else {
                    None
                };
                let i: usize = if caption.is_some() { 2 } else { 1 };
                let scale = if i < n {
                    match &self.pending[i] {
                        Token::Text(y) => width_percent(y.as_str()),
                        _ => None,
                    }
                } else {
                    None
                };
                let consumed: usize = if scale.is_some() { i + 1 } else { i };
                self.drop_front(consumed);
                match scale {
                    Some(p) => {
                        let name = base_name(url.as_str()).to_owned();
                        self.image_scale.insert(name, p);
                    },
                    None => {},
                }
                Some(Ok(Token::Figure { url, caption, scale }))
            },
            _ => {
                let t = self.pending.pop_front();
                match t {
                    Some(t) => Some(Ok(t)),
                    None => None,
                }
            },
        }
    }
}

proof fn lemma_closing_text<O>(s: Seq<Token<O>>, i: int)
    requires
        0 <= i <= s.len(),
    ensures
        i <= closing_text(s, i) <= s.len(),
    decreases s.len() - i,
{
    if i < s.len() && !closes_equation(s[i]) {
        lemma_closing_text(s, i + 1);
    }
}

proof fn lemma_first_non_text<O>(s: Seq<Token<O>>, i: int)
    requires
        0 <= i <= s.len(),
    ensures
        i <= first_non_text(s, i) <= s.len(),
        forall|k: int| i <= k < first_non_text(s, i) ==> #[trigger] s[k] is Text,
    decreases s.len() - i,
{
    if i < s.len() && s[i] is Text {
        lemma_first_non_text(s, i + 1);
    }
}

/// Every step that rewrites takes at least one token, and no more than
/// there are.
pub proof fn lemma_step_bounds<O>(s: Seq<Token<O>>)
    requires
        s.len() > 0,
    ensures
        match step(s) {
            Step::Math { consumed, .. } => 1 <= consumed <= s.len(),
            Step::Code { consumed, .. } => 1 <= consumed <= s.len(),
            Step::Figure { consumed, .. } => 1 <= consumed <= s.len(),
            _ => true,
        },
{
    lemma_closing_text(s, 1);
    lemma_first_non_text(s, 1);
}

/// A document's rewritten tokens with its side artifacts.
pub struct Rendered<O> {
    pub tokens: Vec<Token<O>>,
    pub has_katex: bool,
    pub image_scale: ImageScales,
}

/// `vs` is a run of the transformer that hands out `outs`, one per step.
pub open spec fn run_of<O>(vs: Seq<IterView<O>>, outs: Seq<Token<O>>) -> bool {
    &&& vs.len() == outs.len() + 1
    &&& forall|i: int|
        0 <= i < outs.len() ==> emits(
            #[trigger] vs[i],
            vs[i + 1],
            Some(Ok::<Token<O>, MarkupError>(outs[i])),
        )
}

/// Runs the transformer over the whole of `tokens`: every rewritten token,
/// whether math was rendered and the image scales, or the first error, with
/// no partial output.
pub fn transform<O>(tokens: Vec<Token<O>>, highlighter: &Highlighter) -> (r: Result<
    Rendered<O>,
    MarkupError,
>)
    ensures
        match r {
            Ok(done) => exists|vs: Seq<IterView<O>>|
                {
                    &&& #[trigger] run_of(vs, done.tokens@)
                    &&& vs[0] == (IterView {
                        pending: tokens@,
                        has_katex: false,
                        scales: Map::empty(),
                        failed: false,
                    })
                    &&& vs.last().pending.len() == 0
                    &&& !vs.last().failed
                    &&& done.has_katex == vs.last().has_katex
                    &&& done.image_scale.wf()
                    &&& done.image_scale@ == vs.last().scales
                },
            Err(e) => exists|vs: Seq<IterView<O>>, outs: Seq<Token<O>>, b: IterView<O>|
                {
                    &&& #[trigger] run_of(vs, outs)
                    &&& vs[0] == (IterView {
                        pending: tokens@,
                        has_katex: false,
                        scales: Map::empty(),
                        failed: false,
                    })
                    &&& #[trigger] emits(vs.last(), b, Some(Err::<Token<O>, MarkupError>(e)))
                },
        },
        (forall|k: int| 0 <= k < tokens@.len() ==> #[trigger] tokens@[k] is Other) ==> (r matches Ok(
            done,
        ) && done.tokens@ == tokens@ && !done.has_katex && done.image_scale@ == Map::<
            Seq<char>,
            u64,
        >::empty()),
{
    let ghost toks = tokens@;
    let mut it = EventIterator::new(tokens, highlighter);
    let ghost init = it@;
    let ghost mut vs: Seq<IterView<O>> = seq![it@];
    let mut outs: Vec<Token<O>> = Vec::new();
    loop
        invariant
            it.wf(),
            !it@.failed,
            run_of(vs, outs@),
            vs[0] == init,
            toks == tokens@,
            init == (IterView {
                pending: toks,
                has_katex: false,
                scales: Map::<Seq<char>, u64>::empty(),
                failed: false,
            }),
            vs.last() == it@,
        decreases it@.pending.len(),
    {
        let ghost before = it@;
        match it.next() {
            None => {
                let EventIterator { has_katex, image_scale, .. } = it;
                let done = Rendered { tokens: outs, has_katex, image_scale };
                let r: Result<Rendered<O>, MarkupError> = Ok(done);
                assert(before.pending.len() == 0);
                assert(run_of(vs, r->Ok_0.tokens@));
                proof {
                    if forall|k: int| 0 <= k < toks.len() ==> #[trigger] toks[k] is Other {
                        crate::laws::lemma_passthrough_run(toks, vs, outs@);
                    }
                }
                assert(r->Ok_0.image_scale@ == vs.last().scales);
                assert(vs[0] == (IterView {
                    pending: tokens@,
                    has_katex: false,
                    scales: Map::empty(),
                    failed: false,
                }));
                return r;
            },
            Some(Err(e)) => {
                assert(emits(vs.last(), it@, Some(Err::<Token<O>, MarkupError>(e))));
                assert(run_of(vs, outs@));
                proof {
                    if forall|k: int| 0 <= k < toks.len() ==> #[trigger] toks[k] is Other {
                        crate::laws::lemma_passthrough_prefix(toks, vs, outs@, outs@.len() as int);
                        assert(vs.last() == vs[outs@.len() as int]);
                        assert(vs.last().pending[0] == toks[outs@.len() as int]);
                    }
                }
                return Err(e);
            },
            Some(Ok(t)) => {
                proof {
                    let ghost old_outs = outs@;
                    vs = vs.push(it@);
                    assert forall|i: int| 0 <= i < old_outs.len() + 1 implies emits(
                        #[trigger] vs[i],
                        vs[i + 1],
                        Some(Ok::<Token<O>, MarkupError>(old_outs.push(t)[i])),
                    ) by {
                        if i < old_outs.len() {
                            assert(vs[i] == vs.drop_last()[i]);
                        }
                    }
                }
                outs.push(t);
                proof {
                    lemma_step_bounds(before.pending);
                }
            },
        }
    }
}

} // verus!
