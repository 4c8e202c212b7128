//! Figure markup for an image: the URL it is served from, its scaled size,
//! its caption and alternative text.

use vstd::prelude::*;

verus! {

/// The character of the decimal digit `d`.
pub open spec fn digit_char(d: nat) -> char {
    if d == 0 {
        '0'
    } else if d == 1 {
        '1'
    } else if d == 2 {
        '2'
    } else if d == 3 {
        '3'
    } else if d == 4 {
        '4'
    } else if d == 5 {
        '5'
    } else if d == 6 {
        '6'
    } else if d == 7 {
        '7'
    } else if d == 8 {
        '8'
    } else {
        '9'
    }
}

/// `n` written in decimal.
pub open spec fn decimal_text(n: nat) -> Seq<char>
    decreases n,
{
    if n < 10 {
        seq![digit_char(n)]
    } else {
        decimal_text(n / 10).push(digit_char(n % 10))
    }
}

fn digit_str(d: u128) -> (r: &'static str)
    requires
        d < 10,
    ensures
        r@ == seq![digit_char(d as nat)],
{
    proof {
        reveal_strlit("0");
        reveal_strlit("1");
        reveal_strlit("2");
        reveal_strlit("3");
        reveal_strlit("4");
        reveal_strlit("5");
        reveal_strlit("6");
        reveal_strlit("7");
        reveal_strlit("8");
        reveal_strlit("9");
    }
    if d == 0 {
        "0"
    } else if d == 1 {
        "1"
    } else if d == 2 {
        "2"
    } else if d == 3 {
        "3"
    } else if d == 4 {
        "4"
    } else if d == 5 {
        "5"
    } else if d == 6 {
        "6"
    } else if d == 7 {
        "7"
    } else if d == 8 {
        "8"
    } else {
        "9"
    }
}

/// `n` written in decimal.
pub fn decimal_string(n: u128) -> (r: String)
    ensures
        r@ == decimal_text(n as nat),
    decreases n,
{
    if n < 10 {
        String::from_str(digit_str(n))
    } else {
        let mut s = decimal_string(n / 10);
        s.append(digit_str(n % 10));
        s
    }
}

/// `images/` stands in `s` at `i`.
pub open spec fn images_at(s: Seq<char>, i: int) -> bool {
    &&& 0 <= i
    &&& i + 7 <= s.len()
    &&& s[i] == 'i'
    &&& s[i + 1] == 'm'
    &&& s[i + 2] == 'a'
    &&& s[i + 3] == 'g'
    &&& s[i + 4] == 'e'
    &&& s[i + 5] == 's'
    &&& s[i + 6] == '/'
}

/// `s` from `i` on, with every `images/` replaced by `/images/`, left to
/// right.
pub open spec fn rebased(s: Seq<char>, i: int) -> Seq<char>
    decreases s.len() - i,
{
    if i >= s.len() || i < 0 {
        Seq::empty()
    } else if images_at(s, i) {
        "/images/"@ + rebased(s, i + 7)
    } else {
        seq![s[i]] + rebased(s, i + 1)
    }
}

/// Position of the last `.` before `j`, or -1.
pub open spec fn last_dot(u: Seq<char>, j: int) -> int
    decreases j,
{
    if j <= 0 {
        -1
    } else if u[j - 1] == '.' {
        j - 1
    } else {
        last_dot(u, j - 1)
    }
}

/// An extension of the images that are served converted to WebP.
pub open spec fn converts_to_webp(e: Seq<char>) -> bool {
    ||| e == seq!['j', 'p', 'g']
    ||| e == seq!['j', 'p', 'e', 'g']
    ||| e == seq!['p', 'n', 'g']
}

/// The URL an image is served from: under `/images/`, and with the
/// extension `.webp` in place of `.jpg`, `.jpeg` or `.png`.
pub open spec fn served_url(url: Seq<char>) -> Seq<char> {
    let u = rebased(url, 0);
    let d = last_dot(u, u.len() as int);
    if d >= 0 && converts_to_webp(u.subrange(d + 1, u.len() as int)) {
        u.subrange(0, d) + ".webp"@
    } else {
        u
    }
}

fn images_here(s: &str, n: usize, i: usize) -> (r: bool)
    requires
        n == s@.len(),
    ensures
        r == images_at(s@, i as int),
{
    i < n && n - i >= 7 && s.get_char(i) == 'i' && s.get_char(i + 1) == 'm' && s.get_char(i + 2)
        == 'a' && s.get_char(i + 3) == 'g' && s.get_char(i + 4) == 'e' && s.get_char(i + 5) == 's'
        && s.get_char(i + 6) == '/'
}

fn rebase(s: &str) -> (r: String)
    ensures
        r@ == rebased(s@, 0),
{
    let n = s.unicode_len();
    let mut out = String::new();
    let mut i: usize = 0;
    while i < n
        invariant
            n == s@.len(),
            i <= n,
            out@ + rebased(s@, i as int) == rebased(s@, 0),
        decreases n - i,
    {
        let ghost before = out@;
        if images_here(s, n, i) {
            out.append("/images/");
            assert(before + rebased(s@, i as int) =~= out@ + rebased(s@, i + 7));
            i = i + 7;
        } else {
            out.append(s.substring_char(i, i + 1));
            assert(before + rebased(s@, i as int) =~= out@ + rebased(s@, i + 1));
            i = i + 1;
        }
    }
    assert(out@ =~= rebased(s@, 0));
    out
}

fn is_webp_source(s: &str, from: usize, to: usize) -> (r: bool)
    requires
        from <= to <= s@.len(),
    ensures
        r == converts_to_webp(s@.subrange(from as int, to as int)),
{
    let e = s.substring_char(from, to);
    let n = e.unicode_len();
    let r = if n == 3 {
        (e.get_char(0) == 'j' && e.get_char(1) == 'p' && e.get_char(2) == 'g') || (e.get_char(0)
            == 'p' && e.get_char(1) == 'n' && e.get_char(2) == 'g')
    } else if n == 4 {
        e.get_char(0) == 'j' && e.get_char(1) == 'p' && e.get_char(2) == 'e' && e.get_char(3)
            == 'g'
    } else {
        false
    };
    assert(r ==> converts_to_webp(e@)) by {
        if n == 3 && e@[0] == 'j' && e@[1] == 'p' && e@[2] == 'g' {
            assert(e@ =~= seq!['j', 'p', 'g']);
        }
        if n == 3 && e@[0] == 'p' && e@[1] == 'n' && e@[2] == 'g' {
            assert(e@ =~= seq!['p', 'n', 'g']);
        }
        if n == 4 && e@[0] == 'j' && e@[1] == 'p' && e@[2] == 'e' && e@[3] == 'g' {
            assert(e@ =~= seq!['j', 'p', 'e', 'g']);
        }
    }
    r
}

/// The URL an image is served from (see `served_url`).
pub fn modify_url(url: &str) -> (r: String)
    ensures
        r@ == served_url(url@),
{
    let u = rebase(url);
    let n = u.as_str().unicode_len();
    let mut j: usize = n;
    while j > 0 && u.as_str().get_char(j - 1) != '.'
        invariant
            n == u@.len(),
            j <= n,
            last_dot(u@, j as int) == last_dot(u@, n as int),
        decreases j,
    {
        j = j - 1;
    }
    if j > 0 && is_webp_source(u.as_str(), j, n) {
        let mut r = u.as_str().substring_char(0, j - 1).to_owned();
        r.append(".webp");
        r
    } else {
        u
    }
}

/// The start of a figure's markup, up to its alternative text: the image at
/// `url` that is `width` by `height` pixels, shown at `scale` percent (all
/// of it when there is none).
pub open spec fn figure_head(url: Seq<char>, scale: Option<u64>, width: nat, height: nat) -> Seq<
    char,
> {
    let p: nat = match scale {
        Some(p) => p as nat,
        None => 100,
    };
    "<figure>\n    <img src=\""@ + served_url(url) + "\" width=\""@ + decimal_text(width * p / 100)
        + "\" heigth=\""@ + decimal_text(height * p / 100) + "\" alt=\""@
}

/// The figure markup of an image (see `figure_head`), with `caption` as its
/// caption and alternative text, or a fixed description where it has none.
pub open spec fn figure_markup(
    url: Seq<char>,
    caption: Option<Seq<char>>,
    scale: Option<u64>,
    width: nat,
    height: nat,
) -> Seq<char> {
    let alt = match caption {
        Some(c) => c,
        None => "No description"@,
    };
    let caption_html = match caption {
        Some(c) => "<figcaption>"@ + c + "</figcaption>"@,
        None => Seq::empty(),
    };
    figure_head(url, scale, width, height) + alt + "\">\n    "@ + caption_html + "\n    </figure>"@
}

/// Builds the figure markup of an image (see `figure_markup`).
pub fn create_figure(url: &str, caption: Option<String>, scale: Option<u64>, width: u64, height: u64) -> (r: String)
    ensures
        r@ == figure_markup(
            url@,
            match caption {
                Some(c) => Some(c@),
                None => None,
            },
            scale,
            width as nat,
            height as nat,
        ),
{
    let p: u64 = match scale {
        Some(p) => p,
        None => 100,
    };
    assert((width as nat) * (p as nat) <= 0xffff_ffff_ffff_ffffnat * 0xffff_ffff_ffff_ffffnat)
        by (nonlinear_arith)
        requires
            width <= 0xffff_ffff_ffff_ffffnat,
            p <= 0xffff_ffff_ffff_ffffnat,
    ;
    assert((height as nat) * (p as nat) <= 0xffff_ffff_ffff_ffffnat * 0xffff_ffff_ffff_ffffnat)
        by (nonlinear_arith)
        requires
            height <= 0xffff_ffff_ffff_ffffnat,
            p <= 0xffff_ffff_ffff_ffffnat,
    ;
    let w = (width as u128) * (p as u128) / 100;
    let h = (height as u128) * (p as u128) / 100;
    assert((width as u128) * (p as u128) == (width as nat) * (p as nat)) by (nonlinear_arith);
    assert((height as u128) * (p as u128) == (height as nat) * (p as nat)) by (nonlinear_arith);
    let mut out = String::from_str("<figure>\n    <img src=\"");
    out.append(modify_url(url).as_str());
    out.append("\" width=\"");
    out.append(decimal_string(w).as_str());
    out.append("\" heigth=\"");
    out.append(decimal_string(h).as_str());
    out.append("\" alt=\"");
    match &caption {
        Some(c) => out.append(c.as_str()),
        None => out.append("No description"),
    }
    out.append("\">\n    ");
    match &caption {
        Some(c) => {
            out.append("<figcaption>");
            out.append(c.as_str());
            out.append("</figcaption>");
        },
        None => {},
    }
    out.append("\n    </figure>");
    out
}

/// How an image file is published.
#[derive(Debug, Clone, Copy, PartialEq, Eq, Structural)]
pub enum Encoding {
    /// Re-encoded as lossless WebP.
    WebpLossless,
    /// Re-encoded as lossy WebP.
    WebpLossy,
    /// Copied as it is.
    Copy,
}

/// How the image file `name` is published: PNG as lossless WebP, JPEG as
/// lossy WebP, anything else copied. The extension is what follows the last
/// `.`, where that `.` does not open the name.
pub open spec fn encoding_of(name: Seq<char>) -> Encoding {
    let d = last_dot(name, name.len() as int);
    let ext = name.subrange(d + 1, name.len() as int);
    if d > 0 && converts_to_webp(ext) {
        if ext == seq!['p', 'n', 'g'] {
            Encoding::WebpLossless
        } else {
            Encoding::WebpLossy
        }
    } else {
        Encoding::Copy
    }
}

/// How the image file `name` is published (see `encoding_of`).
pub fn encoding_for(name: &str) -> (r: Encoding)
    ensures
        r == encoding_of(name@),
{
    let n = name.unicode_len();
    let mut j: usize = n;
    while j > 0 && name.get_char(j - 1) != '.'
        invariant
            n == name@.len(),
            j <= n,
            last_dot(name@, j as int) == last_dot(name@, n as int),
        decreases j,
    {
        j = j - 1;
    }
    if j > 1 && is_webp_source(name, j, n) {
        let png = n - j == 3 && name.get_char(j) == 'p' && name.get_char(j + 1) == 'n'
            && name.get_char(j + 2) == 'g';
        assert(png ==> name@.subrange(j as int, n as int) =~= seq!['p', 'n', 'g']);
        assert(name@.subrange(j as int, n as int) == seq!['p', 'n', 'g'] ==> png) by {
            let png_chars = seq!['p', 'n', 'g'];
            assert(png_chars.len() == 3 && png_chars[0] == 'p' && png_chars[1] == 'n' && png_chars[2] == 'g');
            if name@.subrange(j as int, n as int) == png_chars {
                assert(name@.subrange(j as int, n as int)[0] == 'p');
                assert(name@.subrange(j as int, n as int)[1] == 'n');
                assert(name@.subrange(j as int, n as int)[2] == 'g');
            }
        }
        if png {
            Encoding::WebpLossless
        } else {
            Encoding::WebpLossy
        }
    } else {
        Encoding::Copy
    }
}

/// A side of `side` pixels at `percent` percent, rounded down, and at most
/// the largest `u32`.
pub open spec fn scaled_side(side: u32, percent: u64) -> u32 {
    let s = side as nat * percent as nat / 100;
    if s > u32::MAX {
        u32::MAX
    } else {
        s as u32
    }
}

/// The size of an image of `width` by `height` pixels shown at `percent`
/// percent.
pub fn scaled_size(width: u32, height: u32, percent: u64) -> (r: (u32, u32))
    ensures
        r == (scaled_side(width, percent), scaled_side(height, percent)),
{
    assert((width as nat) * (percent as nat) <= 0xffff_ffff_ffff_ffffnat * 0xffff_ffff_ffff_ffffnat)
        by (nonlinear_arith)
        requires
            width <= 0xffff_ffff_ffff_ffffnat,
            percent <= 0xffff_ffff_ffff_ffffnat,
    ;
    assert((height as nat) * (percent as nat) <= 0xffff_ffff_ffff_ffffnat * 0xffff_ffff_ffff_ffffnat)
        by (nonlinear_arith)
        requires
            height <= 0xffff_ffff_ffff_ffffnat,
            percent <= 0xffff_ffff_ffff_ffffnat,
    ;
    let w = (width as u128) * (percent as u128) / 100;
    let h = (height as u128) * (percent as u128) / 100;
    let w2: u32 = if w > 0xffff_ffff {
        0xffff_ffff
    } else {
        w as u32
    };
    let h2: u32 = if h > 0xffff_ffff {
        0xffff_ffff
    } else {
        h as u32
    };
    (w2, h2)
}

} // verus!
