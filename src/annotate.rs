//! What the transformer reads around an image: the scale annotation
//! `{… width=N% …}` that may follow its caption, and the base name of its URL.

use vstd::prelude::*;

verus! {

/// The characters of `t` before `j`, without the spaces.
pub open spec fn strip_spaces(t: Seq<char>, j: int) -> Seq<char>
    decreases j,
{
    if j <= 0 {
        Seq::empty()
    } else if t[j - 1] == ' ' {
        strip_spaces(t, j - 1)
    } else {
        strip_spaces(t, j - 1).push(t[j - 1])
    }
}

pub open spec fn is_digit(c: char) -> bool {
    '0' <= c && c <= '9'
}

/// `width=` stands in `v` at `p`.
pub open spec fn width_at(v: Seq<char>, p: int) -> bool {
    &&& 0 <= p
    &&& p + 6 <= v.len()
    &&& v[p] == 'w'
    &&& v[p + 1] == 'i'
    &&& v[p + 2] == 'd'
    &&& v[p + 3] == 't'
    &&& v[p + 4] == 'h'
    &&& v[p + 5] == '='
}

/// The first position at or after `i` where `width=` stands (the length
/// when there is none).
pub open spec fn find_width(v: Seq<char>, i: int) -> int
    decreases v.len() - i,
{
    if i >= v.len() {
        v.len() as int
    } else if width_at(v, i) {
        i
    } else {
        find_width(v, i + 1)
    }
}

/// The first position at or after `i` that holds no digit.
pub open spec fn digits_end(v: Seq<char>, i: int) -> int
    decreases v.len() - i,
{
    if i >= v.len() {
        v.len() as int
    } else if is_digit(v[i]) {
        digits_end(v, i + 1)
    } else {
        i
    }
}

/// The number written in decimal by the digits `v[i..j]`.
pub open spec fn decimal(v: Seq<char>, i: int, j: int) -> nat
    decreases j - i,
{
    if j <= i {
        0
    } else {
        decimal(v, i, j - 1) * 10 + ((v[j - 1] as u32 - '0' as u32) as nat)
    }
}

/// The percentage that a scale annotation gives: `t` without its spaces is
/// `{`, anything, `width=`, one or more digits, `%`, anything, `}`, and the
/// number fits in 64 bits.
pub open spec fn width_annotation(t: Seq<char>) -> Option<u64> {
    let v = strip_spaces(t, t.len() as int);
    let p = find_width(v, 0);
    let e = digits_end(v, p + 6);
    if v.len() >= 2 && v[0] == '{' && v[v.len() - 1] == '}' && p < v.len() && e > p + 6 && e
        < v.len() && v[e] == '%' && decimal(v, p + 6, e) <= u64::MAX {
        Some(decimal(v, p + 6, e) as u64)
    } else {
        None
    }
}

/// Position of the last `/` before `j`, or -1.
pub open spec fn last_slash(u: Seq<char>, j: int) -> int
    decreases j,
{
    if j <= 0 {
        -1
    } else if u[j - 1] == '/' {
        j - 1
    } else {
        last_slash(u, j - 1)
    }
}

/// A path without its directories: what follows its last `/`.
pub open spec fn basename(u: Seq<char>) -> Seq<char> {
    u.subrange(last_slash(u, u.len() as int) + 1, u.len() as int)
}

proof fn lemma_find_width(v: Seq<char>, i: int)
    requires
        0 <= i <= v.len(),
    ensures
        i <= find_width(v, i) <= v.len(),
        find_width(v, i) < v.len() ==> width_at(v, find_width(v, i)),
        forall|k: int| i <= k < find_width(v, i) ==> !width_at(v, k),
    decreases v.len() - i,
{
    if i < v.len() && !width_at(v, i) {
        lemma_find_width(v, i + 1);
    }
}

pub proof fn lemma_digits_end(v: Seq<char>, i: int)
    requires
        0 <= i <= v.len(),
    ensures
        i <= digits_end(v, i) <= v.len(),
        digits_end(v, i) < v.len() ==> !is_digit(v[digits_end(v, i)]),
        forall|k: int| i <= k < digits_end(v, i) ==> is_digit(v[k]),
    decreases v.len() - i,
{
    if i < v.len() && is_digit(v[i]) {
        lemma_digits_end(v, i + 1);
    }
}

pub proof fn lemma_decimal_grows(v: Seq<char>, i: int, j: int, k: int)
    requires
        i <= j <= k <= v.len(),
        forall|m: int| i <= m < k ==> is_digit(v[m]),
    ensures
        decimal(v, i, j) <= decimal(v, i, k),
    decreases k - j,
{
    if j < k {
        lemma_decimal_grows(v, i, j, k - 1);
    }
}

/// The characters of `t`, without the spaces.
fn without_spaces(t: &str) -> (v: Vec<char>)
    ensures
        v@ == strip_spaces(t@, t@.len() as int),
{
    let n = t.unicode_len();
    let mut v: Vec<char> = Vec::new();
    let mut i: usize = 0;
    while i < n
        invariant
            n == t@.len(),
            i <= n,
            v@ == strip_spaces(t@, i as int),
        decreases n - i,
    {
        let c = t.get_char(i);
        if c != ' ' {
            v.push(c);
        }
        i = i + 1;
    }
    v
}

fn width_here(v: &Vec<char>, p: usize) -> (r: bool)
    ensures
        r == width_at(v@, p as int),
{
    p < v.len() && v.len() - p >= 6 && v[p] == 'w' && v[p + 1] == 'i' && v[p + 2] == 'd' && v[p
        + 3] == 't' && v[p + 4] == 'h' && v[p + 5] == '='
}

/// Reads a scale annotation `{… width=N% …}`: the percentage `N`, or `None`
/// where `t` has another shape.
pub fn width_percent(t: &str) -> (r: Option<u64>)
    ensures
        r == width_annotation(t@),
{
    let v = without_spaces(t);
    let ghost vv = v@;
    let n = v.len();
    if n < 2 || v[0] != '{' || v[n - 1] != '}' {
        return None;
    }
    let mut p: usize = 0;
    while p < n && !width_here(&v, p)
        invariant
            n == v@.len(),
            p <= n,
            find_width(vv, p as int) == find_width(vv, 0),
            vv == v@,
        decreases n - p,
    {
        p = p + 1;
    }
    proof {
        lemma_find_width(vv, 0);
    }
    if p >= n {
        return None;
    }
    let s = p + 6;
    proof {
        lemma_digits_end(vv, s as int);
    }
    let mut e = s;
    let mut value: u64 = 0;
    while e < n && '0' <= v[e] && v[e] <= '9'
        invariant
            n == v@.len(),
            vv == v@,
            s <= e <= n,
            vv == strip_spaces(t@, t@.len() as int),
            p as int == find_width(vv, 0),
            p < n,
            s == p + 6,
            digits_end(vv, e as int) == digits_end(vv, s as int),
            forall|m: int| s <= m < e ==> is_digit(vv[m]),
            value as nat == decimal(vv, s as int, e as int),
        decreases n - e,
    {
        let d = (v[e] as u32 - '0' as u32) as u64;
        assert(decimal(vv, s as int, e + 1) == value * 10 + d);
        match value.checked_mul(10) {
            Some(m) => match m.checked_add(d) {
                Some(x) => {
                    value = x;
                },
                None => {
                    proof {
                        lemma_digits_end(vv, e as int);
                        lemma_decimal_grows(vv, s as int, e + 1, digits_end(vv, s as int));
                    }
                    return None;
                },
            },
            None => {
                proof {
                    lemma_digits_end(vv, e as int);
                    lemma_decimal_grows(vv, s as int, e + 1, digits_end(vv, s as int));
                }
                return None;
            },
        }
        e = e + 1;
    }
    if e > s && e < n && v[e] == '%' {
        Some(value)
    } else {
        None
    }
}

/// The base name of a path: what follows its last `/`.
pub fn base_name(u: &str) -> (r: &str)
    ensures
        r@ == basename(u@),
{
    let n = u.unicode_len();
    let mut j: usize = n;
    while j > 0 && u.get_char(j - 1) != '/'
        invariant
            n == u@.len(),
            j <= n,
            last_slash(u@, j as int) == last_slash(u@, n as int),
        decreases j,
    {
        j = j - 1;
    }
    u.substring_char(j, n)
}

} // verus!
