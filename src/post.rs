//! Posts: their metadata, the front matter they start with, and the index
//! page that lists them by year.

use vstd::prelude::*;

use itertools::Itertools;

use crate::figure::{decimal_string, decimal_text};

verus! {

/// A calendar date.
#[derive(Debug, Clone, Copy, PartialEq, Eq, Structural)]
pub struct Date {
    pub year: i32,
    pub month: u32,
    pub day: u32,
}

/// What a post's front matter declares, with the slug and URL made from
/// its title.
pub struct Metadata {
    pub title: String,
    pub date: Date,
    pub slug: String,
    pub tags: Vec<String>,
    pub url: String,
}

pub struct Post {
    pub metadata: Metadata,
    pub contents: String,
}

/// `---` and a line break stand in `s` at `p`.
pub open spec fn rule_at(s: Seq<char>, p: int) -> bool {
    &&& 0 <= p
    &&& p + 4 <= s.len()
    &&& s[p] == '-'
    &&& s[p + 1] == '-'
    &&& s[p + 2] == '-'
    &&& s[p + 3] == '\n'
}

/// The first position at or after `i` where `---` and a line break stand
/// (the length when there is none).
pub open spec fn find_rule(s: Seq<char>, i: int) -> int
    decreases s.len() - i,
{
    if i >= s.len() {
        s.len() as int
    } else if rule_at(s, i) {
        i
    } else {
        find_rule(s, i + 1)
    }
}

/// A post's front matter and the rest: the post opens with a `---` line,
/// and the front matter runs up to the next `---` line, which stays with
/// the rest. `None` where the post has no such front matter.
pub open spec fn front_matter(s: Seq<char>) -> Option<(Seq<char>, Seq<char>)> {
    let e = find_rule(s, 4);
    if rule_at(s, 0) && e < s.len() {
        Some((s.subrange(4, e), s.subrange(e, s.len() as int)))
    } else {
        None
    }
}

proof fn lemma_find_rule(s: Seq<char>, i: int)
    requires
        0 <= i <= s.len(),
    ensures
        i <= find_rule(s, i) <= s.len(),
    decreases s.len() - i,
{
    if i < s.len() && !rule_at(s, i) {
        lemma_find_rule(s, i + 1);
    }
}

fn rule_here(s: &str, n: usize, p: usize) -> (r: bool)
    requires
        n == s@.len(),
    ensures
        r == rule_at(s@, p as int),
{
    p < n && n - p >= 4 && s.get_char(p) == '-' && s.get_char(p + 1) == '-' && s.get_char(p + 2)
        == '-' && s.get_char(p + 3) == '\n'
}

/// Splits a post into its front matter and the rest (see `front_matter`).
pub fn split_front_matter(contents: &str) -> (r: Option<(String, String)>)
    ensures
        match r {
            Some((m, b)) => front_matter(contents@) == Some((m@, b@)),
            None => front_matter(contents@) is None,
        },
{
    let n = contents.unicode_len();
    if !rule_here(contents, n, 0) {
        return None;
    }
    let mut e: usize = 4;
    while e < n && !rule_here(contents, n, e)
        invariant
            n == contents@.len(),
            4 <= e <= n,
            find_rule(contents@, e as int) == find_rule(contents@, 4),
        decreases n - e,
    {
        e = e + 1;
    }
    if e >= n {
        return None;
    }
    let meta = contents.substring_char(4, e).to_owned();
    let body = contents.substring_char(e, n).to_owned();
    Some((meta, body))
}

/// The slug that the `slug` crate makes of a title.
pub uninterp spec fn slug_of(s: Seq<char>) -> Seq<char>;

/// Relies on `slug::slugify`: the slug depends on the text alone.
#[verifier::external_body]
fn slugify(s: &str) -> (r: String)
    ensures
        r@ == slug_of(s@),
{
    slug::slugify(s)
}

/// The slug of a post's title, and the post's URL on the blog at
/// `blog_url`: `{blog_url}/posts/{slug}/`.
pub fn slug_and_url(blog_url: &str, title: &str) -> (r: (String, String))
    ensures
        r.0@ == slug_of(title@),
        r.1@ == blog_url@ + "/posts/"@ + slug_of(title@) + "/"@,
{
    let slug = slugify(title);
    let mut url = blog_url.to_owned();
    url.append("/posts/");
    url.append(slug.as_str());
    url.append("/");
    (slug, url)
}

/// The date as a key that orders dates by year, then month, then day.
pub open spec fn date_key(d: Date) -> (i32, u32, u32) {
    (d.year, d.month, d.day)
}

/// `a` comes no later than `b`.
pub open spec fn key_le(a: (i32, u32, u32), b: (i32, u32, u32)) -> bool {
    ||| a.0 < b.0
    ||| (a.0 == b.0 && a.1 < b.1)
    ||| (a.0 == b.0 && a.1 == b.1 && a.2 <= b.2)
}

/// `order` lists each of `0..n` once.
pub open spec fn is_permutation(order: Seq<usize>, n: int) -> bool {
    &&& order.len() == n
    &&& forall|i: int| 0 <= i < n ==> #[trigger] order[i] < n
    &&& forall|i: int, j: int| 0 <= i < j < n ==> order[i] != order[j]
}

/// Relies on `Itertools::sorted_by_key`, which sorts with `slice::sort_by_key`:
/// the positions of `keys` in ascending order of key, equal keys in their
/// first order.
#[verifier::external_body]
fn sorted_positions(keys: &Vec<(i32, u32, u32)>) -> (r: Vec<usize>)
    ensures
        is_permutation(r@, keys@.len() as int),
        forall|i: int, j: int|
            0 <= i < j < r@.len() ==> key_le(keys@[r@[i] as int], keys@[r@[j] as int]),
        forall|i: int, j: int|
            0 <= i < j < r@.len() && keys@[r@[i] as int] == keys@[r@[j] as int] ==> r@[i] < r@[j],
{
    (0..keys.len()).sorted_by_key(|&i| keys[i]).collect()
}

/// `order` lists the posts newest first; posts of one date in the reverse
/// of their order in `posts`.
pub open spec fn newest_first(posts: Seq<Post>, order: Seq<usize>) -> bool {
    &&& is_permutation(order, posts.len() as int)
    &&& forall|i: int, j: int|
        0 <= i < j < order.len() ==> key_le(
            date_key(posts[order[j] as int].metadata.date),
            date_key(posts[order[i] as int].metadata.date),
        )
    &&& forall|i: int, j: int|
        0 <= i < j < order.len() && posts[order[i] as int].metadata.date
            == posts[order[j] as int].metadata.date ==> order[i] > order[j]
}

/// A year as `to_string` writes it.
pub open spec fn year_text(y: i32) -> Seq<char> {
    if y < 0 {
        seq!['-'] + decimal_text((-y) as nat)
    } else {
        decimal_text(y as nat)
    }
}

/// The index entries of the posts at `order[i..]`: a year heading before
/// the first post of each run of posts of one year, then a link per post.
pub open spec fn index_entries(posts: Seq<Post>, order: Seq<usize>, i: int) -> Seq<char>
    decreases order.len() - i,
{
    if i < 0 || i >= order.len() {
        Seq::empty()
    } else {
        let p = posts[order[i] as int].metadata;
        let head = if i == 0 || posts[order[i - 1] as int].metadata.date.year != p.date.year {
            "<dt> "@ + year_text(p.date.year) + " </dt> "@
        } else {
            Seq::empty()
        };
        head + "<dd><a href=\"/posts/"@ + p.slug@ + "\">"@ + p.title@ + "</a></dd>"@
            + index_entries(posts, order, i + 1)
    }
}

fn year_string(y: i32) -> (r: String)
    ensures
        r@ == year_text(y),
{
    if y < 0 {
        let mut s = String::from_str("-");
        proof {
            reveal_strlit("-");
        }
        let m = (-(y as i64)) as u128;
        s.append(decimal_string(m).as_str());
        s
    } else {
        decimal_string(y as u128)
    }
}

/// The index page's list: the posts newest first, under a heading for each
/// year.
pub fn create_index(posts: &[Post]) -> (r: String)
    ensures
        exists|order: Seq<usize>|
            #[trigger] newest_first(posts@, order) && r@ == "<dl>"@ + index_entries(
                posts@,
                order,
                0,
            ) + "</dl>"@,
{
    let n = posts.len();
    let mut keys: Vec<(i32, u32, u32)> = Vec::new();
    let mut i: usize = 0;
    while i < n
        invariant
            n == posts@.len(),
            i <= n,
            keys@.len() == i,
            forall|j: int| 0 <= j < i ==> #[trigger] keys@[j] == date_key(posts@[j].metadata.date),
        decreases n - i,
    {
        let d = posts[i].metadata.date;
        keys.push((d.year, d.month, d.day));
        i = i + 1;
    }
    let asc = sorted_positions(&keys);
    let mut order: Vec<usize> = Vec::new();
    let mut k: usize = n;
    while k > 0
        invariant
            n == asc@.len(),
            k <= n,
            order@.len() == n - k,
            forall|j: int| 0 <= j < n - k ==> #[trigger] order@[j] == asc@[n - 1 - j],
        decreases k,
    {
        order.push(asc[k - 1]);
        k = k - 1;
    }
    assert(newest_first(posts@, order@)) by {
        assert forall|a: int, b: int| 0 <= a < b < n implies order@[a] != order@[b] by {
            assert(asc@[n - 1 - b] != asc@[n - 1 - a]);
        }
        assert forall|a: int, b: int| 0 <= a < b < n implies key_le(
            date_key(posts@[order@[b] as int].metadata.date),
            date_key(posts@[order@[a] as int].metadata.date),
        ) by {
            assert(key_le(keys@[asc@[n - 1 - b] as int], keys@[asc@[n - 1 - a] as int]));
        }
        assert forall|a: int, b: int|
            0 <= a < b < n && posts@[order@[a] as int].metadata.date
                == posts@[order@[b] as int].metadata.date implies order@[a] > order@[b] by {
            assert(keys@[asc@[n - 1 - b] as int] == keys@[asc@[n - 1 - a] as int]);
        }
    }
    let mut out = String::from_str("<dl>");
    let mut i: usize = 0;
    while i < n
        invariant
            n == posts@.len(),
            n == order@.len(),
            i <= n,
            forall|j: int| 0 <= j < n ==> #[trigger] order@[j] < n,
            out@ + index_entries(posts@, order@, i as int) == "<dl>"@ + index_entries(
                posts@,
                order@,
                0,
            ),
        decreases n - i,
    {
        let ghost before = out@;
        let p = &posts[order[i]].metadata;
        if i == 0 || posts[order[i - 1]].metadata.date.year != p.date.year {
            out.append("<dt> ");
            out.append(year_string(p.date.year).as_str());
            out.append(" </dt> ");
        }
        out.append("<dd><a href=\"/posts/");
        out.append(p.slug.as_str());
        out.append("\">");
        out.append(p.title.as_str());
        out.append("</a></dd>");
        assert(before + index_entries(posts@, order@, i as int) =~= out@ + index_entries(
            posts@,
            order@,
            i + 1,
        ));
        i = i + 1;
    }
    let ghost before = out@;
    out.append("</dl>");
    assert(out@ =~= "<dl>"@ + index_entries(posts@, order@, 0) + "</dl>"@);
    out
}

} // verus!
