//! What each page of the blog shows: pagination, the posts a page lists,
//! and the values a page is rendered with.
use vstd::prelude::*;
use vstd::string::*;
use vstd::utf8::encode_utf8;
use crate::archive::{contains_string, strs};
use crate::config::SiteConfig;
use crate::escape::{escape_xml, escape_xml_seq, form_urlencode, form_urlencode_str};
use crate::post::Post;
use crate::tags::post_tags;
use crate::text::{
    chars_of, contains_chars, contains_seq, spec_to_lowercase, split_words, string_of,
    to_lowercase, trim, trim_chars, words,
};

pub use crate::archive::{group_by_year_month, month_index, ArchiveGroup, ArchiveMonth, ArchivePost};
pub use crate::config::{apply_about_update, avatar_url, AvatarError};
pub use crate::feed::{date_to_rfc2822, feed_xml, generate_sitemap_urls, sitemap_xml, weekday};
pub use crate::tags::{popular_tags, tag_frequencies, TagCount};

verus! {

/// The `?page=` query of a listing page.
pub struct PageQuery {
    pub page: Option<usize>,
}

/// The `?q=&page=` query of the search page.
pub struct SearchQuery {
    pub q: Option<String>,
    pub page: Option<usize>,
}

/// The body of a request that edits the about page's author and avatar.
pub struct UpdateAboutPayload {
    pub author_name: Option<String>,
    pub avatar_path: Option<String>,
}

/// The pagination bar of a listing page.
pub struct PageInfo {
    pub current: usize,
    pub total: usize,
    pub has_prev: bool,
    pub has_next: bool,
    pub prev: usize,
    pub next: usize,
    pub pages: Vec<usize>,
    pub show_start_ellipsis: bool,
    pub show_end_ellipsis: bool,
}

/// `x` limited to `lo..=hi` (`x.max(lo).min(hi)`).
pub open spec fn clamp(x: int, lo: int, hi: int) -> int {
    let y = if x < lo {
        lo
    } else {
        x
    };
    if y > hi {
        hi
    } else {
        y
    }
}

/// The consecutive page numbers `a..=b` (empty when `b < a`).
pub open spec fn page_range(a: int, b: int) -> Seq<int> {
    Seq::new(if b >= a {
        (b - a + 1) as nat
    } else {
        0
    }, |i: int| a + i)
}

/// The first page of the window around `current` when there are more than
/// five pages.
pub open spec fn window_start(current: int, total: int) -> int {
    clamp(if current <= 3 {
        2
    } else {
        current - 1
    }, 2, total - 1)
}

/// The last page of the window around `current` when there are more than
/// five pages.
pub open spec fn window_end(current: int, total: int) -> int {
    clamp(if current >= total - 2 {
        total - 1
    } else {
        current + 1
    }, 2, total - 1)
}

/// The page numbers the bar lists between its first and last page: all
/// pages when there are at most five, else the window around `current`
/// (the first and last page are shown on their own).
pub open spec fn spec_pages(current: int, total: int) -> Seq<int> {
    if total <= 5 {
        page_range(1, total)
    } else {
        page_range(window_start(current, total), window_end(current, total))
    }
}

/// The numbers of `s` as integers.
pub open spec fn as_ints(s: Seq<usize>) -> Seq<int> {
    Seq::new(s.len(), |i: int| s[i] as int)
}

/// The pagination bar for page `current` of `total`.
pub open spec fn page_info_ok(info: PageInfo, current: int, total: int) -> bool {
    &&& info.current == current
    &&& info.total == total
    &&& info.has_prev == (current > 1)
    &&& info.has_next == (current < total)
    &&& info.prev == if current > 1 {
        current - 1
    } else {
        1
    }
    &&& info.next == if current < total {
        current + 1
    } else {
        total
    }
    &&& as_ints(info.pages@) == spec_pages(current, total)
    &&& info.show_start_ellipsis == (total > 5 && window_start(current, total) > 2)
    &&& info.show_end_ellipsis == (total > 5 && window_end(current, total) < total - 1)
}

fn push_page_range(pages: &mut Vec<usize>, a: usize, b: usize)
    requires
        old(pages)@.len() == 0,
    ensures
        as_ints(final(pages)@) == page_range(a as int, b as int),
{
    if a > b {
        proof {
            assert(as_ints(pages@) =~= page_range(a as int, b as int));
        }
        return;
    }
    let mut p: usize = a;
    loop
        invariant
            a <= p <= b,
            as_ints(pages@) == page_range(a as int, p as int - 1),
        decreases b - p,
    {
        let ghost before = pages@;
        pages.push(p);
        proof {
            assert(as_ints(before).len() == p - a);
            assert forall|i: int| 0 <= i < pages@.len() implies #[trigger] as_ints(pages@)[i] == page_range(a as int, p as int)[i] by {
                if i < before.len() {
                    assert(as_ints(before)[i] == page_range(
                        a as int,
                        p as int - 1,
                    )[i]);
                }
            }
            assert(as_ints(pages@) =~= page_range(a as int, p as int));
        }
        if p == b {
            return;
        }
        p = p + 1;
    }
}

/// The pagination bar for page `current` of `total`.
pub fn compute_page_info(current: usize, total: usize) -> (info: PageInfo)
    ensures
        page_info_ok(info, current as int, total as int),
{
    let has_prev = current > 1;
    let has_next = current < total;
    let prev = if has_prev {
        current - 1
    } else {
        1
    };
    let next = if has_next {
        current + 1
    } else {
        total
    };
    let mut pages: Vec<usize> = Vec::new();
    let show_start_ellipsis;
    let show_end_ellipsis;
    if total <= 5 {
        push_page_range(&mut pages, 1, total);
        show_start_ellipsis = false;
        show_end_ellipsis = false;
    } else {
        let s0: usize = if current <= 3 {
            2
        } else {
            current - 1
        };
        let s1: usize = if s0 < 2 {
            2
        } else {
            s0
        };
        let win_start: usize = if s1 > total - 1 {
            total - 1
        } else {
            s1
        };
        let e0: usize = if current >= total - 2 {
            total - 1
        } else {
            current + 1
        };
        let e1: usize = if e0 < 2 {
            2
        } else {
            e0
        };
        let win_end: usize = if e1 > total - 1 {
            total - 1
        } else {
            e1
        };
        push_page_range(&mut pages, win_start, win_end);
        show_start_ellipsis = win_start > 2;
        show_end_ellipsis = win_end < total - 1;
    }
    PageInfo {
        current,
        total,
        has_prev,
        has_next,
        prev,
        next,
        pages,
        show_start_ellipsis,
        show_end_ellipsis,
    }
}

/// The bar lists pages in increasing order, all within `1..=total`, at
/// most five of them; and the current page, when it exists, is listed or
/// is the first or the last page (which the bar shows on their own).
pub proof fn lemma_page_bar(current: int, total: int)
    requires
        0 <= current,
        0 <= total,
    ensures
        forall|i: int, j: int|
            0 <= i < j < spec_pages(current, total).len() ==> spec_pages(current, total)[i]
                < spec_pages(current, total)[j],
        forall|i: int|
            0 <= i < spec_pages(current, total).len() ==> 1 <= #[trigger] spec_pages(
                current,
                total,
            )[i] <= total,
        spec_pages(current, total).len() <= 5,
        1 <= current <= total ==> current == 1 || current == total || spec_pages(
            current,
            total,
        ).contains(current),
{
    let ps = spec_pages(current, total);
    if 1 <= current <= total && current != 1 && current != total {
        let a = if total <= 5 {
            1
        } else {
            window_start(current, total)
        };
        assert(ps[current - a] == current);
    }
}

// ---------------------------------------------------------------------
// which items a listing page shows
// ---------------------------------------------------------------------

/// The page a listing shows and the items on it.
pub struct Pagination {
    /// The page shown, from 1.
    pub page: usize,
    /// The number of pages, at least 1.
    pub total_pages: usize,
    /// The first item on the page.
    pub start: usize,
    /// One past the last item on the page.
    pub end: usize,
}

/// The number of pages for `n` items, `per_page` on each: one page when
/// there are no items.
pub open spec fn spec_total_pages(n: int, per_page: int) -> int {
    if n == 0 {
        1
    } else {
        (n + per_page - 1) / per_page
    }
}

/// The page shown for a request: the requested page (1 when absent or 0),
/// but no further than the last page.
pub open spec fn spec_page(requested: Option<usize>, n: int, per_page: int) -> int {
    let want = match requested {
        Some(p) => if p < 1 {
            1
        } else {
            p as int
        },
        None => 1,
    };
    if want > spec_total_pages(n, per_page) {
        spec_total_pages(n, per_page)
    } else {
        want
    }
}

/// The listing of `n` items, `per_page` on each, for the requested page.
pub open spec fn pagination_ok(pg: Pagination, requested: Option<usize>, n: int, per_page: int) -> bool {
    let page = spec_page(requested, n, per_page);
    &&& pg.page == page
    &&& pg.total_pages == spec_total_pages(n, per_page)
    &&& pg.start == (page - 1) * per_page
    &&& pg.end == if (page - 1) * per_page + per_page < n {
        (page - 1) * per_page + per_page
    } else {
        n
    }
}

proof fn lemma_page_start_below(page: int, n: int, per_page: int)
    requires
        n > 0,
        per_page > 0,
        1 <= page <= (n + per_page - 1) / per_page,
    ensures
        (page - 1) * per_page < n,
        0 <= (page - 1) * per_page,
{
    let t = (n + per_page - 1) / per_page;
    assert((page - 1) * per_page <= (t - 1) * per_page) by (nonlinear_arith)
        requires
            page <= t,
            per_page > 0,
    ;
    assert(t * per_page <= n + per_page - 1) by (nonlinear_arith)
        requires
            t == (n + per_page - 1) / per_page,
            per_page > 0,
    ;
    assert((t - 1) * per_page == t * per_page - per_page) by (nonlinear_arith);
    assert(0 <= (page - 1) * per_page) by (nonlinear_arith)
        requires
            page >= 1,
            per_page > 0,
    ;
}

/// The page a listing shows and its items, for `n` items with `per_page`
/// on each page.
pub fn paginate(requested: Option<usize>, n: usize, per_page: usize) -> (pg: Pagination)
    requires
        n == 0 || per_page > 0,
    ensures
        pagination_ok(pg, requested, n as int, per_page as int),
{
    let want: usize = match requested {
        Some(p) => if p < 1 {
            1
        } else {
            p
        },
        None => 1,
    };
    let total_pages: usize = if n == 0 {
        1
    } else {
        let q = n / per_page;
        let r = n % per_page;
        proof {
            assert(q <= n) by (nonlinear_arith)
                requires
                    per_page > 0,
                    q == n / per_page,
            ;
            if r > 0 {
                assert(q < n) by (nonlinear_arith)
                    requires
                        per_page > 0,
                        q == n / per_page,
                        r == n % per_page,
                        r > 0,
                ;
            }
        }
        let t = if r > 0 {
            q + 1
        } else {
            q
        };
        proof {
            assert(t == (n + per_page - 1) / (per_page as int)) by (nonlinear_arith)
                requires
                    per_page > 0,
                    q == n / per_page,
                    r == n % per_page,
                    t == if r > 0 {
                        q + 1
                    } else {
                        q as int
                    },
            ;
        }
        t
    };
    let page: usize = if want > total_pages {
        total_pages
    } else {
        want
    };
    if n == 0 {
        return Pagination { page, total_pages, start: 0, end: 0 };
    }
    proof {
        assert(total_pages >= 1) by (nonlinear_arith)
            requires
                n > 0,
                per_page > 0,
                total_pages == (n + per_page - 1) / (per_page as int),
        ;
        lemma_page_start_below(page as int, n as int, per_page as int);
    }
    let start: usize = (page - 1) * per_page;
    let end: usize = if per_page < n - start {
        start + per_page
    } else {
        n
    };
    Pagination { page, total_pages, start, end }
}

/// Every item of a listing is on exactly the page `k / per_page + 1`: that
/// page exists, holds the item, and no other page does.
pub proof fn lemma_each_item_on_one_page(k: int, n: int, per_page: int, p: usize)
    requires
        0 <= k < n,
        per_page > 0,
        p >= 1,
        p <= spec_total_pages(n, per_page),
    ensures
        k / per_page + 1 <= spec_total_pages(n, per_page),
        ({
            let start = (p - 1) * per_page;
            let end = if start + per_page < n {
                start + per_page
            } else {
                n
            };
            (start <= k < end) <==> p == k / per_page + 1
        }),
{
    let t = spec_total_pages(n, per_page);
    let q = k / per_page;
    assert(q * per_page <= k < q * per_page + per_page) by (nonlinear_arith)
        requires
            q == k / per_page,
            per_page > 0,
            k >= 0,
    ;
    assert(q + 1 <= t) by (nonlinear_arith)
        requires
            q == k / per_page,
            t == (n + per_page - 1) / per_page,
            per_page > 0,
            0 <= k < n,
    ;
    let start = (p - 1) * per_page;
    if p < q + 1 {
        assert(start + per_page <= q * per_page) by (nonlinear_arith)
            requires
                p <= q,
                start == (p - 1) * per_page,
                per_page > 0,
        ;
    } else if p > q + 1 {
        assert(start >= q * per_page + per_page) by (nonlinear_arith)
            requires
                p >= q + 2,
                start == (p - 1) * per_page,
                per_page > 0,
        ;
    } else {
        assert(start == q * per_page);
    }
}

/// The listing of `n` items for the requested page, when the listing has
/// pages to divide into: there are no items or `per_page` is not zero.
pub fn paginate_checked(requested: Option<usize>, n: usize, per_page: usize) -> (r: Option<Pagination>)
    ensures
        r is Some <==> (n == 0 || per_page > 0),
        r matches Some(pg) ==> pagination_ok(pg, requested, n as int, per_page as int),
{
    if n == 0 || per_page > 0 {
        Some(paginate(requested, n, per_page))
    } else {
        None
    }
}

// ---------------------------------------------------------------------
// page addresses and titles
// ---------------------------------------------------------------------

/// The site's URL followed by `path`.
pub fn page_url(config: &SiteConfig, path: &str) -> (r: String)
    ensures
        r@ == config.url@ + path@,
{
    let mut r = String::from_str(config.url.as_str());
    r.append(path);
    r
}

/// The address of the page of the post with slug `slug`.
pub fn post_link(config: &SiteConfig, slug: &str) -> (r: String)
    ensures
        r@ == crate::feed::post_url(config.url@, slug@),
{
    let mut r = String::from_str(config.url.as_str());
    r.append("/post/");
    r.append(slug);
    r
}

/// How many of the newest posts the not-found page suggests: five, or all
/// when there are fewer.
pub fn recent_posts_count(total: usize) -> (r: usize)
    ensures
        r == if total < 5 {
            total
        } else {
            5
        },
{
    if total < 5 {
        total
    } else {
        5
    }
}

/// `prefix` followed by the site's title, as in `About - MyBlog`.
pub fn titled(prefix: &str, config: &SiteConfig) -> (r: String)
    ensures
        r@ == prefix@ + config.title@,
{
    let mut r = String::from_str(prefix);
    r.append(config.title.as_str());
    r
}

// ---------------------------------------------------------------------
// a post's page
// ---------------------------------------------------------------------

/// The numbers of a list of indices.
pub open spec fn indices(v: Seq<usize>) -> Seq<int> {
    Seq::new(v.len(), |i: int| v[i] as int)
}

/// `p` has a tag that is among `tags`.
pub open spec fn shares_tag(p: Post, tags: Seq<Seq<char>>) -> bool {
    exists|i: int| 0 <= i < post_tags(p).len() && tags.contains(#[trigger] post_tags(p)[i])
}

/// The positions of the posts other than `slug` that share a tag with
/// `tags`, in order.
pub open spec fn related_candidates(ps: Seq<Post>, slug: Seq<char>, tags: Seq<Seq<char>>) -> Seq<int>
    decreases ps.len(),
{
    if ps.len() == 0 {
        seq![]
    } else {
        let r = related_candidates(ps.drop_last(), slug, tags);
        let i = ps.len() - 1;
        if ps[i].slug@ != slug && shares_tag(ps[i], tags) {
            r.push(i)
        } else {
            r
        }
    }
}

/// The first three of `s` (all of it when shorter).
pub open spec fn first_three(s: Seq<int>) -> Seq<int> {
    if s.len() > 3 {
        s.take(3)
    } else {
        s
    }
}

/// What a post's page shows besides the post: its neighbours in the list
/// and up to three related posts, by position in the list.
pub struct PostPage {
    /// The post's position.
    pub index: usize,
    /// The older post, which follows it in the list.
    pub prev: Option<usize>,
    /// The newer post, which precedes it in the list.
    pub next: Option<usize>,
    /// The first three other posts that share a tag with it.
    pub related: Vec<usize>,
}

fn shares_tag_exec(p: &Post, tags: &Vec<String>) -> (r: bool)
    ensures
        r == shares_tag(*p, strs(tags@)),
{
    let ts = &p.frontmatter.tags;
    let mut k: usize = 0;
    while k < ts.len()
        invariant
            k <= ts@.len(),
            ts@ == p.frontmatter.tags@,
            forall|j: int| 0 <= j < k ==> !strs(tags@).contains(#[trigger] post_tags(*p)[j]),
        decreases ts@.len() - k,
    {
        if contains_string(tags, &ts[k]) {
            proof {
                assert(strs(tags@).contains(post_tags(*p)[k as int]));
            }
            return true;
        }
        k = k + 1;
    }
    false
}

/// The page of the post with slug `slug`: `None` when no post has it;
/// else the first post that has it, the posts around it, and the first
/// three other posts that share a tag with it.
pub fn post_page(posts: &[Post], slug: &str) -> (r: Option<PostPage>)
    ensures
        r is None <==> forall|i: int| 0 <= i < posts@.len() ==> (#[trigger] posts@[i]).slug@ != slug@,
        r matches Some(pp) ==> {
            &&& pp.index < posts@.len()
            &&& posts@[pp.index as int].slug@ == slug@
            &&& forall|j: int| 0 <= j < pp.index ==> (#[trigger] posts@[j]).slug@ != slug@
            &&& pp.prev == if pp.index + 1 < posts@.len() {
                Some((pp.index + 1) as usize)
            } else {
                None
            }
            &&& pp.next == if pp.index > 0 {
                Some((pp.index - 1) as usize)
            } else {
                None
            }
            &&& indices(pp.related@) == first_three(
                related_candidates(posts@, slug@, post_tags(posts@[pp.index as int])),
            )
        },
{
    let mut idx: usize = 0;
    while idx < posts.len() && !str_eq_string(&posts[idx].slug, slug)
        invariant
            idx <= posts@.len(),
            forall|j: int| 0 <= j < idx ==> (#[trigger] posts@[j]).slug@ != slug@,
        decreases posts@.len() - idx,
    {
        idx = idx + 1;
    }
    if idx == posts.len() {
        return None;
    }
    let tags = &posts[idx].frontmatter.tags;
    let ghost target = strs(tags@);
    let mut related: Vec<usize> = Vec::new();
    let mut i: usize = 0;
    while i < posts.len()
        invariant
            i <= posts@.len(),
            target == strs(tags@),
            indices(related@) == first_three(related_candidates(posts@.take(i as int), slug@, target)),
        decreases posts@.len() - i,
    {
        proof {
            assert(posts@.take(i + 1).drop_last() =~= posts@.take(i as int));
            assert(posts@.take(i + 1)[i as int] == posts@[i as int]);
        }
        if related.len() < 3 && !str_eq_string(&posts[i].slug, slug) && shares_tag_exec(&posts[i], tags) {
            let ghost before = related@;
            related.push(i);
            proof {
                assert(indices(related@) =~= indices(before).push(i as int));
            }
        } else {
            proof {
                let c = related_candidates(posts@.take(i as int), slug@, target);
                let c1 = related_candidates(posts@.take(i + 1), slug@, target);
                if c1 != c {
                    assert(c1 == c.push(i as int));
                    assert(c.len() >= 3);
                    assert(c1.take(3) =~= c.take(3));
                }
            }
        }
        i = i + 1;
    }
    proof {
        assert(posts@.take(posts@.len() as int) =~= posts@);
    }
    let prev = if idx + 1 < posts.len() {
        Some(idx + 1)
    } else {
        None
    };
    let next = if idx > 0 {
        Some(idx - 1)
    } else {
        None
    };
    Some(PostPage { index: idx, prev, next, related })
}

fn str_eq_string(a: &String, b: &str) -> (r: bool)
    ensures
        r == (a@ == b@),
{
    crate::text::str_eq(a.as_str(), b)
}

// ---------------------------------------------------------------------
// a tag's page
// ---------------------------------------------------------------------

/// The positions of the posts tagged `name`, in order.
pub open spec fn tag_matches(ps: Seq<Post>, name: Seq<char>) -> Seq<int>
    decreases ps.len(),
{
    if ps.len() == 0 {
        seq![]
    } else {
        let r = tag_matches(ps.drop_last(), name);
        if post_tags(ps.last()).contains(name) {
            r.push(ps.len() - 1)
        } else {
            r
        }
    }
}

/// The positions of the posts tagged `name`, in order.
pub fn posts_with_tag(posts: &[Post], name: &String) -> (r: Vec<usize>)
    ensures
        indices(r@) == tag_matches(posts@, name@),
{
    let mut r: Vec<usize> = Vec::new();
    let mut i: usize = 0;
    while i < posts.len()
        invariant
            i <= posts@.len(),
            indices(r@) == tag_matches(posts@.take(i as int), name@),
        decreases posts@.len() - i,
    {
        proof {
            assert(posts@.take(i + 1).drop_last() =~= posts@.take(i as int));
            assert(posts@.take(i + 1).last() == posts@[i as int]);
        }
        if contains_string(&posts[i].frontmatter.tags, name) {
            let ghost before = r@;
            r.push(i);
            proof {
                assert(indices(r@) =~= indices(before).push(i as int));
            }
        }
        i = i + 1;
    }
    proof {
        assert(posts@.take(posts@.len() as int) =~= posts@);
    }
    r
}

/// What a tag's page shows.
pub struct TagPage {
    /// The positions of the posts with the tag.
    pub matches: Vec<usize>,
    /// The page of them shown.
    pub pagination: Pagination,
    /// The tag, escaped for HTML.
    pub tag: String,
    /// The tag, encoded for a URL's query or path.
    pub tag_url: String,
    pub og_title: String,
    pub og_description: String,
    pub og_url: String,
}

/// The page of the posts tagged `name`, with its title, description and
/// address for link previews.
pub fn tag_page(config: &SiteConfig, posts: &[Post], name: &String, requested: Option<usize>) -> (r: TagPage)
    requires
        tag_matches(posts@, name@).len() == 0 || config.posts_per_page > 0,
    ensures
        indices(r.matches@) == tag_matches(posts@, name@),
        pagination_ok(r.pagination, requested, r.matches@.len() as int, config.posts_per_page as int),
        r.tag@ == escape_xml_seq(name@),
        r.tag_url@ == form_urlencode(encode_utf8(name@)),
        r.og_title@ == "#"@ + escape_xml_seq(name@) + " - "@ + config.title@,
        r.og_description@ == "Posts tagged with #"@ + escape_xml_seq(name@),
        r.og_url@ == config.url@ + "/tag/"@ + form_urlencode(encode_utf8(name@)),
{
    let matches = posts_with_tag(posts, name);
    let pagination = paginate(requested, matches.len(), config.posts_per_page);
    let tag = escape_xml(name.as_str());
    let tag_url = form_urlencode_str(name.as_str());
    let mut og_title = String::from_str("#");
    og_title.append(tag.as_str());
    og_title.append(" - ");
    og_title.append(config.title.as_str());
    let mut og_description = String::from_str("Posts tagged with #");
    og_description.append(tag.as_str());
    let mut og_url = String::from_str(config.url.as_str());
    og_url.append("/tag/");
    og_url.append(tag_url.as_str());
    TagPage { matches, pagination, tag, tag_url, og_title, og_description, og_url }
}

// ---------------------------------------------------------------------
// search
// ---------------------------------------------------------------------

/// A search term is found in a post's title or one of its tags (both
/// lowercased), or in its lowercased text.
pub open spec fn term_found(title: Seq<char>, tags: Seq<Seq<char>>, search_text: Seq<char>, term: Seq<char>) -> bool {
    ||| contains_seq(spec_to_lowercase(title), term)
    ||| exists|i: int| 0 <= i < tags.len() && contains_seq(spec_to_lowercase(#[trigger] tags[i]), term)
    ||| contains_seq(search_text, term)
}

/// Every search term is found in the post's fields.
pub open spec fn all_terms_found(
    title: Seq<char>,
    tags: Seq<Seq<char>>,
    search_text: Seq<char>,
    terms: Seq<Seq<char>>,
) -> bool {
    forall|k: int| 0 <= k < terms.len() ==> term_found(title, tags, search_text, #[trigger] terms[k])
}

/// The query searched for: the text given (none is empty), trimmed and
/// lowercased.
pub open spec fn normalize_query(q: Seq<char>) -> Seq<char> {
    spec_to_lowercase(trim(q))
}

/// The posts found by query `q` (already normalized): none for an empty
/// query, else the positions of the posts in which every
/// whitespace-separated term of `q` is found.
pub open spec fn search_matches(ps: Seq<Post>, q: Seq<char>) -> Seq<int>
    decreases ps.len(),
{
    if q.len() == 0 || ps.len() == 0 {
        seq![]
    } else {
        let r = search_matches(ps.drop_last(), q);
        let p = ps.last();
        if all_terms_found(p.frontmatter.title@, post_tags(p), p.search_text@, words(q)) {
            r.push(ps.len() - 1)
        } else {
            r
        }
    }
}

fn term_found_exec(title_lower: &Vec<char>, tags_lower: &Vec<Vec<char>>, text: &Vec<char>, term: &Vec<char>) -> (r: bool)
    ensures
        r == (contains_seq(title_lower@, term@) || (exists|i: int|
            0 <= i < tags_lower@.len() && contains_seq((#[trigger] tags_lower@[i])@, term@))
            || contains_seq(text@, term@)),
{
    if contains_chars(title_lower, term) {
        return true;
    }
    let mut i: usize = 0;
    while i < tags_lower.len()
        invariant
            i <= tags_lower@.len(),
            forall|j: int| 0 <= j < i ==> !contains_seq((#[trigger] tags_lower@[j])@, term@),
        decreases tags_lower@.len() - i,
    {
        if contains_chars(&tags_lower[i], term) {
            return true;
        }
        i = i + 1;
    }
    contains_chars(text, term)
}

/// Whether every term is found in the title or a tag (lowercased) or in
/// the search text.
pub fn matches_all_terms(terms: &Vec<String>, title: &str, tags: &Vec<String>, search_text: &str) -> (r: bool)
    ensures
        r == all_terms_found(title@, strs(tags@), search_text@, strs(terms@)),
{
    let title_lower = chars_of(to_lowercase(title).as_str());
    let mut tags_lower: Vec<Vec<char>> = Vec::new();
    let mut j: usize = 0;
    while j < tags.len()
        invariant
            j <= tags@.len(),
            tags_lower@.len() == j,
            forall|k: int| 0 <= k < j ==> (#[trigger] tags_lower@[k])@ == spec_to_lowercase(tags@[k]@),
        decreases tags@.len() - j,
    {
        tags_lower.push(chars_of(to_lowercase(tags[j].as_str()).as_str()));
        j = j + 1;
    }
    let text = chars_of(search_text);
    let mut k: usize = 0;
    while k < terms.len()
        invariant
            k <= terms@.len(),
            title_lower@ == spec_to_lowercase(title@),
            text@ == search_text@,
            tags_lower@.len() == tags@.len(),
            forall|m: int| 0 <= m < tags@.len() ==> (#[trigger] tags_lower@[m])@ == spec_to_lowercase(tags@[m]@),
            forall|m: int| 0 <= m < k ==> term_found(title@, strs(tags@), search_text@, #[trigger] strs(terms@)[m]),
        decreases terms@.len() - k,
    {
        let term = chars_of(terms[k].as_str());
        let found = term_found_exec(&title_lower, &tags_lower, &text, &term);
        proof {
            let t = strs(terms@)[k as int];
            assert(term@ == t);
            if found {
                if !contains_seq(title_lower@, term@) && !contains_seq(text@, term@) {
                    let i = choose|i: int| 0 <= i < tags_lower@.len() && contains_seq((#[trigger] tags_lower@[i])@, term@);
                    assert(contains_seq(spec_to_lowercase(strs(tags@)[i]), t));
                }
            } else {
                assert forall|i: int| 0 <= i < strs(tags@).len() implies !contains_seq(spec_to_lowercase(#[trigger] strs(tags@)[i]), t) by {
                    assert(!contains_seq(tags_lower@[i]@, term@));
                }
            }
        }
        if !found {
            return false;
        }
        k = k + 1;
    }
    true
}

/// The search query as it is searched for: trimmed and lowercased.
pub fn normalized_query(q: &Option<String>) -> (r: String)
    ensures
        r@ == normalize_query(match q {
            Some(s) => s@,
            None => Seq::<char>::empty(),
        }),
{
    let raw = match q {
        Some(s) => chars_of(s.as_str()),
        None => Vec::new(),
    };
    let t = string_of(&trim_chars(&raw));
    to_lowercase(t.as_str())
}

/// Search finds by the post's text as well as its title: for a non-empty
/// query, a post in which every term of the query occurs in its lowercased
/// title or in its lowercased text (`search_text`) is among the results.
pub proof fn lemma_search_finds_text(ps: Seq<Post>, q: Seq<char>, i: int)
    requires
        q.len() > 0,
        0 <= i < ps.len(),
        forall|k: int|
            0 <= k < words(q).len() ==> contains_seq(
                spec_to_lowercase(ps[i].frontmatter.title@),
                #[trigger] words(q)[k],
            ) || contains_seq(ps[i].search_text@, words(q)[k]),
    ensures
        search_matches(ps, q).contains(i),
    decreases ps.len(),
{
    let last = ps.len() - 1;
    let r = search_matches(ps.drop_last(), q);
    if i == last {
        let p = ps.last();
        assert(all_terms_found(p.frontmatter.title@, post_tags(p), p.search_text@, words(q)));
        assert(search_matches(ps, q) == r.push(last));
        assert(search_matches(ps, q)[r.len() as int] == i);
    } else {
        assert(ps.drop_last()[i] == ps[i]);
        lemma_search_finds_text(ps.drop_last(), q, i);
        let j = choose|j: int| 0 <= j < r.len() && r[j] == i;
        let m = search_matches(ps, q);
        assert(m == r || m == r.push(last));
        assert(m[j] == i);
    }
}

/// Search finds nothing else: every result of a non-empty query is the
/// position of a post in which each term occurs in its lowercased title,
/// in one of its lowercased tags, or in its lowercased text; an empty
/// query finds nothing.
pub proof fn lemma_search_results_match(ps: Seq<Post>, q: Seq<char>)
    ensures
        q.len() == 0 ==> search_matches(ps, q).len() == 0,
        forall|j: int|
            0 <= j < search_matches(ps, q).len() ==> {
                let i = #[trigger] search_matches(ps, q)[j];
                &&& 0 <= i < ps.len()
                &&& forall|k: int|
                    0 <= k < words(q).len() ==> {
                        let t = #[trigger] words(q)[k];
                        ||| contains_seq(spec_to_lowercase(ps[i].frontmatter.title@), t)
                        ||| exists|g: int|
                            0 <= g < ps[i].frontmatter.tags@.len() && contains_seq(
                                spec_to_lowercase(#[trigger] ps[i].frontmatter.tags@[g]@),
                                t,
                            )
                        ||| contains_seq(ps[i].search_text@, t)
                    }
            },
    decreases ps.len(),
{
    if q.len() > 0 && ps.len() > 0 {
        let pd = ps.drop_last();
        lemma_search_results_match(pd, q);
        let r = search_matches(pd, q);
        let m = search_matches(ps, q);
        let last = ps.len() - 1;
        assert forall|j: int| 0 <= j < m.len() implies {
            let i = #[trigger] m[j];
            &&& 0 <= i < ps.len()
            &&& forall|k: int|
                0 <= k < words(q).len() ==> {
                    let t = #[trigger] words(q)[k];
                    ||| contains_seq(spec_to_lowercase(ps[i].frontmatter.title@), t)
                    ||| exists|g: int|
                        0 <= g < ps[i].frontmatter.tags@.len() && contains_seq(
                            spec_to_lowercase(#[trigger] ps[i].frontmatter.tags@[g]@),
                            t,
                        )
                    ||| contains_seq(ps[i].search_text@, t)
                }
        } by {
            if j < r.len() {
                assert(m[j] == r[j]);
                assert(pd[r[j]] == ps[r[j]]);
            } else {
                assert(m[j] == last);
                let p = ps[last];
                assert(p == ps.last());
                assert forall|k: int| 0 <= k < words(q).len() implies {
                    let t = #[trigger] words(q)[k];
                    ||| contains_seq(spec_to_lowercase(p.frontmatter.title@), t)
                    ||| exists|g: int|
                        0 <= g < p.frontmatter.tags@.len() && contains_seq(
                            spec_to_lowercase(#[trigger] p.frontmatter.tags@[g]@),
                            t,
                        )
                    ||| contains_seq(p.search_text@, t)
                } by {
                    let t = words(q)[k];
                    assert(term_found(p.frontmatter.title@, post_tags(p), p.search_text@, t));
                    if exists|g: int| 0 <= g < post_tags(p).len() && contains_seq(
                        spec_to_lowercase(#[trigger] post_tags(p)[g]),
                        t,
                    ) {
                        let g = choose|g: int| 0 <= g < post_tags(p).len() && contains_seq(
                            spec_to_lowercase(#[trigger] post_tags(p)[g]),
                            t,
                        );
                        assert(post_tags(p)[g] == p.frontmatter.tags@[g]@);
                    }
                }
            }
        }
    }
}

/// The positions of the posts found by the normalized query `q`.
pub fn search_posts(posts: &[Post], q: &str) -> (r: Vec<usize>)
    ensures
        indices(r@) == search_matches(posts@, q@),
{
    let qv = chars_of(q);
    let mut r: Vec<usize> = Vec::new();
    if qv.len() == 0 {
        proof {
            if posts@.len() > 0 {
                assert(search_matches(posts@, q@) =~= Seq::<int>::empty());
            }
        }
        return r;
    }
    let words_v = split_words(&qv);
    let mut terms: Vec<String> = Vec::new();
    let mut w: usize = 0;
    while w < words_v.len()
        invariant
            w <= words_v@.len(),
            words_v@.len() == words(q@).len(),
            forall|i: int| 0 <= i < words_v@.len() ==> (#[trigger] words_v@[i])@ == words(q@)[i],
            terms@.len() == w,
            forall|i: int| 0 <= i < w ==> (#[trigger] terms@[i])@ == words(q@)[i],
        decreases words_v@.len() - w,
    {
        terms.push(string_of(&words_v[w]));
        w = w + 1;
    }
    proof {
        assert(strs(terms@) =~= words(q@));
    }
    let mut i: usize = 0;
    while i < posts.len()
        invariant
            i <= posts@.len(),
            q@.len() > 0,
            strs(terms@) == words(q@),
            indices(r@) == search_matches(posts@.take(i as int), q@),
        decreases posts@.len() - i,
    {
        proof {
            assert(posts@.take(i + 1).drop_last() =~= posts@.take(i as int));
            assert(posts@.take(i + 1).last() == posts@[i as int]);
        }
        let p = &posts[i];
        if matches_all_terms(&terms, p.frontmatter.title.as_str(), &p.frontmatter.tags, p.search_text.as_str()) {
            let ghost before = r@;
            r.push(i);
            proof {
                assert(indices(r@) =~= indices(before).push(i as int));
            }
        }
        i = i + 1;
    }
    proof {
        assert(posts@.take(posts@.len() as int) =~= posts@);
    }
    r
}

/// What the search page shows.
pub struct SearchPage {
    /// The query searched for, trimmed and lowercased.
    pub query: String,
    /// The positions of the posts found.
    pub matches: Vec<usize>,
    /// The page of them shown.
    pub pagination: Pagination,
    /// The query, escaped for HTML.
    pub query_display: String,
    /// The query, encoded for a URL's query.
    pub query_url: String,
    pub og_title: String,
    pub og_description: String,
    pub og_url: String,
}

/// The search page for the normalized query `q` and the posts it found.
pub fn search_page_for(config: &SiteConfig, q: String, matches: Vec<usize>, requested: Option<usize>) -> (r: SearchPage)
    requires
        matches@.len() == 0 || config.posts_per_page > 0,
    ensures
        r.query@ == q@,
        r.matches@ == matches@,
        pagination_ok(r.pagination, requested, matches@.len() as int, config.posts_per_page as int),
        r.query_display@ == escape_xml_seq(q@),
        r.query_url@ == form_urlencode(encode_utf8(q@)),
        r.og_title@ == "Search - "@ + config.title@,
        r.og_description@ == "Search results for \""@ + escape_xml_seq(q@) + "\""@,
        r.og_url@ == config.url@ + "/search?q="@ + form_urlencode(encode_utf8(q@)),
{
    let pagination = paginate(requested, matches.len(), config.posts_per_page);
    let query_display = escape_xml(q.as_str());
    let query_url = form_urlencode_str(q.as_str());
    let og_title = titled("Search - ", config);
    let mut og_description = String::from_str("Search results for \"");
    og_description.append(query_display.as_str());
    og_description.append("\"");
    let mut og_url = String::from_str(config.url.as_str());
    og_url.append("/search?q=");
    og_url.append(query_url.as_str());
    SearchPage { query: q, matches, pagination, query_display, query_url, og_title, og_description, og_url }
}

/// The search page for the raw query `q`: `None` when posts are found but
/// the site lists zero posts per page, so that there are no pages to show
/// them on.
pub fn search_page(config: &SiteConfig, posts: &[Post], q: &Option<String>, requested: Option<usize>) -> (r: Option<SearchPage>)
    ensures
        ({
            let query = normalize_query(match q {
                Some(s) => s@,
                None => Seq::<char>::empty(),
            });
            let found = search_matches(posts@, query);
            &&& r is None <==> (found.len() > 0 && config.posts_per_page == 0)
            &&& r matches Some(sp) ==> sp.query@ == query && indices(sp.matches@) == found
                && pagination_ok(sp.pagination, requested, found.len() as int, config.posts_per_page as int)
                && sp.query_display@ == escape_xml_seq(query)
                && sp.query_url@ == form_urlencode(encode_utf8(query))
                && sp.og_title@ == "Search - "@ + config.title@
                && sp.og_description@ == "Search results for \""@ + escape_xml_seq(query) + "\""@
                && sp.og_url@ == config.url@ + "/search?q="@ + form_urlencode(encode_utf8(query))
        }),
{
    let query = normalized_query(q);
    let matches = search_posts(posts, query.as_str());
    if matches.len() > 0 && config.posts_per_page == 0 {
        return None;
    }
    Some(search_page_for(config, query, matches, requested))
}

// ---------------------------------------------------------------------
// the archive's pages
// ---------------------------------------------------------------------

/// The archive shows one year per page.
pub struct ArchiveNav {
    /// The page shown, from 1: the requested page (1 when absent or 0),
    /// but no further than the last year.
    pub page: usize,
    pub has_prev: bool,
    pub has_next: bool,
    pub prev_page: usize,
    pub next_page: usize,
}

/// The page of the archive shown for a request, when it has `total` years.
pub fn archive_nav(requested: Option<usize>, total: usize) -> (r: ArchiveNav)
    requires
        total < usize::MAX,
    ensures
        r.page == ({
            let want = match requested {
                Some(p) => if p < 1 {
                    1
                } else {
                    p as int
                },
                None => 1,
            };
            let last = if total < 1 {
                1
            } else {
                total as int
            };
            if want > last {
                last
            } else {
                want
            }
        }),
        r.has_prev == (r.page > 1),
        r.has_next == (r.page < total),
        r.prev_page == r.page - 1,
        r.next_page == r.page + 1,
{
    let want: usize = match requested {
        Some(p) => if p < 1 {
            1
        } else {
            p
        },
        None => 1,
    };
    let last: usize = if total < 1 {
        1
    } else {
        total
    };
    let page = if want > last {
        last
    } else {
        want
    };
    ArchiveNav { page, has_prev: page > 1, has_next: page < total, prev_page: page - 1, next_page: page + 1 }
}

} // verus!
