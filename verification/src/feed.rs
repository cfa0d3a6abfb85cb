//! Dates in RFC 2822 form, the RSS feed and the sitemap.
use vstd::prelude::*;
use vstd::string::*;
use crate::config::SiteConfig;
use crate::escape::{escape_xml, escape_xml_seq};
use crate::parse::{parse_i32, spec_parse_i32};
use crate::post::Post;
use crate::text::{chars_eq, chars_of, split_chars, split_on, str_eq, string_of};

verus! {

// ---------------------------------------------------------------------
// the day of the week
// ---------------------------------------------------------------------

/// `a / b` rounded toward zero, as Rust's `/` on signed integers.
pub open spec fn trunc_div(a: int, b: int) -> int {
    if a >= 0 {
        a / b
    } else {
        -((-a) / b)
    }
}

/// The position of `m` in the list `"", "Jan", ..., "Dec"`; 1 when it is
/// not in the list.
pub open spec fn month_position(m: Seq<char>) -> int {
    if m == ""@ {
        0
    } else if m == "Jan"@ {
        1
    } else if m == "Feb"@ {
        2
    } else if m == "Mar"@ {
        3
    } else if m == "Apr"@ {
        4
    } else if m == "May"@ {
        5
    } else if m == "Jun"@ {
        6
    } else if m == "Jul"@ {
        7
    } else if m == "Aug"@ {
        8
    } else if m == "Sep"@ {
        9
    } else if m == "Oct"@ {
        10
    } else if m == "Nov"@ {
        11
    } else if m == "Dec"@ {
        12
    } else {
        1
    }
}

/// The number that `s` reads as in `i32`, or `dflt` when it does not read.
pub open spec fn parsed_or(s: Seq<char>, dflt: int) -> int {
    match spec_parse_i32(s) {
        Some(v) => v,
        None => dflt,
    }
}

/// The values Zeller's congruence computes for year `y0`, month `m0` and
/// day `d`, in the order it computes them: the year after January and
/// February are counted as months 13 and 14 of the year before, then the
/// running sum `d + 13(m + 1)/5 + y' + y'/4 + c/4 + 5c` term by term, where
/// `c` is the century and `y'` the year within it.
pub open spec fn zeller_steps(y0: int, m0: int, d: int) -> Seq<int> {
    let y = if m0 < 3 {
        y0 - 1
    } else {
        y0
    };
    let m = if m0 < 3 {
        m0 + 12
    } else {
        m0
    };
    let c = trunc_div(y, 100);
    let yy = y - 100 * c;
    let s1 = d + (13 * (m + 1)) / 5;
    let s2 = s1 + yy;
    let s3 = s2 + trunc_div(yy, 4);
    let s4 = s3 + trunc_div(c, 4);
    let s5 = s4 + 5 * c;
    seq![y, s1, s2, s3, s4, s5]
}

/// Every value Zeller's congruence computes fits in `i32`, so that the
/// computation does not overflow.
pub open spec fn zeller_fits(y0: int, m0: int, d: int) -> bool {
    forall|i: int|
        0 <= i < 6 ==> i32::MIN <= #[trigger] zeller_steps(y0, m0, d)[i] <= i32::MAX
}

/// The day of the week, 0 for Saturday to 6 for Friday.
pub open spec fn zeller_day(y0: int, m0: int, d: int) -> int {
    zeller_steps(y0, m0, d)[5] % 7
}

/// The abbreviated English name of day `w` (0 is Saturday).
pub open spec fn day_name(w: int) -> Seq<char> {
    if w == 0 {
        "Sat"@
    } else if w == 1 {
        "Sun"@
    } else if w == 2 {
        "Mon"@
    } else if w == 3 {
        "Tue"@
    } else if w == 4 {
        "Wed"@
    } else if w == 5 {
        "Thu"@
    } else {
        "Fri"@
    }
}

/// The arguments of `weekday` as numbers: a year that does not read is
/// 2024, a day that does not read is 1.
pub open spec fn weekday_args(y: Seq<char>, m: Seq<char>, d: Seq<char>) -> (int, int, int) {
    (parsed_or(y, 2024), month_position(m), parsed_or(d, 1))
}

/// `weekday` computes without overflow on these arguments.
pub open spec fn weekday_defined(y: Seq<char>, m: Seq<char>, d: Seq<char>) -> bool {
    let (a, b, c) = weekday_args(y, m, d);
    zeller_fits(a, b, c)
}

/// The day of the week of year `y`, month `m` (abbreviated) and day `d`.
pub open spec fn spec_weekday(y: Seq<char>, m: Seq<char>, d: Seq<char>) -> Seq<char> {
    let (a, b, c) = weekday_args(y, m, d);
    day_name(zeller_day(a, b, c))
}

fn tdiv(a: i64, b: i64) -> (r: i64)
    requires
        b > 0,
        a > i64::MIN,
    ensures
        r == trunc_div(a as int, b as int),
{
    if a >= 0 {
        ((a as u64) / (b as u64)) as i64
    } else {
        let q: u64 = ((-a) as u64) / (b as u64);
        proof {
            assert(q <= (-a) as u64) by (nonlinear_arith)
                requires
                    q == ((-a) as u64) / (b as u64),
                    b > 0,
            ;
        }
        -(q as i64)
    }
}

fn emod7(a: i64) -> (r: i64)
    requires
        a > i64::MIN,
    ensures
        r == (a as int) % 7,
{
    if a >= 0 {
        ((a as u64) % 7) as i64
    } else {
        let n: u64 = (-a) as u64;
        let q: u64 = n / 7;
        let r: u64 = n % 7;
        proof {
            assert(n == 7 * q + r) by (nonlinear_arith)
                requires
                    q == n / 7,
                    r == n % 7,
            ;
        }
        if r == 0 {
            proof {
                assert((a as int) == 7 * (-(q as int)));
                assert((a as int) % 7 == 0) by (nonlinear_arith)
                    requires
                        (a as int) == 7 * (-(q as int)),
                ;
            }
            0
        } else {
            proof {
                assert((a as int) == 7 * (-(q as int) - 1) + (7 - r));
                assert((a as int) % 7 == 7 - r) by (nonlinear_arith)
                    requires
                        (a as int) == 7 * (-(q as int) - 1) + (7 - r),
                        0 < r < 7,
                ;
            }
            7 - (r as i64)
        }
    }
}

fn month_position_of(m: &str) -> (r: i32)
    ensures
        r == month_position(m@),
{
    if str_eq(m, "") {
        0
    } else if str_eq(m, "Jan") {
        1
    } else if str_eq(m, "Feb") {
        2
    } else if str_eq(m, "Mar") {
        3
    } else if str_eq(m, "Apr") {
        4
    } else if str_eq(m, "May") {
        5
    } else if str_eq(m, "Jun") {
        6
    } else if str_eq(m, "Jul") {
        7
    } else if str_eq(m, "Aug") {
        8
    } else if str_eq(m, "Sep") {
        9
    } else if str_eq(m, "Oct") {
        10
    } else if str_eq(m, "Nov") {
        11
    } else if str_eq(m, "Dec") {
        12
    } else {
        1
    }
}

fn i32_or(v: Option<i32>, dflt: i32) -> (r: i32)
    ensures
        r == match v {
            Some(x) => x,
            None => dflt,
        },
{
    match v {
        Some(x) => x,
        None => dflt,
    }
}

/// The values of `zeller_steps`, computed in 64 bits.
fn zeller_steps_of(y0: i32, m0: i32, d: i32) -> (r: Vec<i64>)
    requires
        0 <= m0 <= 12,
    ensures
        r@.len() == 6,
        forall|i: int| 0 <= i < 6 ==> #[trigger] r@[i] == zeller_steps(y0 as int, m0 as int, d as int)[i],
{
    let y: i64 = if m0 < 3 {
        y0 as i64 - 1
    } else {
        y0 as i64
    };
    let m: i64 = if m0 < 3 {
        m0 as i64 + 12
    } else {
        m0 as i64
    };
    let c = tdiv(y, 100);
    proof {
        assert(-30000000 <= c <= 30000000) by (nonlinear_arith)
            requires
                c == trunc_div(y as int, 100),
                -3000000000 <= y <= 3000000000,
        ;
    }
    let yy: i64 = y - 100 * c;
    proof {
        assert(-100 < yy < 100) by (nonlinear_arith)
            requires
                c == trunc_div(y as int, 100),
                yy == y - 100 * c,
        ;
    }
    let s1: i64 = d as i64 + tdiv(13 * (m + 1), 5);
    let s2: i64 = s1 + yy;
    let s3: i64 = s2 + tdiv(yy, 4);
    let s4: i64 = s3 + tdiv(c, 4);
    let s5: i64 = s4 + 5 * c;
    let mut r: Vec<i64> = Vec::new();
    r.push(y);
    r.push(s1);
    r.push(s2);
    r.push(s3);
    r.push(s4);
    r.push(s5);
    proof {
        let z = zeller_steps(y0 as int, m0 as int, d as int);
        assert(r@[0] == z[0] && r@[1] == z[1] && r@[2] == z[2]);
        assert(r@[3] == z[3] && r@[4] == z[4] && r@[5] == z[5]);
    }
    r
}

/// The day of the week for year `y`, abbreviated month `m` and day `d`,
/// by Zeller's congruence. A year or day that does not read as a number
/// counts as 2024 or 1; a month not in `Jan`..`Dec` counts as January (the
/// empty month as month 0).
pub fn weekday(y: &str, m: &str, d: &str) -> (r: &'static str)
    requires
        weekday_defined(y@, m@, d@),
    ensures
        r@ == spec_weekday(y@, m@, d@),
{
    let yv = i32_or(parse_i32(y), 2024);
    let mv = month_position_of(m);
    let dv = i32_or(parse_i32(d), 1);
    let steps = zeller_steps_of(yv, mv, dv);
    proof {
        assert(i32::MIN <= zeller_steps(yv as int, mv as int, dv as int)[5] <= i32::MAX);
    }
    let w = emod7(steps[5]);
    if w == 0 {
        "Sat"
    } else if w == 1 {
        "Sun"
    } else if w == 2 {
        "Mon"
    } else if w == 3 {
        "Tue"
    } else if w == 4 {
        "Wed"
    } else if w == 5 {
        "Thu"
    } else {
        "Fri"
    }
}

/// Whether `weekday` computes without overflow on these arguments.
pub fn weekday_is_defined(y: &str, m: &str, d: &str) -> (r: bool)
    ensures
        r == weekday_defined(y@, m@, d@),
{
    let yv = i32_or(parse_i32(y), 2024);
    let mv = month_position_of(m);
    let dv = i32_or(parse_i32(d), 1);
    let steps = zeller_steps_of(yv, mv, dv);
    let mut i: usize = 0;
    while i < 6
        invariant
            yv == parsed_or(y@, 2024),
            mv == month_position(m@),
            dv == parsed_or(d@, 1),
            steps@.len() == 6,
            forall|k: int| 0 <= k < 6 ==> #[trigger] steps@[k] == zeller_steps(yv as int, mv as int, dv as int)[k],
            i <= 6,
            forall|k: int|
                0 <= k < i ==> i32::MIN <= #[trigger] zeller_steps(yv as int, mv as int, dv as int)[k]
                    <= i32::MAX,
        decreases 6 - i,
    {
        if steps[i] < i32::MIN as i64 || steps[i] > i32::MAX as i64 {
            proof {
                let k = i as int;
                assert(!(i32::MIN <= zeller_steps(yv as int, mv as int, dv as int)[k] <= i32::MAX));
            }
            return false;
        }
        i = i + 1;
    }
    proof {
        assert(zeller_fits(yv as int, mv as int, dv as int));
    }
    true
}

// ---------------------------------------------------------------------
// RFC 2822 dates
// ---------------------------------------------------------------------

/// The English abbreviation of the month numbered `m` (`"01"` to `"12"`);
/// any other text stands for itself.
pub open spec fn month_abbrev(m: Seq<char>) -> Seq<char> {
    if m == "01"@ {
        "Jan"@
    } else if m == "02"@ {
        "Feb"@
    } else if m == "03"@ {
        "Mar"@
    } else if m == "04"@ {
        "Apr"@
    } else if m == "05"@ {
        "May"@
    } else if m == "06"@ {
        "Jun"@
    } else if m == "07"@ {
        "Jul"@
    } else if m == "08"@ {
        "Aug"@
    } else if m == "09"@ {
        "Sep"@
    } else if m == "10"@ {
        "Oct"@
    } else if m == "11"@ {
        "Nov"@
    } else if m == "12"@ {
        "Dec"@
    } else {
        m
    }
}

/// A `YYYY-MM-DD` date in the form of RFC 2822, at midnight GMT: the date
/// is cut at `-`, and with fewer than three pieces it is given back as it
/// is.
pub open spec fn spec_rfc2822(date: Seq<char>) -> Seq<char> {
    let parts = split_on(date, '-');
    if parts.len() < 3 {
        date
    } else {
        let y = parts[0];
        let m = month_abbrev(parts[1]);
        let d = parts[2];
        spec_weekday(y, m, d) + ", "@ + d + " "@ + m + " "@ + y + " 00:00:00 GMT"@
    }
}

/// `date_to_rfc2822` computes without overflow on `date`.
pub open spec fn rfc2822_defined(date: Seq<char>) -> bool {
    let parts = split_on(date, '-');
    parts.len() >= 3 ==> weekday_defined(parts[0], month_abbrev(parts[1]), parts[2])
}

fn is_text(v: &Vec<char>, lit: &str) -> (r: bool)
    ensures
        r == (v@ == lit@),
{
    chars_eq(v, &chars_of(lit))
}

fn month_abbrev_of(m: &Vec<char>) -> (r: String)
    ensures
        r@ == month_abbrev(m@),
{
    if is_text(m, "01") {
        String::from_str("Jan")
    } else if is_text(m, "02") {
        String::from_str("Feb")
    } else if is_text(m, "03") {
        String::from_str("Mar")
    } else if is_text(m, "04") {
        String::from_str("Apr")
    } else if is_text(m, "05") {
        String::from_str("May")
    } else if is_text(m, "06") {
        String::from_str("Jun")
    } else if is_text(m, "07") {
        String::from_str("Jul")
    } else if is_text(m, "08") {
        String::from_str("Aug")
    } else if is_text(m, "09") {
        String::from_str("Sep")
    } else if is_text(m, "10") {
        String::from_str("Oct")
    } else if is_text(m, "11") {
        String::from_str("Nov")
    } else if is_text(m, "12") {
        String::from_str("Dec")
    } else {
        string_of(m)
    }
}

/// Whether `date_to_rfc2822` computes without overflow on `date`.
pub fn date_is_formattable(date: &str) -> (r: bool)
    ensures
        r == rfc2822_defined(date@),
{
    let v = chars_of(date);
    let parts = split_chars(&v, '-');
    if parts.len() < 3 {
        return true;
    }
    let y = string_of(&parts[0]);
    let m = month_abbrev_of(&parts[1]);
    let d = string_of(&parts[2]);
    weekday_is_defined(y.as_str(), m.as_str(), d.as_str())
}

/// A `YYYY-MM-DD` date as RFC 2822 at midnight GMT, such as
/// `Sat, 15 Jun 2024 00:00:00 GMT`; a date with fewer than three
/// `-`-separated pieces is given back unchanged.
pub fn date_to_rfc2822(date: &str) -> (r: String)
    requires
        rfc2822_defined(date@),
    ensures
        r@ == spec_rfc2822(date@),
{
    let v = chars_of(date);
    let parts = split_chars(&v, '-');
    if parts.len() < 3 {
        return String::from_str(date);
    }
    let y = string_of(&parts[0]);
    let m = month_abbrev_of(&parts[1]);
    let d = string_of(&parts[2]);
    let w = weekday(y.as_str(), m.as_str(), d.as_str());
    let mut r = String::from_str(w);
    r.append(", ");
    r.append(d.as_str());
    r.append(" ");
    r.append(m.as_str());
    r.append(" ");
    r.append(y.as_str());
    r.append(" 00:00:00 GMT");
    r
}

// ---------------------------------------------------------------------
// the RSS feed
// ---------------------------------------------------------------------

/// The address of a post's page.
pub open spec fn post_url(site_url: Seq<char>, slug: Seq<char>) -> Seq<char> {
    site_url + "/post/"@ + slug
}

/// The feed's item for a post.
pub open spec fn feed_item(site_url: Seq<char>, p: Post) -> Seq<char> {
    let url = post_url(site_url, p.slug@);
    "  <item>\n    <title>"@ + escape_xml_seq(p.frontmatter.title@) + "</title>\n    <link>"@ + url
        + "</link>\n    <guid>"@ + url + "</guid>\n    <pubDate>"@ + spec_rfc2822(
        p.frontmatter.date@,
    ) + "</pubDate>\n    <description><![CDATA["@ + p.content_html@
        + "]]></description>\n  </item>\n"@
}

/// The feed's items for a list of posts, in order.
pub open spec fn feed_items(site_url: Seq<char>, ps: Seq<Post>) -> Seq<char>
    decreases ps.len(),
{
    if ps.len() == 0 {
        seq![]
    } else {
        feed_items(site_url, ps.drop_last()) + feed_item(site_url, ps.last())
    }
}

/// The date of the first post, or the empty text when there is none.
pub open spec fn first_date(ps: Seq<Post>) -> Seq<char> {
    if ps.len() > 0 {
        ps[0].frontmatter.date@
    } else {
        seq![]
    }
}

/// The RSS 2.0 document of the site, with the first post's date as the
/// build date.
pub open spec fn spec_feed_xml(title: Seq<char>, url: Seq<char>, desc: Seq<char>, ps: Seq<Post>) -> Seq<char> {
    "<?xml version=\"1.0\" encoding=\"UTF-8\"?>\n<rss version=\"2.0\" xmlns:atom=\"http://www.w3.org/2005/Atom\">\n  <channel>\n    <title>"@
        + title + "</title>\n    <link>"@ + url + "</link>\n    <description>"@ + desc
        + "</description>\n    <language>zh-CN</language>\n    <atom:link href=\""@ + url
        + "/feed.xml\" rel=\"self\" type=\"application/rss+xml\"/>\n    <lastBuildDate>"@
        + spec_rfc2822(first_date(ps)) + "</lastBuildDate>\n"@ + feed_items(url, ps)
        + "\n  </channel>\n</rss>"@
}

/// Every post's date, and the build date, can be formatted.
pub open spec fn feed_dates_defined(ps: Seq<Post>) -> bool {
    &&& forall|i: int| 0 <= i < ps.len() ==> rfc2822_defined(#[trigger] ps[i].frontmatter.date@)
    &&& rfc2822_defined(first_date(ps))
}

fn push_feed_item(out: &mut String, site_url: &str, p: &Post)
    requires
        rfc2822_defined(p.frontmatter.date@),
    ensures
        final(out)@ == old(out)@ + feed_item(site_url@, *p),
{
    let title = escape_xml(p.frontmatter.title.as_str());
    let date = date_to_rfc2822(p.frontmatter.date.as_str());
    let mut url = String::from_str(site_url);
    url.append("/post/");
    url.append(p.slug.as_str());
    let mut item = String::from_str("  <item>\n    <title>");
    item.append(title.as_str());
    item.append("</title>\n    <link>");
    item.append(url.as_str());
    item.append("</link>\n    <guid>");
    item.append(url.as_str());
    item.append("</guid>\n    <pubDate>");
    item.append(date.as_str());
    item.append("</pubDate>\n    <description><![CDATA[");
    item.append(p.content_html.as_str());
    item.append("]]></description>\n  </item>\n");
    out.append(item.as_str());
}

/// The site's RSS feed, one item per post in the order given.
pub fn feed_xml(config: &SiteConfig, posts: &[Post]) -> (r: String)
    requires
        feed_dates_defined(posts@),
    ensures
        r@ == spec_feed_xml(config.title@, config.url@, config.description@, posts@),
{
    let url = config.url.as_str();
    let mut items = String::new();
    let mut i: usize = 0;
    while i < posts.len()
        invariant
            i <= posts@.len(),
            url@ == config.url@,
            forall|k: int| 0 <= k < posts@.len() ==> rfc2822_defined(#[trigger] posts@[k].frontmatter.date@),
            items@ == feed_items(url@, posts@.take(i as int)),
        decreases posts@.len() - i,
    {
        proof {
            assert(posts@.take(i + 1).drop_last() =~= posts@.take(i as int));
            assert(posts@.take(i + 1).last() == posts@[i as int]);
        }
        push_feed_item(&mut items, url, &posts[i]);
        i = i + 1;
    }
    proof {
        assert(posts@.take(posts@.len() as int) =~= posts@);
    }
    let last_build = if posts.len() > 0 {
        date_to_rfc2822(posts[0].frontmatter.date.as_str())
    } else {
        proof {
            reveal_strlit("");
            assert(""@ =~= Seq::<char>::empty());
        }
        date_to_rfc2822("")
    };
    let mut r = String::from_str(
        "<?xml version=\"1.0\" encoding=\"UTF-8\"?>\n<rss version=\"2.0\" xmlns:atom=\"http://www.w3.org/2005/Atom\">\n  <channel>\n    <title>",
    );
    r.append(config.title.as_str());
    r.append("</title>\n    <link>");
    r.append(url);
    r.append("</link>\n    <description>");
    r.append(config.description.as_str());
    r.append("</description>\n    <language>zh-CN</language>\n    <atom:link href=\"");
    r.append(url);
    r.append("/feed.xml\" rel=\"self\" type=\"application/rss+xml\"/>\n    <lastBuildDate>");
    r.append(last_build.as_str());
    r.append("</lastBuildDate>\n");
    r.append(items.as_str());
    r.append("\n  </channel>\n</rss>");
    r
}

// ---------------------------------------------------------------------
// the sitemap
// ---------------------------------------------------------------------

/// The sitemap's entries for the home, about and archive pages.
pub open spec fn sitemap_head(u: Seq<char>) -> Seq<char> {
    "  <url>\n    <loc>"@ + u + "/</loc>\n    <priority>1.0</priority>\n  </url>\n  <url>\n    <loc>"@
        + u + "/about</loc>\n    <priority>0.8</priority>\n  </url>\n  <url>\n    <loc>"@ + u
        + "/archive</loc>\n    <priority>0.7</priority>\n  </url>\n"@
}

/// The sitemap's entry for a post.
pub open spec fn sitemap_entry(u: Seq<char>, p: Post) -> Seq<char> {
    "  <url>\n    <loc>"@ + post_url(u, p.slug@) + "</loc>\n    <lastmod>"@ + p.frontmatter.date@
        + "T00:00:00Z</lastmod>\n    <priority>0.9</priority>\n  </url>\n"@
}

/// The sitemap's entries for a list of posts, in order.
pub open spec fn sitemap_entries(u: Seq<char>, ps: Seq<Post>) -> Seq<char>
    decreases ps.len(),
{
    if ps.len() == 0 {
        seq![]
    } else {
        sitemap_entries(u, ps.drop_last()) + sitemap_entry(u, ps.last())
    }
}

/// The `<url>` entries of the sitemap: the fixed pages, then one per post.
pub fn generate_sitemap_urls(config: &SiteConfig, posts: &[Post]) -> (r: String)
    ensures
        r@ == sitemap_head(config.url@) + sitemap_entries(config.url@, posts@),
{
    let u = config.url.as_str();
    let mut r = String::from_str("  <url>\n    <loc>");
    r.append(u);
    r.append("/</loc>\n    <priority>1.0</priority>\n  </url>\n  <url>\n    <loc>");
    r.append(u);
    r.append("/about</loc>\n    <priority>0.8</priority>\n  </url>\n  <url>\n    <loc>");
    r.append(u);
    r.append("/archive</loc>\n    <priority>0.7</priority>\n  </url>\n");
    proof {
        assert(r@ =~= sitemap_head(u@) + sitemap_entries(u@, posts@.take(0)));
    }
    let mut i: usize = 0;
    while i < posts.len()
        invariant
            i <= posts@.len(),
            u@ == config.url@,
            r@ == sitemap_head(u@) + sitemap_entries(u@, posts@.take(i as int)),
        decreases posts@.len() - i,
    {
        proof {
            assert(posts@.take(i + 1).drop_last() =~= posts@.take(i as int));
            assert(posts@.take(i + 1).last() == posts@[i as int]);
        }
        let p = &posts[i];
        let ghost before = r@;
        r.append("  <url>\n    <loc>");
        r.append(u);
        r.append("/post/");
        r.append(p.slug.as_str());
        r.append("</loc>\n    <lastmod>");
        r.append(p.frontmatter.date.as_str());
        r.append("T00:00:00Z</lastmod>\n    <priority>0.9</priority>\n  </url>\n");
        proof {
            assert(r@ =~= before + sitemap_entry(u@, posts@[i as int]));
        }
        i = i + 1;
    }
    proof {
        assert(posts@.take(posts@.len() as int) =~= posts@);
    }
    r
}

/// The sitemap document around its entries.
pub open spec fn spec_sitemap_xml(urls: Seq<char>) -> Seq<char> {
    "<?xml version=\"1.0\" encoding=\"UTF-8\"?>\n<urlset xmlns=\"http://www.sitemaps.org/schemas/sitemap/0.9\">\n"@
        + urls + "\n</urlset>"@
}

/// The sitemap document of the site.
pub fn sitemap_xml(config: &SiteConfig, posts: &[Post]) -> (r: String)
    ensures
        r@ == spec_sitemap_xml(sitemap_head(config.url@) + sitemap_entries(config.url@, posts@)),
{
    let urls = generate_sitemap_urls(config, posts);
    let mut r = String::from_str(
        "<?xml version=\"1.0\" encoding=\"UTF-8\"?>\n<urlset xmlns=\"http://www.sitemaps.org/schemas/sitemap/0.9\">\n",
    );
    r.append(urls.as_str());
    r.append("\n</urlset>");
    r
}

} // verus!
