//! Posts: their frontmatter, how a Markdown file becomes a post, and the
//! order in which posts are listed.
use vstd::prelude::*;
use vstd::string::*;
use crate::highlight::Highlighter;
use crate::html::{
    minutes_for, spec_toc, spec_word_count, strip_defined, strip_html, strip_is_defined, toc_defined,
    toc_is_defined,
};
use crate::render::rendered;
use crate::watch::{opt_text, path_extension, path_file_stem, spec_path_extension, spec_path_file_stem};
use crate::text::{
    chars_of, find_chars, find_from, lemma_find_from, matches_at, slice_vec,
    spec_to_lowercase, string_of, to_lowercase, trim, trim_chars,
};


pub use crate::escape::{escape_xml, unescape_html};
pub use crate::highlight::{highlight_code_blocks, resolve_syntax};
pub use crate::html::{extract_toc, reading_time, strip_html_tags, word_count};
pub use crate::render::{add_heading_ids, render_markdown};
pub use crate::slug::slugify;


verus! {

/// The TOML header of a post.
#[derive(Debug, Clone)]
pub struct Frontmatter {
    pub title: String,
    pub date: String,
    pub tags: Vec<String>,
    pub excerpt: Option<String>,
}

/// One heading of a post's table of contents.
#[derive(Debug, Clone)]
pub struct TocEntry {
    pub level: usize,
    pub id: String,
    pub text: String,
}

/// A table-of-contents entry as plain values: level, id and text.
pub type TocModel = (nat, Seq<char>, Seq<char>);

impl TocEntry {
    pub open spec fn model(&self) -> TocModel {
        (self.level as nat, self.id@, self.text@)
    }
}

/// A rendered post.
#[derive(Debug, Clone)]
pub struct Post {
    pub frontmatter: Frontmatter,
    pub slug: String,
    pub content_html: String,
    pub excerpt: String,
    pub reading_time: usize,
    pub toc: Vec<TocEntry>,
    pub word_count: usize,
    pub search_text: String,
}

/// The models of a list of table-of-contents entries.
pub open spec fn toc_models(v: Seq<TocEntry>) -> Seq<TocModel> {
    v.map_values(|e: TocEntry| e.model())
}

// ---------------------------------------------------------------------
// frontmatter
// ---------------------------------------------------------------------

/// The frontmatter delimiter `+++`.
pub open spec fn fence() -> Seq<char> {
    "+++"@
}

/// A post file cut into its frontmatter text and its Markdown: the file,
/// trimmed, must start with `+++`; the frontmatter runs to the next `+++`,
/// and the Markdown is what follows, trimmed. `None` without both fences.
pub open spec fn spec_split_frontmatter(content: Seq<char>) -> Option<(Seq<char>, Seq<char>)> {
    let t = trim(content);
    if t.len() >= fence().len() && t.take(fence().len() as int) == fence() {
        let rest = t.skip(fence().len() as int);
        match find_from(rest, fence(), 0) {
            Some(e) => Some((rest.take(e), trim(rest.skip(e + fence().len())))),
            None => None,
        }
    } else {
        None
    }
}

/// Cuts a post file into its frontmatter text and its Markdown body.
pub fn split_frontmatter(content: &str) -> (r: Option<(String, String)>)
    ensures
        match r {
            Some((f, m)) => spec_split_frontmatter(content@) == Some((f@, m@)),
            None => spec_split_frontmatter(content@) is None,
        },
{
    let fence_v = chars_of("+++");
    proof {
        reveal_strlit("+++");
    }
    let t = trim_chars(&chars_of(content));
    if !(t.len() >= fence_v.len() && matches_at(&t, &fence_v, 0)) {
        proof {
            if t@.len() >= fence().len() && t@.take(3) == fence() {
                assert(t@.subrange(0, 3) =~= t@.take(3));
            }
        }
        return None;
    }
    proof {
        assert(t@.subrange(0, 3) =~= t@.take(3));
    }
    let rest = slice_vec(&t, 3, t.len());
    proof {
        assert(rest@ =~= t@.skip(3));
    }
    match find_chars(&rest, &fence_v, 0) {
        Some(e) => {
            proof {
                lemma_find_from(rest@, fence_v@, 0);
            }
            let front = slice_vec(&rest, 0, e);
            let body = trim_chars(&slice_vec(&rest, e + 3, rest.len()));
            proof {
                assert(front@ =~= rest@.take(e as int));
                assert(rest@.subrange(e + 3, rest@.len() as int) =~= rest@.skip(e + 3));
            }
            Some((string_of(&front), string_of(&body)))
        },
        None => None,
    }
}

// ---------------------------------------------------------------------
// dates
// ---------------------------------------------------------------------

/// The ranges of characters that the regular expression `pattern` matches,
/// where it is a single Unicode character class.
pub uninterp spec fn class_ranges(pattern: Seq<char>) -> Option<Seq<(char, char)>>;

/// `regex_syntax::parse` of `pattern`: where the expression is a Unicode
/// character class, its ranges (inclusive bounds), named `class_ranges` of
/// the pattern; `None` where it does not parse or is another expression.
/// The Unicode tables behind a class are not restated.
#[verifier::external_body]
fn unicode_class_ranges(pattern: &str) -> (r: Option<Vec<(char, char)>>)
    ensures
        match r {
            Some(v) => class_ranges(pattern@) == Some(v@),
            None => class_ranges(pattern@) is None,
        },
{
    match regex_syntax::parse(pattern) {
        Ok(hir) => match hir.kind() {
            regex_syntax::hir::HirKind::Class(regex_syntax::hir::Class::Unicode(cls)) => Some(
                cls.ranges().iter().map(|r| (r.start(), r.end())).collect(),
            ),
            _ => None,
        },
        Err(_) => None,
    }
}

/// `c` lies in one of the ranges.
pub open spec fn in_ranges(rs: Seq<(char, char)>, c: char) -> bool {
    exists|i: int| 0 <= i < rs.len() && (#[trigger] rs[i]).0 <= c && c <= rs[i].1
}

/// The class `\d` of regular expressions: the Unicode decimal digits
/// (general category `Nd`), as regex-syntax's tables give them.
pub open spec fn is_decimal_digit(c: char) -> bool {
    match class_ranges("\\d"@) {
        Some(rs) => in_ranges(rs, c),
        None => false,
    }
}

fn in_ranges_exec(rs: &Vec<(char, char)>, c: char) -> (r: bool)
    ensures
        r == in_ranges(rs@, c),
{
    let mut i: usize = 0;
    while i < rs.len()
        invariant
            i <= rs@.len(),
            forall|k: int| 0 <= k < i ==> !((#[trigger] rs@[k]).0 <= c && c <= rs@[k].1),
        decreases rs@.len() - i,
    {
        if rs[i].0 <= c && c <= rs[i].1 {
            return true;
        }
        i = i + 1;
    }
    false
}

/// A date in the form `YYYY-MM-DD` (`^\d{4}-\d{2}-\d{2}$`): ten characters,
/// `-` at positions 4 and 7, decimal digits everywhere else.
pub open spec fn spec_is_valid_date(d: Seq<char>) -> bool {
    &&& d.len() == 10
    &&& d[4] == '-'
    &&& d[7] == '-'
    &&& forall|i: int|
        0 <= i < 10 && i != 4 && i != 7 ==> #[trigger] is_decimal_digit(d[i])
}

/// Whether `date` has the form `YYYY-MM-DD`.
pub fn is_valid_date(date: &str) -> (r: bool)
    ensures
        r == spec_is_valid_date(date@),
{
    let d = chars_of(date);
    if d.len() != 10 || d[4] != '-' || d[7] != '-' {
        return false;
    }
    let digits = unicode_class_ranges("\\d");
    let ranges = match digits {
        Some(rs) => rs,
        None => {
            proof {
                assert(!is_decimal_digit(d@[0]));
            }
            return false;
        },
    };
    let mut i: usize = 0;
    while i < 10
        invariant
            d@ == date@,
            d@.len() == 10,
            d@[4] == '-',
            d@[7] == '-',
            class_ranges("\\d"@) == Some(ranges@),
            i <= 10,
            forall|k: int| 0 <= k < i && k != 4 && k != 7 ==> #[trigger] is_decimal_digit(d@[k]),
        decreases 10 - i,
    {
        if i != 4 && i != 7 && !in_ranges_exec(&ranges, d[i]) {
            proof {
                let k = i as int;
                assert(!is_decimal_digit(d@[k]));
                assert(0 <= k < 10 && k != 4 && k != 7);
                assert(!spec_is_valid_date(d@));
            }
            return false;
        }
        i = i + 1;
    }
    true
}

// ---------------------------------------------------------------------
// building a post
// ---------------------------------------------------------------------

/// The excerpt made from a post's text when its frontmatter has none: the
/// first 160 characters, followed by `...` when the text is longer.
pub open spec fn auto_excerpt(text: Seq<char>) -> Seq<char> {
    if text.len() > 160 {
        text.take(160) + "..."@
    } else {
        text
    }
}

/// The fields that a post derives from its rendered HTML `html`.
pub open spec fn post_fields_from(p: Post, fm: Frontmatter, slug: Seq<char>, html: Seq<char>) -> bool {
    let text = strip_html(html);
    &&& p.frontmatter == fm
    &&& p.slug@ == slug
    &&& p.content_html@ == html
    &&& p.excerpt@ == match fm.excerpt {
        Some(e) => e@,
        None => auto_excerpt(text),
    }
    &&& toc_models(p.toc@) == spec_toc(html)
    &&& p.word_count == spec_word_count(html)
    &&& p.reading_time == minutes_for(spec_word_count(html))
    &&& p.search_text@ == spec_to_lowercase(text)
}

/// The slug of the post file at `path`: its file stem (empty when it has
/// none) for a file with the extension `md`; `None` for any other file.
pub open spec fn spec_post_slug(path: Seq<char>) -> Option<Seq<char>> {
    if spec_path_extension(path) == Some("md"@) {
        Some(
            match spec_path_file_stem(path) {
                Some(s) => s,
                None => seq![],
            },
        )
    } else {
        None
    }
}

/// The slug of the post file at `path` (`posts/hello.md` gives `hello`), or
/// `None` when it is not a Markdown file.
pub fn post_slug(path: &str) -> (r: Option<String>)
    ensures
        opt_text(r) == spec_post_slug(path@),
{
    let is_md = match path_extension(path) {
        Some(e) => crate::text::str_eq(e.as_str(), "md"),
        None => false,
    };
    if !is_md {
        return None;
    }
    match path_file_stem(path) {
        Some(s) => Some(s),
        None => Some(String::new()),
    }
}

/// Why a Markdown file gives no post.
#[derive(Debug, Clone, Copy, PartialEq, Eq, Structural)]
pub enum PostError {
    /// Its HTML cannot be read to the end for its text (see
    /// `strip_defined` and `toc_defined`).
    Unreadable,
    /// Its date is not of the form `YYYY-MM-DD`.
    InvalidDate,
}

/// The text of `html` can be read for the excerpt, the table of contents,
/// the word count and the search text.
pub open spec fn html_readable(html: Seq<char>) -> bool {
    strip_defined(html) && toc_defined(html)
}

/// What `build_post` gives for the frontmatter `fm`, the slug `slug` and
/// the rendered HTML `html`.
pub open spec fn post_outcome(r: Result<Post, PostError>, fm: Frontmatter, slug: Seq<char>, html: Seq<char>) -> bool {
    match r {
        Ok(p) => html_readable(html) && spec_is_valid_date(fm.date@) && p.content_html@ == html
            && post_fields_from(p, fm, slug, html),
        Err(PostError::Unreadable) => !html_readable(html),
        Err(PostError::InvalidDate) => html_readable(html) && !spec_is_valid_date(fm.date@),
    }
}

/// The fields of a built post that come from its text are taken from the
/// HTML with its tags stripped (`strip_html_tags`), never from the markup:
/// an excerpt made for a post without one is that text, cut to its first
/// 160 characters followed by `...` when longer, and holds no `<`; the
/// word count counts the words of that text, the reading time is
/// `max(1, (words + 100) / 200)` minutes, and the search text is that text
/// lowercased.
pub proof fn lemma_post_text_fields(p: Post, fm: Frontmatter, slug: Seq<char>, html: Seq<char>)
    requires
        post_outcome(Ok(p), fm, slug, html),
    ensures
        p.content_html@ == html,
        fm.excerpt is None ==> !p.excerpt@.contains('<'),
        fm.excerpt is None ==> (if strip_html(html).len() <= 160 {
            p.excerpt@ == strip_html(html)
        } else {
            p.excerpt@ == strip_html(html).take(160) + "..."@
        }),
        fm.excerpt matches Some(e) ==> p.excerpt@ == e@,
        p.word_count == crate::text::words(strip_html(html)).len(),
        p.reading_time >= 1,
        p.reading_time == (if (p.word_count + 100) / 200 < 1 {
            1
        } else {
            (p.word_count + 100) / 200
        }),
        p.search_text@ == spec_to_lowercase(strip_html(html)),
{
    let t = strip_html(html);
    crate::html::lemma_strip_html_no_tag_open(html);
    if fm.excerpt is None && t.len() > 160 {
        reveal_strlit("...");
        let x = t.take(160) + "..."@;
        assert forall|k: int| 0 <= k < x.len() implies x[k] != '<' by {
            if k < 160 {
                assert(x[k] == t[k]);
            } else {
                assert(x[k] == "..."@[k - 160]);
            }
        }
    }
}

/// A post from its frontmatter, its slug and its Markdown body: the body is
/// rendered and the excerpt, table of contents, word count, reading time and
/// search text are derived from the HTML. The HTML is read first, so
/// `Unreadable` comes before `InvalidDate`, which is given when the date is
/// not of the form `YYYY-MM-DD`.
pub fn build_post(fm: Frontmatter, slug: String, markdown: &str, hl: &Highlighter) -> (r: Result<Post, PostError>)
    ensures
        exists|html: Seq<char>| rendered(*hl, markdown@, html),
        forall|html: Seq<char>| #[trigger] rendered(*hl, markdown@, html)
            ==> post_outcome(r, fm, slug@, html),
{
    let content_html = render_markdown(markdown, hl);
    proof {
        assert forall|html: Seq<char>| #[trigger] rendered(*hl, markdown@, html) implies html
            == content_html@ by {
            crate::render::lemma_rendered_unique(*hl, markdown@, html, content_html@);
        }
    }
    if !strip_is_defined(content_html.as_str()) || !toc_is_defined(content_html.as_str()) {
        return Err(PostError::Unreadable);
    }
    let stripped = strip_html_tags(content_html.as_str());
    let text = chars_of(stripped.as_str());
    let excerpt = match &fm.excerpt {
        Some(e) => e.clone(),
        None => {
            if text.len() > 160 {
                let mut ex = string_of(&slice_vec(&text, 0, 160));
                ex.append("...");
                proof {
                    assert(text@.subrange(0, 160) =~= text@.take(160));
                }
                ex
            } else {
                string_of(&text)
            }
        },
    };
    let toc = extract_toc(content_html.as_str());
    let wc = word_count(content_html.as_str());
    let rt = reading_time(content_html.as_str());
    let search_text = to_lowercase(stripped.as_str());
    if !is_valid_date(fm.date.as_str()) {
        return Err(PostError::InvalidDate);
    }
    Ok(
        Post {
            frontmatter: fm,
            slug,
            content_html,
            excerpt,
            reading_time: rt,
            toc,
            word_count: wc,
            search_text,
        },
    )
}

// ---------------------------------------------------------------------
// ordering posts
// ---------------------------------------------------------------------

/// `a` comes before `b` in the lexicographic order of code points (the
/// order of `str`).
pub open spec fn str_lt(a: Seq<char>, b: Seq<char>) -> bool
    decreases a.len(),
{
    if a.len() == 0 {
        b.len() > 0
    } else if b.len() == 0 {
        false
    } else if a[0] != b[0] {
        (a[0] as u32) < (b[0] as u32)
    } else {
        str_lt(a.drop_first(), b.drop_first())
    }
}

/// `a` and `b` agree on their first `i` characters, and there `a` ends
/// while `b` goes on, or `a` has the smaller character.
pub open spec fn first_difference_lt(a: Seq<char>, b: Seq<char>, i: int) -> bool {
    &&& 0 <= i <= a.len()
    &&& i <= b.len()
    &&& a.take(i) == b.take(i)
    &&& ((i == a.len() && i < b.len()) || (i < a.len() && i < b.len() && (a[i] as u32) < (
        b[i] as u32)))
}

/// `str_lt` is the lexicographic order of `str`: `a < b` exactly when, at
/// the first position where they differ, `a` has ended or has the smaller
/// character. Every position counts, so dates compare by year, then month,
/// then day.
pub proof fn lemma_str_lt_lexicographic(a: Seq<char>, b: Seq<char>)
    ensures
        str_lt(a, b) <==> exists|i: int| #[trigger] first_difference_lt(a, b, i),
    decreases a.len(),
{
    if a.len() == 0 {
        if b.len() > 0 {
            assert(a.take(0) =~= b.take(0));
            assert(first_difference_lt(a, b, 0));
        }
    } else if b.len() == 0 {
        assert forall|i: int| !first_difference_lt(a, b, i) by {}
    } else if a[0] != b[0] {
        assert(a.take(0) =~= b.take(0));
        if (a[0] as u32) < (b[0] as u32) {
            assert(first_difference_lt(a, b, 0));
        }
        assert forall|i: int| #[trigger] first_difference_lt(a, b, i) implies i == 0 by {
            if i > 0 {
                assert(a.take(i)[0] == b.take(i)[0]);
            }
        }
    } else {
        let a1 = a.drop_first();
        let b1 = b.drop_first();
        lemma_str_lt_lexicographic(a1, b1);
        if str_lt(a1, b1) {
            let j = choose|j: int| #[trigger] first_difference_lt(a1, b1, j);
            assert(a.take(j + 1) =~= seq![a[0]] + a1.take(j));
            assert(b.take(j + 1) =~= seq![b[0]] + b1.take(j));
            assert(first_difference_lt(a, b, j + 1));
        }
        assert forall|i: int| #[trigger] first_difference_lt(a, b, i) implies first_difference_lt(
            a1,
            b1,
            i - 1,
        ) by {
            if i == 0 {
                assert(false);
            }
            assert(a1.take(i - 1) =~= a.take(i).drop_first());
            assert(b1.take(i - 1) =~= b.take(i).drop_first());
        }
    }
}

/// Whether `a < b` in the order of `str`.
pub fn chars_lt(a: &Vec<char>, b: &Vec<char>) -> (r: bool)
    ensures
        r == str_lt(a@, b@),
{
    let mut i: usize = 0;
    proof {
        assert(a@.skip(0) =~= a@);
        assert(b@.skip(0) =~= b@);
    }
    while i < a.len() && i < b.len() && a[i] == b[i]
        invariant
            i <= a@.len(),
            i <= b@.len(),
            str_lt(a@, b@) == str_lt(a@.skip(i as int), b@.skip(i as int)),
        decreases a@.len() - i,
    {
        proof {
            assert(a@.skip(i as int).drop_first() =~= a@.skip(i + 1));
            assert(b@.skip(i as int).drop_first() =~= b@.skip(i + 1));
        }
        i = i + 1;
    }
    proof {
        if i < a@.len() {
            assert(a@.skip(i as int)[0] == a@[i as int]);
        }
        if i < b@.len() {
            assert(b@.skip(i as int)[0] == b@[i as int]);
        }
    }
    if i == a.len() {
        i < b.len()
    } else if i == b.len() {
        false
    } else {
        (a[i] as u32) < (b[i] as u32)
    }
}

/// The date of a post.
pub open spec fn post_date(p: Post) -> Seq<char> {
    p.frontmatter.date@
}

/// `x` put into `s` just before the first post whose date is earlier than
/// its own.
pub open spec fn insert_by_date(s: Seq<Post>, x: Post) -> Seq<Post>
    decreases s.len(),
{
    if s.len() == 0 {
        seq![x]
    } else if str_lt(post_date(s[0]), post_date(x)) {
        seq![x] + s
    } else {
        seq![s[0]] + insert_by_date(s.drop_first(), x)
    }
}

/// `s` ordered newest first, posts of equal date keeping their order
/// (a stable sort by date, descending).
pub open spec fn sort_by_date_desc(s: Seq<Post>) -> Seq<Post>
    decreases s.len(),
{
    if s.len() == 0 {
        seq![]
    } else {
        insert_by_date(sort_by_date_desc(s.drop_last()), s.last())
    }
}

/// Inserting before the first earlier post is inserting at that index.
proof fn lemma_insert_by_date_at(s: Seq<Post>, x: Post, j: int)
    requires
        0 <= j <= s.len(),
        forall|k: int| 0 <= k < j ==> !str_lt(post_date(#[trigger] s[k]), post_date(x)),
        j < s.len() ==> str_lt(post_date(s[j]), post_date(x)),
    ensures
        insert_by_date(s, x) == s.take(j) + seq![x] + s.skip(j),
    decreases s.len(),
{
    if s.len() == 0 {
        assert(s.take(j) + seq![x] + s.skip(j) =~= seq![x]);
    } else if j == 0 {
        assert(s.take(0) + seq![x] + s.skip(0) =~= seq![x] + s);
    } else {
        let t = s.drop_first();
        assert forall|k: int| 0 <= k < j - 1 implies !str_lt(post_date(#[trigger] t[k]), post_date(x)) by {
            assert(t[k] == s[k + 1]);
        }
        if j - 1 < t.len() {
            assert(t[j - 1] == s[j]);
        }
        lemma_insert_by_date_at(t, x, j - 1);
        assert(!str_lt(post_date(s[0]), post_date(x)));
        assert(seq![s[0]] + (t.take(j - 1) + seq![x] + t.skip(j - 1)) =~= s.take(j) + seq![x]
            + s.skip(j));
    }
}

/// Posts ordered newest first; posts with the same date keep their order.
pub fn sort_posts_newest_first(posts: Vec<Post>) -> (r: Vec<Post>)
    ensures
        r@ == sort_by_date_desc(posts@),
{
    let ghost orig = posts@;
    let total: usize = posts.len();
    let mut rest = posts;
    let mut sorted: Vec<Post> = Vec::new();
    let mut dates: Vec<Vec<char>> = Vec::new();
    let mut n: usize = 0;
    while rest.len() > 0
        invariant
            n + rest@.len() == orig.len(),
            orig.len() == total,
            rest@ == orig.skip(n as int),
            sorted@ == sort_by_date_desc(orig.take(n as int)),
            dates@.len() == sorted@.len(),
            forall|k: int| 0 <= k < dates@.len() ==> (#[trigger] dates@[k])@ == post_date(sorted@[k]),
        decreases rest@.len(),
    {
        let x = rest.remove(0);
        let xd = chars_of(x.frontmatter.date.as_str());
        let mut j: usize = 0;
        while j < sorted.len() && !chars_lt(&dates[j], &xd)
            invariant
                j <= sorted@.len(),
                dates@.len() == sorted@.len(),
                forall|k: int| 0 <= k < dates@.len() ==> (#[trigger] dates@[k])@ == post_date(sorted@[k]),
                xd@ == post_date(x),
                forall|k: int| 0 <= k < j ==> !str_lt(post_date(#[trigger] sorted@[k]), post_date(x)),
            decreases sorted@.len() - j,
        {
            j = j + 1;
        }
        proof {
            lemma_insert_by_date_at(sorted@, x, j as int);
            assert(orig.take(n + 1).drop_last() =~= orig.take(n as int));
            assert(orig.take(n + 1).last() == x);
        }
        let ghost old_sorted = sorted@;
        let ghost old_dates = dates@;
        sorted.insert(j, x);
        dates.insert(j, xd);
        proof {
            assert(sorted@ =~= old_sorted.take(j as int) + seq![x] + old_sorted.skip(j as int));
            assert forall|k: int| 0 <= k < dates@.len() implies (#[trigger] dates@[k])@ == post_date(sorted@[k]) by {
                if k < j {
                    assert(dates@[k] == old_dates[k]);
                    assert(sorted@[k] == old_sorted[k]);
                } else if k > j {
                    assert(dates@[k] == old_dates[k - 1]);
                    assert(sorted@[k] == old_sorted[k - 1]);
                }
            }
            assert(rest@ =~= orig.skip(n + 1));
        }
        n = n + 1;
    }
    proof {
        assert(orig.take(n as int) =~= orig);
    }
    sorted
}

// ---------------------------------------------------------------------
// laws of the order
// ---------------------------------------------------------------------

/// The order of `str` is transitive.
pub proof fn lemma_str_lt_transitive(a: Seq<char>, b: Seq<char>, c: Seq<char>)
    requires
        str_lt(a, b),
        str_lt(b, c),
    ensures
        str_lt(a, c),
    decreases a.len(),
{
    if a.len() > 0 && a[0] == b[0] && b[0] == c[0] {
        lemma_str_lt_transitive(a.drop_first(), b.drop_first(), c.drop_first());
    }
}

/// Every element of an insertion is the inserted post or one of `s`.
proof fn lemma_insert_by_date_elems(s: Seq<Post>, x: Post, k: int)
    requires
        0 <= k < insert_by_date(s, x).len(),
    ensures
        insert_by_date(s, x).len() == s.len() + 1,
        insert_by_date(s, x)[k] == x || exists|j: int| 0 <= j < s.len() && s[j] == insert_by_date(s, x)[k],
    decreases s.len(),
{
    if s.len() > 0 && !str_lt(post_date(s[0]), post_date(x)) {
        if k > 0 {
            lemma_insert_by_date_elems(s.drop_first(), x, k - 1);
            if insert_by_date(s, x)[k] != x {
                let j = choose|j: int| 0 <= j < s.drop_first().len() && s.drop_first()[j] == insert_by_date(s.drop_first(), x)[k - 1];
                assert(s[j + 1] == insert_by_date(s, x)[k]);
            }
        } else {
            lemma_insert_by_date_elems(s.drop_first(), x, 0);
            assert(s[0] == insert_by_date(s, x)[k]);
        }
    } else if s.len() > 0 {
        if k > 0 {
            assert(s[k - 1] == insert_by_date(s, x)[k]);
        }
    }
}

/// Posts listed newest first: no post is older than one after it.
pub open spec fn newest_first(s: Seq<Post>) -> bool {
    forall|i: int, j: int| 0 <= i < j < s.len() ==> !str_lt(post_date(#[trigger] s[i]), post_date(#[trigger] s[j]))
}

proof fn lemma_insert_by_date_sorted(s: Seq<Post>, x: Post)
    requires
        newest_first(s),
    ensures
        newest_first(insert_by_date(s, x)),
        insert_by_date(s, x).to_multiset() == s.to_multiset().insert(x),
    decreases s.len(),
{
    broadcast use vstd::seq_lib::group_to_multiset_ensures;

    if s.len() == 0 {
        assert(seq![x] =~= s.insert(0, x));
    } else if str_lt(post_date(s[0]), post_date(x)) {
        let r = insert_by_date(s, x);
        assert(r =~= s.insert(0, x));
        assert forall|i: int, j: int| 0 <= i < j < r.len() implies !str_lt(post_date(#[trigger] r[i]), post_date(#[trigger] r[j])) by {
            if i == 0 {
                if str_lt(post_date(x), post_date(s[j - 1])) {
                    lemma_str_lt_transitive(post_date(s[0]), post_date(x), post_date(s[j - 1]));
                    if j - 1 > 0 {
                        assert(!str_lt(post_date(s[0]), post_date(s[j - 1])));
                    }
                    lemma_str_lt_irreflexive(post_date(s[0]));
                }
            } else {
                assert(r[i] == s[i - 1]);
                assert(r[j] == s[j - 1]);
            }
        }
    } else {
        let t = s.drop_first();
        assert(newest_first(t)) by {
            assert forall|i: int, j: int| 0 <= i < j < t.len() implies !str_lt(post_date(#[trigger] t[i]), post_date(#[trigger] t[j])) by {
                assert(t[i] == s[i + 1]);
                assert(t[j] == s[j + 1]);
            }
        }
        lemma_insert_by_date_sorted(t, x);
        let ti = insert_by_date(t, x);
        let r = insert_by_date(s, x);
        assert(r =~= ti.insert(0, s[0]));
        assert(s =~= t.insert(0, s[0]));
        assert(r.to_multiset() =~= s.to_multiset().insert(x));
        assert forall|i: int, j: int| 0 <= i < j < r.len() implies !str_lt(post_date(#[trigger] r[i]), post_date(#[trigger] r[j])) by {
            if i == 0 {
                lemma_insert_by_date_elems(t, x, j - 1);
                assert(r[j] == ti[j - 1]);
                if ti[j - 1] != x {
                    let k = choose|k: int| 0 <= k < t.len() && t[k] == ti[j - 1];
                    assert(s[k + 1] == t[k]);
                }
            } else {
                assert(r[i] == ti[i - 1]);
                assert(r[j] == ti[j - 1]);
            }
        }
    }
}

/// No text comes before itself.
pub proof fn lemma_str_lt_irreflexive(a: Seq<char>)
    ensures
        !str_lt(a, a),
    decreases a.len(),
{
    if a.len() > 0 {
        lemma_str_lt_irreflexive(a.drop_first());
    }
}

/// Sorting lists the posts newest first, and lists the same posts: each
/// as often as before.
pub proof fn lemma_sort_by_date_desc(s: Seq<Post>)
    ensures
        newest_first(sort_by_date_desc(s)),
        sort_by_date_desc(s).to_multiset() == s.to_multiset(),
    decreases s.len(),
{
    broadcast use vstd::seq_lib::group_to_multiset_ensures;

    if s.len() > 0 {
        lemma_sort_by_date_desc(s.drop_last());
        lemma_insert_by_date_sorted(sort_by_date_desc(s.drop_last()), s.last());
        assert(s =~= s.drop_last().push(s.last()));
    } else {
        assert(s.to_multiset() =~= sort_by_date_desc(s).to_multiset());
    }
}

} // verus!
