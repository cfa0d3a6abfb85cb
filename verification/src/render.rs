//! From Markdown to the HTML of a post: heading anchors and highlighted
//! code blocks.
use vstd::prelude::*;
use vstd::string::*;
use syntect::parsing::SyntaxSet;
use crate::highlight::{code_filled, highlight_code_blocks, Highlighter};
use crate::slug::{slugify, spec_slugify};
use crate::text::{
    chars_of, contains_chars, contains_seq, find_chars, find_from, lemma_find_from, occurs_at,
    push_chars, push_range, slice_vec, string_of, string_push, trim, trim_chars, trim_start,
    trim_start_bounds,
};

verus! {

// ---------------------------------------------------------------------
// heading anchors
// ---------------------------------------------------------------------

/// `h[j..]` starts with a closing heading tag `</hN>`, N in 1..=6.
pub open spec fn close_heading_at(h: Seq<char>, j: int) -> bool {
    0 <= j && j + 5 <= h.len() && h[j] == '<' && h[j + 1] == '/' && h[j + 2] == 'h' && '1'
        <= h[j + 3] && h[j + 3] <= '6' && h[j + 4] == '>'
}

/// The first closing heading tag at or after `j`, provided no line break
/// comes before it.
pub open spec fn heading_close_from(h: Seq<char>, j: int) -> Option<int>
    decreases h.len() - j,
{
    if j < 0 || j >= h.len() {
        None
    } else if close_heading_at(h, j) {
        Some(j)
    } else if h[j] == '\n' {
        None
    } else {
        heading_close_from(h, j + 1)
    }
}

/// A heading `<hN attrs>text</hM>` starting at `p`, as the regular
/// expression `<h([1-6])([^>]*)>(.*?)</h[1-6]>` matches it: the index of
/// the `>` that ends the opening tag, the index where the text ends, and
/// the end of the match.
pub open spec fn match_heading_at(h: Seq<char>, p: int) -> Option<(int, int, int)> {
    if 0 <= p && p + 3 <= h.len() && h[p] == '<' && h[p + 1] == 'h' && '1' <= h[p + 2] && h[p
        + 2] <= '6' {
        match find_from(h, seq!['>'], p + 3) {
            Some(g) => match heading_close_from(h, g + 1) {
                Some(t) => Some((g, t, t + 5)),
                None => None,
            },
            None => None,
        }
    } else {
        None
    }
}

/// What a matched heading is replaced with: unchanged if its attributes
/// already hold `id=`, otherwise rebuilt with the slug of its text as `id`
/// (and its other attributes after it), closed at its own level.
pub open spec fn heading_replacement(h: Seq<char>, p: int, g: int, t: int, e: int) -> Seq<char> {
    let l = h[p + 2];
    let attrs = h.subrange(p + 3, g);
    let text = h.subrange(g + 1, t);
    if contains_seq(attrs, seq!['i', 'd', '=']) {
        h.subrange(p, e)
    } else if trim(attrs).len() == 0 {
        seq!['<', 'h', l] + " id=\""@ + spec_slugify(text) + "\">"@ + text + seq!['<', '/', 'h', l, '>']
    } else {
        seq!['<', 'h', l] + " id=\""@ + spec_slugify(text) + "\" "@ + trim_start(attrs) + seq!['>']
            + text + seq!['<', '/', 'h', l, '>']
    }
}

/// `h` from `p` on with every heading replaced, scanning left to right
/// and resuming after each replaced heading.
pub open spec fn headings_from(h: Seq<char>, p: int) -> Seq<char>
    decreases h.len() + 1 - p,
{
    if p < 0 || p >= h.len() {
        seq![]
    } else {
        match match_heading_at(h, p) {
            Some((g, t, e)) => {
                if e <= p || e > h.len() {
                    seq![]
                } else {
                    heading_replacement(h, p, g, t, e) + headings_from(h, e)
                }
            },
            None => seq![h[p]] + headings_from(h, p + 1),
        }
    }
}

/// `h` with an `id` added to every heading that has none.
pub open spec fn spec_add_heading_ids(h: Seq<char>) -> Seq<char> {
    headings_from(h, 0)
}

proof fn lemma_heading_close_bounds(h: Seq<char>, j: int)
    ensures
        heading_close_from(h, j) matches Some(t) ==> j <= t && t + 5 <= h.len(),
    decreases h.len() - j,
{
    if 0 <= j < h.len() && !close_heading_at(h, j) && h[j] != '\n' {
        lemma_heading_close_bounds(h, j + 1);
    }
}

/// A heading matched at `p` lies inside `h` and after `p`.
proof fn lemma_match_heading_bounds(h: Seq<char>, p: int)
    ensures
        match_heading_at(h, p) matches Some((g, t, e)) ==> p + 3 <= g < t && e == t + 5 && e
            <= h.len(),
{
    if 0 <= p && p + 3 <= h.len() {
        lemma_find_from(h, seq!['>'], p + 3);
        if let Some(g) = find_from(h, seq!['>'], p + 3) {
            lemma_heading_close_bounds(h, g + 1);
        }
    }
}

/// Every heading tag in `h` already has `id=` among its attributes.
pub open spec fn headings_identified(h: Seq<char>) -> bool {
    forall|p: int|
        #[trigger] match_heading_at(h, p) matches Some((g, t, e)) ==> contains_seq(
            h.subrange(p + 3, g),
            seq!['i', 'd', '='],
        )
}

proof fn lemma_headings_from_identified(h: Seq<char>, p: int)
    requires
        0 <= p <= h.len(),
        headings_identified(h),
    ensures
        headings_from(h, p) == h.skip(p),
    decreases h.len() - p,
{
    if p < h.len() {
        lemma_match_heading_bounds(h, p);
        match match_heading_at(h, p) {
            Some((g, t, e)) => {
                lemma_headings_from_identified(h, e);
                assert(h.subrange(p, e) + h.skip(e) =~= h.skip(p));
            },
            None => {
                lemma_headings_from_identified(h, p + 1);
                assert(seq![h[p]] + h.skip(p + 1) =~= h.skip(p));
            },
        }
    } else {
        assert(h.skip(p) =~= Seq::<char>::empty());
    }
}

/// HTML in which every heading already carries an `id` is left unchanged
/// by `add_heading_ids`.
pub proof fn lemma_add_heading_ids_keeps_identified(h: Seq<char>)
    requires
        headings_identified(h),
    ensures
        spec_add_heading_ids(h) == h,
{
    lemma_headings_from_identified(h, 0);
    assert(h.skip(0) =~= h);
}

fn heading_close(h: &Vec<char>, from: usize) -> (r: Option<usize>)
    ensures
        match r {
            Some(t) => heading_close_from(h@, from as int) == Some(t as int) && from <= t && t
                + 5 <= h@.len(),
            None => heading_close_from(h@, from as int) is None,
        },
{
    let mut j: usize = from;
    while j < h.len()
        invariant
            from <= j,
            heading_close_from(h@, from as int) == heading_close_from(h@, j as int),
        decreases h@.len() - j,
    {
        if h.len() - j >= 5 && h[j] == '<' && h[j + 1] == '/' && h[j + 2] == 'h' && '1' <= h[j
            + 3] && h[j + 3] <= '6' && h[j + 4] == '>' {
            return Some(j);
        }
        if h[j] == '\n' {
            return None;
        }
        j = j + 1;
    }
    None
}

fn match_heading(h: &Vec<char>, p: usize, gt: &Vec<char>) -> (r: Option<(usize, usize, usize)>)
    requires
        gt@ == seq!['>'],
    ensures
        match r {
            Some((g, t, e)) => match_heading_at(h@, p as int) == Some(
                (g as int, t as int, e as int),
            ) && p + 3 <= g < t && e == t + 5 && e <= h@.len(),
            None => match_heading_at(h@, p as int) is None,
        },
{
    if p > h.len() || h.len() - p < 3 {
        return None;
    }
    if !(h[p] == '<' && h[p + 1] == 'h' && '1' <= h[p + 2] && h[p + 2] <= '6') {
        return None;
    }
    match find_chars(h, gt, p + 3) {
        Some(g) => {
            proof {
                lemma_find_from(h@, gt@, p + 3);
            }
            match heading_close(h, g + 1) {
                Some(t) => Some((g, t, t + 5)),
                None => None,
            }
        },
        None => None,
    }
}

/// Adds `id="slug-of-text"` to each heading `<h1>`..`<h6>` that has no `id`.
pub fn add_heading_ids(html: &str) -> (r: String)
    ensures
        r@ == spec_add_heading_ids(html@),
{
    let h = chars_of(html);
    let gt = chars_of(">");
    let id_eq = chars_of("id=");
    proof {
        reveal_strlit(">");
        reveal_strlit("id=");
        assert(gt@ =~= seq!['>']);
        assert(id_eq@ =~= seq!['i', 'd', '=']);
    }
    let mut out = String::new();
    let mut p: usize = 0;
    while p < h.len()
        invariant
            p <= h@.len(),
            gt@ == seq!['>'],
            id_eq@ == seq!['i', 'd', '='],
            out@ + headings_from(h@, p as int) == headings_from(h@, 0),
        decreases h@.len() - p,
    {
        match match_heading(&h, p, &gt) {
            Some((g, t, e)) => {
                let ghost before = out@;
                let l = h[p + 2];
                let attrs = slice_vec(&h, p + 3, g);
                let text = slice_vec(&h, g + 1, t);
                if contains_chars(&attrs, &id_eq) {
                    push_range(&mut out, &h, p, e);
                } else {
                    let text_s = string_of(&text);
                    let slug = slugify(text_s.as_str());
                    let trimmed = trim_chars(&attrs);
                    string_push(&mut out, '<');
                    string_push(&mut out, 'h');
                    string_push(&mut out, l);
                    out.append(" id=\"");
                    out.append(slug.as_str());
                    if trimmed.len() == 0 {
                        out.append("\">");
                    } else {
                        out.append("\" ");
                        let a = trim_start_bounds(&attrs);
                        push_range(&mut out, &attrs, a, attrs.len());
                        string_push(&mut out, '>');
                        proof {
                            assert(attrs@.subrange(a as int, attrs@.len() as int) =~= attrs@.skip(
                                a as int,
                            ));
                        }
                    }
                    push_chars(&mut out, &text);
                    string_push(&mut out, '<');
                    string_push(&mut out, '/');
                    string_push(&mut out, 'h');
                    string_push(&mut out, l);
                    string_push(&mut out, '>');
                }
                proof {
                    assert(out@ =~= before + heading_replacement(
                        h@,
                        p as int,
                        g as int,
                        t as int,
                        e as int,
                    ));
                }
                p = e;
            },
            None => {
                let ghost before = out@;
                string_push(&mut out, h[p]);
                proof {
                    assert(out@ + headings_from(h@, p + 1) =~= before + headings_from(
                        h@,
                        p as int,
                    ));
                }
                p = p + 1;
            },
        }
    }
    proof {
        assert(out@ + Seq::<char>::empty() =~= out@);
    }
    out
}

// ---------------------------------------------------------------------
// Markdown
// ---------------------------------------------------------------------

/// pulldown-cmark's `ENABLE_TABLES`.
pub const OPTION_TABLES: u32 = 1 << 1;

/// pulldown-cmark's `ENABLE_FOOTNOTES`.
pub const OPTION_FOOTNOTES: u32 = 1 << 2;

/// pulldown-cmark's `ENABLE_STRIKETHROUGH`.
pub const OPTION_STRIKETHROUGH: u32 = 1 << 3;

/// pulldown-cmark's `ENABLE_TASKLISTS`.
pub const OPTION_TASKLISTS: u32 = 1 << 4;

/// pulldown-cmark's `ENABLE_HEADING_ATTRIBUTES`.
pub const OPTION_HEADING_ATTRIBUTES: u32 = 1 << 6;

/// The Markdown extensions that posts are written with: tables, footnotes,
/// strikethrough, task lists and heading attributes.
pub const MARKDOWN_OPTIONS: u32 = OPTION_TABLES | OPTION_FOOTNOTES | OPTION_STRIKETHROUGH
    | OPTION_TASKLISTS | OPTION_HEADING_ATTRIBUTES;

/// The HTML that pulldown-cmark renders Markdown `content` into, with the
/// extensions whose bits are set in `options`.
pub uninterp spec fn markdown_html(content: Seq<char>, options: u32) -> Seq<char>;

/// `pulldown_cmark::html::push_html` of `Parser::new_ext(content, options)`
/// into an empty string. The CommonMark rendering is not restated; the
/// result is named `markdown_html` of the content and the option bits.
#[verifier::external_body]
fn markdown_to_html(content: &str, options: u32) -> (r: String)
    ensures
        r@ == markdown_html(content@, options),
{
    let mut out = String::new();
    pulldown_cmark::html::push_html(
        &mut out,
        pulldown_cmark::Parser::new_ext(content, pulldown_cmark::Options::from_bits_truncate(options)),
    );
    out
}

/// The HTML of Markdown `content` before its code blocks are laid out:
/// rendered, then given heading anchors.
pub open spec fn anchored_html(content: Seq<char>) -> Seq<char> {
    spec_add_heading_ids(markdown_html(content, MARKDOWN_OPTIONS))
}

/// `r` is the HTML of a post written in Markdown `content`.
pub open spec fn rendered(hl: Highlighter, content: Seq<char>, r: Seq<char>) -> bool {
    code_filled(hl, anchored_html(content), 0, r)
}

/// A Markdown text has a single rendering: two renderings of the same
/// text with the same highlighter are equal.
pub proof fn lemma_rendered_unique(hl: Highlighter, content: Seq<char>, r1: Seq<char>, r2: Seq<char>)
    requires
        rendered(hl, content, r1),
        rendered(hl, content, r2),
    ensures
        r1 == r2,
{
    crate::highlight::lemma_code_filled_unique(hl, anchored_html(content), 0, r1, r2);
}

/// Renders Markdown to HTML, adds heading anchors, and lays out code
/// blocks.
pub fn render_markdown(content: &str, hl: &Highlighter) -> (r: String)
    ensures
        rendered(*hl, content@, r@),
{
    let html = markdown_to_html(content, MARKDOWN_OPTIONS);
    let with_ids = add_heading_ids(html.as_str());
    highlight_code_blocks(with_ids.as_str(), hl)
}

} // verus!
