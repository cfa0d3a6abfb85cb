//! Reading rendered HTML: stripping tags to plain text, counting words, the
//! reading time, and the table of contents.
use vstd::prelude::*;
use crate::post::{toc_models, TocEntry, TocModel};
use vstd::string::*;
use vstd::utf8::{encode_utf8, is_char_boundary};
use crate::text::{
    byte_offset, lemma_byte_offset_step, spec_to_lowercase, to_lowercase, utf8_width,
    chars_of, count_words, find_chars, find_from, is_whitespace, is_ws, lemma_find_from, matches_at,
    occurs_at, slice_vec, string_of, trim, trim_chars, words,
};

verus! {

// ---------------------------------------------------------------------
// the patterns the stripper looks for
// ---------------------------------------------------------------------

/// `b` holds the bytes `pat` at offset `o`.
pub open spec fn bytes_at(b: Seq<u8>, o: int, pat: Seq<u8>) -> bool {
    0 <= o && o + pat.len() <= b.len() && b.subrange(o, o + pat.len()) == pat
}

/// `b` ends with `pat`.
pub open spec fn ends_with(b: Seq<char>, pat: Seq<char>) -> bool {
    pat.len() <= b.len() && b.subrange(b.len() - pat.len(), b.len() as int) == pat
}

/// The bytes of `<!--`.
pub open spec fn comment_open_bytes() -> Seq<u8> {
    seq![0x3cu8, 0x21u8, 0x2du8, 0x2du8]
}

/// The bytes of `<script`.
pub open spec fn script_open_bytes() -> Seq<u8> {
    seq![0x3cu8, 0x73u8, 0x63u8, 0x72u8, 0x69u8, 0x70u8, 0x74u8]
}

/// The bytes of `<style`.
pub open spec fn style_open_bytes() -> Seq<u8> {
    seq![0x3cu8, 0x73u8, 0x74u8, 0x79u8, 0x6cu8, 0x65u8]
}

fn bytes_match(b: &[u8], o: usize, pat: &Vec<u8>) -> (r: bool)
    ensures
        r == bytes_at(b@, o as int, pat@),
{
    if o > b.len() || pat.len() > b.len() - o {
        return false;
    }
    let end: usize = o + pat.len();
    let mut k: usize = 0;
    while k < pat.len()
        invariant
            end == o + pat@.len(),
            o + pat@.len() <= b@.len(),
            k <= pat@.len(),
            forall|m: int| 0 <= m < k ==> b@[o + m] == pat@[m],
        decreases pat@.len() - k,
    {
        if b[o + k] != pat[k] {
            proof {
                assert(b@.subrange(o as int, o + pat@.len())[k as int] != pat@[k as int]);
            }
            return false;
        }
        k = k + 1;
    }
    proof {
        assert(b@.subrange(o as int, o + pat@.len()) =~= pat@);
    }
    true
}

fn ends_with_vec(b: &Vec<char>, pat: &Vec<char>) -> (r: bool)
    ensures
        r == ends_with(b@, pat@),
{
    if pat.len() > b.len() {
        false
    } else {
        matches_at(b, pat, b.len() - pat.len())
    }
}

/// The characters of `s`, lowercased.
fn lowercase_chars(v: &Vec<char>) -> (r: Vec<char>)
    ensures
        r@ == spec_to_lowercase(v@),
{
    chars_of(to_lowercase(string_of(v).as_str()).as_str())
}

pub open spec fn pat_comment_open() -> Seq<char> {
    seq!['<', '!', '-', '-']
}

pub open spec fn pat_comment_close() -> Seq<char> {
    seq!['-', '-', '>']
}

pub open spec fn pat_script_open() -> Seq<char> {
    seq!['<', 's', 'c', 'r', 'i', 'p', 't']
}

pub open spec fn pat_style_open() -> Seq<char> {
    seq!['<', 's', 't', 'y', 'l', 'e']
}

pub open spec fn pat_script_close() -> Seq<char> {
    seq!['<', '/', 's', 'c', 'r', 'i', 'p', 't', '>']
}

pub open spec fn pat_style_close() -> Seq<char> {
    seq!['<', '/', 's', 't', 'y', 'l', 'e', '>']
}

// ---------------------------------------------------------------------
// stripping tags
// ---------------------------------------------------------------------

/// Where the tag stripper stands while reading HTML.
#[derive(Clone, Copy, PartialEq, Eq, Structural)]
pub enum StripMode {
    /// Copying text.
    Normal,
    /// Inside a tag, until `>`.
    Tag,
    /// Inside a `<script>` element, until `</script>`.
    Script,
    /// Inside a `<style>` element, until `</style>`.
    Style,
    /// Inside a comment, until `>` that follows `-->`.
    Comment,
}

/// The stripper's state: its mode, the text read since the last `<` inside
/// a script or style element, the text kept so far, and whether it could
/// go on (it stops where the text it inspects cannot be cut).
pub type StripState = (StripMode, Seq<char>, Seq<char>, bool);

/// The UTF-8 bytes of the lowercased text. At a `<` the stripper looks in
/// them for `<!--`, `<script` and `<style`, at the byte offset that the
/// `<` has in the text itself (the two offsets differ where lowercasing
/// changes the length of an earlier character).
pub open spec fn lower_bytes(h: Seq<char>) -> Seq<u8> {
    encode_utf8(spec_to_lowercase(h))
}

/// One step of the stripper, reading the character `h[i]`.
pub open spec fn strip_step(h: Seq<char>, i: int, st: StripState) -> StripState {
    let (mode, buf, out, ok) = st;
    let c = h[i];
    if !ok {
        st
    } else {
        match mode {
            StripMode::Normal => {
                if c == '<' {
                    let lb = lower_bytes(h);
                    let o = byte_offset(h, i);
                    if !is_char_boundary(lb, o) {
                        (mode, buf, out, false)
                    } else if bytes_at(lb, o, comment_open_bytes()) {
                        (StripMode::Comment, buf, out, true)
                    } else if bytes_at(lb, o, script_open_bytes()) {
                        (StripMode::Script, seq![], out, true)
                    } else if bytes_at(lb, o, style_open_bytes()) {
                        (StripMode::Style, seq![], out, true)
                    } else {
                        (StripMode::Tag, buf, out, true)
                    }
                } else {
                    (StripMode::Normal, buf, out.push(c), true)
                }
            },
            StripMode::Tag => {
                if c == '>' {
                    (StripMode::Normal, buf, out, true)
                } else {
                    (StripMode::Tag, buf, out, true)
                }
            },
            StripMode::Script => {
                let b = if c == '<' {
                    seq![c]
                } else {
                    buf.push(c)
                };
                if ends_with(spec_to_lowercase(b), pat_script_close()) {
                    (StripMode::Normal, b, out, true)
                } else {
                    (StripMode::Script, b, out, true)
                }
            },
            StripMode::Style => {
                let b = if c == '<' {
                    seq![c]
                } else {
                    buf.push(c)
                };
                if ends_with(spec_to_lowercase(b), pat_style_close()) {
                    (StripMode::Normal, b, out, true)
                } else {
                    (StripMode::Style, b, out, true)
                }
            },
            StripMode::Comment => {
                if c == '>' && i >= 3 && h.subrange(i - 3, i) == pat_comment_close() {
                    (StripMode::Normal, buf, out, true)
                } else {
                    (StripMode::Comment, buf, out, true)
                }
            },
        }
    }
}

/// The stripper's state after reading the first `n` characters of `h`.
pub open spec fn strip_run(h: Seq<char>, n: int) -> StripState
    decreases n,
{
    if n <= 0 {
        (StripMode::Normal, seq![], seq![], true)
    } else {
        strip_step(h, n - 1, strip_run(h, n - 1))
    }
}

/// The stripper reads `h` to its end: at no `<` outside a tag, script,
/// style or comment does the offset of the `<` in `h` fall inside a
/// character of the lowercased text (where cutting the text there would
/// fail).
pub open spec fn strip_defined(h: Seq<char>) -> bool {
    strip_run(h, h.len() as int).3
}

/// The text of `h` outside tags, scripts, styles and comments, trimmed.
///
/// A comment ends only at a `>` whose three preceding characters are
/// `-->`, so `<!-- c -->` followed by text without `>` hides that text.
/// Openings are looked for in the lowercased text (see `lower_bytes`),
/// and script and style ends in the lowercased text since the last `<`.
pub open spec fn strip_html(h: Seq<char>) -> Seq<char> {
    trim(strip_run(h, h.len() as int).2)
}

proof fn lemma_strip_run_no_lt(h: Seq<char>, n: int)
    ensures
        !strip_run(h, n).2.contains('<'),
    decreases n,
{
    if n > 0 {
        lemma_strip_run_no_lt(h, n - 1);
        let prev = strip_run(h, n - 1).2;
        let next = strip_run(h, n).2;
        if next != prev {
            assert(next == prev.push(h[n - 1]));
            assert(h[n - 1] != '<');
            if next.contains('<') {
                let k = choose|k: int| 0 <= k < next.len() && next[k] == '<';
                assert(k < prev.len() ==> prev[k] == '<');
            }
        }
    }
}

/// The text that `strip_html` keeps holds no `<`, so it opens no tag.
pub proof fn lemma_strip_html_no_tag_open(h: Seq<char>)
    ensures
        !strip_html(h).contains('<'),
{
    lemma_strip_run_no_lt(h, h.len() as int);
    crate::text::lemma_trim_without(strip_run(h, h.len() as int).2, '<');
}

/// The characters that `strip_html` keeps, before trimming, and whether
/// the stripper reads `h` to its end.
fn strip_chars(h: &Vec<char>) -> (r: (Vec<char>, bool))
    ensures
        r.0@ == strip_run(h@, h@.len() as int).2,
        r.1 == strip_defined(h@),
{
    let mut p_comment: Vec<u8> = Vec::new();
    p_comment.push(0x3c);
    p_comment.push(0x21);
    p_comment.push(0x2d);
    p_comment.push(0x2d);
    let mut p_script: Vec<u8> = Vec::new();
    p_script.push(0x3c);
    p_script.push(0x73);
    p_script.push(0x63);
    p_script.push(0x72);
    p_script.push(0x69);
    p_script.push(0x70);
    p_script.push(0x74);
    let mut p_style: Vec<u8> = Vec::new();
    p_style.push(0x3c);
    p_style.push(0x73);
    p_style.push(0x74);
    p_style.push(0x79);
    p_style.push(0x6c);
    p_style.push(0x65);
    let p_script_end = chars_of("</script>");
    let p_style_end = chars_of("</style>");
    let p_close = chars_of("-->");
    proof {
        reveal_strlit("</script>");
        reveal_strlit("</style>");
        reveal_strlit("-->");
        assert(p_comment@ =~= comment_open_bytes());
        assert(p_script@ =~= script_open_bytes());
        assert(p_style@ =~= style_open_bytes());
        assert(p_script_end@ =~= pat_script_close());
        assert(p_style_end@ =~= pat_style_close());
        assert(p_close@ =~= pat_comment_close());
    }
    let lower = to_lowercase(string_of(h).as_str());
    let ls: &str = lower.as_str();
    let lb: &[u8] = ls.as_bytes();
    proof {
        vstd::utf8::encode_utf8_valid_utf8(ls@);
        assert(lb@ == lower_bytes(h@));
    }
    let mut mode = StripMode::Normal;
    let mut buf: Vec<char> = Vec::new();
    let mut out: Vec<char> = Vec::new();
    let mut ok = true;
    let mut off: u128 = 0;
    let mut i: usize = 0;
    proof {
        assert(h@.take(0) =~= Seq::<char>::empty());
    }
    while i < h.len()
        invariant
            i <= h@.len(),
            p_comment@ == comment_open_bytes(),
            p_script@ == script_open_bytes(),
            p_style@ == style_open_bytes(),
            p_script_end@ == pat_script_close(),
            p_style_end@ == pat_style_close(),
            p_close@ == pat_comment_close(),
            lb@ == lower_bytes(h@),
            ls.spec_bytes() == lb@,
            vstd::utf8::valid_utf8(lb@),
            off == byte_offset(h@, i as int),
            off <= 4 * i,
            strip_run(h@, i as int) == (mode, buf@, out@, ok),
        decreases h@.len() - i,
    {
        let c = h[i];
        if ok {
            match mode {
                StripMode::Normal => {
                    if c == '<' {
                        let boundary = if off > lb.len() as u128 {
                            false
                        } else {
                            ls.is_char_boundary(off as usize)
                        };
                        if !boundary {
                            ok = false;
                        } else if bytes_match(lb, off as usize, &p_comment) {
                            mode = StripMode::Comment;
                        } else if bytes_match(lb, off as usize, &p_script) {
                            mode = StripMode::Script;
                            buf = Vec::new();
                        } else if bytes_match(lb, off as usize, &p_style) {
                            mode = StripMode::Style;
                            buf = Vec::new();
                        } else {
                            mode = StripMode::Tag;
                        }
                    } else {
                        out.push(c);
                    }
                },
                StripMode::Tag => {
                    if c == '>' {
                        mode = StripMode::Normal;
                    }
                },
                StripMode::Script => {
                    if c == '<' {
                        buf = Vec::new();
                    }
                    buf.push(c);
                    proof {
                        if c == '<' {
                            assert(buf@ =~= seq![c]);
                        }
                    }
                    if ends_with_vec(&lowercase_chars(&buf), &p_script_end) {
                        mode = StripMode::Normal;
                    }
                },
                StripMode::Style => {
                    if c == '<' {
                        buf = Vec::new();
                    }
                    buf.push(c);
                    proof {
                        if c == '<' {
                            assert(buf@ =~= seq![c]);
                        }
                    }
                    if ends_with_vec(&lowercase_chars(&buf), &p_style_end) {
                        mode = StripMode::Normal;
                    }
                },
                StripMode::Comment => {
                    if c == '>' && i >= 3 && matches_at(h, &p_close, i - 3) {
                        mode = StripMode::Normal;
                    }
                },
            }
        }
        proof {
            lemma_byte_offset_step(h@, i as int);
            assert(strip_run(h@, i + 1) == strip_step(h@, i as int, strip_run(h@, i as int)));
        }
        off = off + utf8_width(c) as u128;
        i = i + 1;
        proof {
            assert(strip_run(h@, i as int) == (mode, buf@, out@, ok));
        }
    }
    (out, ok)
}

/// The text of `html` with tags, scripts, styles and comments removed,
/// trimmed.
pub fn strip_html_tags(html: &str) -> (r: String)
    requires
        strip_defined(html@),
    ensures
        r@ == strip_html(html@),
{
    let h = chars_of(html);
    let kept = strip_chars(&h);
    let t = trim_chars(&kept.0);
    string_of(&t)
}

/// Whether `strip_html_tags` reads `html` to its end (see `strip_defined`).
pub fn strip_is_defined(html: &str) -> (r: bool)
    ensures
        r == strip_defined(html@),
{
    let h = chars_of(html);
    strip_chars(&h).1
}

pub(crate) fn strip_vec(h: &Vec<char>) -> (r: Vec<char>)
    requires
        strip_defined(h@),
    ensures
        r@ == strip_html(h@),
{
    let kept = strip_chars(h);
    trim_chars(&kept.0)
}

/// The number of whitespace-separated words of the text of `html`.
pub open spec fn spec_word_count(html: Seq<char>) -> nat {
    words(strip_html(html)).len()
}

/// The number of words in the text of `html` (tags removed).
pub fn word_count(html: &str) -> (n: usize)
    requires
        strip_defined(html@),
    ensures
        n == spec_word_count(html@),
{
    let h = chars_of(html);
    let t = strip_vec(&h);
    count_words(&t)
}

/// Minutes to read `words` words: at 200 words a minute, rounded half up,
/// and at least one.
pub open spec fn minutes_for(words: nat) -> nat {
    let m = (words + 100) / 200;
    if m < 1 {
        1
    } else {
        m as nat
    }
}

/// `max(1, (words + 100) / 200)` without overflow.
pub fn minutes_for_words(words: usize) -> (m: usize)
    ensures
        m == minutes_for(words as nat),
{
    let q = words / 200;
    let r = words % 200;
    let m = if r >= 100 {
        q + 1
    } else {
        q
    };
    assert(m == (words + 100) / 200) by (nonlinear_arith)
        requires
            q == words / 200,
            r == words % 200,
            m == if r >= 100 {
                q + 1
            } else {
                q as int
            },
    ;
    if m < 1 {
        1
    } else {
        m
    }
}

/// The reading time of `html` in minutes.
pub fn reading_time(html: &str) -> (m: usize)
    requires
        strip_defined(html@),
    ensures
        m == minutes_for(spec_word_count(html@)),
{
    let wc = word_count(html);
    minutes_for_words(wc)
}

// ---------------------------------------------------------------------
// table of contents
// ---------------------------------------------------------------------

/// The first index at or after `q` that is not whitespace.
pub open spec fn ws_run_end(h: Seq<char>, q: int) -> int
    decreases h.len() - q,
{
    if 0 <= q < h.len() && is_ws(h[q]) {
        ws_run_end(h, q + 1)
    } else {
        q
    }
}

pub open spec fn pat_id_attr() -> Seq<char> {
    seq!['i', 'd', '=', '"']
}

/// The value of the digit character `c`.
pub open spec fn digit_value(c: char) -> int {
    c as int - 48
}

/// A heading-with-id tag `<hN id="...">` (N in 2..=4) starting at `p`, as
/// the regular expression `<h([2-4])\s+id="([^"]*)"[^>]*>` matches it:
/// `(N, start of the id, end of the id, end of the tag)`.
pub open spec fn match_toc_at(h: Seq<char>, p: int) -> Option<(int, int, int, int)> {
    if 0 <= p && p + 3 <= h.len() && h[p] == '<' && h[p + 1] == 'h' && '2' <= h[p + 2] && h[p
        + 2] <= '4' {
        let r = ws_run_end(h, p + 3);
        if r > p + 3 && occurs_at(h, pat_id_attr(), r) {
            match find_from(h, seq!['"'], r + 4) {
                Some(e) => match find_from(h, seq!['>'], e + 1) {
                    Some(g) => Some((digit_value(h[p + 2]), r + 4, e, g + 1)),
                    None => None,
                },
                None => None,
            }
        } else {
            None
        }
    } else {
        None
    }
}

/// `</hN>` for the level `n`.
pub open spec fn closing_tag(n: int) -> Seq<char> {
    seq!['<', '/', 'h', (n + 48) as char, '>']
}

/// The table of contents of `h` read from index `from` on: for each
/// heading tag found scanning left to right (resuming after each tag), an
/// entry with its level, id and the text up to the first `</hN>` of the
/// same level; a heading with no such closing tag is left out.
pub open spec fn toc_from(h: Seq<char>, from: int) -> Seq<TocModel>
    decreases h.len() + 1 - from,
{
    if from < 0 || from >= h.len() {
        seq![]
    } else {
        match match_toc_at(h, from) {
            Some((n, a, b, e)) => {
                if e <= from || e > h.len() {
                    seq![]
                } else {
                    let rest = toc_from(h, e);
                    match find_from(h, closing_tag(n), e) {
                        Some(c) => seq![
                            (n as nat, h.subrange(a, b), strip_html(h.subrange(e, c)))]
                            + rest,
                        None => rest,
                    }
                }
            },
            None => toc_from(h, from + 1),
        }
    }
}

/// An entry of a table of contents as it must look: a level from 2 to 4,
/// an id without `"`, and text that holds no `<` (the heading's markup
/// removed).
pub open spec fn toc_entry_plain(t: TocModel) -> bool {
    &&& 2 <= t.0 <= 4
    &&& !t.1.contains('"')
    &&& !t.2.contains('<')
}

proof fn lemma_toc_from_plain(h: Seq<char>, from: int)
    ensures
        forall|i: int| 0 <= i < toc_from(h, from).len() ==> toc_entry_plain(#[trigger] toc_from(h, from)[i]),
    decreases h.len() + 1 - from,
{
    if 0 <= from < h.len() {
        match match_toc_at(h, from) {
            Some((n, a, b, e)) => {
                if e > from && e <= h.len() {
                    lemma_toc_from_plain(h, e);
                    let rest = toc_from(h, e);
                    match find_from(h, closing_tag(n), e) {
                        Some(c) => {
                            let r = ws_run_end(h, from + 3);
                            lemma_find_from(h, seq!['"'], r + 4);
                            let id = h.subrange(a, b);
                            assert forall|k: int| 0 <= k < id.len() implies id[k] != '"' by {
                                assert(!occurs_at(h, seq!['"'], a + k));
                                assert(h.subrange(a + k, a + k + 1) =~= seq![h[a + k]]);
                            }
                            lemma_strip_html_no_tag_open(h.subrange(e, c));
                            let t: TocModel = (n as nat, id, strip_html(h.subrange(e, c)));
                            assert(toc_entry_plain(t));
                            let all = seq![t] + rest;
                            assert(toc_from(h, from) == all);
                            assert forall|i: int| 0 <= i < all.len() implies toc_entry_plain(
                                #[trigger] all[i],
                            ) by {
                                if i > 0 {
                                    assert(all[i] == rest[i - 1]);
                                }
                            }
                        },
                        None => {
                            assert(toc_from(h, from) == rest);
                        },
                    }
                } else {
                    assert(toc_from(h, from) =~= Seq::<TocModel>::empty());
                }
            },
            None => {
                lemma_toc_from_plain(h, from + 1);
                assert(toc_from(h, from) == toc_from(h, from + 1));
            },
        }
    }
}

/// Every entry of the table of contents of `h` has a level from 2 to 4,
/// an id without `"`, and text without `<`: a heading's text is its
/// inner HTML with the tags stripped, not the markup itself.
pub proof fn lemma_toc_entries_plain(h: Seq<char>)
    ensures
        forall|i: int| 0 <= i < spec_toc(h).len() ==> toc_entry_plain(#[trigger] spec_toc(h)[i]),
{
    lemma_toc_from_plain(h, 0);
}

/// The table of contents of `h`.
pub open spec fn spec_toc(h: Seq<char>) -> Seq<TocModel> {
    toc_from(h, 0)
}

/// The stripper reads to its end the text of every heading that
/// `toc_from(h, from)` takes an entry from.
pub open spec fn toc_defined_from(h: Seq<char>, from: int) -> bool
    decreases h.len() + 1 - from,
{
    if from < 0 || from >= h.len() {
        true
    } else {
        match match_toc_at(h, from) {
            Some((n, a, b, e)) => {
                if e <= from || e > h.len() {
                    true
                } else {
                    let rest = toc_defined_from(h, e);
                    match find_from(h, closing_tag(n), e) {
                        Some(c) => strip_defined(h.subrange(e, c)) && rest,
                        None => rest,
                    }
                }
            },
            None => toc_defined_from(h, from + 1),
        }
    }
}

/// `extract_toc` reads `h` to its end (the text of each heading is
/// stripped of tags, see `strip_defined`).
pub open spec fn toc_defined(h: Seq<char>) -> bool {
    toc_defined_from(h, 0)
}

fn ws_end(h: &Vec<char>, q: usize) -> (r: usize)
    requires
        q <= h@.len(),
    ensures
        r == ws_run_end(h@, q as int),
        q <= r <= h@.len(),
{
    let mut r: usize = q;
    while r < h.len() && is_whitespace(h[r])
        invariant
            q <= r <= h@.len(),
            ws_run_end(h@, q as int) == ws_run_end(h@, r as int),
        decreases h@.len() - r,
    {
        r = r + 1;
    }
    r
}

/// Matches a heading-with-id tag at `p` (see `match_toc_at`).
fn match_toc(h: &Vec<char>, p: usize, pat_id: &Vec<char>, quote: &Vec<char>, gt: &Vec<char>) -> (r:
    Option<(usize, usize, usize, usize)>)
    requires
        pat_id@ == pat_id_attr(),
        quote@ == seq!['"'],
        gt@ == seq!['>'],
    ensures
        match r {
            Some((n, a, b, e)) => match_toc_at(h@, p as int) == Some(
                (n as int, a as int, b as int, e as int),
            ) && 2 <= n <= 4 && p < a <= b < e <= h@.len(),
            None => match_toc_at(h@, p as int) is None,
        },
{
    if p > h.len() || h.len() - p < 3 {
        return None;
    }
    if !(h[p] == '<' && h[p + 1] == 'h' && '2' <= h[p + 2] && h[p + 2] <= '4') {
        return None;
    }
    let r = ws_end(h, p + 3);
    if !(r > p + 3 && matches_at(h, pat_id, r)) {
        return None;
    }
    let a = r + 4;
    match find_chars(h, quote, a) {
        Some(e) => {
            proof {
                lemma_find_from(h@, quote@, a as int);
            }
            match find_chars(h, gt, e + 1) {
                Some(g) => {
                    proof {
                        lemma_find_from(h@, gt@, e + 1);
                    }
                    let d = h[p + 2];
                    let n: usize = if d == '2' {
                        2
                    } else if d == '3' {
                        3
                    } else {
                        4
                    };
                    Some((n, a, e, g + 1))
                },
                None => None,
            }
        },
        None => None,
    }
}

/// The table of contents of `html`: the `<h2>`..`<h4>` headings that carry
/// an `id`, with their level, id and text.
pub fn extract_toc(html: &str) -> (r: Vec<TocEntry>)
    requires
        toc_defined(html@),
    ensures
        toc_models(r@) == spec_toc(html@),
{
    let h = chars_of(html);
    let pat_id = chars_of("id=\"");
    let quote = chars_of("\"");
    let gt = chars_of(">");
    proof {
        reveal_strlit("id=\"");
        reveal_strlit("\"");
        reveal_strlit(">");
        assert(pat_id@ =~= pat_id_attr());
        assert(quote@ =~= seq!['"']);
        assert(gt@ =~= seq!['>']);
    }
    let mut entries: Vec<TocEntry> = Vec::new();
    let mut p: usize = 0;
    while p < h.len()
        invariant
            p <= h@.len(),
            pat_id@ == pat_id_attr(),
            quote@ == seq!['"'],
            gt@ == seq!['>'],
            toc_models(entries@) + toc_from(h@, p as int) == toc_from(h@, 0),
            toc_defined_from(h@, p as int),
        decreases h@.len() - p,
    {
        match match_toc(&h, p, &pat_id, &quote, &gt) {
            Some((n, a, b, e)) => {
                let mut close: Vec<char> = Vec::new();
                close.push('<');
                close.push('/');
                close.push('h');
                close.push(if n == 2 {
                    '2'
                } else if n == 3 {
                    '3'
                } else {
                    '4'
                });
                close.push('>');
                proof {
                    assert(close@ =~= closing_tag(n as int));
                }
                let ghost old_entries = entries@;
                match find_chars(&h, &close, e) {
                    Some(c) => {
                        proof {
                            lemma_find_from(h@, close@, e as int);
                        }
                        let id = string_of(&slice_vec(&h, a, b));
                        let inner = slice_vec(&h, e, c);
                        let text = string_of(&strip_vec(&inner));
                        entries.push(TocEntry { level: n, id, text });
                        proof {
                            assert(toc_models(entries@) =~= toc_models(old_entries) + seq![
                                (n as nat, h@.subrange(a as int, b as int), strip_html(
                                    h@.subrange(e as int, c as int),
                                ))]);
                        }
                    },
                    None => {},
                }
                p = e;
            },
            None => {
                p = p + 1;
            },
        }
    }
    proof {
        assert(toc_models(entries@) + Seq::<TocModel>::empty() =~= toc_models(entries@));
    }
    entries
}

/// Whether `extract_toc` reads `html` to its end (see `toc_defined`).
pub fn toc_is_defined(html: &str) -> (r: bool)
    ensures
        r == toc_defined(html@),
{
    let h = chars_of(html);
    let pat_id = chars_of("id=\"");
    let quote = chars_of("\"");
    let gt = chars_of(">");
    proof {
        reveal_strlit("id=\"");
        reveal_strlit("\"");
        reveal_strlit(">");
        assert(pat_id@ =~= pat_id_attr());
        assert(quote@ =~= seq!['"']);
        assert(gt@ =~= seq!['>']);
    }
    let mut p: usize = 0;
    while p < h.len()
        invariant
            p <= h@.len(),
            pat_id@ == pat_id_attr(),
            quote@ == seq!['"'],
            gt@ == seq!['>'],
            h@ == html@,
            toc_defined_from(h@, p as int) == toc_defined_from(h@, 0),
        decreases h@.len() - p,
    {
        match match_toc(&h, p, &pat_id, &quote, &gt) {
            Some((n, a, b, e)) => {
                let mut close: Vec<char> = Vec::new();
                close.push('<');
                close.push('/');
                close.push('h');
                close.push(if n == 2 {
                    '2'
                } else if n == 3 {
                    '3'
                } else {
                    '4'
                });
                close.push('>');
                proof {
                    assert(close@ =~= closing_tag(n as int));
                }
                match find_chars(&h, &close, e) {
                    Some(c) => {
                        proof {
                            lemma_find_from(h@, close@, e as int);
                        }
                        let inner = slice_vec(&h, e, c);
                        if !strip_chars(&inner).1 {
                            proof {
                                assert(inner@ == h@.subrange(e as int, c as int));
                                assert(!toc_defined_from(h@, p as int));
                            }
                            return false;
                        }
                    },
                    None => {},
                }
                p = e;
            },
            None => {
                p = p + 1;
            },
        }
    }
    true
}

} // verus!
