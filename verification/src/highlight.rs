//! Code blocks: choosing a syntax for a block's language and laying the
//! block out as a numbered table, highlighted with syntect where a syntax
//! is known.
use vstd::prelude::*;
use vstd::string::*;
use syntect::easy::HighlightLines;
use syntect::highlighting::{Style, Theme, ThemeSet};
use syntect::parsing::{SyntaxReference, SyntaxSet};
use crate::escape::{escape_xml, escape_xml_seq, push_escaped_chars, unescape_html_seq, unescape_vec};
use crate::text::{
    chars_eq, chars_of, decimal, find_chars, find_from, lemma_find_from, occurs_at, push_chars,
    push_usize, slice_vec, split_chars, split_on, string_of, trim_end, trim_end_bound,
};

verus! {

// ---------------------------------------------------------------------
// syntect types and calls
// ---------------------------------------------------------------------

#[verifier::external_type_specification]
#[verifier::external_body]
pub struct ExSyntaxSet(SyntaxSet);

#[verifier::external_type_specification]
#[verifier::external_body]
pub struct ExSyntaxReference(SyntaxReference);

#[verifier::external_type_specification]
#[verifier::external_body]
pub struct ExTheme(Theme);

#[verifier::external_type_specification]
#[verifier::external_body]
pub struct ExThemeSet(ThemeSet);

#[verifier::external_type_specification]
#[verifier::external_body]
pub struct ExStyle(Style);

#[verifier::external_type_specification]
#[verifier::external_body]
pub struct ExHighlightLines<'a>(HighlightLines<'a>);

#[verifier::external_type_specification]
#[verifier::external_body]
pub struct ExSyntectError(syntect::Error);

/// `SyntaxSet::load_defaults_newlines`: syntect's built-in syntaxes.
#[verifier::external_body]
fn load_syntax_set() -> SyntaxSet {
    SyntaxSet::load_defaults_newlines()
}

/// The themes a theme set holds, by name (its `themes` map).
pub uninterp spec fn theme_map(themes: ThemeSet) -> Map<Seq<char>, Theme>;

/// `ThemeSet::load_defaults`: syntect's built-in themes. Its documentation
/// lists the keys of the set it loads: `base16-ocean.dark`,
/// `base16-eighties.dark`, `base16-mocha.dark`, `base16-ocean.light`,
/// `InspiredGitHub`, `Solarized (dark)` and `Solarized (light)`; the
/// contract states that these names are held. The themes themselves are
/// not described.
#[verifier::external_body]
fn load_theme_set() -> (r: ThemeSet)
    ensures
        theme_map(r).dom().contains("base16-ocean.dark"@),
        theme_map(r).dom().contains("base16-eighties.dark"@),
        theme_map(r).dom().contains("base16-mocha.dark"@),
        theme_map(r).dom().contains("base16-ocean.light"@),
        theme_map(r).dom().contains("InspiredGitHub"@),
        theme_map(r).dom().contains("Solarized (dark)"@),
        theme_map(r).dom().contains("Solarized (light)"@),
{
    ThemeSet::load_defaults()
}

/// `BTreeMap::remove` on the themes of a theme set: the theme that the set
/// holds under `name`, present exactly when it holds one. What the theme
/// holds is not described.
#[verifier::external_body]
fn take_theme(themes: ThemeSet, name: &str) -> (r: Option<Theme>)
    ensures
        r is Some <==> theme_map(themes).dom().contains(name@),
        r is Some ==> r->0 == theme_map(themes)[name@],
{
    let mut themes = themes;
    themes.themes.remove(name)
}

/// What `SyntaxSet::find_syntax_by_extension` returns for an extension.
pub uninterp spec fn syntax_by_extension(ss: SyntaxSet, ext: Seq<char>) -> Option<SyntaxReference>;

/// What `SyntaxSet::find_syntax_by_name` returns for a name.
pub uninterp spec fn syntax_by_name(ss: SyntaxSet, name: Seq<char>) -> Option<SyntaxReference>;

/// What `SyntaxSet::find_syntax_by_token` returns for a token.
pub uninterp spec fn syntax_by_token(ss: SyntaxSet, token: Seq<char>) -> Option<SyntaxReference>;

/// `SyntaxSet::find_syntax_by_extension`: the answer is named
/// `syntax_by_extension` of the set and the extension.
#[verifier::external_body]
fn find_syntax_by_extension<'a>(ss: &'a SyntaxSet, ext: &str) -> (r: Option<&'a SyntaxReference>)
    ensures
        match r {
            Some(s) => syntax_by_extension(*ss, ext@) == Some(*s),
            None => syntax_by_extension(*ss, ext@) is None,
        },
{
    ss.find_syntax_by_extension(ext)
}

/// `SyntaxSet::find_syntax_by_name`: the answer is named `syntax_by_name`
/// of the set and the name.
#[verifier::external_body]
fn find_syntax_by_name<'a>(ss: &'a SyntaxSet, name: &str) -> (r: Option<&'a SyntaxReference>)
    ensures
        match r {
            Some(s) => syntax_by_name(*ss, name@) == Some(*s),
            None => syntax_by_name(*ss, name@) is None,
        },
{
    ss.find_syntax_by_name(name)
}

/// `SyntaxSet::find_syntax_by_token`: the answer is named
/// `syntax_by_token` of the set and the token.
#[verifier::external_body]
fn find_syntax_by_token<'a>(ss: &'a SyntaxSet, token: &str) -> (r: Option<&'a SyntaxReference>)
    ensures
        match r {
            Some(s) => syntax_by_token(*ss, token@) == Some(*s),
            None => syntax_by_token(*ss, token@) is None,
        },
{
    ss.find_syntax_by_token(token)
}

/// What `HighlightLines::highlight_line` gives for `line` when a line
/// highlighter made for `syntax` and `theme` has already been given the
/// lines `prev`, all with the syntax set `ss`: the styled pieces of the
/// line, or `None` where it reports an error.
pub uninterp spec fn syntect_line_pieces(
    ss: SyntaxSet,
    syntax: SyntaxReference,
    theme: Theme,
    prev: Seq<Seq<char>>,
    line: Seq<char>,
) -> Option<Seq<(Style, Seq<char>)>>;

/// What `styled_line_to_highlighted_html` writes for styled pieces without
/// background colours, or `None` where it reports an error.
pub uninterp spec fn syntect_pieces_html(pieces: Seq<(Style, Seq<char>)>) -> Option<Seq<char>>;

/// Styled pieces with their text as characters.
pub open spec fn pieces_view(v: Seq<(Style, &str)>) -> Seq<(Style, Seq<char>)> {
    Seq::new(v.len(), |i: int| (v[i].0, v[i].1@))
}

/// A syntect line highlighter, with the syntax and theme it was made for,
/// the syntax set it is used with and the lines it has been given so far.
struct LineHighlighter<'a> {
    inner: HighlightLines<'a>,
    syntax: Ghost<SyntaxReference>,
    theme: Ghost<Theme>,
    syntaxes: Ghost<SyntaxSet>,
    fed: Ghost<Seq<Seq<char>>>,
}

/// `HighlightLines::new`: a line highlighter for a syntax and a theme,
/// which has been given no line yet.
#[verifier::external_body]
fn highlight_lines_new<'a>(syntax: &SyntaxReference, theme: &'a Theme) -> (r: LineHighlighter<'a>)
    ensures
        r.syntax@ == *syntax,
        r.theme@ == *theme,
        r.fed@ == Seq::<Seq<char>>::empty(),
{
    LineHighlighter {
        inner: HighlightLines::new(syntax, theme),
        syntax: Ghost(*syntax),
        theme: Ghost(*theme),
        syntaxes: Ghost(arbitrary()),
        fed: Ghost(Seq::empty()),
    }
}

/// `HighlightLines::highlight_line`: the styled pieces of the next line,
/// named `syntect_line_pieces` of the syntax set, the highlighter's syntax
/// and theme, the lines given before and the line. The line joins the
/// lines given. Every line is highlighted with the same syntax set.
#[verifier::external_body]
fn highlight_line<'b>(
    highlighter: &mut LineHighlighter,
    line: &'b str,
    ss: &SyntaxSet,
) -> (r: Result<Vec<(Style, &'b str)>, syntect::Error>)
    requires
        old(highlighter).fed@.len() == 0 || old(highlighter).syntaxes@ == *ss,
    ensures
        final(highlighter).syntax == old(highlighter).syntax,
        final(highlighter).theme == old(highlighter).theme,
        final(highlighter).syntaxes@ == *ss,
        final(highlighter).fed@ == old(highlighter).fed@.push(line@),
        match r {
            Ok(p) => syntect_line_pieces(
                *ss,
                old(highlighter).syntax@,
                old(highlighter).theme@,
                old(highlighter).fed@,
                line@,
            ) == Some(pieces_view(p@)),
            Err(_) => syntect_line_pieces(
                *ss,
                old(highlighter).syntax@,
                old(highlighter).theme@,
                old(highlighter).fed@,
                line@,
            ) is None,
        },
{
    highlighter.inner.highlight_line(line, ss)
}

/// `syntect::html::styled_line_to_highlighted_html` without background
/// colours (`IncludeBackground::No`): the HTML is named
/// `syntect_pieces_html` of the pieces; how it is written is not restated.
#[verifier::external_body]
fn styled_line_to_html(pieces: &[(Style, &str)]) -> (r: Result<String, syntect::Error>)
    ensures
        match r {
            Ok(h) => syntect_pieces_html(pieces_view(pieces@)) == Some(h@),
            Err(_) => syntect_pieces_html(pieces_view(pieces@)) is None,
        },
{
    syntect::html::styled_line_to_highlighted_html(pieces, syntect::html::IncludeBackground::No)
}

// ---------------------------------------------------------------------
// the highlighter
// ---------------------------------------------------------------------

/// The syntaxes and the theme that code blocks are highlighted with.
pub struct Highlighter {
    pub syntaxes: SyntaxSet,
    pub theme: Theme,
    /// The theme set that `theme` was taken from.
    pub theme_set: Ghost<ThemeSet>,
}

impl Highlighter {
    /// syntect's default syntaxes with the `InspiredGitHub` theme of its
    /// default theme set, which always holds that theme; so the result is
    /// never `None`.
    pub fn load_defaults() -> (r: Option<Highlighter>)
        ensures
            r is Some,
            r matches Some(h) ==> theme_map(h.theme_set@).dom().contains("InspiredGitHub"@)
                && h.theme == theme_map(h.theme_set@)["InspiredGitHub"@],
    {
        let syntaxes = load_syntax_set();
        let themes = load_theme_set();
        let ghost set = themes;
        match take_theme(themes, "InspiredGitHub") {
            Some(theme) => Some(Highlighter { syntaxes, theme, theme_set: Ghost(set) }),
            None => None,
        }
    }
}

/// The syntax that a language with no syntax of its own is highlighted as.
pub open spec fn syntax_alias(lang: Seq<char>) -> Option<Seq<char>> {
    if lang == "jsx"@ || lang == "tsx"@ || lang == "typescript"@ || lang == "dart"@ {
        Some("js"@)
    } else if lang == "kotlin"@ {
        Some("java"@)
    } else if lang == "vue"@ || lang == "svelte"@ {
        Some("html"@)
    } else if lang == "elixir"@ {
        Some("rb"@)
    } else {
        None
    }
}

/// The syntax for a code block's language: syntect's own match for the
/// token, or else the syntax of the alias, looked up by extension and then
/// by name.
pub open spec fn spec_resolve_syntax(ss: SyntaxSet, lang: Seq<char>) -> Option<SyntaxReference> {
    match syntax_by_token(ss, lang) {
        Some(s) => Some(s),
        None => match syntax_alias(lang) {
            Some(m) => match syntax_by_extension(ss, m) {
                Some(s) => Some(s),
                None => syntax_by_name(ss, m),
            },
            None => None,
        },
    }
}

fn alias_of(lang: &Vec<char>) -> (r: Option<&'static str>)
    ensures
        match r {
            Some(m) => syntax_alias(lang@) == Some(m@),
            None => syntax_alias(lang@) is None,
        },
{
    if chars_eq(lang, &chars_of("jsx")) || chars_eq(lang, &chars_of("tsx")) || chars_eq(
        lang,
        &chars_of("typescript"),
    ) || chars_eq(lang, &chars_of("dart")) {
        Some("js")
    } else if chars_eq(lang, &chars_of("kotlin")) {
        Some("java")
    } else if chars_eq(lang, &chars_of("vue")) || chars_eq(lang, &chars_of("svelte")) {
        Some("html")
    } else if chars_eq(lang, &chars_of("elixir")) {
        Some("rb")
    } else {
        None
    }
}

/// The syntax for a code block written in `lang`.
pub fn resolve_syntax<'a>(lang: &str, ss: &'a SyntaxSet) -> (r: Option<&'a SyntaxReference>)
    ensures
        match r {
            Some(s) => spec_resolve_syntax(*ss, lang@) == Some(*s),
            None => spec_resolve_syntax(*ss, lang@) is None,
        },
{
    match find_syntax_by_token(ss, lang) {
        Some(s) => Some(s),
        None => {
            let v = chars_of(lang);
            match alias_of(&v) {
                Some(m) => match find_syntax_by_extension(ss, m) {
                    Some(s) => Some(s),
                    None => find_syntax_by_name(ss, m),
                },
                None => None,
            }
        },
    }
}

// ---------------------------------------------------------------------
// laying out a code block
// ---------------------------------------------------------------------

/// `s` without its trailing `c` characters (`str::trim_end_matches`).
pub open spec fn trim_end_char(s: Seq<char>, c: char) -> Seq<char>
    decreases s.len(),
{
    if s.len() > 0 && s.last() == c {
        trim_end_char(s.drop_last(), c)
    } else {
        s
    }
}

fn trim_end_char_bound(v: &Vec<char>, c: char) -> (b: usize)
    ensures
        b <= v@.len(),
        v@.take(b as int) == trim_end_char(v@, c),
{
    let mut b: usize = v.len();
    proof {
        assert(v@.take(b as int) =~= v@);
    }
    while b > 0 && v[b - 1] == c
        invariant
            b <= v@.len(),
            trim_end_char(v@, c) == trim_end_char(v@.take(b as int), c),
        decreases b,
    {
        proof {
            assert(v@.take(b as int).drop_last() =~= v@.take(b - 1));
        }
        b = b - 1;
    }
    b
}

/// The lines of `s` from index `k` on, each with its line break
/// (syntect's `LinesWithEndings`).
pub open spec fn lines_from(s: Seq<char>, k: int) -> Seq<Seq<char>>
    decreases s.len() - k,
{
    if k < 0 || k >= s.len() {
        seq![]
    } else {
        match find_from(s, seq!['\n'], k) {
            Some(i) => if i < k || i >= s.len() {
                seq![]
            } else {
                seq![s.subrange(k, i + 1)] + lines_from(s, i + 1)
            },
            None => seq![s.subrange(k, s.len() as int)],
        }
    }
}

/// `s` cut after each line break; a last line without a break is kept,
/// and an empty string has no lines.
pub open spec fn lines_with_endings(s: Seq<char>) -> Seq<Seq<char>> {
    lines_from(s, 0)
}

fn lines_of(v: &Vec<char>) -> (r: Vec<Vec<char>>)
    ensures
        r@.map_values(|l: Vec<char>| l@) == lines_with_endings(v@),
{
    let nl = chars_of("\n");
    proof {
        reveal_strlit("\n");
        assert(nl@ =~= seq!['\n']);
    }
    let mut lines: Vec<Vec<char>> = Vec::new();
    let mut k: usize = 0;
    while k < v.len()
        invariant
            k <= v@.len(),
            nl@ == seq!['\n'],
            lines@.map_values(|l: Vec<char>| l@) + lines_from(v@, k as int) == lines_from(v@, 0),
        decreases v@.len() - k,
    {
        let ghost before = lines@.map_values(|l: Vec<char>| l@);
        match find_chars(v, &nl, k) {
            Some(i) => {
                proof {
                    lemma_find_from(v@, nl@, k as int);
                }
                let line = slice_vec(v, k, i + 1);
                lines.push(line);
                proof {
                    assert(lines@.map_values(|l: Vec<char>| l@) =~= before.push(
                        v@.subrange(k as int, i + 1),
                    ));
                    assert(before.push(v@.subrange(k as int, i + 1)) + lines_from(v@, i + 1)
                        =~= before + lines_from(v@, k as int));
                }
                k = i + 1;
            },
            None => {
                let line = slice_vec(v, k, v.len());
                lines.push(line);
                proof {
                    assert(lines@.map_values(|l: Vec<char>| l@) =~= before.push(
                        v@.subrange(k as int, v@.len() as int),
                    ));
                    assert(lines_from(v@, v@.len() as int) =~= Seq::<Seq<char>>::empty());
                    assert(lines@.map_values(|l: Vec<char>| l@) + lines_from(v@, v@.len() as int)
                        =~= before + lines_from(v@, k as int));
                }
                k = v.len();
            },
        }
    }
    proof {
        let m = lines@.map_values(|l: Vec<char>| l@);
        assert(m + Seq::<Seq<char>>::empty() =~= m);
    }
    lines
}

/// ` data-lang="lang"`, or nothing for a block without a language.
pub open spec fn lang_attr(lang: Seq<char>) -> Seq<char> {
    if lang.len() == 0 {
        seq![]
    } else {
        " data-lang=\""@ + lang + "\""@
    }
}

/// The opening of a code block's table.
pub open spec fn code_header(lang: Seq<char>) -> Seq<char> {
    "<div class=\"code-block\""@ + lang_attr(lang) + "><table class=\"code-table\"><tbody>"@
}

/// The closing of a code block's table.
pub open spec fn code_footer() -> Seq<char> {
    "</tbody></table></div>"@
}

/// The table row of line number `n` with the given content.
pub open spec fn code_row(n: nat, content: Seq<char>) -> Seq<char> {
    "<tr><td class=\"ln\">"@ + decimal(n) + "</td><td class=\"lc\">"@ + content
        + "</td></tr>\n"@
}

/// The rows for `contents`, numbered from 1.
pub open spec fn code_rows(contents: Seq<Seq<char>>) -> Seq<char>
    decreases contents.len(),
{
    if contents.len() == 0 {
        seq![]
    } else {
        code_rows(contents.drop_last()) + code_row(contents.len(), contents.last())
    }
}

/// The escaped lines of a block that no syntax highlights: the code cut at
/// each `\n`, trailing `\r` removed.
pub open spec fn plain_line_contents(code: Seq<char>) -> Seq<Seq<char>> {
    split_on(code, '\n').map_values(|l: Seq<char>| escape_xml_seq(trim_end_char(l, '\r')))
}

/// The HTML of one highlighted line: syntect's styled pieces of the line
/// (none where it reports an error) written as HTML, or the escaped line
/// without trailing whitespace where writing fails.
pub open spec fn highlighted_line(
    ss: SyntaxSet,
    syntax: SyntaxReference,
    theme: Theme,
    prev: Seq<Seq<char>>,
    line: Seq<char>,
) -> Seq<char> {
    let pieces = match syntect_line_pieces(ss, syntax, theme, prev, line) {
        Some(p) => p,
        None => seq![],
    };
    match syntect_pieces_html(pieces) {
        Some(h) => h,
        None => escape_xml_seq(trim_end(line)),
    }
}

/// The HTML of each line, highlighted one after the other by a single
/// line highlighter.
pub open spec fn highlighted_lines(
    ss: SyntaxSet,
    syntax: SyntaxReference,
    theme: Theme,
    lines: Seq<Seq<char>>,
) -> Seq<Seq<char>> {
    Seq::new(lines.len(), |i: int| highlighted_line(ss, syntax, theme, lines.take(i), lines[i]))
}

/// `r` is how `format_code_block` lays out `code` in `lang`: without a
/// syntax, one row per line with the line escaped; with a syntax, one row
/// per line (line breaks kept) holding the HTML that syntect made of the
/// line with the highlighter's theme, trailing whitespace removed.
pub open spec fn code_block_ok(hl: Highlighter, lang: Seq<char>, code: Seq<char>, r: Seq<char>) -> bool {
    match spec_resolve_syntax(hl.syntaxes, lang) {
        None => r == code_header(lang) + code_rows(plain_line_contents(code)) + code_footer(),
        Some(syntax) => r == highlighted_block(
            lang,
            highlighted_lines(hl.syntaxes, syntax, hl.theme, lines_with_endings(code)),
        ),
    }
}

/// The table of a highlighted block whose lines syntect turned into `hs`.
pub open spec fn highlighted_block(lang: Seq<char>, hs: Seq<Seq<char>>) -> Seq<char> {
    code_header(lang) + code_rows(hs.map_values(|x: Seq<char>| trim_end(x))) + code_footer()
}

fn push_code_header(out: &mut String, lang: &Vec<char>)
    ensures
        final(out)@ == old(out)@ + code_header(lang@),
{
    out.append("<div class=\"code-block\"");
    if lang.len() > 0 {
        out.append(" data-lang=\"");
        push_chars(out, lang);
        out.append("\"");
    }
    out.append("><table class=\"code-table\"><tbody>");
    proof {
        assert(final(out)@ =~= old(out)@ + code_header(lang@));
    }
}

fn push_code_row(out: &mut String, n: usize, content: &Vec<char>)
    ensures
        final(out)@ == old(out)@ + code_row(n as nat, content@),
{
    out.append("<tr><td class=\"ln\">");
    push_usize(out, n);
    out.append("</td><td class=\"lc\">");
    push_chars(out, content);
    out.append("</td></tr>\n");
    proof {
        assert(final(out)@ =~= old(out)@ + code_row(n as nat, content@));
    }
}

/// Lays out `code` in `lang` as a numbered table, highlighted where a
/// syntax for `lang` is known.
pub fn format_code_block(code: &Vec<char>, lang: &Vec<char>, hl: &Highlighter) -> (r: String)
    ensures
        code_block_ok(*hl, lang@, code@, r@),
{
    let lang_s = string_of(lang);
    let mut out = String::new();
    push_code_header(&mut out, lang);
    let ghost head = out@;
    match resolve_syntax(lang_s.as_str(), &hl.syntaxes) {
        None => {
            let lines = split_chars(code, '\n');
            let ghost contents = plain_line_contents(code@);
            let mut i: usize = 0;
            while i < lines.len()
                invariant
                    i <= lines@.len(),
                    lines@.len() == split_on(code@, '\n').len(),
                    forall|k: int|
                        0 <= k < lines@.len() ==> (#[trigger] lines@[k])@ == split_on(
                            code@,
                            '\n',
                        )[k],
                    contents == plain_line_contents(code@),
                    out@ == head + code_rows(contents.take(i as int)),
                decreases lines@.len() - i,
            {
                let b = trim_end_char_bound(&lines[i], '\r');
                let mut esc = String::new();
                let line = slice_vec(&lines[i], 0, b);
                push_escaped_chars(&mut esc, &line);
                let esc_v = chars_of(esc.as_str());
                push_code_row(&mut out, i + 1, &esc_v);
                proof {
                    assert(line@ =~= lines@[i as int]@.take(b as int));
                    assert(esc_v@ =~= contents[i as int]);
                    assert(contents.take(i + 1).drop_last() =~= contents.take(i as int));
                }
                i = i + 1;
            }
            proof {
                assert(contents.take(lines@.len() as int) =~= contents);
            }
            out.append("</tbody></table></div>");
        },
        Some(syntax) => {
            let ls = lines_of(code);
            let ghost lsv = ls@.map_values(|l: Vec<char>| l@);
            let ghost want = highlighted_lines(hl.syntaxes, *syntax, hl.theme, lsv);
            let mut highlighter = highlight_lines_new(syntax, &hl.theme);
            let ghost mut hs: Seq<Seq<char>> = seq![];
            proof {
                assert(lsv.take(0) =~= Seq::<Seq<char>>::empty());
                assert(want.take(0) =~= hs);
            }
            let mut i: usize = 0;
            while i < ls.len()
                invariant
                    i <= ls@.len(),
                    lsv == ls@.map_values(|l: Vec<char>| l@),
                    want == highlighted_lines(hl.syntaxes, *syntax, hl.theme, lsv),
                    highlighter.syntax@ == *syntax,
                    highlighter.theme@ == hl.theme,
                    highlighter.fed@ == lsv.take(i as int),
                    i > 0 ==> highlighter.syntaxes@ == hl.syntaxes,
                    hs == want.take(i as int),
                    out@ == head + code_rows(hs.map_values(|x: Seq<char>| trim_end(x))),
                decreases ls@.len() - i,
            {
                let line_s = string_of(&ls[i]);
                proof {
                    assert(line_s@ == lsv[i as int]);
                }
                let pieces = match highlight_line(&mut highlighter, line_s.as_str(), &hl.syntaxes) {
                    Ok(p) => p,
                    Err(_) => Vec::new(),
                };
                proof {
                    assert(pieces_view(pieces@) == match syntect_line_pieces(
                        hl.syntaxes,
                        *syntax,
                        hl.theme,
                        lsv.take(i as int),
                        lsv[i as int],
                    ) {
                        Some(p) => p,
                        None => seq![],
                    }) by {
                        if pieces@.len() == 0 {
                            assert(pieces_view(pieces@) =~= Seq::<(Style, Seq<char>)>::empty());
                        }
                    }
                }
                let html = match styled_line_to_html(pieces.as_slice()) {
                    Ok(s) => s,
                    Err(_) => {
                        let lv = chars_of(line_s.as_str());
                        let e = trim_end_bound(&lv);
                        escape_xml(string_of(&slice_vec(&lv, 0, e)).as_str())
                    },
                };
                let hv = chars_of(html.as_str());
                let e = trim_end_bound(&hv);
                let content = slice_vec(&hv, 0, e);
                push_code_row(&mut out, i + 1, &content);
                proof {
                    assert(hv@ == want[i as int]);
                    let old_hs = hs;
                    hs = hs.push(hv@);
                    assert(hs =~= want.take(i + 1));
                    assert(content@ =~= trim_end(hv@));
                    assert(hs.map_values(|x: Seq<char>| trim_end(x)).drop_last() =~= old_hs.map_values(
                        |x: Seq<char>| trim_end(x),
                    ));
                    assert(lsv.take(i as int).push(lsv[i as int]) =~= lsv.take(i + 1));
                }
                i = i + 1;
            }
            out.append("</tbody></table></div>");
            proof {
                assert(want.take(ls@.len() as int) =~= want);
                assert(out@ =~= highlighted_block(lang@, want));
            }
        },
    }
    out
}

// ---------------------------------------------------------------------
// finding code blocks in HTML
// ---------------------------------------------------------------------

/// What `regex_syntax::is_word_character` answers for a character: the
/// Unicode word characters that the regular-expression class `\w` holds.
pub uninterp spec fn spec_is_word_character(c: char) -> bool;

/// `regex_syntax::is_word_character`: the answer is named
/// `spec_is_word_character`; the Unicode tables behind it are not restated.
#[verifier::external_body]
fn is_word_character(c: char) -> (r: bool)
    ensures
        r == spec_is_word_character(c),
{
    regex_syntax::is_word_character(c)
}

/// A character allowed in a code block's language name (`[\w.#+\-]`).
pub open spec fn is_lang_char(c: char) -> bool {
    spec_is_word_character(c) || c == '.' || c == '#' || c == '+' || c == '-'
}

/// The end of the run of language characters that starts at `a`.
pub open spec fn lang_run_end(h: Seq<char>, a: int) -> int
    decreases h.len() - a,
{
    if 0 <= a < h.len() && is_lang_char(h[a]) {
        lang_run_end(h, a + 1)
    } else {
        a
    }
}

pub open spec fn code_open() -> Seq<char> {
    "<pre><code"@
}

pub open spec fn code_class() -> Seq<char> {
    " class=\"language-"@
}

pub open spec fn code_quote_gt() -> Seq<char> {
    "\">"@
}

pub open spec fn code_close() -> Seq<char> {
    "</code></pre>"@
}

/// After `<pre><code` at `p`: the bounds of the language name (empty when
/// there is no `class`) and where the code starts.
pub open spec fn code_open_end(h: Seq<char>, p: int) -> Option<(int, int, int)> {
    let q = p + code_open().len();
    if 0 <= q < h.len() && h[q] == ' ' {
        if occurs_at(h, code_class(), q) {
            let a = q + code_class().len();
            let b = lang_run_end(h, a);
            if b > a && occurs_at(h, code_quote_gt(), b) {
                Some((a, b, b + code_quote_gt().len()))
            } else {
                None
            }
        } else {
            None
        }
    } else if 0 <= q < h.len() && h[q] == '>' {
        Some((q, q, q + 1))
    } else {
        None
    }
}

/// A code block starting at `p`, as the regular expression
/// `(?s)<pre><code(?: class="language-([\w.#+\-]+)")?>(.*?)</code></pre>`
/// matches it: the bounds of the language name, the bounds of the code,
/// and the end of the match.
pub open spec fn match_code_at(h: Seq<char>, p: int) -> Option<(int, int, int, int, int)> {
    if occurs_at(h, code_open(), p) {
        match code_open_end(h, p) {
            Some((a, b, c)) => match find_from(h, code_close(), c) {
                Some(d) => Some((a, b, c, d, d + code_close().len())),
                None => None,
            },
            None => None,
        }
    } else {
        None
    }
}

/// The code of a block as the browser would show it: trailing line breaks
/// removed and HTML entities undone.
pub open spec fn block_code(raw: Seq<char>) -> Seq<char> {
    unescape_html_seq(trim_end_char(raw, '\n'))
}

/// `r` is `h` from `p` on with every code block, found scanning left to
/// right, replaced by a layout that `code_block_ok` accepts.
pub open spec fn code_filled(hl: Highlighter, h: Seq<char>, p: int, r: Seq<char>) -> bool
    decreases h.len() + 1 - p,
{
    if p < 0 || p >= h.len() {
        r.len() == 0
    } else {
        match match_code_at(h, p) {
            Some((a, b, c, d, e)) => {
                if e <= p || e > h.len() {
                    false
                } else {
                    exists|k: int|
                        #![trigger r.take(k)]
                        0 <= k <= r.len() && code_block_ok(
                            hl,
                            h.subrange(a, b),
                            block_code(h.subrange(c, d)),
                            r.take(k),
                        ) && code_filled(hl, h, e, r.skip(k))
                }
            },
            None => r.len() > 0 && r[0] == h[p] && code_filled(hl, h, p + 1, r.drop_first()),
        }
    }
}

/// Laying out the code blocks of `h` has a single result.
pub proof fn lemma_code_filled_unique(hl: Highlighter, h: Seq<char>, p: int, r1: Seq<char>, r2: Seq<char>)
    requires
        code_filled(hl, h, p, r1),
        code_filled(hl, h, p, r2),
    ensures
        r1 == r2,
    decreases h.len() + 1 - p,
{
    if p < 0 || p >= h.len() {
        assert(r1 =~= r2);
    } else {
        match match_code_at(h, p) {
            Some((a, b, c, d, e)) => {
                let lang = h.subrange(a, b);
                let code = block_code(h.subrange(c, d));
                let k1 = choose|k: int|
                    #![trigger r1.take(k)]
                    0 <= k <= r1.len() && code_block_ok(hl, lang, code, r1.take(k)) && code_filled(
                        hl,
                        h,
                        e,
                        r1.skip(k),
                    );
                let k2 = choose|k: int|
                    #![trigger r2.take(k)]
                    0 <= k <= r2.len() && code_block_ok(hl, lang, code, r2.take(k)) && code_filled(
                        hl,
                        h,
                        e,
                        r2.skip(k),
                    );
                assert(r1.take(k1) == r2.take(k2));
                lemma_code_filled_unique(hl, h, e, r1.skip(k1), r2.skip(k2));
                assert(r1 =~= r1.take(k1) + r1.skip(k1));
                assert(r2 =~= r2.take(k2) + r2.skip(k2));
            },
            None => {
                lemma_code_filled_unique(hl, h, p + 1, r1.drop_first(), r2.drop_first());
                assert(r1 =~= seq![r1[0]] + r1.drop_first());
                assert(r2 =~= seq![r2[0]] + r2.drop_first());
            },
        }
    }
}

fn lang_end(h: &Vec<char>, a: usize) -> (b: usize)
    requires
        a <= h@.len(),
    ensures
        b == lang_run_end(h@, a as int),
        a <= b <= h@.len(),
{
    let mut b: usize = a;
    while b < h.len() && (is_word_character(h[b]) || h[b] == '.' || h[b] == '#' || h[b] == '+'
        || h[b] == '-')
        invariant
            a <= b <= h@.len(),
            lang_run_end(h@, a as int) == lang_run_end(h@, b as int),
        decreases h@.len() - b,
    {
        b = b + 1;
    }
    b
}

struct CodePatterns {
    open: Vec<char>,
    class: Vec<char>,
    quote_gt: Vec<char>,
    close: Vec<char>,
}

impl CodePatterns {
    spec fn ok(&self) -> bool {
        &&& self.open@ == code_open()
        &&& self.class@ == code_class()
        &&& self.quote_gt@ == code_quote_gt()
        &&& self.close@ == code_close()
    }
}

fn match_code(h: &Vec<char>, p: usize, pats: &CodePatterns) -> (r: Option<
    (usize, usize, usize, usize, usize),
>)
    requires
        pats.ok(),
    ensures
        match r {
            Some((a, b, c, d, e)) => match_code_at(h@, p as int) == Some(
                (a as int, b as int, c as int, d as int, e as int),
            ) && p < a <= b < c <= d < e <= h@.len(),
            None => match_code_at(h@, p as int) is None,
        },
{
    proof {
        reveal_strlit("<pre><code");
        reveal_strlit(" class=\"language-");
        reveal_strlit("\">");
        reveal_strlit("</code></pre>");
    }
    if !crate::text::matches_at(h, &pats.open, p) {
        return None;
    }
    assert(p + pats.open@.len() <= h.len());
    let q = p + pats.open.len();
    let head: Option<(usize, usize, usize)> = if q < h.len() && h[q] == ' ' {
        if crate::text::matches_at(h, &pats.class, q) {
            let a = q + pats.class.len();
            let b = lang_end(h, a);
            if b > a && crate::text::matches_at(h, &pats.quote_gt, b) {
                Some((a, b, b + pats.quote_gt.len()))
            } else {
                None
            }
        } else {
            None
        }
    } else if q < h.len() && h[q] == '>' {
        Some((q, q, q + 1))
    } else {
        None
    };
    match head {
        Some((a, b, c)) => {
            match find_chars(h, &pats.close, c) {
                Some(d) => {
                    proof {
                        lemma_find_from(h@, pats.close@, c as int);
                    }
                    Some((a, b, c, d, d + pats.close.len()))
                },
                None => None,
            }
        },
        None => None,
    }
}

/// Replaces every `<pre><code ...>...</code></pre>` block of `html` by its
/// numbered, highlighted table.
pub fn highlight_code_blocks(html: &str, hl: &Highlighter) -> (r: String)
    ensures
        code_filled(*hl, html@, 0, r@),
{
    let h = chars_of(html);
    let pats = CodePatterns {
        open: chars_of("<pre><code"),
        class: chars_of(" class=\"language-"),
        quote_gt: chars_of("\">"),
        close: chars_of("</code></pre>"),
    };
    let ghost ss = *hl;
    let mut out = String::new();
    let mut p: usize = 0;
    while p < h.len()
        invariant
            p <= h@.len(),
            pats.ok(),
            ss == *hl,
            forall|rest: Seq<char>|
                #[trigger] code_filled(ss, h@, p as int, rest) ==> code_filled(
                    ss,
                    h@,
                    0,
                    out@ + rest,
                ),
        decreases h@.len() - p,
    {
        match match_code(&h, p, &pats) {
            Some((a, b, c, d, e)) => {
                let lang = slice_vec(&h, a, b);
                let raw = slice_vec(&h, c, d);
                let t = trim_end_char_bound(&raw, '\n');
                let code = unescape_vec(&slice_vec(&raw, 0, t));
                let block = format_code_block(&code, &lang, hl);
                let ghost before = out@;
                push_chars(&mut out, &chars_of(block.as_str()));
                proof {
                    assert(raw@.take(t as int) =~= raw@.subrange(0, t as int));
                    assert forall|rest: Seq<char>|
                        #[trigger] code_filled(ss, h@, e as int, rest) implies code_filled(
                            ss,
                            h@,
                            0,
                            out@ + rest,
                        ) by {
                        let r = block@ + rest;
                        assert(r.take(block@.len() as int) =~= block@);
                        assert(r.skip(block@.len() as int) =~= rest);
                        assert(code_filled(ss, h@, p as int, r));
                        assert(before + r =~= out@ + rest);
                    }
                }
                p = e;
            },
            None => {
                let ghost before = out@;
                crate::text::string_push(&mut out, h[p]);
                proof {
                    assert forall|rest: Seq<char>|
                        #[trigger] code_filled(ss, h@, p + 1, rest) implies code_filled(
                            ss,
                            h@,
                            0,
                            out@ + rest,
                        ) by {
                        let r = seq![h@[p as int]] + rest;
                        assert(r.drop_first() =~= rest);
                        assert(code_filled(ss, h@, p as int, r));
                        assert(before + r =~= out@ + rest);
                    }
                }
                p = p + 1;
            },
        }
    }
    proof {
        assert(code_filled(ss, h@, p as int, Seq::<char>::empty()));
        assert(out@ + Seq::<char>::empty() =~= out@);
    }
    out
}

} // verus!
