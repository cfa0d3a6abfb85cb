//! Escaping text for XML and HTML, undoing HTML entities, and encoding text
//! for a URL query.
use vstd::prelude::*;
use vstd::string::*;
use vstd::utf8::encode_utf8;
use crate::text::{chars_of, replace_all, replace_chars, string_of, string_push};

verus! {

/// The XML escape of one character.
pub open spec fn xml_escape_char(c: char) -> Seq<char> {
    if c == '&' {
        seq!['&', 'a', 'm', 'p', ';']
    } else if c == '<' {
        seq!['&', 'l', 't', ';']
    } else if c == '>' {
        seq!['&', 'g', 't', ';']
    } else if c == '"' {
        seq!['&', 'q', 'u', 'o', 't', ';']
    } else if c == '\'' {
        seq!['&', 'a', 'p', 'o', 's', ';']
    } else {
        seq![c]
    }
}

/// `s` with `&`, `<`, `>`, `"` and `'` replaced by their XML entities.
pub open spec fn escape_xml_seq(s: Seq<char>) -> Seq<char>
    decreases s.len(),
{
    if s.len() == 0 {
        seq![]
    } else {
        escape_xml_seq(s.drop_last()) + xml_escape_char(s.last())
    }
}

/// Appends the XML escape of `c`.
pub(crate) fn push_escaped(out: &mut String, c: char)
    ensures
        final(out)@ == old(out)@ + xml_escape_char(c),
{
    if c == '&' {
        out.append("&amp;");
        proof {
            reveal_strlit("&amp;");
        }
    } else if c == '<' {
        out.append("&lt;");
        proof {
            reveal_strlit("&lt;");
        }
    } else if c == '>' {
        out.append("&gt;");
        proof {
            reveal_strlit("&gt;");
        }
    } else if c == '"' {
        out.append("&quot;");
        proof {
            reveal_strlit("&quot;");
        }
    } else if c == '\'' {
        out.append("&apos;");
        proof {
            reveal_strlit("&apos;");
        }
    } else {
        string_push(out, c);
        proof {
            assert(final(out)@ =~= old(out)@ + seq![c]);
        }
    }
}

/// Appends the XML escape of `v`.
pub(crate) fn push_escaped_chars(out: &mut String, v: &Vec<char>)
    ensures
        final(out)@ == old(out)@ + escape_xml_seq(v@),
{
    let ghost start = out@;
    let mut i: usize = 0;
    while i < v.len()
        invariant
            i <= v@.len(),
            out@ == start + escape_xml_seq(v@.take(i as int)),
        decreases v@.len() - i,
    {
        push_escaped(out, v[i]);
        proof {
            assert(v@.take(i + 1).drop_last() =~= v@.take(i as int));
        }
        i = i + 1;
    }
    proof {
        assert(v@.take(v@.len() as int) =~= v@);
    }
}

/// Escapes `&`, `<`, `>`, `"` and `'` as XML entities.
pub fn escape_xml(text: &str) -> (r: String)
    ensures
        r@ == escape_xml_seq(text@),
{
    let v = chars_of(text);
    let mut out = String::new();
    push_escaped_chars(&mut out, &v);
    proof {
        assert(out@ =~= escape_xml_seq(text@));
    }
    out
}

/// Escaped text holds none of the characters `<`, `>`, `"` and `'`.
pub proof fn lemma_escape_xml_no_markup(s: Seq<char>)
    ensures
        forall|i: int|
            0 <= i < escape_xml_seq(s).len() ==> {
                let c = #[trigger] escape_xml_seq(s)[i];
                c != '<' && c != '>' && c != '"' && c != '\''
            },
    decreases s.len(),
{
    if s.len() > 0 {
        lemma_escape_xml_no_markup(s.drop_last());
        let a = escape_xml_seq(s.drop_last());
        let b = xml_escape_char(s.last());
        assert forall|i: int| 0 <= i < (a + b).len() implies {
            let c = #[trigger] (a + b)[i];
            c != '<' && c != '>' && c != '"' && c != '\''
        } by {
            if i < a.len() {
                assert((a + b)[i] == a[i]);
            } else {
                assert((a + b)[i] == b[i - a.len()]);
            }
        }
    }
}

/// Escaping text piece by piece gives the escape of the whole: each
/// character is escaped on its own, so no `&` is escaped twice.
pub proof fn lemma_escape_xml_concat(a: Seq<char>, b: Seq<char>)
    ensures
        escape_xml_seq(a + b) == escape_xml_seq(a) + escape_xml_seq(b),
    decreases b.len(),
{
    if b.len() == 0 {
        assert(a + b =~= a);
        assert(escape_xml_seq(a) + escape_xml_seq(b) =~= escape_xml_seq(a));
    } else {
        lemma_escape_xml_concat(a, b.drop_last());
        assert((a + b).drop_last() =~= a + b.drop_last());
        assert((a + b).last() == b.last());
        assert(escape_xml_seq(a) + escape_xml_seq(b) =~= escape_xml_seq(a) + escape_xml_seq(
            b.drop_last(),
        ) + xml_escape_char(b.last()));
    }
}

/// The XML entity for `&`.
pub open spec fn ent_amp() -> Seq<char> {
    seq!['&', 'a', 'm', 'p', ';']
}

/// The HTML entity for `<`.
pub open spec fn ent_lt() -> Seq<char> {
    seq!['&', 'l', 't', ';']
}

/// The HTML entity for `>`.
pub open spec fn ent_gt() -> Seq<char> {
    seq!['&', 'g', 't', ';']
}

/// The HTML entity for `"`.
pub open spec fn ent_quot() -> Seq<char> {
    seq!['&', 'q', 'u', 'o', 't', ';']
}

/// The HTML entity for `'`, in decimal.
pub open spec fn ent_apos_dec() -> Seq<char> {
    seq!['&', '#', '3', '9', ';']
}

/// The HTML entity for `'`, in hexadecimal.
pub open spec fn ent_apos_hex() -> Seq<char> {
    seq!['&', '#', 'x', '2', '7', ';']
}

/// `s` with `&amp;`, `&lt;`, `&gt;`, `&quot;`, `&#39;` and `&#x27;` replaced,
/// one entity after the other, by the characters they stand for.
pub open spec fn unescape_html_seq(s: Seq<char>) -> Seq<char> {
    let s1 = replace_all(s, ent_amp(), seq!['&']);
    let s2 = replace_all(s1, ent_lt(), seq!['<']);
    let s3 = replace_all(s2, ent_gt(), seq!['>']);
    let s4 = replace_all(s3, ent_quot(), seq!['"']);
    let s5 = replace_all(s4, ent_apos_dec(), seq!['\'']);
    replace_all(s5, ent_apos_hex(), seq!['\''])
}

/// Undoes the HTML entities `&amp;`, `&lt;`, `&gt;`, `&quot;`, `&#39;` and
/// `&#x27;`, in that order.
pub fn unescape_html(text: &str) -> (r: String)
    ensures
        r@ == unescape_html_seq(text@),
{
    let v = unescape_vec(&chars_of(text));
    string_of(&v)
}

pub(crate) fn unescape_vec(v: &Vec<char>) -> (r: Vec<char>)
    ensures
        r@ == unescape_html_seq(v@),
{
    let amp = chars_of("&amp;");
    let lt = chars_of("&lt;");
    let gt = chars_of("&gt;");
    let quot = chars_of("&quot;");
    let dec = chars_of("&#39;");
    let hex = chars_of("&#x27;");
    let c_amp = chars_of("&");
    let c_lt = chars_of("<");
    let c_gt = chars_of(">");
    let c_quot = chars_of("\"");
    let c_apos = chars_of("'");
    proof {
        reveal_strlit("&amp;");
        reveal_strlit("&lt;");
        reveal_strlit("&gt;");
        reveal_strlit("&quot;");
        reveal_strlit("&#39;");
        reveal_strlit("&#x27;");
        reveal_strlit("&");
        reveal_strlit("<");
        reveal_strlit(">");
        reveal_strlit("\"");
        reveal_strlit("'");
        assert(amp@ =~= ent_amp());
        assert(lt@ =~= ent_lt());
        assert(gt@ =~= ent_gt());
        assert(quot@ =~= ent_quot());
        assert(dec@ =~= ent_apos_dec());
        assert(hex@ =~= ent_apos_hex());
        assert(c_amp@ =~= seq!['&']);
        assert(c_lt@ =~= seq!['<']);
        assert(c_gt@ =~= seq!['>']);
        assert(c_quot@ =~= seq!['"']);
        assert(c_apos@ =~= seq!['\'']);
    }
    let s1 = replace_chars(v, &amp, &c_amp);
    let s2 = replace_chars(&s1, &lt, &c_lt);
    let s3 = replace_chars(&s2, &gt, &c_gt);
    let s4 = replace_chars(&s3, &quot, &c_quot);
    let s5 = replace_chars(&s4, &dec, &c_apos);
    replace_chars(&s5, &hex, &c_apos)
}

// ---------------------------------------------------------------------
// application/x-www-form-urlencoded
// ---------------------------------------------------------------------

/// The bytes that form-urlencoding leaves as they are.
pub open spec fn form_unchanged(b: u8) -> bool {
    b == 0x2a || b == 0x2d || b == 0x2e || (0x30 <= b && b <= 0x39) || (0x41 <= b && b <= 0x5a)
        || b == 0x5f || (0x61 <= b && b <= 0x7a)
}

/// The uppercase hexadecimal digit for `d` in `0..16`.
pub open spec fn hex_digit(d: u8) -> char {
    if d < 10 {
        (d + 48) as char
    } else {
        (d + 55) as char
    }
}

/// The form-urlencoding of one byte.
pub open spec fn form_byte(b: u8) -> Seq<char> {
    if form_unchanged(b) {
        seq![b as char]
    } else if b == 0x20 {
        seq!['+']
    } else {
        seq!['%', hex_digit(b / 16), hex_digit(b % 16)]
    }
}

/// The form-urlencoding of a byte string: `*-._`, ASCII letters and digits
/// kept, space as `+`, every other byte as `%XX` in uppercase hexadecimal.
pub open spec fn form_urlencode(bytes: Seq<u8>) -> Seq<char>
    decreases bytes.len(),
{
    if bytes.len() == 0 {
        seq![]
    } else {
        form_urlencode(bytes.drop_last()) + form_byte(bytes.last())
    }
}

/// `form_urlencoded::byte_serialize` over the UTF-8 bytes of `s`, collected
/// into a string. The contract restates what the crate's source does with
/// each byte.
#[verifier::external_body]
pub(crate) fn form_urlencode_str(s: &str) -> (r: String)
    ensures
        r@ == form_urlencode(encode_utf8(s@)),
{
    url::form_urlencoded::byte_serialize(s.as_bytes()).collect::<String>()
}


// ---------------------------------------------------------------------
// undoing an escape
// ---------------------------------------------------------------------

/// `s` with each character replaced by its image, front to back.
pub open spec fn map_chars(s: Seq<char>, img: spec_fn(char) -> Seq<char>) -> Seq<char>
    decreases s.len(),
{
    if s.len() == 0 {
        seq![]
    } else {
        img(s[0]) + map_chars(s.drop_first(), img)
    }
}

/// The image of `c` when only the flagged characters among `<`, `>` and
/// `"` are escaped.
pub open spec fn partial_escape_char(c: char, lt: bool, gt: bool, quot: bool) -> Seq<char> {
    if c == '<' && lt {
        ent_lt()
    } else if c == '>' && gt {
        ent_gt()
    } else if c == '"' && quot {
        ent_quot()
    } else {
        seq![c]
    }
}

proof fn lemma_escape_is_map(s: Seq<char>)
    ensures
        escape_xml_seq(s) == map_chars(s, |c: char| xml_escape_char(c)),
    decreases s.len(),
{
    if s.len() > 0 {
        lemma_escape_is_map(s.drop_first());
        lemma_escape_xml_concat(seq![s[0]], s.drop_first());
        assert(seq![s[0]] + s.drop_first() =~= s);
        let one = seq![s[0]];
        assert(one.drop_last() =~= Seq::<char>::empty());
        assert(one.last() == s[0]);
        assert(escape_xml_seq(one.drop_last()) =~= Seq::<char>::empty());
        assert(escape_xml_seq(one) == escape_xml_seq(one.drop_last()) + xml_escape_char(s[0]));
        assert(escape_xml_seq(one) =~= xml_escape_char(s[0]));
    }
}

proof fn lemma_map_identity(s: Seq<char>)
    ensures
        map_chars(s, |c: char| seq![c]) == s,
    decreases s.len(),
{
    if s.len() > 0 {
        lemma_map_identity(s.drop_first());
        assert(seq![s[0]] + s.drop_first() =~= s);
    }
}

/// Replacing in text without the pattern's first character leaves it as
/// it is.
proof fn lemma_replace_past(v: Seq<char>, y: Seq<char>, p: Seq<char>, t: Seq<char>)
    requires
        p.len() > 0,
        !v.contains(p[0]),
    ensures
        replace_all(v + y, p, t) == v + replace_all(y, p, t),
    decreases v.len(),
{
    if v.len() == 0 {
        assert(v + y =~= y);
        assert(v + replace_all(y, p, t) =~= replace_all(y, p, t));
    } else if (v + y).len() < p.len() {
        assert(y.len() < p.len());
    } else {
        assert((v + y).take(p.len() as int)[0] == v[0]);
        assert(v[0] != p[0]);
        assert((v + y).drop_first() =~= v.drop_first() + y);
        assert(!v.drop_first().contains(p[0])) by {
            if v.drop_first().contains(p[0]) {
                let k = choose|k: int| 0 <= k < v.drop_first().len() && v.drop_first()[k] == p[0];
                assert(v[k + 1] == p[0]);
            }
        }
        lemma_replace_past(v.drop_first(), y, p, t);
        assert(seq![v[0]] + (v.drop_first() + replace_all(y, p, t)) =~= v + replace_all(y, p, t));
    }
}

/// An image that cannot start the pattern is passed over whole.
proof fn lemma_replace_image(w: Seq<char>, y: Seq<char>, p: Seq<char>, t: Seq<char>)
    requires
        p.len() > 0,
        w.len() > 0,
        !w.drop_first().contains(p[0]),
        w[0] != p[0] || (w.len() >= 2 && p.len() >= 2 && w[1] != p[1]),
    ensures
        replace_all(w + y, p, t) == w + replace_all(y, p, t),
{
    if (w + y).len() < p.len() {
        assert(y.len() < p.len());
    } else {
        if w[0] != p[0] {
            assert((w + y).take(p.len() as int)[0] != p[0]);
        } else {
            assert((w + y).take(p.len() as int)[1] != p[1]);
        }
        assert((w + y).drop_first() =~= w.drop_first() + y);
        lemma_replace_past(w.drop_first(), y, p, t);
        assert(seq![w[0]] + (w.drop_first() + replace_all(y, p, t)) =~= w + replace_all(y, p, t));
    }
}

/// One replacement pass over an image of `s`: images equal to the pattern
/// become `t`, and the others, which cannot start the pattern, stay.
proof fn lemma_replace_images(
    s: Seq<char>,
    img: spec_fn(char) -> Seq<char>,
    img2: spec_fn(char) -> Seq<char>,
    p: Seq<char>,
    t: char,
)
    requires
        p.len() > 0,
        forall|c: char|
            s.contains(c) ==> ((img(c) == p && img2(c) == seq![t]) || (img2(c) == img(c)
                && img(c).len() > 0 && !img(c).drop_first().contains(p[0]) && (img(c)[0] != p[0]
                || (img(c).len() >= 2 && p.len() >= 2 && img(c)[1] != p[1])))),
    ensures
        replace_all(map_chars(s, img), p, seq![t]) == map_chars(s, img2),
    decreases s.len(),
{
    if s.len() > 0 {
        let r = s.drop_first();
        assert forall|c: char| r.contains(c) implies s.contains(c) by {
            let k = choose|k: int| 0 <= k < r.len() && r[k] == c;
            assert(s[k + 1] == c);
        }
        lemma_replace_images(r, img, img2, p, t);
        assert(s.contains(s[0]));
        let w = img(s[0]);
        let y = map_chars(r, img);
        if w == p && img2(s[0]) == seq![t] {
            assert((w + y).take(p.len() as int) =~= p);
            assert((w + y).skip(p.len() as int) =~= y);
        } else {
            lemma_replace_image(w, y, p, seq![t]);
        }
    }
}

/// Undoing the entities of escaped text gives the text back, for text with
/// neither `&` nor `'`. (An `&` in the text could be read back as part of
/// an entity, and `'` is escaped as `&apos;`, which is not undone.)
pub proof fn lemma_unescape_undoes_escape(s: Seq<char>)
    requires
        !s.contains('&'),
        !s.contains('\''),
    ensures
        unescape_html_seq(escape_xml_seq(s)) == s,
{
    lemma_escape_is_map(s);
    let i0 = |c: char| xml_escape_char(c);
    let i1 = |c: char| partial_escape_char(c, false, true, true);
    let i2 = |c: char| partial_escape_char(c, false, false, true);
    let i3 = |c: char| seq![c];
    lemma_replace_images(s, i0, i0, ent_amp(), '&');
    lemma_replace_images(s, i0, i1, ent_lt(), '<');
    lemma_replace_images(s, i1, i2, ent_gt(), '>');
    lemma_replace_images(s, i2, i3, ent_quot(), '"');
    lemma_replace_images(s, i3, i3, ent_apos_dec(), '\'');
    lemma_replace_images(s, i3, i3, ent_apos_hex(), '\'');
    lemma_map_identity(s);
}

} // verus!
