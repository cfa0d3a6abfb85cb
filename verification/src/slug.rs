//! URL- and anchor-friendly names derived from text.
use vstd::prelude::*;
use crate::text::{
    chars_of, is_alphanumeric, is_ws, join, join_chars, lemma_words_wf, spec_is_alphanumeric,
    spec_to_lowercase, split_words, to_lowercase, words, words_state,
};

verus! {

/// Alphanumeric characters and spaces are kept; anything else becomes a
/// space.
pub open spec fn slug_char(c: char) -> char {
    if spec_is_alphanumeric(c) || c == ' ' {
        c
    } else {
        ' '
    }
}

/// The slug of text that is already lowercase: non-alphanumeric
/// characters turned into spaces, and the remaining words joined with `-`.
pub open spec fn slug_of_lowercase(lower: Seq<char>) -> Seq<char> {
    join(words(lower.map_values(|c: char| slug_char(c))), seq!['-'])
}

/// The slug of `text`: lowercased, non-alphanumeric characters turned into
/// spaces, and the remaining words joined with `-`.
pub open spec fn spec_slugify(text: Seq<char>) -> Seq<char> {
    slug_of_lowercase(spec_to_lowercase(text))
}

/// The slug of `text` (`Hello World` becomes `hello-world`).
pub fn slugify(text: &str) -> (r: String)
    ensures
        r@ == spec_slugify(text@),
{
    let lower = to_lowercase(text);
    slug_from_lowercase(lower.as_str())
}

/// The slug of text that is already lowercase: every character that is
/// neither alphanumeric nor a space becomes a space, and the words are
/// joined with `-`.
pub fn slug_from_lowercase(lower: &str) -> (r: String)
    ensures
        r@ == slug_of_lowercase(lower@),
{
    let cs = chars_of(lower);
    let mut mapped: Vec<char> = Vec::new();
    let mut i: usize = 0;
    while i < cs.len()
        invariant
            i <= cs@.len(),
            mapped@ == cs@.take(i as int).map_values(|c: char| slug_char(c)),
        decreases cs@.len() - i,
    {
        let c = cs[i];
        let k = if is_alphanumeric(c) || c == ' ' {
            c
        } else {
            ' '
        };
        mapped.push(k);
        i = i + 1;
        proof {
            assert(mapped@ =~= cs@.take(i as int).map_values(|c: char| slug_char(c)));
        }
    }
    proof {
        assert(cs@.take(cs@.len() as int) =~= cs@);
    }
    let parts = split_words(&mapped);
    proof {
        assert(parts@.map_values(|p: Vec<char>| p@) =~= words(mapped@));
    }
    join_chars(&parts, '-')
}

proof fn lemma_join_no_ws(parts: Seq<Seq<char>>, sep: Seq<char>)
    requires
        forall|i: int, k: int|
            0 <= i < parts.len() && 0 <= k < parts[i].len() ==> !is_ws(#[trigger] parts[i][k]),
        forall|k: int| 0 <= k < sep.len() ==> !is_ws(#[trigger] sep[k]),
    ensures
        forall|k: int| 0 <= k < join(parts, sep).len() ==> !is_ws(#[trigger] join(parts, sep)[k]),
    decreases parts.len(),
{
    if parts.len() > 1 {
        let a = parts.drop_last();
        assert forall|i: int, k: int| 0 <= i < a.len() && 0 <= k < a[i].len() implies !is_ws(
            #[trigger] a[i][k],
        ) by {
            assert(a[i] == parts[i]);
        }
        lemma_join_no_ws(a, sep);
        let j = join(a, sep);
        let l = parts.last();
        assert forall|k: int| 0 <= k < (j + sep + l).len() implies !is_ws(
            #[trigger] (j + sep + l)[k],
        ) by {
            if k < j.len() {
                assert((j + sep + l)[k] == j[k]);
            } else if k < j.len() + sep.len() {
                assert((j + sep + l)[k] == sep[k - j.len()]);
            } else {
                assert((j + sep + l)[k] == l[k - j.len() - sep.len()]);
                assert(l == parts[parts.len() - 1]);
            }
        }
    } else if parts.len() == 1 {
        assert forall|k: int| 0 <= k < parts[0].len() implies !is_ws(#[trigger] parts[0][k]) by {}
    }
}

proof fn lemma_words_state_chars(s: Seq<char>, pr: spec_fn(char) -> bool)
    requires
        forall|j: int| 0 <= j < s.len() ==> pr(#[trigger] s[j]),
    ensures
        forall|i: int, k: int|
            0 <= i < words_state(s).0.len() && 0 <= k < words_state(s).0[i].len() ==> pr(
                #[trigger] words_state(s).0[i][k],
            ),
        forall|k: int| 0 <= k < words_state(s).1.len() ==> pr(#[trigger] words_state(s).1[k]),
    decreases s.len(),
{
    if s.len() > 0 {
        let d = s.drop_last();
        assert forall|j: int| 0 <= j < d.len() implies pr(#[trigger] d[j]) by {
            assert(d[j] == s[j]);
        }
        lemma_words_state_chars(d, pr);
        let (ws, cur) = words_state(d);
        let c = s.last();
        assert(pr(c)) by {
            assert(c == s[s.len() - 1]);
        }
        if is_ws(c) {
            if cur.len() > 0 {
                let ws2 = ws.push(cur);
                assert forall|i: int, k: int| 0 <= i < ws2.len() && 0 <= k < ws2[i].len() implies pr(
                    #[trigger] ws2[i][k],
                ) by {
                    if i < ws.len() {
                        assert(ws2[i] == ws[i]);
                    } else {
                        assert(ws2[i] == cur);
                    }
                }
            }
        } else {
            let cur2 = cur.push(c);
            assert forall|k: int| 0 <= k < cur2.len() implies pr(#[trigger] cur2[k]) by {
                if k < cur.len() {
                    assert(cur2[k] == cur[k]);
                }
            }
        }
    }
}

/// Every character of a word of `s` satisfies `pr` when every character
/// of `s` does.
proof fn lemma_words_chars(s: Seq<char>, pr: spec_fn(char) -> bool)
    requires
        forall|j: int| 0 <= j < s.len() ==> pr(#[trigger] s[j]),
    ensures
        forall|i: int, k: int|
            0 <= i < words(s).len() && 0 <= k < words(s)[i].len() ==> pr(#[trigger] words(s)[i][k]),
{
    lemma_words_state_chars(s, pr);
    let (ws, cur) = words_state(s);
    if cur.len() > 0 {
        let w = ws.push(cur);
        assert forall|i: int, k: int| 0 <= i < w.len() && 0 <= k < w[i].len() implies pr(
            #[trigger] w[i][k],
        ) by {
            if i < ws.len() {
                assert(w[i] == ws[i]);
            } else {
                assert(w[i] == cur);
            }
        }
    }
}

/// Appending a run of non-whitespace characters extends the current word.
proof fn lemma_words_state_append(x: Seq<char>, w: Seq<char>)
    requires
        forall|k: int| 0 <= k < w.len() ==> !is_ws(#[trigger] w[k]),
    ensures
        words_state(x + w) == (words_state(x).0, words_state(x).1 + w),
    decreases w.len(),
{
    if w.len() == 0 {
        assert(x + w =~= x);
        assert(words_state(x).1 + w =~= words_state(x).1);
    } else {
        let v = w.drop_last();
        assert forall|k: int| 0 <= k < v.len() implies !is_ws(#[trigger] v[k]) by {
            assert(v[k] == w[k]);
        }
        lemma_words_state_append(x, v);
        assert((x + w).drop_last() =~= x + v);
        assert((x + w).last() == w[w.len() - 1]);
        assert(words_state(x).1 + v + seq![w[w.len() - 1]] =~= words_state(x).1 + w);
    }
}

/// Splitting words joined by a space gives the words back.
proof fn lemma_words_of_spaced(ws: Seq<Seq<char>>)
    requires
        forall|i: int| 0 <= i < ws.len() ==> (#[trigger] ws[i]).len() > 0,
        forall|i: int, k: int| 0 <= i < ws.len() && 0 <= k < ws[i].len() ==> !is_ws(#[trigger] ws[i][k]),
    ensures
        words(join(ws, seq![' '])) == ws,
    decreases ws.len(),
{
    if ws.len() == 0 {
        assert(words_state(Seq::<char>::empty()) == (Seq::<Seq<char>>::empty(), Seq::<char>::empty()));
        assert(words(join(ws, seq![' '])) =~= ws);
    } else if ws.len() == 1 {
        let w = ws[0];
        assert forall|k: int| 0 <= k < w.len() implies !is_ws(#[trigger] w[k]) by {
            assert(w[k] == ws[0][k]);
        }
        lemma_words_state_append(Seq::<char>::empty(), w);
        assert(Seq::<char>::empty() + w =~= w);
        assert(words_state(Seq::<char>::empty()) == (Seq::<Seq<char>>::empty(), Seq::<char>::empty()));
        assert(words(w) =~= ws);
    } else {
        let a = ws.drop_last();
        let w = ws.last();
        assert forall|i: int| 0 <= i < a.len() implies (#[trigger] a[i]).len() > 0 by {
            assert(a[i] == ws[i]);
        }
        assert forall|i: int, k: int| 0 <= i < a.len() && 0 <= k < a[i].len() implies !is_ws(
            #[trigger] a[i][k],
        ) by {
            assert(a[i] == ws[i]);
        }
        lemma_words_of_spaced(a);
        let j = join(a, seq![' ']);
        assert forall|k: int| 0 <= k < w.len() implies !is_ws(#[trigger] w[k]) by {
            assert(w == ws[ws.len() - 1]);
        }
        let js = j + seq![' '];
        assert(js.drop_last() =~= j);
        assert(js.last() == ' ');
        assert(words_state(js) == (words(j), Seq::<char>::empty()));
        lemma_words_state_append(js, w);
        assert(js + w =~= join(ws, seq![' ']));
        assert(words(join(ws, seq![' '])) =~= a.push(w));
        assert(a.push(w) =~= ws);
    }
}

/// Mapping `slug_char` over words joined by `-` maps only the separators,
/// when it keeps every character of the words.
proof fn lemma_slug_map_join(ws: Seq<Seq<char>>)
    requires
        forall|i: int, k: int|
            0 <= i < ws.len() && 0 <= k < ws[i].len() ==> slug_char(#[trigger] ws[i][k]) == ws[i][k],
    ensures
        join(ws, seq!['-']).map_values(|c: char| slug_char(c)) == join(ws, seq![slug_char('-')]),
    decreases ws.len(),
{
    if ws.len() == 0 {
        assert(join(ws, seq!['-']).map_values(|c: char| slug_char(c)) =~= Seq::<char>::empty());
    } else if ws.len() == 1 {
        assert(ws[0].map_values(|c: char| slug_char(c)) =~= ws[0]);
    } else {
        let a = ws.drop_last();
        let w = ws.last();
        assert forall|i: int, k: int| 0 <= i < a.len() && 0 <= k < a[i].len() implies slug_char(
            #[trigger] a[i][k],
        ) == a[i][k] by {
            assert(a[i] == ws[i]);
        }
        lemma_slug_map_join(a);
        assert forall|k: int| 0 <= k < w.len() implies slug_char(#[trigger] w[k]) == w[k] by {
            assert(w == ws[ws.len() - 1]);
        }
        assert(w.map_values(|c: char| slug_char(c)) =~= w);
        let j = join(a, seq!['-']);
        assert((j + seq!['-'] + w).map_values(|c: char| slug_char(c)) =~= j.map_values(
            |c: char| slug_char(c),
        ) + seq![slug_char('-')] + w.map_values(|c: char| slug_char(c)));
    }
}

/// A slug is its own slug: making a slug of the result of
/// `slug_from_lowercase` gives that result back.
pub proof fn lemma_slug_of_lowercase_idempotent(lower: Seq<char>)
    ensures
        slug_of_lowercase(slug_of_lowercase(lower)) == slug_of_lowercase(lower),
{
    let m = lower.map_values(|c: char| slug_char(c));
    let ws = words(m);
    let s = join(ws, seq!['-']);
    let pr = |c: char| spec_is_alphanumeric(c) || c == ' ';
    assert forall|j: int| 0 <= j < m.len() implies pr(#[trigger] m[j]) by {
        assert(m[j] == slug_char(lower[j]));
    }
    lemma_words_chars(m, pr);
    lemma_words_wf(m);
    assert forall|i: int, k: int| 0 <= i < ws.len() && 0 <= k < ws[i].len() implies slug_char(
        #[trigger] ws[i][k],
    ) == ws[i][k] by {
        assert(pr(ws[i][k]));
        assert(!is_ws(ws[i][k]));
    }
    lemma_slug_map_join(ws);
    let m2 = s.map_values(|c: char| slug_char(c));
    assert(slug_of_lowercase(s) == join(words(m2), seq!['-']));
    if spec_is_alphanumeric('-') {
        assert(m2 == s);
        assert forall|i: int, k: int| 0 <= i < ws.len() && 0 <= k < ws[i].len() implies !is_ws(
            #[trigger] ws[i][k],
        ) by {}
        lemma_join_no_ws(ws, seq!['-']);
        lemma_words_state_append(Seq::<char>::empty(), s);
        assert(Seq::<char>::empty() + s =~= s);
        assert(words_state(Seq::<char>::empty()) == (Seq::<Seq<char>>::empty(), Seq::<char>::empty()));
        if s.len() > 0 {
            assert(words(s) =~= seq![s]);
        } else {
            assert(words(s) =~= Seq::<Seq<char>>::empty());
            assert(join(Seq::<Seq<char>>::empty(), seq!['-']) =~= s);
        }
    } else {
        assert(slug_char('-') == ' ');
        lemma_words_of_spaced(ws);
    }
}

/// A slug holds no whitespace, so it can stand as an HTML `id` or a URL
/// segment.
pub proof fn lemma_slug_has_no_whitespace(text: Seq<char>)
    ensures
        forall|k: int| 0 <= k < spec_slugify(text).len() ==> !is_ws(#[trigger] spec_slugify(text)[k]),
{
    let m = spec_to_lowercase(text).map_values(|c: char| slug_char(c));
    assert(spec_slugify(text) == join(words(m), seq!['-']));
    lemma_words_wf(m);
    let ws = words(m);
    assert forall|i: int, k: int| 0 <= i < ws.len() && 0 <= k < ws[i].len() implies !is_ws(
        #[trigger] ws[i][k],
    ) by {
        assert(ws[i].len() > 0);
    }
    lemma_join_no_ws(ws, seq!['-']);
}

} // verus!
