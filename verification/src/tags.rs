//! Tags across all posts: how often each occurs, the most popular ones,
//! and the totals the about page shows.
use vstd::prelude::*;
use crate::archive::strs;
use crate::post::Post;

verus! {

// ---------------------------------------------------------------------
// the model
// ---------------------------------------------------------------------

/// The tags of a post, as texts.
pub open spec fn post_tags(p: Post) -> Seq<Seq<char>> {
    strs(p.frontmatter.tags@)
}

/// Every tag of every post, post by post, repeats included.
pub open spec fn all_tags(ps: Seq<Post>) -> Seq<Seq<char>>
    decreases ps.len(),
{
    if ps.len() == 0 {
        seq![]
    } else {
        all_tags(ps.drop_last()) + post_tags(ps.last())
    }
}

/// The texts of `s`, each once, in the order they first occur.
pub open spec fn first_occurrences(s: Seq<Seq<char>>) -> Seq<Seq<char>>
    decreases s.len(),
{
    if s.len() == 0 {
        seq![]
    } else {
        let d = first_occurrences(s.drop_last());
        if d.contains(s.last()) {
            d
        } else {
            d.push(s.last())
        }
    }
}

/// How many times `t` occurs in `s`.
pub open spec fn occurrences(s: Seq<Seq<char>>, t: Seq<char>) -> nat
    decreases s.len(),
{
    if s.len() == 0 {
        0
    } else {
        occurrences(s.drop_last(), t) + if s.last() == t {
            1nat
        } else {
            0nat
        }
    }
}

/// Each distinct text of `s` with the number of times it occurs, in the
/// order the texts first occur.
pub open spec fn frequencies(s: Seq<Seq<char>>) -> Seq<(Seq<char>, nat)> {
    let names = first_occurrences(s);
    Seq::new(names.len(), |i: int| (names[i], occurrences(s, names[i])))
}

/// Each tag of the posts with the number of times it is used.
pub open spec fn spec_tag_frequencies(ps: Seq<Post>) -> Seq<(Seq<char>, nat)> {
    frequencies(all_tags(ps))
}

// ---------------------------------------------------------------------
// lemmas
// ---------------------------------------------------------------------

/// The first occurrences are the distinct texts of `s`.
pub proof fn lemma_first_occurrences(s: Seq<Seq<char>>)
    ensures
        forall|t: Seq<char>| #[trigger] first_occurrences(s).contains(t) <==> s.contains(t),
        forall|i: int, j: int|
            0 <= i < j < first_occurrences(s).len() ==> first_occurrences(s)[i]
                != first_occurrences(s)[j],
        first_occurrences(s).len() <= s.len(),
    decreases s.len(),
{
    if s.len() > 0 {
        let p = s.drop_last();
        lemma_first_occurrences(p);
        let d = first_occurrences(p);
        let f = first_occurrences(s);
        assert forall|t: Seq<char>| #[trigger] first_occurrences(s).contains(t) <==> s.contains(
            t,
        ) by {
            if s.contains(t) {
                if t == s.last() {
                    if !d.contains(t) {
                        assert(f[d.len() as int] == t);
                    }
                } else {
                    let k = choose|k: int| 0 <= k < s.len() && s[k] == t;
                    assert(k < s.len() - 1);
                    assert(p[k] == t);
                    assert(p.contains(t));
                    assert(d.contains(t));
                    let m = choose|m: int| 0 <= m < d.len() && d[m] == t;
                    assert(f[m] == t);
                }
            }
            if f.contains(t) {
                let k = choose|k: int| 0 <= k < f.len() && f[k] == t;
                if k < d.len() {
                    assert(d[k] == t);
                    assert(d.contains(t));
                    assert(p.contains(t));
                    let m = choose|m: int| 0 <= m < p.len() && p[m] == t;
                    assert(s[m] == t);
                } else {
                    assert(t == s.last());
                    assert(s[s.len() - 1] == t);
                }
            }
        }
        if !d.contains(s.last()) {
            assert forall|i: int, j: int| 0 <= i < j < first_occurrences(s).len() implies first_occurrences(
                s,
            )[i] != first_occurrences(s)[j] by {
                if j == d.len() {
                    assert(d[i] != s.last());
                }
            }
        }
    }
}

/// A text occurs in `s` exactly when it occurs at least once.
pub proof fn lemma_occurrences_contains(s: Seq<Seq<char>>, t: Seq<char>)
    ensures
        occurrences(s, t) > 0 <==> s.contains(t),
        occurrences(s, t) <= s.len(),
    decreases s.len(),
{
    if s.len() > 0 {
        let p = s.drop_last();
        lemma_occurrences_contains(p, t);
        if p.contains(t) {
            let k = choose|k: int| 0 <= k < p.len() && p[k] == t;
            assert(s[k] == t);
        }
        if s.contains(t) && s.last() != t {
            let k = choose|k: int| 0 <= k < s.len() && s[k] == t;
            assert(p[k] == t);
        }
        if s.last() == t {
            assert(s[s.len() - 1] == t);
        }
    }
}

// ---------------------------------------------------------------------
// counting
// ---------------------------------------------------------------------

fn collect_all_tags(posts: &[Post]) -> (r: Vec<String>)
    ensures
        strs(r@) == all_tags(posts@),
{
    let mut r: Vec<String> = Vec::new();
    let mut i: usize = 0;
    while i < posts.len()
        invariant
            i <= posts@.len(),
            strs(r@) == all_tags(posts@.take(i as int)),
        decreases posts@.len() - i,
    {
        proof {
            assert(posts@.take(i + 1).drop_last() =~= posts@.take(i as int));
            assert(posts@.take(i + 1).last() == posts@[i as int]);
        }
        let tags = &posts[i].frontmatter.tags;
        let ghost start = strs(r@);
        let mut j: usize = 0;
        while j < tags.len()
            invariant
                i < posts@.len(),
                j <= tags@.len(),
                tags@ == posts@[i as int].frontmatter.tags@,
                strs(r@) == start + strs(tags@).take(j as int),
            decreases tags@.len() - j,
        {
            let ghost before = r@;
            r.push(tags[j].clone());
            proof {
                assert(r@ == before.push(tags@[j as int]));
                assert(strs(r@) =~= strs(before).push(tags@[j as int]@));
                assert(strs(before).push(tags@[j as int]@) =~= start + strs(tags@).take(j + 1));
                assert(strs(r@) =~= start + strs(tags@).take(j + 1));
            }
            j = j + 1;
        }
        proof {
            assert(strs(tags@).take(tags@.len() as int) =~= strs(tags@));
        }
        i = i + 1;
    }
    proof {
        assert(posts@.take(posts@.len() as int) =~= posts@);
    }
    r
}

/// A tag and the number of posts' uses of it.
pub struct TagCount {
    pub name: String,
    pub count: usize,
}

/// The models of a list of tag counts.
pub open spec fn counts_model(v: Seq<TagCount>) -> Seq<(Seq<char>, nat)> {
    Seq::new(v.len(), |i: int| (v[i].name@, v[i].count as nat))
}

fn find_name(v: &Vec<TagCount>, x: &String) -> (r: Option<usize>)
    ensures
        match r {
            Some(k) => k < v@.len() && v@[k as int].name@ == x@,
            None => forall|k: int| 0 <= k < v@.len() ==> v@[k].name@ != x@,
        },
{
    let mut k: usize = 0;
    while k < v.len()
        invariant
            k <= v@.len(),
            forall|j: int| 0 <= j < k ==> v@[j].name@ != x@,
        decreases v@.len() - k,
    {
        if v[k].name == *x {
            return Some(k);
        }
        k = k + 1;
    }
    None
}

fn count_texts(all: &Vec<String>) -> (r: Vec<TagCount>)
    ensures
        counts_model(r@) == frequencies(strs(all@)),
{
    let ghost s = strs(all@);
    let mut r: Vec<TagCount> = Vec::new();
    let mut i: usize = 0;
    while i < all.len()
        invariant
            i <= all@.len(),
            s == strs(all@),
            counts_model(r@) == frequencies(s.take(i as int)),
        decreases all@.len() - i,
    {
        let ghost p = s.take(i as int);
        let ghost q = s.take(i + 1);
        let x = &all[i];
        proof {
            assert(q.drop_last() =~= p);
            assert(q.last() == x@);
            lemma_first_occurrences(p);
            lemma_occurrences_contains(p, x@);
            lemma_occurrences_contains(p, x@);
            assert(occurrences(p, x@) <= i);
        }
        let ghost before = r@;
        match find_name(&r, x) {
            Some(k) => {
                proof {
                    assert(counts_model(before).len() == first_occurrences(p).len());
                    assert(counts_model(before)[k as int] == frequencies(p)[k as int]);
                    assert(counts_model(before)[k as int].0 == x@);
                    assert(first_occurrences(p)[k as int] == x@);
                    assert(first_occurrences(p).contains(x@));
                }
                let c = r[k].count;
                proof {
                    assert(c == occurrences(p, x@));
                    assert(first_occurrences(q) == first_occurrences(p));
                }
                let name = r[k].name.clone();
                r.set(k, TagCount { name, count: c + 1 });
                proof {
                    assert forall|j: int| 0 <= j < counts_model(r@).len() implies #[trigger] counts_model(
                        r@,
                    )[j] == frequencies(q)[j] by {
                        let t = first_occurrences(p)[j];
                        assert(occurrences(q, t) == occurrences(p, t) + if x@ == t {
                            1nat
                        } else {
                            0nat
                        });
                        if j != k {
                            assert(first_occurrences(p)[j] != first_occurrences(p)[k as int]);
                            assert(r@[j] == before[j]);
                            assert(counts_model(before)[j] == frequencies(p)[j]);
                        }
                    }
                    assert(counts_model(r@) =~= frequencies(q));
                }
            },
            None => {
                proof {
                    assert forall|j: int| 0 <= j < first_occurrences(p).len() implies first_occurrences(
                        p,
                    )[j] != x@ by {
                        assert(counts_model(before) == frequencies(p));
                        assert(counts_model(before).len() == first_occurrences(p).len());
                        assert(counts_model(before)[j] == frequencies(p)[j]);
                        assert(counts_model(before)[j].0 == before[j].name@);
                        assert(counts_model(before)[j].0 == first_occurrences(p)[j]);
                    }
                    assert(!first_occurrences(p).contains(x@));
                    assert(!p.contains(x@));
                }
                r.push(TagCount { name: x.clone(), count: 1 });
                proof {
                    assert(first_occurrences(q) == first_occurrences(p).push(x@));
                    assert(counts_model(before).len() == first_occurrences(p).len());
                    assert(counts_model(r@).len() == frequencies(q).len());
                    assert forall|j: int| 0 <= j < counts_model(r@).len() implies #[trigger] counts_model(
                        r@,
                    )[j] == frequencies(q)[j] by {
                        assert(counts_model(before).len() == first_occurrences(p).len());
                        if j < before.len() {
                            assert(first_occurrences(p)[j] != x@);
                            let t = first_occurrences(p)[j];
                            assert(occurrences(q, t) == occurrences(p, t));
                            assert(counts_model(before)[j] == frequencies(p)[j]);
                        } else {
                            assert(occurrences(q, x@) == occurrences(p, x@) + 1);
                        }
                    }
                    assert(counts_model(r@) =~= frequencies(q));
                }
            },
        }
        i = i + 1;
    }
    proof {
        assert(s.take(all@.len() as int) =~= s);
    }
    r
}

/// Each tag of the posts with the number of times posts use it, in the
/// order the tags first occur.
pub fn tag_frequencies(posts: &[Post]) -> (r: Vec<TagCount>)
    ensures
        counts_model(r@) == spec_tag_frequencies(posts@),
{
    let all = collect_all_tags(posts);
    count_texts(&all)
}

/// The number of different tags the posts use.
pub fn distinct_tag_count(posts: &[Post]) -> (r: usize)
    ensures
        r == first_occurrences(all_tags(posts@)).len(),
{
    let f = tag_frequencies(posts);
    proof {
        assert(counts_model(f@).len() == f@.len());
    }
    f.len()
}

/// The largest count in a list of tag counts; 1 for an empty list.
pub open spec fn spec_max_frequency(s: Seq<(Seq<char>, nat)>) -> nat
    decreases s.len(),
{
    if s.len() == 0 {
        1
    } else if s.len() == 1 {
        s[0].1
    } else {
        let m = spec_max_frequency(s.drop_last());
        if s.last().1 > m {
            s.last().1
        } else {
            m
        }
    }
}

/// The largest count in a list of tag counts; 1 for an empty list.
pub fn max_frequency(counts: &Vec<TagCount>) -> (r: usize)
    ensures
        r == spec_max_frequency(counts_model(counts@)),
{
    let ghost s = counts_model(counts@);
    if counts.len() == 0 {
        return 1;
    }
    let mut m: usize = counts[0].count;
    proof {
        assert(s.take(1).drop_last().len() == 0);
    }
    let mut i: usize = 1;
    while i < counts.len()
        invariant
            1 <= i <= counts@.len(),
            s == counts_model(counts@),
            m == spec_max_frequency(s.take(i as int)),
        decreases counts@.len() - i,
    {
        proof {
            assert(s.take(i + 1).drop_last() =~= s.take(i as int));
        }
        if counts[i].count > m {
            m = counts[i].count;
        }
        i = i + 1;
    }
    proof {
        assert(s.take(counts@.len() as int) =~= s);
    }
    m
}

// ---------------------------------------------------------------------
// the most popular tags
// ---------------------------------------------------------------------

/// `x` put into `s` just before the first count smaller than its own.
pub open spec fn insert_by_count(s: Seq<(Seq<char>, nat)>, x: (Seq<char>, nat)) -> Seq<(Seq<char>, nat)>
    decreases s.len(),
{
    if s.len() == 0 {
        seq![x]
    } else if s[0].1 < x.1 {
        seq![x] + s
    } else {
        seq![s[0]] + insert_by_count(s.drop_first(), x)
    }
}

/// Tag counts ordered by count, largest first; equal counts keep their
/// order (a stable sort, descending).
pub open spec fn sort_by_count(s: Seq<(Seq<char>, nat)>) -> Seq<(Seq<char>, nat)>
    decreases s.len(),
{
    if s.len() == 0 {
        seq![]
    } else {
        insert_by_count(sort_by_count(s.drop_last()), s.last())
    }
}

/// The most used tags of the posts, most used first, at most ten.
pub open spec fn spec_popular_tags(ps: Seq<Post>) -> Seq<Seq<char>> {
    let sorted = sort_by_count(spec_tag_frequencies(ps));
    let top = if sorted.len() > 10 {
        sorted.take(10)
    } else {
        sorted
    };
    Seq::new(top.len(), |i: int| top[i].0)
}

proof fn lemma_insert_by_count_at(s: Seq<(Seq<char>, nat)>, x: (Seq<char>, nat), j: int)
    requires
        0 <= j <= s.len(),
        forall|k: int| 0 <= k < j ==> !((#[trigger] s[k]).1 < x.1),
        j < s.len() ==> s[j].1 < x.1,
    ensures
        insert_by_count(s, x) == s.take(j) + seq![x] + s.skip(j),
    decreases s.len(),
{
    if s.len() == 0 {
        assert(s.take(j) + seq![x] + s.skip(j) =~= seq![x]);
    } else if j == 0 {
        assert(s.take(0) + seq![x] + s.skip(0) =~= seq![x] + s);
    } else {
        let t = s.drop_first();
        assert forall|k: int| 0 <= k < j - 1 implies !((#[trigger] t[k]).1 < x.1) by {
            assert(t[k] == s[k + 1]);
        }
        if j - 1 < t.len() {
            assert(t[j - 1] == s[j]);
        }
        lemma_insert_by_count_at(t, x, j - 1);
        assert(!(s[0].1 < x.1));
        assert(seq![s[0]] + (t.take(j - 1) + seq![x] + t.skip(j - 1)) =~= s.take(j) + seq![x]
            + s.skip(j));
    }
}

fn sort_counts(v: Vec<TagCount>) -> (r: Vec<TagCount>)
    ensures
        counts_model(r@) == sort_by_count(counts_model(v@)),
{
    let ghost orig = counts_model(v@);
    let mut sorted: Vec<TagCount> = Vec::new();
    let mut n: usize = 0;
    while n < v.len()
        invariant
            n <= v@.len(),
            orig == counts_model(v@),
            counts_model(sorted@) == sort_by_count(orig.take(n as int)),
        decreases v@.len() - n,
    {
        let x = TagCount { name: v[n].name.clone(), count: v[n].count };
        let mut j: usize = 0;
        while j < sorted.len() && !(sorted[j].count < x.count)
            invariant
                j <= sorted@.len(),
                forall|k: int|
                    0 <= k < j ==> !((#[trigger] counts_model(sorted@)[k]).1 < x.count),
            decreases sorted@.len() - j,
        {
            j = j + 1;
        }
        proof {
            lemma_insert_by_count_at(counts_model(sorted@), (x.name@, x.count as nat), j as int);
            assert(orig.take(n + 1).drop_last() =~= orig.take(n as int));
            assert(orig.take(n + 1).last() == (x.name@, x.count as nat));
        }
        let ghost before = sorted@;
        let ghost xm = (x.name@, x.count as nat);
        sorted.insert(j, x);
        proof {
            assert(counts_model(sorted@) =~= counts_model(before).take(j as int) + seq![xm]
                + counts_model(before).skip(j as int));
        }
        n = n + 1;
    }
    proof {
        assert(orig.take(v@.len() as int) =~= orig);
    }
    sorted
}

/// The most used tags, most used first, at most ten; tags used equally
/// often come in the order they first occur.
pub fn popular_tags(posts: &[Post]) -> (r: Vec<String>)
    ensures
        strs(r@) == spec_popular_tags(posts@),
{
    let sorted = sort_counts(tag_frequencies(posts));
    let ghost sm = counts_model(sorted@);
    let n: usize = if sorted.len() > 10 {
        10
    } else {
        sorted.len()
    };
    let mut r: Vec<String> = Vec::new();
    let mut i: usize = 0;
    while i < n
        invariant
            i <= n <= sorted@.len(),
            sm == counts_model(sorted@),
            strs(r@) == Seq::new(i as nat, |k: int| sm[k].0),
        decreases n - i,
    {
        let ghost before = r@;
        r.push(sorted[i].name.clone());
        proof {
            assert(r@ == before.push(sorted@[i as int].name));
            assert(sm[i as int].0 == sorted@[i as int].name@);
            assert(strs(r@) =~= strs(before).push(sorted@[i as int].name@));
            assert(strs(r@) =~= Seq::new((i + 1) as nat, |k: int| sm[k].0));
        }
        i = i + 1;
    }
    proof {
        assert(strs(r@) =~= spec_popular_tags(posts@));
    }
    r
}

// ---------------------------------------------------------------------
// laws
// ---------------------------------------------------------------------

proof fn lemma_insert_by_count_sorted(s: Seq<(Seq<char>, nat)>, x: (Seq<char>, nat))
    requires
        forall|i: int, j: int| 0 <= i < j < s.len() ==> s[i].1 >= s[j].1,
    ensures
        forall|i: int, j: int|
            0 <= i < j < insert_by_count(s, x).len() ==> insert_by_count(s, x)[i].1
                >= insert_by_count(s, x)[j].1,
        insert_by_count(s, x).len() == s.len() + 1,
    decreases s.len(),
{
    if s.len() > 0 && !(s[0].1 < x.1) {
        let t = s.drop_first();
        lemma_insert_by_count_sorted(t, x);
        let r = insert_by_count(s, x);
        let ti = insert_by_count(t, x);
        assert forall|i: int, j: int| 0 <= i < j < r.len() implies r[i].1 >= r[j].1 by {
            if i == 0 {
                lemma_insert_by_count_elems(t, x, j - 1);
                assert(r[j] == ti[j - 1]);
            } else {
                assert(r[i] == ti[i - 1]);
                assert(r[j] == ti[j - 1]);
            }
        }
    } else if s.len() > 0 {
        let r = insert_by_count(s, x);
        assert forall|i: int, j: int| 0 <= i < j < r.len() implies r[i].1 >= r[j].1 by {
            if i == 0 {
                assert(s[0].1 >= s[j - 1].1 || j - 1 == 0);
            } else {
                assert(r[i] == s[i - 1]);
            }
        }
    }
}

/// Every element of an insertion is the inserted one or one of `s`.
proof fn lemma_insert_by_count_elems(s: Seq<(Seq<char>, nat)>, x: (Seq<char>, nat), k: int)
    requires
        0 <= k < insert_by_count(s, x).len(),
    ensures
        insert_by_count(s, x)[k] == x || exists|j: int| 0 <= j < s.len() && s[j] == insert_by_count(s, x)[k],
    decreases s.len(),
{
    if s.len() > 0 && !(s[0].1 < x.1) {
        if k > 0 {
            lemma_insert_by_count_elems(s.drop_first(), x, k - 1);
            if insert_by_count(s, x)[k] != x {
                let j = choose|j: int| 0 <= j < s.drop_first().len() && s.drop_first()[j] == insert_by_count(s.drop_first(), x)[k - 1];
                assert(s[j + 1] == insert_by_count(s, x)[k]);
            }
        } else {
            assert(s[0] == insert_by_count(s, x)[k]);
        }
    } else if s.len() > 0 {
        if k > 0 {
            assert(s[k - 1] == insert_by_count(s, x)[k]);
        }
    }
}

proof fn lemma_sort_by_count_sorted(s: Seq<(Seq<char>, nat)>)
    ensures
        forall|i: int, j: int|
            0 <= i < j < sort_by_count(s).len() ==> sort_by_count(s)[i].1 >= sort_by_count(s)[j].1,
        sort_by_count(s).len() == s.len(),
    decreases s.len(),
{
    if s.len() > 0 {
        lemma_sort_by_count_sorted(s.drop_last());
        lemma_insert_by_count_sorted(sort_by_count(s.drop_last()), s.last());
    }
}

/// The tag counts name each tag once, count every use, and cover every tag
/// the posts use; the popular tags are at most ten, and as many as there
/// are tags when there are fewer.
pub proof fn lemma_tag_counts(ps: Seq<Post>)
    ensures
        forall|i: int, j: int|
            0 <= i < j < spec_tag_frequencies(ps).len() ==> spec_tag_frequencies(ps)[i].0
                != spec_tag_frequencies(ps)[j].0,
        forall|t: Seq<char>|
            all_tags(ps).contains(t) <==> exists|i: int|
                0 <= i < spec_tag_frequencies(ps).len() && #[trigger] spec_tag_frequencies(ps)[i].0
                    == t,
        forall|i: int|
            0 <= i < spec_tag_frequencies(ps).len() ==> #[trigger] spec_tag_frequencies(ps)[i].1
                == occurrences(all_tags(ps), spec_tag_frequencies(ps)[i].0),
        spec_popular_tags(ps).len() == if spec_tag_frequencies(ps).len() > 10 {
            10
        } else {
            spec_tag_frequencies(ps).len()
        },
{
    let s = all_tags(ps);
    lemma_first_occurrences(s);
    lemma_sort_by_count_sorted(spec_tag_frequencies(ps));
    let names = first_occurrences(s);
    assert forall|t: Seq<char>| s.contains(t) implies exists|i: int|
        0 <= i < spec_tag_frequencies(ps).len() && #[trigger] spec_tag_frequencies(ps)[i].0 == t by {
        assert(names.contains(t));
        let i = choose|i: int| 0 <= i < names.len() && names[i] == t;
        assert(spec_tag_frequencies(ps)[i].0 == t);
    }
    assert forall|t: Seq<char>|
        (exists|i: int| 0 <= i < spec_tag_frequencies(ps).len() && #[trigger] spec_tag_frequencies(ps)[i].0 == t)
        implies s.contains(t) by {
        let i = choose|i: int| 0 <= i < spec_tag_frequencies(ps).len() && #[trigger] spec_tag_frequencies(ps)[i].0 == t;
        assert(names[i] == t);
        assert(names.contains(t));
    }
}

/// The popular tags come most used first.
pub proof fn lemma_popular_tags_order(ps: Seq<Post>)
    ensures
        forall|i: int, j: int|
            0 <= i < j < spec_popular_tags(ps).len() ==> occurrences(all_tags(ps), spec_popular_tags(ps)[i])
                >= occurrences(all_tags(ps), spec_popular_tags(ps)[j]),
{
    let f = spec_tag_frequencies(ps);
    lemma_sort_by_count_sorted(f);
    let sorted = sort_by_count(f);
    assert forall|k: int| 0 <= k < sorted.len() implies #[trigger] sorted[k].1 == occurrences(
        all_tags(ps),
        sorted[k].0,
    ) by {
        lemma_sort_by_count_elems(f, k);
    }
}

/// Every element of the sorted counts is one of the counts.
proof fn lemma_sort_by_count_elems(s: Seq<(Seq<char>, nat)>, k: int)
    requires
        0 <= k < sort_by_count(s).len(),
    ensures
        exists|j: int| 0 <= j < s.len() && s[j] == sort_by_count(s)[k],
    decreases s.len(),
{
    lemma_sort_by_count_sorted(s);
    let p = s.drop_last();
    lemma_sort_by_count_sorted(p);
    lemma_insert_by_count_elems(sort_by_count(p), s.last(), k);
    if sort_by_count(s)[k] == s.last() {
        assert(s[s.len() - 1] == sort_by_count(s)[k]);
    } else {
        let j = choose|j: int| 0 <= j < sort_by_count(p).len() && sort_by_count(p)[j] == sort_by_count(s)[k];
        lemma_sort_by_count_elems(p, j);
        let i = choose|i: int| 0 <= i < p.len() && p[i] == sort_by_count(p)[j];
        assert(s[i] == p[i]);
    }
}

// ---------------------------------------------------------------------
// totals
// ---------------------------------------------------------------------

/// The sum of the posts' word counts.
pub open spec fn total_words(ps: Seq<Post>) -> nat
    decreases ps.len(),
{
    if ps.len() == 0 {
        0
    } else {
        total_words(ps.drop_last()) + ps.last().word_count as nat
    }
}

/// The number of words across all posts.
pub fn total_word_count(posts: &[Post]) -> (r: usize)
    requires
        total_words(posts@) <= usize::MAX,
    ensures
        r == total_words(posts@),
{
    let mut sum: usize = 0;
    let mut i: usize = 0;
    while i < posts.len()
        invariant
            i <= posts@.len(),
            sum == total_words(posts@.take(i as int)),
            total_words(posts@) <= usize::MAX,
        decreases posts@.len() - i,
    {
        proof {
            assert(posts@.take(i + 1).drop_last() =~= posts@.take(i as int));
            lemma_total_words_prefix(posts@, i + 1);
        }
        sum = sum + posts[i].word_count;
        i = i + 1;
    }
    proof {
        assert(posts@.take(posts@.len() as int) =~= posts@);
    }
    sum
}

/// The number of words across all posts, or `None` when it does not fit
/// in a `usize`.
pub fn total_word_count_checked(posts: &[Post]) -> (r: Option<usize>)
    ensures
        match r {
            Some(n) => n == total_words(posts@),
            None => total_words(posts@) > usize::MAX,
        },
{
    let mut sum: usize = 0;
    let mut i: usize = 0;
    while i < posts.len()
        invariant
            i <= posts@.len(),
            sum == total_words(posts@.take(i as int)),
        decreases posts@.len() - i,
    {
        proof {
            assert(posts@.take(i + 1).drop_last() =~= posts@.take(i as int));
        }
        match sum.checked_add(posts[i].word_count) {
            Some(s) => {
                sum = s;
            },
            None => {
                proof {
                    lemma_total_words_prefix(posts@, i + 1);
                }
                return None;
            },
        }
        i = i + 1;
    }
    proof {
        assert(posts@.take(posts@.len() as int) =~= posts@);
    }
    Some(sum)
}

proof fn lemma_total_words_prefix(ps: Seq<Post>, k: int)
    requires
        0 <= k <= ps.len(),
    ensures
        total_words(ps.take(k)) <= total_words(ps),
    decreases ps.len() - k,
{
    if k < ps.len() {
        lemma_total_words_prefix(ps, k + 1);
        assert(ps.take(k + 1).drop_last() =~= ps.take(k));
    } else {
        assert(ps.take(k) =~= ps);
    }
}

} // verus!
