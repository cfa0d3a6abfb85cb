//! Deciding when a change on disk calls for a reload: which paths are
//! watched, and whether a file's content differs from what was last seen.
use vstd::prelude::*;
use crate::archive::strs;

verus! {

// ---------------------------------------------------------------------
// parts of a path
// ---------------------------------------------------------------------

/// What `Path::extension` gives for a path: the part of the file name after
/// its last `.`, if any.
pub uninterp spec fn spec_path_extension(path: Seq<char>) -> Option<Seq<char>>;

/// What `Path::parent` gives for a path: the path without its last
/// component, if it has one.
pub uninterp spec fn spec_path_parent(path: Seq<char>) -> Option<Seq<char>>;

/// What `Path::file_name` gives for a path: its last component, unless it
/// is `..`.
pub uninterp spec fn spec_path_file_name(path: Seq<char>) -> Option<Seq<char>>;

/// What `Path::file_stem` gives for a path: its file name without the
/// extension, if it has a file name.
pub uninterp spec fn spec_path_file_stem(path: Seq<char>) -> Option<Seq<char>>;

/// The view of an optional string.
pub open spec fn opt_text(s: Option<String>) -> Option<Seq<char>> {
    match s {
        Some(x) => Some(x@),
        None => None,
    }
}

/// `Path::extension` of `path`; the result is named `spec_path_extension`
/// of the path. Its rules (the last `.` of the file name, a leading dot
/// starting no extension) are not restated here.
#[verifier::external_body]
pub(crate) fn path_extension(path: &str) -> (r: Option<String>)
    ensures
        opt_text(r) == spec_path_extension(path@),
{
    std::path::Path::new(path).extension().map(|e| e.to_string_lossy().into_owned())
}

/// `Path::parent` of `path`; the result is named `spec_path_parent` of the
/// path.
#[verifier::external_body]
fn path_parent(path: &str) -> (r: Option<String>)
    ensures
        opt_text(r) == spec_path_parent(path@),
{
    std::path::Path::new(path).parent().map(|d| d.to_string_lossy().into_owned())
}

/// `Path::file_name` of `path`; the result is named `spec_path_file_name`
/// of the path.
#[verifier::external_body]
fn path_file_name(path: &str) -> (r: Option<String>)
    ensures
        opt_text(r) == spec_path_file_name(path@),
{
    std::path::Path::new(path).file_name().map(|n| n.to_string_lossy().into_owned())
}

/// `Path::file_stem` of `path`; the result is named `spec_path_file_stem`
/// of the path.
#[verifier::external_body]
pub(crate) fn path_file_stem(path: &str) -> (r: Option<String>)
    ensures
        opt_text(r) == spec_path_file_stem(path@),
{
    std::path::Path::new(path).file_stem().map(|n| n.to_string_lossy().into_owned())
}

/// `path` is a file with extension `ext` directly inside a directory named
/// `dir`.
pub open spec fn watched(path: Seq<char>, dir: Seq<char>, ext: Seq<char>) -> bool {
    &&& spec_path_extension(path) == Some(ext)
    &&& match spec_path_parent(path) {
        Some(d) => spec_path_file_name(d) == Some(dir),
        None => false,
    }
}

/// Whether `path` is a file with extension `ext` directly inside a
/// directory named `dir`.
pub fn is_watched(path: &str, dir: &str, ext: &str) -> (r: bool)
    ensures
        r == watched(path@, dir@, ext@),
{
    let ok_ext = match path_extension(path) {
        Some(e) => crate::text::str_eq(e.as_str(), ext),
        None => false,
    };
    if !ok_ext {
        return false;
    }
    match path_parent(path) {
        Some(d) => match path_file_name(d.as_str()) {
            Some(n) => crate::text::str_eq(n.as_str(), dir),
            None => false,
        },
        None => false,
    }
}

// ---------------------------------------------------------------------
// signatures
// ---------------------------------------------------------------------

/// What `Path::components` gives for a path, each component as its text:
/// the path with repeated separators, a trailing separator and `.`
/// components other than a leading one left out. Two paths are the same
/// path (`PathBuf`'s `==`) when their components are.
pub uninterp spec fn spec_path_components(path: Seq<char>) -> Seq<Seq<char>>;

/// `Path::components` of `path`, each component turned into its text; the
/// result is named `spec_path_components` of the path.
#[verifier::external_body]
pub(crate) fn path_components(path: &str) -> (r: Vec<String>)
    ensures
        strs(r@) == spec_path_components(path@),
{
    let mut r = Vec::new();
    for c in std::path::Path::new(path).components() {
        r.push(c.as_os_str().to_string_lossy().into_owned());
    }
    r
}

/// The key under which a path's signature is held: its components.
pub open spec fn path_key(path: Seq<char>) -> Seq<Seq<char>> {
    spec_path_components(path)
}

/// The last signature (a hash of the content, `None` for a file that could
/// not be read) recorded for each path, keyed by the path's components.
pub struct SignatureStore {
    pub entries: Vec<(Vec<String>, Option<u64>)>,
}

/// The entries of a store as plain values.
pub open spec fn entries_model(v: Seq<(Vec<String>, Option<u64>)>) -> Seq<(Seq<Seq<char>>, Option<u64>)> {
    Seq::new(v.len(), |i: int| (strs(v[i].0@), v[i].1))
}

/// The signature recorded last for the key `k` in `s`; `None` when there is
/// none.
pub open spec fn recorded(s: Seq<(Seq<Seq<char>>, Option<u64>)>, k: Seq<Seq<char>>) -> Option<u64>
    decreases s.len(),
{
    if s.len() == 0 {
        None
    } else if s.last().0 == k {
        s.last().1
    } else {
        recorded(s.drop_last(), k)
    }
}

impl SignatureStore {
    /// The signature the store holds for each path key; `None` for a path
    /// it has not seen.
    pub open spec fn signatures(&self) -> spec_fn(Seq<Seq<char>>) -> Option<u64> {
        |k: Seq<Seq<char>>| recorded(entries_model(self.entries@), k)
    }

    /// An empty store.
    pub fn new() -> (r: Self)
        ensures
            forall|k: Seq<Seq<char>>| #[trigger] (r.signatures())(k) == None::<u64>,
    {
        SignatureStore { entries: Vec::new() }
    }
}

/// The store after seeing the signatures of `paths` in order, and whether
/// any watched path's signature differed from the one held for it: a
/// differing signature replaces the one held under the path's key.
pub open spec fn record_all(
    f: spec_fn(Seq<Seq<char>>) -> Option<u64>,
    paths: Seq<Seq<char>>,
    sigs: Seq<Option<u64>>,
    dir: Seq<char>,
    ext: Seq<char>,
) -> (spec_fn(Seq<Seq<char>>) -> Option<u64>, bool)
    decreases paths.len(),
{
    if paths.len() == 0 {
        (f, false)
    } else {
        let (g, changed) = record_all(f, paths.drop_last(), sigs.drop_last(), dir, ext);
        let p = paths.last();
        let k = path_key(p);
        let s = sigs[paths.len() - 1];
        if watched(p, dir, ext) && g(k) != s {
            (|q: Seq<Seq<char>>| if q == k {
                s
            } else {
                g(q)
            }, true)
        } else {
            (g, changed)
        }
    }
}

/// Removing an entry for another key keeps what is recorded for `q`.
proof fn lemma_recorded_remove(s: Seq<(Seq<Seq<char>>, Option<u64>)>, i: int, q: Seq<Seq<char>>)
    requires
        0 <= i < s.len(),
        s[i].0 != q,
    ensures
        recorded(s.remove(i), q) == recorded(s, q),
    decreases s.len(),
{
    if i == s.len() - 1 {
        assert(s.remove(i) =~= s.drop_last());
    } else {
        assert(s.remove(i).drop_last() =~= s.drop_last().remove(i));
        assert(s.remove(i).last() == s.last());
        lemma_recorded_remove(s.drop_last(), i, q);
    }
}

/// Whether two lists of strings are equal.
fn strs_eq(a: &Vec<String>, b: &Vec<String>) -> (r: bool)
    ensures
        r == (strs(a@) == strs(b@)),
{
    if a.len() != b.len() {
        proof {
            assert(strs(a@).len() != strs(b@).len());
        }
        return false;
    }
    let mut i: usize = 0;
    while i < a.len()
        invariant
            i <= a@.len(),
            a@.len() == b@.len(),
            forall|j: int| 0 <= j < i ==> a@[j]@ == b@[j]@,
        decreases a@.len() - i,
    {
        if !crate::text::str_eq(a[i].as_str(), b[i].as_str()) {
            proof {
                assert(strs(a@)[i as int] != strs(b@)[i as int]);
            }
            return false;
        }
        i = i + 1;
    }
    proof {
        assert(strs(a@) =~= strs(b@));
    }
    true
}

fn find_entry(entries: &Vec<(Vec<String>, Option<u64>)>, k: &Vec<String>) -> (r: Option<usize>)
    ensures
        match r {
            Some(i) => i < entries@.len() && strs(entries@[i as int].0@) == strs(k@),
            None => forall|i: int| 0 <= i < entries@.len() ==> strs(entries@[i].0@) != strs(k@),
        },
{
    let mut i: usize = 0;
    while i < entries.len()
        invariant
            i <= entries@.len(),
            forall|j: int| 0 <= j < i ==> strs(entries@[j].0@) != strs(k@),
        decreases entries@.len() - i,
    {
        if strs_eq(&entries[i].0, k) {
            return Some(i);
        }
        i = i + 1;
    }
    None
}

/// A key that no entry holds has nothing recorded.
proof fn lemma_recorded_absent(s: Seq<(Seq<Seq<char>>, Option<u64>)>, k: Seq<Seq<char>>)
    requires
        forall|i: int| 0 <= i < s.len() ==> s[i].0 != k,
    ensures
        recorded(s, k) is None,
    decreases s.len(),
{
    if s.len() > 0 {
        lemma_recorded_absent(s.drop_last(), k);
    }
}

impl SignatureStore {
    fn signature_of_key(&self, k: &Vec<String>) -> (r: Option<u64>)
        ensures
            r == (self.signatures())(strs(k@)),
    {
        let ghost m = entries_model(self.entries@);
        let mut i: usize = self.entries.len();
        proof {
            assert(m.take(i as int) =~= m);
        }
        while i > 0
            invariant
                i <= self.entries@.len(),
                m == entries_model(self.entries@),
                recorded(m, strs(k@)) == recorded(m.take(i as int), strs(k@)),
            decreases i,
        {
            proof {
                assert(m.take(i as int).drop_last() =~= m.take(i - 1));
                assert(m.take(i as int).last() == m[i - 1]);
            }
            if strs_eq(&self.entries[i - 1].0, k) {
                return self.entries[i - 1].1;
            }
            i = i - 1;
        }
        proof {
            assert(m.take(0) =~= Seq::<(Seq<Seq<char>>, Option<u64>)>::empty());
        }
        None
    }

    /// The signature held for the path `p` (for any text naming the same
    /// path).
    pub fn signature(&self, p: &str) -> (r: Option<u64>)
        ensures
            r == (self.signatures())(path_key(p@)),
    {
        let k = path_components(p);
        self.signature_of_key(&k)
    }

    fn set_signature_of_key(&mut self, k: Vec<String>, sig: Option<u64>)
        ensures
            forall|q: Seq<Seq<char>>| #[trigger] (final(self).signatures())(q) == if q == strs(k@) {
                sig
            } else {
                (old(self).signatures())(q)
            },
    {
        let ghost m0 = entries_model(self.entries@);
        let ghost key = strs(k@);
        match find_entry(&self.entries, &k) {
            Some(i) => {
                self.entries.remove(i);
                proof {
                    assert(entries_model(self.entries@) =~= m0.remove(i as int));
                    assert forall|q: Seq<Seq<char>>| q != key implies recorded(m0.remove(i as int), q) == recorded(m0, q) by {
                        lemma_recorded_remove(m0, i as int, q);
                    }
                }
            },
            None => {
                proof {
                    lemma_recorded_absent(m0, key);
                }
            },
        }
        let ghost m1 = entries_model(self.entries@);
        self.entries.push((k, sig));
        proof {
            let m2 = entries_model(self.entries@);
            assert(m2.drop_last() =~= m1);
            assert(m2.last().0 == key);
            assert forall|q: Seq<Seq<char>>| #[trigger] (final(self).signatures())(q) == if q == key {
                sig
            } else {
                (old(self).signatures())(q)
            } by {
                assert((final(self).signatures())(q) == recorded(m2, q));
            }
        }
    }

    /// Holds `sig` as the signature of the path `p`.
    pub fn set_signature(&mut self, p: &str, sig: Option<u64>)
        ensures
            forall|q: Seq<Seq<char>>| #[trigger] (final(self).signatures())(q) == if q == path_key(p@) {
                sig
            } else {
                (old(self).signatures())(q)
            },
    {
        let k = path_components(p);
        self.set_signature_of_key(k, sig);
    }
}

/// Sees the signatures `sigs` of `paths` in order (the signature of a path
/// that is not watched is ignored): whether a watched file with extension
/// `ext` in directory `dir` now has content other than what was last seen.
/// A file that cannot be read has signature `None`, so that a deleted file
/// is reported once.
pub fn file_signature_changed(
    store: &mut SignatureStore,
    paths: &Vec<String>,
    sigs: &Vec<Option<u64>>,
    dir: &str,
    ext: &str,
) -> (r: bool)
    requires
        paths@.len() == sigs@.len(),
    ensures
        ({
            let (f, changed) = record_all(
                old(store).signatures(),
                crate::archive::strs(paths@),
                sigs@,
                dir@,
                ext@,
            );
            r == changed && final(store).signatures() == f
        }),
{
    let ghost f0 = store.signatures();
    let ghost ps = crate::archive::strs(paths@);
    let mut changed = false;
    let mut i: usize = 0;
    while i < paths.len()
        invariant
            i <= paths@.len(),
            paths@.len() == sigs@.len(),
            ps == crate::archive::strs(paths@),
            ({
                let (f, c) = record_all(f0, ps.take(i as int), sigs@.take(i as int), dir@, ext@);
                changed == c && store.signatures() == f
            }),
        decreases paths@.len() - i,
    {
        proof {
            assert(ps.take(i + 1).drop_last() =~= ps.take(i as int));
            assert(sigs@.take(i + 1).drop_last() =~= sigs@.take(i as int));
            assert(ps.take(i + 1).last() == paths@[i as int]@);
            assert(sigs@.take(i + 1)[i as int] == sigs@[i as int]);
        }
        let p = paths[i].as_str();
        let sig = sigs[i];
        if is_watched(p, dir, ext) {
            let k = path_components(p);
            if store.signature_of_key(&k) != sig {
                let ghost before = store.signatures();
                store.set_signature_of_key(k, sig);
                changed = true;
                proof {
                    let g = |q: Seq<Seq<char>>| if q == path_key(p@) {
                        sig
                    } else {
                        before(q)
                    };
                    assert(store.signatures() =~= g);
                }
            }
        }
        i = i + 1;
    }
    proof {
        assert(ps.take(paths@.len() as int) =~= ps);
        assert(sigs@.take(paths@.len() as int) =~= sigs@);
    }
    changed
}

// ---------------------------------------------------------------------
// laws
// ---------------------------------------------------------------------

/// After seeing a list in which each path has one signature, the store
/// holds that signature for every watched path of the list.
proof fn lemma_record_all_holds(
    f: spec_fn(Seq<Seq<char>>) -> Option<u64>,
    paths: Seq<Seq<char>>,
    sigs: Seq<Option<u64>>,
    dir: Seq<char>,
    ext: Seq<char>,
)
    requires
        paths.len() == sigs.len(),
        forall|i: int, j: int|
            0 <= i < paths.len() && 0 <= j < paths.len() && path_key(paths[i]) == path_key(paths[j])
                ==> sigs[i] == sigs[j],
    ensures
        forall|i: int|
            0 <= i < paths.len() && watched(paths[i], dir, ext) ==> (record_all(
                f,
                paths,
                sigs,
                dir,
                ext,
            ).0)(path_key(#[trigger] paths[i])) == sigs[i],
    decreases paths.len(),
{
    if paths.len() > 0 {
        let n = paths.len() - 1;
        let pp = paths.drop_last();
        let ss = sigs.drop_last();
        assert forall|i: int, j: int|
            0 <= i < pp.len() && 0 <= j < pp.len() && path_key(pp[i]) == path_key(pp[j]) implies ss[i]
                == ss[j] by {
            assert(paths[i] == pp[i] && paths[j] == pp[j]);
        }
        lemma_record_all_holds(f, pp, ss, dir, ext);
        assert forall|i: int|
            0 <= i < paths.len() && watched(paths[i], dir, ext) implies (record_all(
                f,
                paths,
                sigs,
                dir,
                ext,
            ).0)(path_key(#[trigger] paths[i])) == sigs[i] by {
            if i < n {
                assert(pp[i] == paths[i]);
                assert(ss[i] == sigs[i]);
                if path_key(paths[i]) == path_key(paths[n]) {
                    assert(sigs[i] == sigs[n]);
                }
            }
        }
    }
}

/// Seeing a list whose signatures the store already holds changes nothing.
proof fn lemma_record_all_unchanged(
    f: spec_fn(Seq<Seq<char>>) -> Option<u64>,
    paths: Seq<Seq<char>>,
    sigs: Seq<Option<u64>>,
    dir: Seq<char>,
    ext: Seq<char>,
)
    requires
        paths.len() == sigs.len(),
        forall|i: int| 0 <= i < paths.len() && watched(paths[i], dir, ext) ==> f(path_key(#[trigger] paths[i])) == sigs[i],
    ensures
        record_all(f, paths, sigs, dir, ext) == (f, false),
    decreases paths.len(),
{
    if paths.len() > 0 {
        let pp = paths.drop_last();
        let ss = sigs.drop_last();
        assert forall|i: int| 0 <= i < pp.len() && watched(pp[i], dir, ext) implies f(path_key(#[trigger] pp[i])) == ss[i] by {
            assert(paths[i] == pp[i]);
        }
        lemma_record_all_unchanged(f, pp, ss, dir, ext);
        assert(paths.last() == paths[paths.len() - 1]);
    }
}

/// Seeing the same files with the same content a second time reports no
/// change and leaves the store as it was (for a list in which each path
/// has one signature).
pub proof fn lemma_unchanged_content_is_skipped(
    f: spec_fn(Seq<Seq<char>>) -> Option<u64>,
    paths: Seq<Seq<char>>,
    sigs: Seq<Option<u64>>,
    dir: Seq<char>,
    ext: Seq<char>,
)
    requires
        paths.len() == sigs.len(),
        forall|i: int, j: int|
            0 <= i < paths.len() && 0 <= j < paths.len() && path_key(paths[i]) == path_key(paths[j])
                ==> sigs[i] == sigs[j],
    ensures
        ({
            let g = record_all(f, paths, sigs, dir, ext).0;
            record_all(g, paths, sigs, dir, ext) == (g, false)
        }),
{
    lemma_record_all_holds(f, paths, sigs, dir, ext);
    lemma_record_all_unchanged(record_all(f, paths, sigs, dir, ext).0, paths, sigs, dir, ext);
}

/// Seeing one path: a change is reported exactly when the path is watched
/// and its signature differs from the one held, and then the new signature
/// is held; otherwise nothing changes. Applied call after call, this gives
/// the store's answers over any sequence of edits, deletions and unrelated
/// files.
pub proof fn lemma_record_one(
    f: spec_fn(Seq<Seq<char>>) -> Option<u64>,
    p: Seq<char>,
    sig: Option<u64>,
    dir: Seq<char>,
    ext: Seq<char>,
)
    ensures
        record_all(f, seq![p], seq![sig], dir, ext).1 == (watched(p, dir, ext) && f(path_key(p))
            != sig),
        forall|q: Seq<Seq<char>>| #[trigger] (record_all(f, seq![p], seq![sig], dir, ext).0)(q)
            == if q == path_key(p) && watched(p, dir, ext) {
            sig
        } else {
            f(q)
        },
{
    assert(seq![p].drop_last() =~= Seq::<Seq<char>>::empty());
    assert(seq![sig].drop_last() =~= Seq::<Option<u64>>::empty());
    assert(record_all(f, Seq::<Seq<char>>::empty(), Seq::<Option<u64>>::empty(), dir, ext) == (f, false));
    assert(seq![p].last() == p);
    assert(seq![sig][0] == sig);
}

/// A signature that differs from the one held is reported and then held;
/// reporting the same signature again for that path is skipped.
pub proof fn lemma_change_reported_once(
    f: spec_fn(Seq<Seq<char>>) -> Option<u64>,
    p: Seq<char>,
    sig: Option<u64>,
    dir: Seq<char>,
    ext: Seq<char>,
)
    requires
        watched(p, dir, ext),
        f(path_key(p)) != sig,
    ensures
        record_all(f, seq![p], seq![sig], dir, ext).1,
        (record_all(f, seq![p], seq![sig], dir, ext).0)(path_key(p)) == sig,
        !record_all(record_all(f, seq![p], seq![sig], dir, ext).0, seq![p], seq![sig], dir, ext).1,
{
    assert(seq![p].drop_last() =~= Seq::<Seq<char>>::empty());
    assert(seq![sig].drop_last() =~= Seq::<Option<u64>>::empty());
    assert(record_all(f, Seq::<Seq<char>>::empty(), Seq::<Option<u64>>::empty(), dir, ext) == (f, false));
    assert(seq![p].last() == p);
    assert(seq![sig][0] == sig);
    lemma_unchanged_content_is_skipped(f, seq![p], seq![sig], dir, ext);
}

/// The store and the answers after successive calls of
/// `file_signature_changed` that each see the single path `p`, with the
/// signatures `ss` in turn.
pub open spec fn successive_calls(
    f: spec_fn(Seq<Seq<char>>) -> Option<u64>,
    p: Seq<char>,
    ss: Seq<Option<u64>>,
    dir: Seq<char>,
    ext: Seq<char>,
) -> (spec_fn(Seq<Seq<char>>) -> Option<u64>, Seq<bool>)
    decreases ss.len(),
{
    if ss.len() == 0 {
        (f, seq![])
    } else {
        let (g, rs) = successive_calls(f, p, ss.drop_last(), dir, ext);
        let (h, r) = record_all(g, seq![p], seq![ss.last()], dir, ext);
        (h, rs.push(r))
    }
}

/// Over successive calls that each see the path `p`: a call reports a
/// change exactly when `p` is watched and its signature differs from the
/// one the call before saw (from the one held, for the first call). So an
/// edit is reported by the next call, a repeated call over unchanged
/// content reports nothing, and a deletion (signature `None`) is reported
/// once. A path that is not watched is never reported, and what is held
/// for it stays as it was.
pub proof fn lemma_successive_calls(
    f: spec_fn(Seq<Seq<char>>) -> Option<u64>,
    p: Seq<char>,
    ss: Seq<Option<u64>>,
    dir: Seq<char>,
    ext: Seq<char>,
)
    ensures
        successive_calls(f, p, ss, dir, ext).1.len() == ss.len(),
        forall|k: int|
            0 <= k < ss.len() ==> #[trigger] successive_calls(f, p, ss, dir, ext).1[k] == (watched(
                p,
                dir,
                ext,
            ) && ss[k] != if k == 0 {
                f(path_key(p))
            } else {
                ss[k - 1]
            }),
        (successive_calls(f, p, ss, dir, ext).0)(path_key(p)) == if watched(p, dir, ext) && ss.len()
            > 0 {
            ss.last()
        } else {
            f(path_key(p))
        },
    decreases ss.len(),
{
    if ss.len() > 0 {
        let sd = ss.drop_last();
        lemma_successive_calls(f, p, sd, dir, ext);
        let (g, rs) = successive_calls(f, p, sd, dir, ext);
        lemma_record_one(g, p, ss.last(), dir, ext);
        let all = successive_calls(f, p, ss, dir, ext).1;
        assert(all == rs.push(record_all(g, seq![p], seq![ss.last()], dir, ext).1));
        assert forall|k: int| 0 <= k < ss.len() implies #[trigger] all[k] == (watched(p, dir, ext)
            && ss[k] != if k == 0 {
            f(path_key(p))
        } else {
            ss[k - 1]
        }) by {
            if k < sd.len() {
                assert(all[k] == rs[k]);
                assert(sd[k] == ss[k]);
                if k > 0 {
                    assert(sd[k - 1] == ss[k - 1]);
                }
            } else {
                assert(ss.last() == ss[k]);
                if k > 0 {
                    assert(sd.last() == ss[k - 1]);
                }
            }
        }
    }
}

} // verus!
