//! Recent files/projects list with a cap.
//!
//! A most-recently-used list: adding a path moves it to the front, paths
//! that name the same file-system path are kept once, and the list holds at
//! most `max_entries` paths.

use vstd::prelude::*;

verus! {

/// Whether two path strings name the same path under `std::path::Path`
/// equality (component-wise: repeated separators and a trailing separator
/// do not matter).
pub uninterp spec fn same_path(a: Seq<char>, b: Seq<char>) -> bool;

/// `a` and `b` name the same path, whichever way round they are compared.
pub open spec fn paths_match(a: Seq<char>, b: Seq<char>) -> bool {
    same_path(a, b) || same_path(b, a)
}

/// A path written plainly: absolute, its components separated by single
/// `/` with no trailing one, with no `.` component and no backslash. Such a
/// string is the only spelling of its components.
pub open spec fn plain_path(s: Seq<char>) -> bool {
    &&& s.len() >= 2
    &&& s[0] == '/'
    &&& s[s.len() - 1] != '/'
    &&& forall|i: int| 0 <= i < s.len() ==> #[trigger] s[i] != '\\'
    &&& forall|i: int| 0 <= i < s.len() - 1 && #[trigger] s[i] == '/' ==> s[i + 1] != '/'
    &&& forall|i: int|
        1 <= i < s.len() && #[trigger] s[i] == '.' && s[i - 1] == '/' ==> i + 1 < s.len() && s[i + 1] != '/'
}

/// `Path::new(a) == Path::new(b)`. The result is the `same_path` of the two
/// strings; since `Path` equality is an equivalence, it is the same either
/// way round and holds of equal strings. `Path` equality compares
/// components, so two plainly written paths are the same exactly when they
/// are the same string. What else makes two different strings name the same
/// path is left to `std`.
#[verifier::external_body]
fn paths_equal(a: &str, b: &str) -> (r: bool)
    ensures
        r == same_path(a@, b@),
        r == same_path(b@, a@),
        a@ == b@ ==> r,
        plain_path(a@) && plain_path(b@) ==> (r <==> a@ == b@),
{
    std::path::Path::new(a) == std::path::Path::new(b)
}

/// Each plainly written entry of `entries`, compared with a plainly
/// written `path`, is the same path exactly when it is the same string.
pub open spec fn plain_paths_compare_as_strings(entries: Seq<Seq<char>>, path: Seq<char>) -> bool {
    forall|i: int|
        0 <= i < entries.len() && plain_path(#[trigger] entries[i]) && plain_path(path) ==> (paths_match(
            entries[i],
            path,
        ) <==> entries[i] == path)
}

/// `entries` without the paths that are the same as `path`, in order.
pub open spec fn without_path(entries: Seq<Seq<char>>, path: Seq<char>) -> Seq<Seq<char>> {
    entries.filter(|e: Seq<char>| !paths_match(e, path))
}

/// The list after adding `path` to `entries` under a cap of `max_entries`:
/// `path` first, then the entries that are not the same path, cut to the cap.
pub open spec fn with_path_added(entries: Seq<Seq<char>>, path: Seq<char>, max_entries: usize) -> Seq<Seq<char>> {
    let full = seq![path] + without_path(entries, path);
    if full.len() > max_entries {
        full.take(max_entries as int)
    } else {
        full
    }
}

/// `entries` keeping the `i`-th exactly when `keep[i]`, in order.
pub open spec fn keep_flagged(entries: Seq<Seq<char>>, keep: Seq<bool>) -> Seq<Seq<char>>
    decreases entries.len(),
{
    if entries.len() == 0 || keep.len() != entries.len() {
        Seq::empty()
    } else {
        let rest = keep_flagged(entries.drop_last(), keep.drop_last());
        if keep.last() {
            rest.push(entries.last())
        } else {
            rest
        }
    }
}

/// Default maximum recent entries.
pub const DEFAULT_MAX_RECENT: usize = 10;

/// A capped, most-recently-used file list.
///
/// Adding a path moves it to the front (most recent). Paths that are the
/// same path are kept once. The list is capped at `max_entries`.
#[derive(Debug, Clone, PartialEq, Eq)]
pub struct RecentFiles {
    entries: Vec<String>,
    max_entries: usize,
}

impl RecentFiles {
    /// The entries, most recent first.
    pub closed spec fn spec_entries(&self) -> Seq<Seq<char>> {
        self.entries@.map_values(|s: String| s@)
    }

    /// The cap on the number of entries.
    pub closed spec fn spec_max_entries(&self) -> usize {
        self.max_entries
    }

    /// The list respects its cap and holds no two entries that are the same path.
    pub open spec fn wf(&self) -> bool {
        let e = self.spec_entries();
        &&& e.len() <= self.spec_max_entries()
        &&& forall|i: int, j: int| 0 <= i < j < e.len() ==> !paths_match(#[trigger] e[i], #[trigger] e[j])
    }

    /// Create an empty recent files list with the default max (10).
    pub fn new() -> (r: Self)
        ensures
            r.wf(),
            r.spec_entries() == Seq::<Seq<char>>::empty(),
            r.spec_max_entries() == DEFAULT_MAX_RECENT,
    {
        let r = RecentFiles { entries: Vec::new(), max_entries: DEFAULT_MAX_RECENT };
        assert(r.spec_entries() =~= Seq::<Seq<char>>::empty());
        r
    }

    /// Create an empty recent files list with a custom max.
    pub fn with_max(max_entries: usize) -> (r: Self)
        ensures
            r.wf(),
            r.spec_entries() == Seq::<Seq<char>>::empty(),
            r.spec_max_entries() == max_entries,
    {
        let r = RecentFiles { entries: Vec::new(), max_entries };
        assert(r.spec_entries() =~= Seq::<Seq<char>>::empty());
        r
    }

    /// The entries that are not the same path as `path`, in order.
    fn others(&self, path: &str) -> (v: Vec<String>)
        ensures
            v@.map_values(|s: String| s@) == without_path(self.spec_entries(), path@),
            plain_paths_compare_as_strings(self.spec_entries(), path@),
    {
        let ghost pred = |e: Seq<char>| !paths_match(e, path@);
        let ghost all = self.spec_entries();
        let mut v: Vec<String> = Vec::new();
        let n = self.entries.len();
        let mut i: usize = 0;
        while i < n
            invariant
                i <= n,
                n == self.entries@.len(),
                all == self.spec_entries(),
                pred == (|e: Seq<char>| !paths_match(e, path@)),
                v@.map_values(|s: String| s@) == all.take(i as int).filter(pred),
                plain_paths_compare_as_strings(all.take(i as int), path@),
            decreases n - i,
        {
            let ghost v0 = v@.map_values(|s: String| s@);
            let same = paths_equal(self.entries[i].as_str(), path);
            assert(all[i as int] == self.entries@[i as int]@);
            if !same {
                v.push(self.entries[i].clone());
                assert(v@.map_values(|s: String| s@) =~= v0.push(all[i as int]));
            } else {
                assert(v@.map_values(|s: String| s@) =~= v0);
            }
            proof {
                assert forall|m: int|
                    0 <= m < i + 1 && plain_path(#[trigger] all.take(i + 1)[m]) && plain_path(path@) implies (paths_match(
                    all.take(i + 1)[m],
                    path@,
                ) <==> all.take(i + 1)[m] == path@) by {
                    if m < i {
                        assert(all.take(i + 1)[m] == all.take(i as int)[m]);
                    }
                }
                reveal_with_fuel(Seq::filter, 1);
                let t = all.take(i + 1);
                assert(t.drop_last() =~= all.take(i as int));
                assert(t.last() == all[i as int]);
                assert(t.filter(pred) == if pred(t.last()) {
                    t.drop_last().filter(pred).push(t.last())
                } else {
                    t.drop_last().filter(pred)
                });
            }
            i = i + 1;
        }
        assert(all.take(n as int) =~= all);
        v
    }

    /// Filtering out one path keeps entries pairwise different paths and
    /// leaves none that is the same as the removed path.
    proof fn lemma_without_path(e: Seq<Seq<char>>, path: Seq<char>)
        requires
            forall|i: int, j: int| 0 <= i < j < e.len() ==> !paths_match(#[trigger] e[i], #[trigger] e[j]),
        ensures
            without_path(e, path).len() <= e.len(),
            forall|i: int, j: int|
                0 <= i < j < without_path(e, path).len() ==> !paths_match(
                    #[trigger] without_path(e, path)[i],
                    #[trigger] without_path(e, path)[j],
                ),
            forall|i: int| 0 <= i < without_path(e, path).len() ==> !paths_match(#[trigger] without_path(e, path)[i], path),
    {
        let pred = |x: Seq<char>| !paths_match(x, path);
        let f = lemma_filter_index_map(e, pred);
        let w = without_path(e, path);
        assert forall|i: int, j: int| 0 <= i < j < w.len() implies !paths_match(#[trigger] w[i], #[trigger] w[j]) by {
            assert(w[i] == e[f[i]]);
            assert(w[j] == e[f[j]]);
        }
        assert forall|i: int| 0 <= i < w.len() implies !paths_match(#[trigger] w[i], path) by {
            assert(w[i] == e[f[i]]);
            assert(pred(w[i]));
        }
    }

    /// Add a path to the front of the list.
    ///
    /// An entry that is the same path moves to the front (as `path`); when
    /// the list exceeds its cap, the oldest entries are dropped.
    pub fn add(&mut self, path: &str)
        requires
            old(self).wf(),
        ensures
            final(self).wf(),
            final(self).spec_max_entries() == old(self).spec_max_entries(),
            final(self).spec_entries() == with_path_added(
                old(self).spec_entries(),
                path@,
                old(self).spec_max_entries(),
            ),
            plain_paths_compare_as_strings(old(self).spec_entries(), path@),
    {
        let ghost rest = without_path(self.spec_entries(), path@);
        proof {
            Self::lemma_without_path(self.spec_entries(), path@);
        }
        let others = self.others(path);
        let mut next: Vec<String> = Vec::new();
        let max = self.max_entries;
        if max > 0 {
            next.push(path.to_owned());
        }
        let n = others.len();
        let mut i: usize = 0;
        while i < n && next.len() < max
            invariant
                i <= n,
                n == others@.len(),
                max == self.max_entries,
                others@.map_values(|s: String| s@) == rest,
                next@.len() <= max,
                max > 0 ==> next@.len() == i + 1,
                max == 0 ==> next@.len() == 0,
                next@.map_values(|s: String| s@) == (seq![path@] + rest).take(next@.len() as int),
            decreases n - i,
        {
            let ghost before = next@.map_values(|s: String| s@);
            next.push(others[i].clone());
            assert(next@.map_values(|s: String| s@) =~= (seq![path@] + rest).take(next@.len() as int)) by {
                assert(before =~= (seq![path@] + rest).take(next@.len() - 1));
                assert((seq![path@] + rest)[next@.len() - 1] == rest[i as int]);
            }
            i = i + 1;
        }
        self.entries = next;
        proof {
            let e = self.spec_entries();
            let full = seq![path@] + rest;
            assert(e =~= with_path_added(old(self).spec_entries(), path@, max)) by {
                if full.len() <= max {
                    assert(full.take(full.len() as int) =~= full);
                }
            }
            assert forall|a: int, b: int| 0 <= a < b < e.len() implies !paths_match(#[trigger] e[a], #[trigger] e[b]) by {
                assert(e[a] == full[a]);
                assert(e[b] == full[b]);
                if a == 0 {
                    assert(full[b] == rest[b - 1]);
                    assert(!paths_match(rest[b - 1], path@));
                    assert(full[a] == path@);
                } else {
                    assert(full[a] == rest[a - 1]);
                    assert(full[b] == rest[b - 1]);
                }
            }
        }
    }

    /// Remove every entry that is the same path as `path`.
    pub fn remove(&mut self, path: &str)
        requires
            old(self).wf(),
        ensures
            final(self).wf(),
            final(self).spec_max_entries() == old(self).spec_max_entries(),
            final(self).spec_entries() == without_path(old(self).spec_entries(), path@),
            plain_paths_compare_as_strings(old(self).spec_entries(), path@),
    {
        proof {
            Self::lemma_without_path(self.spec_entries(), path@);
        }
        self.entries = self.others(path);
    }

    /// Remove the entries whose paths no longer exist: `exists[i]` tells
    /// whether the `i`-th entry's path is still on disk. The entries that
    /// exist stay, in order.
    pub fn prune_missing(&mut self, exists: &[bool])
        requires
            old(self).wf(),
            exists@.len() == old(self).spec_entries().len(),
        ensures
            final(self).wf(),
            final(self).spec_max_entries() == old(self).spec_max_entries(),
            final(self).spec_entries() == keep_flagged(old(self).spec_entries(), exists@),
    {
        let ghost all = self.spec_entries();
        let mut v: Vec<String> = Vec::new();
        let n = self.entries.len();
        let mut i: usize = 0;
        while i < n
            invariant
                i <= n,
                n == self.entries@.len(),
                n == exists@.len(),
                all == self.spec_entries(),
                v@.map_values(|s: String| s@) == keep_flagged(all.take(i as int), exists@.take(i as int)),
            decreases n - i,
        {
            let ghost v0 = v@;
            assert(all[i as int] == self.entries@[i as int]@);
            if exists[i] {
                v.push(self.entries[i].clone());
                assert(v@.map_values(|s: String| s@) =~= v0.map_values(|s: String| s@).push(all[i as int]));
            }
            proof {
                assert(all.take(i + 1).drop_last() =~= all.take(i as int));
                assert(exists@.take(i + 1).drop_last() =~= exists@.take(i as int));
                assert(all.take(i + 1).last() == all[i as int]);
                assert(exists@.take(i + 1).last() == exists@[i as int]);
            }
            i = i + 1;
        }
        assert(all.take(n as int) =~= all);
        assert(exists@.take(n as int) =~= exists@);
        self.entries = v;
        proof {
            let e = self.spec_entries();
            let f = lemma_keep_flagged_index_map(all, exists@);
            assert forall|a: int, b: int| 0 <= a < b < e.len() implies !paths_match(#[trigger] e[a], #[trigger] e[b]) by {
                assert(e[a] == all[f[a]]);
                assert(e[b] == all[f[b]]);
            }
        }
    }

    /// All entries, most recent first.
    pub fn entries(&self) -> (s: &[String])
        ensures
            s@.map_values(|x: String| x@) == self.spec_entries(),
    {
        self.entries.as_slice()
    }

    /// The most recent path, if any.
    pub fn most_recent(&self) -> (r: Option<&str>)
        ensures
            match r {
                Some(p) => self.spec_entries().len() > 0 && p@ == self.spec_entries()[0],
                None => self.spec_entries().len() == 0,
            },
    {
        if self.entries.len() == 0 {
            None
        } else {
            Some(self.entries[0].as_str())
        }
    }

    /// Number of entries.
    pub fn len(&self) -> (n: usize)
        ensures
            n == self.spec_entries().len(),
    {
        self.entries.len()
    }

    /// Whether the list is empty.
    pub fn is_empty(&self) -> (b: bool)
        ensures
            b == (self.spec_entries().len() == 0),
    {
        self.entries.len() == 0
    }

    /// Maximum number of entries.
    pub fn max_entries(&self) -> (n: usize)
        ensures
            n == self.spec_max_entries(),
    {
        self.max_entries
    }

    /// Clear all entries.
    pub fn clear(&mut self)
        ensures
            final(self).wf(),
            final(self).spec_entries() == Seq::<Seq<char>>::empty(),
            final(self).spec_max_entries() == old(self).spec_max_entries(),
    {
        self.entries.clear();
        assert(self.spec_entries() =~= Seq::<Seq<char>>::empty());
    }
}

impl Default for RecentFiles {
    fn default() -> (r: Self)
        ensures
            r.wf(),
            r.spec_entries() == Seq::<Seq<char>>::empty(),
            r.spec_max_entries() == DEFAULT_MAX_RECENT,
    {
        Self::new()
    }
}

/// The kept entries are entries at increasing positions: `f[k]` is where
/// the `k`-th kept entry sits in `entries`.
pub proof fn lemma_keep_flagged_index_map(entries: Seq<Seq<char>>, keep: Seq<bool>) -> (f: Seq<int>)
    ensures
        f.len() == keep_flagged(entries, keep).len(),
        keep_flagged(entries, keep).len() <= entries.len(),
        forall|k: int|
            0 <= k < f.len() ==> 0 <= #[trigger] f[k] < entries.len() && keep_flagged(entries, keep)[k]
                == entries[f[k]],
        forall|a: int, b: int| 0 <= a < b < f.len() ==> #[trigger] f[a] < #[trigger] f[b],
    decreases entries.len(),
{
    if entries.len() == 0 || keep.len() != entries.len() {
        Seq::empty()
    } else {
        let f0 = lemma_keep_flagged_index_map(entries.drop_last(), keep.drop_last());
        if keep.last() {
            let f = f0.push(entries.len() - 1);
            assert forall|k: int| 0 <= k < f.len() implies 0 <= #[trigger] f[k] < entries.len()
                && keep_flagged(entries, keep)[k] == entries[f[k]] by {
                if k < f0.len() {
                    assert(f[k] == f0[k]);
                }
            }
            f
        } else {
            f0
        }
    }
}

/// The elements `s.filter(pred)` keeps are elements of `s` at increasing
/// positions: `f[k]` is where the `k`-th kept element sits in `s`.
pub proof fn lemma_filter_index_map<A>(s: Seq<A>, pred: spec_fn(A) -> bool) -> (f: Seq<int>)
    ensures
        f.len() == s.filter(pred).len(),
        s.filter(pred).len() <= s.len(),
        forall|k: int| 0 <= k < f.len() ==> 0 <= #[trigger] f[k] < s.len() && s.filter(pred)[k] == s[f[k]],
        forall|a: int, b: int| 0 <= a < b < f.len() ==> #[trigger] f[a] < #[trigger] f[b],
    decreases s.len(),
{
    reveal_with_fuel(Seq::filter, 1);
    if s.len() == 0 {
        Seq::empty()
    } else {
        let init = s.drop_last();
        let f0 = lemma_filter_index_map(init, pred);
        assert(s.filter(pred) == if pred(s.last()) { init.filter(pred).push(s.last()) } else { init.filter(pred) });
        if pred(s.last()) {
            let f = f0.push(s.len() - 1);
            assert forall|k: int| 0 <= k < f.len() implies 0 <= #[trigger] f[k] < s.len() && s.filter(pred)[k] == s[f[k]] by {
                if k < f0.len() {
                    assert(f[k] == f0[k]);
                    assert(s.filter(pred)[k] == init.filter(pred)[k]);
                }
            }
            f
        } else {
            f0
        }
    }
}

/// For plainly written paths, "the same path" is "the same string":
/// taking a path out of a list of plainly written entries takes out exactly
/// the entries equal to it.
pub proof fn lemma_plain_without_path(entries: Seq<Seq<char>>, path: Seq<char>)
    requires
        plain_path(path),
        forall|i: int| 0 <= i < entries.len() ==> plain_path(#[trigger] entries[i]),
        plain_paths_compare_as_strings(entries, path),
    ensures
        without_path(entries, path) == entries.filter(|e: Seq<char>| e != path),
    decreases entries.len(),
{
    reveal_with_fuel(Seq::filter, 1);
    if entries.len() > 0 {
        let init = entries.drop_last();
        assert forall|i: int| 0 <= i < init.len() implies plain_path(#[trigger] init[i]) by {
            assert(init[i] == entries[i]);
        }
        assert forall|i: int|
            0 <= i < init.len() && plain_path(#[trigger] init[i]) && plain_path(path) implies (paths_match(init[i], path)
            <==> init[i] == path) by {
            assert(init[i] == entries[i]);
        }
        lemma_plain_without_path(init, path);
        let last_index = entries.len() - 1;
        assert(entries[last_index] == entries.last());
        assert(plain_path(entries[last_index]));
        assert(paths_match(entries.last(), path) <==> entries.last() == path);
    } else {
        assert(without_path(entries, path) =~= Seq::<Seq<char>>::empty());
        assert(entries.filter(|e: Seq<char>| e != path) =~= Seq::<Seq<char>>::empty());
    }
}

/// After adding a path to a list with room for at least one entry, that
/// path is the most recent entry, and it occurs only once.
pub proof fn lemma_added_path_is_most_recent(r0: RecentFiles, r1: RecentFiles, path: Seq<char>)
    requires
        r0.wf(),
        r0.spec_max_entries() > 0,
        r1.spec_entries() == with_path_added(r0.spec_entries(), path, r0.spec_max_entries()),
    ensures
        r1.spec_entries().len() > 0,
        r1.spec_entries()[0] == path,
        forall|i: int| 1 <= i < r1.spec_entries().len() ==> !paths_match(#[trigger] r1.spec_entries()[i], path),
{
    RecentFiles::lemma_without_path(r0.spec_entries(), path);
    let rest = without_path(r0.spec_entries(), path);
    assert forall|i: int| 1 <= i < r1.spec_entries().len() implies !paths_match(#[trigger] r1.spec_entries()[i], path) by {
        assert(r1.spec_entries()[i] == rest[i - 1]);
    }
}

/// Re-adding a path that is already listed does not grow the list.
pub proof fn lemma_readd_does_not_grow(r0: RecentFiles, path: Seq<char>, i: int)
    requires
        r0.wf(),
        0 <= i < r0.spec_entries().len(),
        paths_match(r0.spec_entries()[i], path),
    ensures
        1 + without_path(r0.spec_entries(), path).len() <= r0.spec_entries().len(),
{
    lemma_without_path_drops(r0.spec_entries(), path, i);
}

/// Filtering out a path that occurs at `i` leaves a strictly shorter list.
proof fn lemma_without_path_drops(e: Seq<Seq<char>>, path: Seq<char>, i: int)
    requires
        0 <= i < e.len(),
        paths_match(e[i], path),
    ensures
        without_path(e, path).len() < e.len(),
    decreases e.len(),
{
    reveal_with_fuel(Seq::filter, 1);
    let pred = |x: Seq<char>| !paths_match(x, path);
    let init = e.drop_last();
    assert(e.filter(pred) == if pred(e.last()) { init.filter(pred).push(e.last()) } else { init.filter(pred) });
    lemma_filter_index_map(init, pred);
    if i < e.len() - 1 {
        assert(init[i] == e[i]);
        lemma_without_path_drops(init, path, i);
    }
}

} // verus!
