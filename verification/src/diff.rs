//! What a step changed: the environment it exported and the files it touched.
//!
//! A wholly new directory is reported as one entry with a count, so installing
//! packages shows `node_modules/` once rather than every file in it.

use crate::order::lemma_ascending_alike;
use crate::relpath::{
    is_above, law_names_before_is_total, law_names_before_is_transitive, lemma_above_before,
    lemma_between, names_before, path_before, path_eq, path_take, Names,
};
use crate::scan::{join, joined};
use crate::strmap::{map_entries, map_entry, map_get, map_len, map_size, StrMap};
use crate::table::{distinct, lemma_slot, lemma_slot_at, lookup, slot};
use crate::text::{clone_strings, has_text, pairs, str_eq, texts, Text};
use vstd::prelude::*;

verus! {

// ---------------------------------------------------------------------------
// Environment
// ---------------------------------------------------------------------------

/// What a step changed about the environment carried into later steps.
#[derive(Debug, PartialEq)]
pub struct EnvDiff {
    /// Newly defined variables: key and value.
    pub added: Vec<(String, String)>,
    /// Redefined variables: key, old and new value.
    pub changed: Vec<(String, String, String)>,
    /// Removed variables.
    pub removed: Vec<String>,
    /// Directories put in front of `PATH`.
    pub path_added: Vec<String>,
}

/// [`EnvDiff`] over views.
#[verifier::ext_equal]
pub struct EnvDiffView {
    /// Newly defined variables.
    pub added: Seq<(Text, Text)>,
    /// Redefined variables.
    pub changed: Seq<(Text, Text, Text)>,
    /// Removed variables.
    pub removed: Seq<Text>,
    /// Directories put in front of `PATH`.
    pub path_added: Seq<Text>,
}

/// Triples over views.
pub open spec fn triples(v: Seq<(String, String, String)>) -> Seq<(Text, Text, Text)> {
    v.map_values(|t: (String, String, String)| (t.0@, t.1@, t.2@))
}

impl View for EnvDiff {
    type V = EnvDiffView;

    open spec fn view(&self) -> EnvDiffView {
        EnvDiffView {
            added: pairs(self.added@),
            changed: triples(self.changed@),
            removed: texts(self.removed@),
            path_added: texts(self.path_added@),
        }
    }
}

impl EnvDiffView {
    /// Nothing changed.
    pub open spec fn is_empty(self) -> bool {
        self.added.len() == 0 && self.changed.len() == 0 && self.removed.len() == 0
            && self.path_added.len() == 0
    }
}

impl Default for EnvDiff {
    /// No change.
    fn default() -> (r: EnvDiff)
        ensures
            r@.is_empty(),
    {
        EnvDiff {
            added: Vec::new(),
            changed: Vec::new(),
            removed: Vec::new(),
            path_added: Vec::new(),
        }
    }
}

impl EnvDiff {
    /// Whether nothing changed.
    pub fn is_empty(&self) -> (r: bool)
        ensures
            r == self@.is_empty(),
    {
        self.added.len() == 0 && self.changed.len() == 0 && self.removed.len() == 0
            && self.path_added.len() == 0
    }
}

/// The pairs of `after` whose key `before` does not have.
pub open spec fn added_pairs(before: Seq<(Text, Text)>, after: Seq<(Text, Text)>) -> Seq<
    (Text, Text),
>
    decreases after.len(),
{
    if after.len() == 0 {
        Seq::empty()
    } else {
        let rest = added_pairs(before, after.drop_last());
        match lookup(before, after.last().0) {
            None => rest.push(after.last()),
            Some(_) => rest,
        }
    }
}

/// The pairs of `after` whose key `before` has with another value.
pub open spec fn changed_pairs(before: Seq<(Text, Text)>, after: Seq<(Text, Text)>) -> Seq<
    (Text, Text, Text),
>
    decreases after.len(),
{
    if after.len() == 0 {
        Seq::empty()
    } else {
        let rest = changed_pairs(before, after.drop_last());
        match lookup(before, after.last().0) {
            Some(old) => if old != after.last().1 {
                rest.push((after.last().0, old, after.last().1))
            } else {
                rest
            },
            None => rest,
        }
    }
}

/// The keys of `before` that `after` does not have.
pub open spec fn removed_keys(before: Seq<(Text, Text)>, after: Seq<(Text, Text)>) -> Seq<Text>
    decreases before.len(),
{
    if before.len() == 0 {
        Seq::empty()
    } else {
        let rest = removed_keys(before.drop_last(), after);
        match lookup(after, before.last().0) {
            None => rest.push(before.last().0),
            Some(_) => rest,
        }
    }
}

/// The texts of `after` that `before` does not hold.
pub open spec fn new_texts(before: Seq<Text>, after: Seq<Text>) -> Seq<Text>
    decreases after.len(),
{
    if after.len() == 0 {
        Seq::empty()
    } else {
        let rest = new_texts(before, after.drop_last());
        if before.contains(after.last()) {
            rest
        } else {
            rest.push(after.last())
        }
    }
}

/// What changed between two environments and two lists of `PATH` additions.
pub open spec fn env_change(
    before: Seq<(Text, Text)>,
    after: Seq<(Text, Text)>,
    path_before: Seq<Text>,
    path_after: Seq<Text>,
) -> EnvDiffView {
    EnvDiffView {
        added: added_pairs(before, after),
        changed: changed_pairs(before, after),
        removed: removed_keys(before, after),
        path_added: new_texts(path_before, path_after),
    }
}

/// The keys of `before` that `after` does not have.
fn missing_keys(before: &StrMap, after: &StrMap) -> (r: Vec<String>)
    ensures
        texts(r@) == removed_keys(map_entries(*before), map_entries(*after)),
{
    let ghost all = map_entries(*before);
    let n = map_len(before);
    let mut out: Vec<String> = Vec::new();
    let mut i: usize = 0;
    assert(all.take(0) =~= Seq::empty());
    assert(texts(out@) =~= Seq::empty());
    while i < n
        invariant
            i <= n,
            n == all.len(),
            all == map_entries(*before),
            texts(out@) == removed_keys(all.take(i as int), map_entries(*after)),
        decreases n - i,
    {
        assert(all.take(i + 1).drop_last() =~= all.take(i as int));
        let (k, _v) = map_entry(before, i);
        if map_get(after, k.as_str()).is_none() {
            let ghost done = texts(out@);
            out.push(k);
            assert(texts(out@) =~= done.push(k@));
        }
        i += 1;
    }
    assert(all.take(n as int) =~= all);
    out
}

/// The texts of `after` that `before` does not hold.
pub fn only_new(before: &Vec<String>, after: &Vec<String>) -> (r: Vec<String>)
    ensures
        texts(r@) == new_texts(texts(before@), texts(after@)),
{
    let ghost all = texts(after@);
    let mut out: Vec<String> = Vec::new();
    let mut i: usize = 0;
    assert(all.take(0) =~= Seq::empty());
    assert(texts(out@) =~= Seq::empty());
    while i < after.len()
        invariant
            i <= after@.len(),
            all == texts(after@),
            texts(out@) == new_texts(texts(before@), all.take(i as int)),
        decreases after@.len() - i,
    {
        assert(all.take(i + 1).drop_last() =~= all.take(i as int));
        assert(all.take(i + 1).last() == after@[i as int]@);
        if !has_text(before, after[i].as_str()) {
            let ghost done = texts(out@);
            let s = after[i].clone();
            out.push(s);
            assert(texts(out@) =~= done.push(s@));
        }
        i += 1;
    }
    assert(all.take(after@.len() as int) =~= all);
    out
}

/// Diff the environment and the `PATH` additions between two step boundaries.
pub fn env_diff(
    before: &StrMap,
    after: &StrMap,
    path_before: &Vec<String>,
    path_after: &Vec<String>,
) -> (r: EnvDiff)
    ensures
        r@ == env_change(
            map_entries(*before),
            map_entries(*after),
            texts(path_before@),
            texts(path_after@),
        ),
        distinct(map_entries(*before)),
        distinct(map_entries(*after)),
{
    let _ = map_size(before);
    let ghost old = map_entries(*before);
    let ghost all = map_entries(*after);
    let n = map_size(after);
    let mut added: Vec<(String, String)> = Vec::new();
    let mut changed: Vec<(String, String, String)> = Vec::new();
    let mut i: usize = 0;
    assert(all.take(0) =~= Seq::empty());
    assert(pairs(added@) =~= Seq::empty());
    assert(triples(changed@) =~= Seq::empty());
    while i < n
        invariant
            i <= n,
            n == all.len(),
            all == map_entries(*after),
            old == map_entries(*before),
            pairs(added@) == added_pairs(old, all.take(i as int)),
            triples(changed@) == changed_pairs(old, all.take(i as int)),
        decreases n - i,
    {
        assert(all.take(i + 1).drop_last() =~= all.take(i as int));
        let (k, v) = map_entry(after, i);
        assert(all.take(i + 1).last() == (k@, v@));
        match map_get(before, k.as_str()) {
            None => {
                let ghost done = pairs(added@);
                added.push((k, v));
                assert(pairs(added@) =~= done.push((k@, v@)));
            },
            Some(o) => {
                if !str_eq(o.as_str(), v.as_str()) {
                    let ghost done = triples(changed@);
                    changed.push((k, o, v));
                    assert(triples(changed@) =~= done.push((k@, o@, v@)));
                }
            },
        }
        i += 1;
    }
    assert(all.take(n as int) =~= all);
    EnvDiff {
        added,
        changed,
        removed: missing_keys(before, after),
        path_added: only_new(path_before, path_after),
    }
}

// ---------------------------------------------------------------------------
// Snapshots
// ---------------------------------------------------------------------------

/// By what a change of a file is noticed: its size and the time of its last
/// change, in nanoseconds.
#[derive(Debug, Clone, Copy, PartialEq, Eq)]
pub struct FileSig {
    /// The size in bytes.
    pub size: u64,
    /// When the file was last changed, where that is known.
    pub mtime: Option<i128>,
}

/// Whether two signatures are the same.
fn same_sig(a: &FileSig, b: &FileSig) -> (r: bool)
    ensures
        r == (*a == *b),
{
    if a.size != b.size {
        return false;
    }
    match (a.mtime, b.mtime) {
        (Some(x), Some(y)) => x == y,
        (None, None) => true,
        _ => false,
    }
}

/// A snapshot of a workspace's files by their paths in the workspace, in order.
#[derive(Debug)]
pub struct FsSnapshot {
    files: Vec<(Vec<String>, FileSig)>,
    truncated: bool,
}

/// Files over views.
pub open spec fn file_entries(v: Seq<(Vec<String>, FileSig)>) -> Seq<(Names, FileSig)> {
    v.map_values(|e: (Vec<String>, FileSig)| (texts(e.0@), e.1))
}

/// The paths of files are in order, and none occurs twice.
pub open spec fn ascending(f: Seq<(Names, FileSig)>) -> bool {
    forall|i: int, j: int|
        0 <= i < j < f.len() ==> names_before((#[trigger] f[i]).0, (#[trigger] f[j]).0)
}

/// A file put where its path belongs; a path that is there takes the new
/// signature.
pub open spec fn with_file(f: Seq<(Names, FileSig)>, p: Names, sig: FileSig) -> Seq<
    (Names, FileSig),
>
    decreases f.len(),
{
    if f.len() == 0 {
        seq![(p, sig)]
    } else if f.last().0 == p {
        f.drop_last().push((p, sig))
    } else if names_before(f.last().0, p) {
        f.push((p, sig))
    } else {
        with_file(f.drop_last(), p, sig).push(f.last())
    }
}

/// The signature of a path.
pub open spec fn sig_of(f: Seq<(Names, FileSig)>, p: Names) -> Option<FileSig>
    decreases f.len(),
{
    if f.len() == 0 {
        None
    } else if f.last().0 == p {
        Some(f.last().1)
    } else {
        sig_of(f.drop_last(), p)
    }
}

/// Putting a file keeps the order, and its paths are those there were and its
/// own.
proof fn lemma_with_file(f: Seq<(Names, FileSig)>, p: Names, sig: FileSig)
    requires
        ascending(f),
    ensures
        ascending(with_file(f, p, sig)),
        forall|i: int|
            0 <= i < with_file(f, p, sig).len() ==> (#[trigger] with_file(f, p, sig)[i]).0 == p || (
            exists|j: int| 0 <= j < f.len() && (#[trigger] f[j]).0 == with_file(f, p, sig)[i].0),
    decreases f.len(),
{
    if f.len() > 0 {
        let last = f.last();
        let init = f.drop_last();
        let w = with_file(f, p, sig);
        assert forall|i: int, j: int| 0 <= i < j < init.len() implies names_before(
            (#[trigger] init[i]).0,
            (#[trigger] init[j]).0,
        ) by {
            assert(init[i] == f[i] && init[j] == f[j]);
        }
        law_names_before_is_total(last.0, p);
        if last.0 == p {
            assert forall|i: int, j: int| 0 <= i < j < w.len() implies names_before(
                (#[trigger] w[i]).0,
                (#[trigger] w[j]).0,
            ) by {
                assert(names_before(f[i].0, f[j].0));
            }
            assert forall|i: int| 0 <= i < w.len() implies (#[trigger] w[i]).0 == p || (
            exists|j: int| 0 <= j < f.len() && (#[trigger] f[j]).0 == w[i].0) by {
                assert(f[i].0 == w[i].0);
            }
        } else if names_before(last.0, p) {
            assert forall|i: int, j: int| 0 <= i < j < w.len() implies names_before(
                (#[trigger] w[i]).0,
                (#[trigger] w[j]).0,
            ) by {
                if j == f.len() {
                    if i < f.len() - 1 {
                        assert(names_before(f[i].0, f[f.len() - 1].0));
                        law_names_before_is_transitive(f[i].0, last.0, p);
                    }
                } else {
                    assert(names_before(f[i].0, f[j].0));
                }
            }
            assert forall|i: int| 0 <= i < w.len() implies (#[trigger] w[i]).0 == p || (
            exists|j: int| 0 <= j < f.len() && (#[trigger] f[j]).0 == w[i].0) by {
                if i < f.len() {
                    assert(f[i].0 == w[i].0);
                }
            }
        } else {
            lemma_with_file(init, p, sig);
            let v = with_file(init, p, sig);
            assert forall|i: int, j: int| 0 <= i < j < w.len() implies names_before(
                (#[trigger] w[i]).0,
                (#[trigger] w[j]).0,
            ) by {
                if j == v.len() {
                    assert(w[i] == v[i]);
                    if v[i].0 != p {
                        let k = choose|k: int|
                            0 <= k < init.len() && (#[trigger] init[k]).0 == v[i].0;
                        assert(init[k] == f[k]);
                        assert(names_before(f[k].0, f[f.len() - 1].0));
                    }
                } else {
                    assert(w[i] == v[i] && w[j] == v[j]);
                }
            }
            assert forall|i: int| 0 <= i < w.len() implies (#[trigger] w[i]).0 == p || (
            exists|j: int| 0 <= j < f.len() && (#[trigger] f[j]).0 == w[i].0) by {
                if i < v.len() {
                    assert(w[i] == v[i]);
                    if v[i].0 != p {
                        let k = choose|k: int|
                            0 <= k < init.len() && (#[trigger] init[k]).0 == v[i].0;
                        assert(init[k] == f[k]);
                    }
                } else {
                    assert(f[f.len() - 1].0 == w[i].0);
                }
            }
        }
    }
}

impl FsSnapshot {
    /// The files, by path.
    pub closed spec fn files(&self) -> Seq<(Names, FileSig)> {
        file_entries(self.files@)
    }

    /// Whether a walk stopped at the cap.
    pub closed spec fn cut_short(&self) -> bool {
        self.truncated
    }

    /// The files are in order.
    #[verifier::type_invariant]
    spec fn in_order(self) -> bool {
        ascending(file_entries(self.files@))
    }

    /// No files.
    pub fn new() -> (r: FsSnapshot)
        ensures
            r.files() == Seq::<(Names, FileSig)>::empty(),
            !r.cut_short(),
            ascending(r.files()),
    {
        let r = FsSnapshot { files: Vec::new(), truncated: false };
        assert(r.files() =~= Seq::empty());
        r
    }
}

/// A path in a workspace as a list of names.
pub open spec fn names_of(path: Text) -> Names {
    crate::paths::components_of(path)
}

/// What offering a file to a snapshot does: a full one is cut short, and a file
/// without a signature is passed over.
pub open spec fn offered(
    files: Seq<(Names, FileSig)>,
    path: Text,
    sig: Option<FileSig>,
    max: nat,
) -> Option<Seq<(Names, FileSig)>> {
    if files.len() >= max {
        None
    } else {
        match sig {
            Some(s) => Some(with_file(files, names_of(path), s)),
            None => Some(files),
        }
    }
}

/// Put a file where its path belongs.
fn put_file(files: &mut Vec<(Vec<String>, FileSig)>, p: Vec<String>, sig: FileSig)
    ensures
        file_entries(final(files)@) == with_file(file_entries(old(files)@), texts(p@), sig),
{
    let ghost all = file_entries(files@);
    let ghost path = texts(p@);
    let n = files.len();
    let mut i: usize = n;
    assert(all.take(n as int) =~= all);
    assert(with_file(all, path, sig) + all.skip(n as int) =~= with_file(all, path, sig));
    while i > 0 && !path_eq(&files[i - 1].0, &p) && !path_before(&files[i - 1].0, &p)
        invariant
            i <= n,
            n == files@.len(),
            files@ == old(files)@,
            all == file_entries(files@),
            path == texts(p@),
            with_file(all, path, sig) == with_file(all.take(i as int), path, sig) + all.skip(
                i as int,
            ),
        decreases i,
    {
        let ghost t = all.take(i as int);
        assert(t.last() == all[i - 1]);
        assert(all[i - 1].0 == texts(files@[i - 1].0@));
        assert(t.drop_last() =~= all.take(i - 1));
        assert(with_file(t, path, sig) + all.skip(i as int) =~= with_file(
            all.take(i - 1),
            path,
            sig,
        ) + all.skip(i - 1));
        i -= 1;
    }
    let ghost t = all.take(i as int);
    if i > 0 {
        assert(t.last() == all[i - 1]);
        assert(all[i - 1].0 == texts(files@[i - 1].0@));
    }
    if i > 0 && path_eq(&files[i - 1].0, &p) {
        files[i - 1] = (p, sig);
        assert(file_entries(files@) =~= t.drop_last().push((path, sig)) + all.skip(i as int));
    } else {
        files.insert(i, (p, sig));
        assert(file_entries(files@) =~= t.push((path, sig)) + all.skip(i as int));
        if i == 0 {
            assert(t =~= Seq::empty());
            assert(t.push((path, sig)) =~= seq![(path, sig)]);
        }
    }
}

impl FsSnapshot {
    /// Take up a file that a walk has come upon, unless there are `max` already: a
    /// walk stops where this returns false.
    pub fn offer(&mut self, path: &str, sig: Option<FileSig>, max: usize) -> (r: bool)
        ensures
            match offered(old(self).files(), path@, sig, max as nat) {
                Some(f) => r && final(self).files() == f && final(self).cut_short() == old(
                    self,
                ).cut_short(),
                None => !r && final(self).files() == old(self).files() && final(self).cut_short(),
            },
            ascending(old(self).files()),
            ascending(final(self).files()),
    {
        proof {
            use_type_invariant(&*self);
        }
        if self.files.len() >= max {
            self.truncated = true;
            return false;
        }
        match sig {
            Some(s) => {
                let mut files: Vec<(Vec<String>, FileSig)> = Vec::new();
                std::mem::swap(&mut files, &mut self.files);
                proof {
                    lemma_with_file(file_entries(files@), names_of(path@), s);
                }
                put_file(&mut files, crate::paths::components(path), s);
                self.files = files;
            },
            None => {},
        }
        true
    }

    /// How many files there are.
    pub fn count(&self) -> (r: usize)
        ensures
            r == self.files().len(),
    {
        self.files.len()
    }

    /// Whether a walk stopped at the cap.
    pub fn is_truncated(&self) -> (r: bool)
        ensures
            r == self.cut_short(),
    {
        self.truncated
    }

    /// Whether a file is among the files.
    pub fn has_file(&self, path: &str) -> (r: bool)
        ensures
            r == (sig_of(self.files(), names_of(path@)) is Some),
    {
        proof {
            use_type_invariant(self);
        }
        find_sig(&self.files, &crate::paths::components(path)).is_some()
    }
}

/// A walk passes over a directory named `.git`, but not over a file of that name.
pub open spec fn is_pruned(is_dir: bool, name: Text) -> bool {
    is_dir && name == ".git"@
}

/// Whether a walk passes over an entry.
pub fn pruned(is_dir: bool, name: &str) -> (r: bool)
    ensures
        r == is_pruned(is_dir, name@),
{
    is_dir && str_eq(name, ".git")
}

/// The first place whose path does not come before `p`, or the end.
fn place_of(files: &Vec<(Vec<String>, FileSig)>, p: &Vec<String>) -> (r: usize)
    requires
        ascending(file_entries(files@)),
    ensures
        r <= files@.len(),
        forall|i: int|
            0 <= i < r ==> names_before((#[trigger] file_entries(files@)[i]).0, texts(p@)),
        forall|i: int|
            r <= i < files@.len() ==> !names_before(
                (#[trigger] file_entries(files@)[i]).0,
                texts(p@),
            ),
{
    let ghost all = file_entries(files@);
    let ghost path = texts(p@);
    let mut lo: usize = 0;
    let mut hi: usize = files.len();
    while lo < hi
        invariant
            lo <= hi <= files@.len(),
            all == file_entries(files@),
            path == texts(p@),
            ascending(all),
            forall|i: int| 0 <= i < lo ==> names_before((#[trigger] all[i]).0, path),
            forall|i: int| hi <= i < all.len() ==> !names_before((#[trigger] all[i]).0, path),
        decreases hi - lo,
    {
        let mid = lo + (hi - lo) / 2;
        assert(all[mid as int].0 == texts(files@[mid as int].0@));
        if path_before(&files[mid].0, p) {
            assert forall|i: int| 0 <= i < mid + 1 implies names_before(
                (#[trigger] all[i]).0,
                path,
            ) by {
                if i < mid {
                    law_names_before_is_transitive(all[i].0, all[mid as int].0, path);
                }
            }
            lo = mid + 1;
        } else {
            assert forall|i: int| mid <= i < all.len() implies !names_before(
                (#[trigger] all[i]).0,
                path,
            ) by {
                if i > mid && names_before(all[i].0, path) {
                    law_names_before_is_transitive(all[mid as int].0, all[i].0, path);
                }
            }
            hi = mid;
        }
    }
    lo
}

/// A path that stands nowhere has no signature.
proof fn lemma_no_sig(f: Seq<(Names, FileSig)>, p: Names)
    requires
        forall|i: int| 0 <= i < f.len() ==> (#[trigger] f[i]).0 != p,
    ensures
        sig_of(f, p) is None,
    decreases f.len(),
{
    if f.len() > 0 {
        assert(f[f.len() - 1].0 != p);
        let d = f.drop_last();
        assert forall|i: int| 0 <= i < d.len() implies (#[trigger] d[i]).0 != p by {
            assert(d[i] == f[i]);
        }
        lemma_no_sig(d, p);
    }
}

/// The signature of a path is the one at its place.
proof fn lemma_sig_at(f: Seq<(Names, FileSig)>, p: Names, k: int)
    requires
        ascending(f),
        0 <= k < f.len(),
        f[k].0 == p,
    ensures
        sig_of(f, p) == Some(f[k].1),
    decreases f.len(),
{
    if k < f.len() - 1 {
        assert(names_before(f[k].0, f[f.len() - 1].0));
        law_names_before_is_total(p, f.last().0);
        let d = f.drop_last();
        assert forall|i: int, j: int| 0 <= i < j < d.len() implies names_before(
            (#[trigger] d[i]).0,
            (#[trigger] d[j]).0,
        ) by {
            assert(d[i] == f[i] && d[j] == f[j]);
        }
        lemma_sig_at(d, p, k);
    }
}

/// The signature of a path.
fn find_sig(files: &Vec<(Vec<String>, FileSig)>, p: &Vec<String>) -> (r: Option<FileSig>)
    requires
        ascending(file_entries(files@)),
    ensures
        r == sig_of(file_entries(files@), texts(p@)),
{
    let ghost all = file_entries(files@);
    let ghost path = texts(p@);
    let i = place_of(files, p);
    if i < files.len() {
        assert(all[i as int].0 == texts(files@[i as int].0@));
        if path_eq(&files[i].0, p) {
            proof {
                lemma_sig_at(all, path, i as int);
            }
            return Some(files[i].1);
        }
    }
    proof {
        assert forall|k: int| 0 <= k < all.len() implies (#[trigger] all[k]).0 != path by {
            if k < i {
                law_names_before_is_total(all[k].0, path);
            } else if k > i {
                law_names_before_is_total(all[i as int].0, path);
                assert(names_before(all[i as int].0, all[k].0));
                if all[k].0 == path {
                    assert(false);
                }
            }
        }
        lemma_no_sig(all, path);
    }
    None
}

// ---------------------------------------------------------------------------
// File changes
// ---------------------------------------------------------------------------

/// A directory that holds a file.
pub open spec fn holds_file(f: Seq<(Names, FileSig)>, d: Names) -> bool {
    exists|i: int| 0 <= i < f.len() && is_above(d, (#[trigger] f[i]).0)
}

/// Whether a directory holds a file.
fn is_dir_of(files: &Vec<(Vec<String>, FileSig)>, d: &Vec<String>) -> (r: bool)
    requires
        ascending(file_entries(files@)),
    ensures
        r == holds_file(file_entries(files@), texts(d@)),
{
    let ghost all = file_entries(files@);
    let ghost dir = texts(d@);
    let mut i = place_of(files, d);
    if i < files.len() {
        assert(all[i as int].0 == texts(files@[i as int].0@));
        if path_eq(&files[i].0, d) {
            i += 1;
        }
    }
    let ghost first = i as int;
    proof {
        assert forall|k: int| 0 <= k < first && k < all.len() implies !is_above(
            dir,
            (#[trigger] all[k]).0,
        ) by {
            if is_above(dir, all[k].0) {
                lemma_above_before(dir, all[k].0);
                law_names_before_is_total(dir, all[k].0);
            }
        }
    }
    if i >= files.len() {
        return false;
    }
    assert(all[i as int].0 == texts(files@[i as int].0@));
    let r = above(d, &files[i].0);
    proof {
        law_names_before_is_total(dir, all[first].0);
        assert(dir != all[first].0) by {
            if dir == all[first].0 && first > 0 {
                assert(names_before(all[first - 1].0, all[first].0));
            }
        }
        assert(names_before(dir, all[first].0));
        if holds_file(all, dir) {
            let k = choose|k: int| 0 <= k < all.len() && is_above(dir, (#[trigger] all[k]).0);
            assert(k >= first);
            if k > first {
                assert(names_before(all[first].0, all[k].0));
            }
            lemma_between(dir, all[first].0, all[k].0);
        }
    }
    r
}

/// Whether a directory stands above a path.
fn above(d: &Vec<String>, p: &Vec<String>) -> (r: bool)
    ensures
        r == is_above(texts(d@), texts(p@)),
{
    if d.len() >= p.len() {
        return false;
    }
    let head = path_take(p, d.len());
    path_eq(&head, d)
}

/// The first of the directories above `p`, from `k` names on, that holds no file;
/// the path itself where all do.
pub open spec fn root_from(p: Names, k: int, f: Seq<(Names, FileSig)>) -> Names
    decreases p.len() - k,
{
    if !(0 < k < p.len()) {
        p
    } else if !holds_file(f, p.take(k)) {
        p.take(k)
    } else {
        root_from(p, k + 1, f)
    }
}

/// The shallowest directory above a path that did not exist: the root of what is
/// new. The path itself where all directories existed.
pub open spec fn root_of(p: Names, f: Seq<(Names, FileSig)>) -> Names {
    root_from(p, 1, f)
}

/// The shallowest directory above `p` that holds none of the files.
fn new_root(p: &Vec<String>, files: &Vec<(Vec<String>, FileSig)>) -> (r: Vec<String>)
    requires
        ascending(file_entries(files@)),
    ensures
        texts(r@) == root_of(texts(p@), file_entries(files@)),
{
    let ghost path = texts(p@);
    let n = p.len();
    let mut k: usize = 1;
    while k < n
        invariant
            1 <= k,
            n == p@.len(),
            path == texts(p@),
            ascending(file_entries(files@)),
            root_of(path, file_entries(files@)) == root_from(
                path,
                k as int,
                file_entries(files@),
            ),
        decreases n - k,
    {
        let d = path_take(p, k);
        if !is_dir_of(files, &d) {
            return d;
        }
        k += 1;
    }
    clone_strings(p)
}

/// Paths that share a root.
pub type Group = (Names, Seq<Names>);

/// A path put with its root, roots in order.
pub open spec fn with_member(g: Seq<Group>, root: Names, p: Names) -> Seq<Group>
    decreases g.len(),
{
    if g.len() == 0 {
        seq![(root, seq![p])]
    } else if g.last().0 == root {
        g.drop_last().push((root, g.last().1.push(p)))
    } else if names_before(g.last().0, root) {
        g.push((root, seq![p]))
    } else {
        with_member(g.drop_last(), root, p).push(g.last())
    }
}

/// Paths grouped by their roots.
pub open spec fn groups(paths: Seq<Names>, f: Seq<(Names, FileSig)>) -> Seq<Group>
    decreases paths.len(),
{
    if paths.len() == 0 {
        Seq::empty()
    } else {
        with_member(
            groups(paths.drop_last(), f),
            root_of(paths.last(), f),
            paths.last(),
        )
    }
}

/// One entry of a difference: a file, or a directory with the number of files in
/// it.
#[derive(Debug, PartialEq)]
pub enum Entry {
    /// A file.
    File(String),
    /// A directory and how many files it stands for.
    Dir(String, usize),
}

/// [`Entry`] over views.
#[verifier::ext_equal]
pub enum EntryView {
    /// A file.
    File(Text),
    /// A directory and how many files it stands for.
    Dir(Text, nat),
}

impl View for Entry {
    type V = EntryView;

    open spec fn view(&self) -> EntryView {
        match *self {
            Entry::File(p) => EntryView::File(p@),
            Entry::Dir(p, n) => EntryView::Dir(p@, n as nat),
        }
    }
}

/// Entries over views.
pub open spec fn entry_views(v: Seq<Entry>) -> Seq<EntryView> {
    v.map_values(|e: Entry| e@)
}

/// A path as it is shown.
pub open spec fn shown_path(p: Names) -> Text {
    joined(p, "/"@)
}

/// How a group is reported: a lone file as itself, more as their root.
pub open spec fn group_entry(g: Group) -> EntryView {
    if g.1.len() == 1 {
        EntryView::File(shown_path(g.1[0]))
    } else {
        EntryView::Dir(shown_path(g.0), g.1.len())
    }
}

/// Changed paths with what is wholly new, or wholly gone, taken together.
pub open spec fn collapsed(paths: Seq<Names>, f: Seq<(Names, FileSig)>) -> Seq<EntryView> {
    groups(paths, f).map_values(|g: Group| group_entry(g))
}

/// The paths of `f` that `other` does not have.
pub open spec fn only_in(f: Seq<(Names, FileSig)>, other: Seq<(Names, FileSig)>) -> Seq<Names>
    decreases f.len(),
{
    if f.len() == 0 {
        Seq::empty()
    } else {
        let rest = only_in(f.drop_last(), other);
        match sig_of(other, f.last().0) {
            None => rest.push(f.last().0),
            Some(_) => rest,
        }
    }
}

/// The paths of `after` that `before` has with another signature.
pub open spec fn modified_in(before: Seq<(Names, FileSig)>, after: Seq<(Names, FileSig)>) -> Seq<
    Names,
>
    decreases after.len(),
{
    if after.len() == 0 {
        Seq::empty()
    } else {
        let rest = modified_in(before, after.drop_last());
        match sig_of(before, after.last().0) {
            Some(old) => if old != after.last().1 {
                rest.push(after.last().0)
            } else {
                rest
            },
            None => rest,
        }
    }
}

/// The difference between two snapshots.
#[derive(Debug, PartialEq)]
pub struct FsDiff {
    /// What is new.
    pub added: Vec<Entry>,
    /// What is gone.
    pub removed: Vec<Entry>,
    /// What has changed.
    pub modified: Vec<String>,
    /// The workspace was too large to compare.
    pub truncated: bool,
}

/// [`FsDiff`] over views.
#[verifier::ext_equal]
pub struct FsDiffView {
    /// What is new.
    pub added: Seq<EntryView>,
    /// What is gone.
    pub removed: Seq<EntryView>,
    /// What has changed.
    pub modified: Seq<Text>,
    /// The workspace was too large to compare.
    pub truncated: bool,
}

impl View for FsDiff {
    type V = FsDiffView;

    open spec fn view(&self) -> FsDiffView {
        FsDiffView {
            added: entry_views(self.added@),
            removed: entry_views(self.removed@),
            modified: texts(self.modified@),
            truncated: self.truncated,
        }
    }
}

impl FsDiffView {
    /// No file changed.
    pub open spec fn is_empty(self) -> bool {
        self.added.len() == 0 && self.removed.len() == 0 && self.modified.len() == 0
    }
}

impl Default for FsDiff {
    /// No change.
    fn default() -> (r: FsDiff)
        ensures
            r@.is_empty(),
            !r@.truncated,
    {
        FsDiff {
            added: Vec::new(),
            removed: Vec::new(),
            modified: Vec::new(),
            truncated: false,
        }
    }
}

impl FsDiff {
    /// Whether no file changed.
    pub fn is_empty(&self) -> (r: bool)
        ensures
            r == self@.is_empty(),
    {
        self.added.len() == 0 && self.removed.len() == 0 && self.modified.len() == 0
    }
}

/// The difference between two sets of files.
pub open spec fn fs_change(before: Seq<(Names, FileSig)>, after: Seq<(Names, FileSig)>) -> FsDiffView {
    FsDiffView {
        added: collapsed(only_in(after, before), before),
        removed: collapsed(only_in(before, after), after),
        modified: modified_in(before, after).map_values(|p: Names| shown_path(p)),
        truncated: false,
    }
}

/// Nothing known, because a snapshot is not complete.
pub open spec fn fs_unknown() -> FsDiffView {
    FsDiffView {
        added: Seq::empty(),
        removed: Seq::empty(),
        modified: Seq::empty(),
        truncated: true,
    }
}

/// Path lists over views.
pub open spec fn path_lists(v: Seq<Vec<String>>) -> Seq<Names> {
    v.map_values(|p: Vec<String>| texts(p@))
}

/// The paths of `files` that `other` does not have.
fn paths_only_in(
    files: &Vec<(Vec<String>, FileSig)>,
    other: &Vec<(Vec<String>, FileSig)>,
) -> (r: Vec<Vec<String>>)
    requires
        ascending(file_entries(other@)),
    ensures
        path_lists(r@) == only_in(file_entries(files@), file_entries(other@)),
{
    let ghost all = file_entries(files@);
    let mut out: Vec<Vec<String>> = Vec::new();
    let mut i: usize = 0;
    assert(all.take(0) =~= Seq::empty());
    assert(path_lists(out@) =~= Seq::empty());
    while i < files.len()
        invariant
            i <= files@.len(),
            all == file_entries(files@),
            ascending(file_entries(other@)),
            path_lists(out@) == only_in(all.take(i as int), file_entries(other@)),
        decreases files@.len() - i,
    {
        assert(all.take(i + 1).drop_last() =~= all.take(i as int));
        assert(all.take(i + 1).last().0 == texts(files@[i as int].0@));
        if find_sig(other, &files[i].0).is_none() {
            let ghost done = path_lists(out@);
            let p = clone_strings(&files[i].0);
            out.push(p);
            assert(path_lists(out@) =~= done.push(texts(p@)));
        }
        i += 1;
    }
    assert(all.take(files@.len() as int) =~= all);
    out
}

/// The paths whose signature has changed, as they are shown.
fn modified_paths(
    before: &Vec<(Vec<String>, FileSig)>,
    after: &Vec<(Vec<String>, FileSig)>,
) -> (r: Vec<String>)
    requires
        ascending(file_entries(before@)),
    ensures
        texts(r@) == modified_in(file_entries(before@), file_entries(after@)).map_values(
            |p: Names| shown_path(p),
        ),
{
    let ghost all = file_entries(after@);
    let ghost old = file_entries(before@);
    let mut out: Vec<String> = Vec::new();
    let mut i: usize = 0;
    assert(all.take(0) =~= Seq::empty());
    assert(texts(out@) =~= modified_in(old, all.take(0)).map_values(|p: Names| shown_path(p)));
    while i < after.len()
        invariant
            i <= after@.len(),
            all == file_entries(after@),
            old == file_entries(before@),
            ascending(old),
            texts(out@) == modified_in(old, all.take(i as int)).map_values(
                |p: Names| shown_path(p),
            ),
        decreases after@.len() - i,
    {
        let ghost t = all.take(i + 1);
        assert(t.drop_last() =~= all.take(i as int));
        assert(t.last() == (texts(after@[i as int].0@), after@[i as int].1));
        match find_sig(before, &after[i].0) {
            Some(sig) => {
                if !same_sig(&sig, &after[i].1) {
                    let ghost done = texts(out@);
                    let s = join(&after[i].0, "/");
                    out.push(s);
                    assert(texts(out@) =~= done.push(s@));
                    assert(texts(out@) =~= modified_in(old, t).map_values(
                        |p: Names| shown_path(p),
                    ));
                }
            },
            None => {},
        }
        i += 1;
    }
    assert(all.take(after@.len() as int) =~= all);
    out
}

/// Groups over views.
pub open spec fn group_views(v: Seq<(Vec<String>, Vec<Vec<String>>)>) -> Seq<Group> {
    v.map_values(|g: (Vec<String>, Vec<Vec<String>>)| (texts(g.0@), path_lists(g.1@)))
}

/// Put a path with its root.
fn put_member(
    gs: &mut Vec<(Vec<String>, Vec<Vec<String>>)>,
    root: Vec<String>,
    p: Vec<String>,
)
    ensures
        group_views(final(gs)@) == with_member(group_views(old(gs)@), texts(root@), texts(p@)),
{
    let ghost all = group_views(gs@);
    let ghost rt = texts(root@);
    let ghost path = texts(p@);
    let n = gs.len();
    let mut i: usize = n;
    assert(all.take(n as int) =~= all);
    assert(with_member(all, rt, path) + all.skip(n as int) =~= with_member(all, rt, path));
    while i > 0 && !path_eq(&gs[i - 1].0, &root) && !path_before(&gs[i - 1].0, &root)
        invariant
            i <= n,
            n == gs@.len(),
            gs@ == old(gs)@,
            all == group_views(gs@),
            rt == texts(root@),
            path == texts(p@),
            with_member(all, rt, path) == with_member(all.take(i as int), rt, path) + all.skip(
                i as int,
            ),
        decreases i,
    {
        let ghost t = all.take(i as int);
        assert(t.last() == all[i - 1]);
        assert(all[i - 1].0 == texts(gs@[i - 1].0@));
        assert(t.drop_last() =~= all.take(i - 1));
        assert(with_member(t, rt, path) + all.skip(i as int) =~= with_member(
            all.take(i - 1),
            rt,
            path,
        ) + all.skip(i - 1));
        i -= 1;
    }
    let ghost t = all.take(i as int);
    if i > 0 {
        assert(t.last() == all[i - 1]);
        assert(all[i - 1].0 == texts(gs@[i - 1].0@));
    }
    if i > 0 && path_eq(&gs[i - 1].0, &root) {
        let mut g = gs.remove(i - 1);
        assert((texts(g.0@), path_lists(g.1@)) == all[i - 1]);
        let ghost done = path_lists(g.1@);
        g.1.push(p);
        assert(path_lists(g.1@) =~= done.push(path));
        gs.insert(i - 1, g);
        assert(group_views(gs@) =~= t.drop_last().push((rt, all[i - 1].1.push(path)))
            + all.skip(i as int));
    } else {
        let mut members: Vec<Vec<String>> = Vec::new();
        members.push(p);
        assert(path_lists(members@) =~= seq![path]);
        gs.insert(i, (root, members));
        assert(group_views(gs@) =~= t.push((rt, seq![path])) + all.skip(i as int));
        if i == 0 {
            assert(t =~= Seq::empty());
            assert(t.push((rt, seq![path])) =~= seq![(rt, seq![path])]);
        }
    }
}

/// Collapse changed paths: files under a directory that is not among `files` are
/// reported as that directory with a count; a lone file is shown as itself.
fn collapse(paths: &Vec<Vec<String>>, files: &Vec<(Vec<String>, FileSig)>) -> (r: Vec<Entry>)
    requires
        ascending(file_entries(files@)),
    ensures
        entry_views(r@) == collapsed(path_lists(paths@), file_entries(files@)),
{
    let ghost all = path_lists(paths@);
    let ghost f = file_entries(files@);
    let mut gs: Vec<(Vec<String>, Vec<Vec<String>>)> = Vec::new();
    let mut i: usize = 0;
    assert(all.take(0) =~= Seq::empty());
    assert(group_views(gs@) =~= Seq::empty());
    while i < paths.len()
        invariant
            i <= paths@.len(),
            all == path_lists(paths@),
            f == file_entries(files@),
            ascending(f),
            group_views(gs@) == groups(all.take(i as int), f),
        decreases paths@.len() - i,
    {
        assert(all.take(i + 1).drop_last() =~= all.take(i as int));
        assert(all.take(i + 1).last() == texts(paths@[i as int]@));
        let root = new_root(&paths[i], files);
        put_member(&mut gs, root, clone_strings(&paths[i]));
        i += 1;
    }
    assert(all.take(paths@.len() as int) =~= all);
    let ghost gv = group_views(gs@);
    let mut out: Vec<Entry> = Vec::new();
    let mut k: usize = 0;
    while k < gs.len()
        invariant
            k <= gs@.len(),
            gv == group_views(gs@),
            out@.len() == k,
            forall|j: int| 0 <= j < k ==> (#[trigger] out@[j])@ == group_entry(gv[j]),
        decreases gs@.len() - k,
    {
        assert(gv[k as int].0 == texts(gs@[k as int].0@));
        assert(gv[k as int].1 == path_lists(gs@[k as int].1@));
        assert(gv[k as int].1.len() == gs@[k as int].1@.len());
        if gs[k].1.len() == 1 {
            assert(gv[k as int].1[0] == texts(gs@[k as int].1@[0]@));
            out.push(Entry::File(join(&gs[k].1[0], "/")));
        } else {
            out.push(Entry::Dir(join(&gs[k].0, "/"), gs[k].1.len()));
        }
        k += 1;
    }
    assert(entry_views(out@) =~= collapsed(all, f));
    out
}

/// Diff two workspace snapshots, taking wholly new and wholly removed directories
/// together.
///
/// A snapshot that stopped at the cap saw only part of the tree, and a comparison
/// would invent changes; the difference is then empty and marked as truncated.
pub fn fs_diff(before: &FsSnapshot, after: &FsSnapshot) -> (r: FsDiff)
    ensures
        r@ == (if before.cut_short() || after.cut_short() {
            fs_unknown()
        } else {
            fs_change(before.files(), after.files())
        }),
{
    if before.truncated || after.truncated {
        let r = FsDiff {
            added: Vec::new(),
            removed: Vec::new(),
            modified: Vec::new(),
            truncated: true,
        };
        assert(r@ =~= fs_unknown());
        return r;
    }
    proof {
        use_type_invariant(before);
        use_type_invariant(after);
    }
    let added = paths_only_in(&after.files, &before.files);
    let removed = paths_only_in(&before.files, &after.files);
    FsDiff {
        added: collapse(&added, &before.files),
        removed: collapse(&removed, &after.files),
        modified: modified_paths(&before.files, &after.files),
        truncated: false,
    }
}

// ---------------------------------------------------------------------------
// Laws
// ---------------------------------------------------------------------------

/// Whether a pair stands somewhere in a table.
pub open spec fn has_pair(m: Seq<(Text, Text)>, k: Text, v: Text) -> bool {
    exists|i: int| 0 <= i < m.len() && #[trigger] m[i] == (k, v)
}

/// In a table with distinct keys a key reads as the value it stands with.
proof fn lemma_has_pair(m: Seq<(Text, Text)>, k: Text, v: Text)
    requires
        distinct(m),
    ensures
        has_pair(m, k, v) == (lookup(m, k) == Some(v)),
{
    lemma_slot(m, k);
    if has_pair(m, k, v) {
        let i = choose|i: int| 0 <= i < m.len() && #[trigger] m[i] == (k, v);
        assert forall|j: int| 0 <= j < i implies (#[trigger] m[j]).0 != k by {
            assert(m[j].0 != m[i].0);
        }
        lemma_slot_at(m, k, i);
    } else if lookup(m, k) == Some(v) {
        match slot(m, k) {
            Some(i) => {
                assert(m[i] == (k, v));
            },
            None => {},
        }
    }
}

/// What stands in a sequence that one thing was pushed to.
proof fn lemma_pushed<A>(s: Seq<A>, x: A, y: A)
    ensures
        s.push(x).contains(y) == (s.contains(y) || x == y),
{
    if s.contains(y) {
        let i = choose|i: int| 0 <= i < s.len() && s[i] == y;
        assert(s.push(x)[i] == y);
    }
    if x == y {
        assert(s.push(x)[s.len() as int] == y);
    }
    if s.push(x).contains(y) {
        let i = choose|i: int| 0 <= i < s.push(x).len() && s.push(x)[i] == y;
        if i < s.len() {
            assert(s[i] == y);
        }
    }
}

/// What the difference of two environments lists.
proof fn lemma_env_lists(before: Seq<(Text, Text)>, after: Seq<(Text, Text)>, k: Text, o: Text, v: Text)
    ensures
        added_pairs(before, after).contains((k, v)) == (has_pair(after, k, v) && lookup(before, k)
            is None),
        changed_pairs(before, after).contains((k, o, v)) == (has_pair(after, k, v) && lookup(
            before,
            k,
        ) == Some(o) && o != v),
    decreases after.len(),
{
    if after.len() > 0 {
        let d = after.drop_last();
        let last = after.last();
        lemma_env_lists(before, d, k, o, v);
        assert(has_pair(after, k, v) == (has_pair(d, k, v) || last == (k, v))) by {
            if has_pair(d, k, v) {
                let i = choose|i: int| 0 <= i < d.len() && #[trigger] d[i] == (k, v);
                assert(after[i] == (k, v));
            }
            if last == (k, v) {
                assert(after[after.len() - 1] == (k, v));
            }
            if has_pair(after, k, v) {
                let i = choose|i: int| 0 <= i < after.len() && #[trigger] after[i] == (k, v);
                if i < d.len() {
                    assert(d[i] == (k, v));
                }
            }
        }
        lemma_pushed(added_pairs(before, d), last, (k, v));
        match lookup(before, last.0) {
            Some(old) => {
                lemma_pushed(changed_pairs(before, d), (last.0, old, last.1), (k, o, v));
            },
            None => {},
        }
    }
}

/// Which keys the difference of two environments lists as removed.
proof fn lemma_env_removed(before: Seq<(Text, Text)>, after: Seq<(Text, Text)>, k: Text)
    ensures
        removed_keys(before, after).contains(k) == (lookup(before, k) is Some && lookup(after, k)
            is None),
    decreases before.len(),
{
    lemma_slot(before, k);
    if before.len() > 0 {
        let d = before.drop_last();
        let last = before.last();
        lemma_env_removed(d, after, k);
        lemma_slot(d, k);
        assert((lookup(before, k) is Some) == (lookup(d, k) is Some || last.0 == k)) by {
            match slot(before, k) {
                Some(i) => {
                    if i < d.len() {
                        assert(d[i].0 == k);
                    }
                },
                None => {
                    assert(before[before.len() - 1].0 != k);
                    match slot(d, k) {
                        Some(i) => {
                            assert(before[i] == d[i]);
                        },
                        None => {},
                    }
                },
            }
        }
        lemma_pushed(removed_keys(d, after), last.0, k);
    }
}

/// The difference of two environments lists exactly what changed: a variable as
/// added where only the later one has it, as changed where both have it with
/// different values, as removed where only the earlier one has it.
pub proof fn law_env_diff_lists_every_change(
    before: Seq<(Text, Text)>,
    after: Seq<(Text, Text)>,
    k: Text,
    o: Text,
    v: Text,
)
    requires
        distinct(before),
        distinct(after),
    ensures
        added_pairs(before, after).contains((k, v)) == (lookup(before, k) is None && lookup(after, k)
            == Some(v)),
        changed_pairs(before, after).contains((k, o, v)) == (lookup(before, k) == Some(o)
            && lookup(after, k) == Some(v) && o != v),
        removed_keys(before, after).contains(k) == (lookup(before, k) is Some && lookup(after, k)
            is None),
{
    lemma_env_lists(before, after, k, o, v);
    lemma_env_removed(before, after, k);
    lemma_has_pair(after, k, v);
}

/// An environment differs from itself in nothing.
pub proof fn law_env_diff_of_nothing_is_empty(e: Seq<(Text, Text)>, path: Seq<Text>)
    requires
        distinct(e),
    ensures
        env_change(e, e, path, path) == (EnvDiffView {
            added: Seq::empty(),
            changed: Seq::empty(),
            removed: Seq::empty(),
            path_added: Seq::empty(),
        }),
{
    let d = env_change(e, e, path, path);
    assert(d.added =~= Seq::empty()) by {
        if d.added.len() > 0 {
            let x = d.added[0];
            assert(d.added.contains(x));
            law_env_diff_lists_every_change(e, e, x.0, x.1, x.1);
        }
    }
    assert(d.changed =~= Seq::empty()) by {
        if d.changed.len() > 0 {
            let x = d.changed[0];
            assert(d.changed.contains(x));
            law_env_diff_lists_every_change(e, e, x.0, x.1, x.2);
        }
    }
    assert(d.removed =~= Seq::empty()) by {
        if d.removed.len() > 0 {
            let x = d.removed[0];
            assert(d.removed.contains(x));
            law_env_diff_lists_every_change(e, e, x, x, x);
        }
    }
    lemma_no_new_texts(path, path);
}

/// What a list holds is not new to it.
proof fn lemma_no_new_texts(known: Seq<Text>, s: Seq<Text>)
    requires
        forall|i: int| 0 <= i < s.len() ==> known.contains(#[trigger] s[i]),
    ensures
        new_texts(known, s) == Seq::<Text>::empty(),
    decreases s.len(),
{
    if s.len() > 0 {
        assert(known.contains(s[s.len() - 1]));
        let d = s.drop_last();
        assert forall|i: int| 0 <= i < d.len() implies known.contains(#[trigger] d[i]) by {
            assert(s[i] == d[i]);
        }
        lemma_no_new_texts(known, d);
    }
}

/// A file that is in a set of files is not missing from it, nor changed.
proof fn lemma_no_change(f: Seq<(Names, FileSig)>, s: Seq<(Names, FileSig)>)
    requires
        forall|i: int| 0 <= i < s.len() ==> sig_of(f, (#[trigger] s[i]).0) == Some(s[i].1),
    ensures
        only_in(s, f) == Seq::<Names>::empty(),
        modified_in(f, s) == Seq::<Names>::empty(),
    decreases s.len(),
{
    if s.len() > 0 {
        assert(sig_of(f, s[s.len() - 1].0) == Some(s[s.len() - 1].1));
        let d = s.drop_last();
        assert forall|i: int| 0 <= i < d.len() implies sig_of(f, (#[trigger] d[i]).0) == Some(
            d[i].1,
        ) by {
            assert(s[i] == d[i]);
        }
        lemma_no_change(f, d);
    }
}

/// A workspace differs from itself in nothing.
pub proof fn law_fs_diff_of_nothing_is_empty(f: Seq<(Names, FileSig)>)
    requires
        ascending(f),
    ensures
        fs_change(f, f).added.len() == 0,
        fs_change(f, f).removed.len() == 0,
        fs_change(f, f).modified.len() == 0,
{
    assert forall|i: int| 0 <= i < f.len() implies sig_of(f, (#[trigger] f[i]).0) == Some(
        f[i].1,
    ) by {
        lemma_sig_at(f, f[i].0, i);
    }
    lemma_no_change(f, f);
}

/// The paths of one set of files that another does not have.
proof fn lemma_only_in(f: Seq<(Names, FileSig)>, other: Seq<(Names, FileSig)>, p: Names)
    ensures
        only_in(f, other).contains(p) == (sig_of(f, p) is Some && sig_of(other, p) is None),
    decreases f.len(),
{
    if f.len() > 0 {
        let d = f.drop_last();
        lemma_only_in(d, other, p);
        lemma_pushed(only_in(d, other), f.last().0, p);
    }
}

/// The paths that two sets of files have with different signatures.
proof fn lemma_modified_in(before: Seq<(Names, FileSig)>, after: Seq<(Names, FileSig)>, p: Names)
    requires
        ascending(after),
    ensures
        modified_in(before, after).contains(p) == (sig_of(before, p) is Some && sig_of(after, p)
            is Some && sig_of(before, p) != sig_of(after, p)),
    decreases after.len(),
{
    if after.len() > 0 {
        let d = after.drop_last();
        assert forall|i: int, j: int| 0 <= i < j < d.len() implies names_before(
            (#[trigger] d[i]).0,
            (#[trigger] d[j]).0,
        ) by {
            assert(d[i] == after[i] && d[j] == after[j]);
        }
        lemma_modified_in(before, d, p);
        lemma_pushed(modified_in(before, d), after.last().0, p);
        if p == after.last().0 {
            assert forall|i: int| 0 <= i < d.len() implies (#[trigger] d[i]).0 != p by {
                assert(d[i] == after[i]);
                assert(names_before(after[i].0, after[after.len() - 1].0));
                law_names_before_is_total(p, p);
            }
            lemma_no_sig(d, p);
        }
    }
}

/// The difference of two workspaces lists exactly what changed: a path as new
/// where only the later one has it, as gone where only the earlier one has it, as
/// modified where both have it with different signatures.
pub proof fn law_fs_diff_lists_every_change(
    before: Seq<(Names, FileSig)>,
    after: Seq<(Names, FileSig)>,
    p: Names,
)
    requires
        ascending(before),
        ascending(after),
    ensures
        only_in(after, before).contains(p) == (sig_of(before, p) is None && sig_of(after, p)
            is Some),
        only_in(before, after).contains(p) == (sig_of(before, p) is Some && sig_of(after, p)
            is None),
        modified_in(before, after).contains(p) == (sig_of(before, p) is Some && sig_of(after, p)
            is Some && sig_of(before, p) != sig_of(after, p)),
{
    lemma_only_in(after, before, p);
    lemma_only_in(before, after, p);
    lemma_modified_in(before, after, p);
}

/// Every modified path is one of the later workspace.
proof fn lemma_modified_is_after(before: Seq<(Names, FileSig)>, after: Seq<(Names, FileSig)>, p: Names)
    requires
        modified_in(before, after).contains(p),
    ensures
        exists|k: int| 0 <= k < after.len() && (#[trigger] after[k]).0 == p,
    decreases after.len(),
{
    if after.len() > 0 {
        let d = after.drop_last();
        if after.last().0 == p {
            assert(after[after.len() - 1].0 == p);
        } else {
            lemma_pushed(modified_in(before, d), after.last().0, p);
            lemma_modified_is_after(before, d, p);
            let k = choose|k: int| 0 <= k < d.len() && (#[trigger] d[k]).0 == p;
            assert(after[k].0 == p);
        }
    }
}

/// The modified paths stand in order.
proof fn lemma_modified_ascends(before: Seq<(Names, FileSig)>, after: Seq<(Names, FileSig)>)
    requires
        ascending(after),
    ensures
        forall|i: int, j: int|
            0 <= i < j < modified_in(before, after).len() ==> names_before(
                #[trigger] modified_in(before, after)[i],
                #[trigger] modified_in(before, after)[j],
            ),
    decreases after.len(),
{
    if after.len() > 0 {
        let d = after.drop_last();
        let rest = modified_in(before, d);
        let m = modified_in(before, after);
        assert forall|i: int, j: int| 0 <= i < j < d.len() implies names_before(
            (#[trigger] d[i]).0,
            (#[trigger] d[j]).0,
        ) by {
            assert(d[i] == after[i] && d[j] == after[j]);
        }
        lemma_modified_ascends(before, d);
        assert forall|i: int, j: int| 0 <= i < j < m.len() implies names_before(
            #[trigger] m[i],
            #[trigger] m[j],
        ) by {
            assert(m[i] == rest[i]);
            if j < rest.len() {
                assert(m[j] == rest[j]);
            } else {
                assert(rest.contains(rest[i]));
                lemma_modified_is_after(before, d, rest[i]);
                let k = choose|k: int| 0 <= k < d.len() && (#[trigger] d[k]).0 == rest[i];
                assert(after[k] == d[k]);
                assert(names_before(after[k].0, after[after.len() - 1].0));
            }
        }
    }
}

/// The difference the other way round: what is new is then gone, what is gone is
/// new, and what is modified stays so.
pub proof fn law_fs_diff_swaps_with_its_arguments(
    before: Seq<(Names, FileSig)>,
    after: Seq<(Names, FileSig)>,
)
    requires
        ascending(before),
        ascending(after),
    ensures
        fs_change(after, before).added == fs_change(before, after).removed,
        fs_change(after, before).removed == fs_change(before, after).added,
        fs_change(after, before).modified == fs_change(before, after).modified,
{
    let s = modified_in(before, after);
    let t = modified_in(after, before);
    let less = |a: Names, b: Names| names_before(a, b);
    assert forall|a: Names, b: Names| !(#[trigger] less(a, b) && less(b, a)) by {
        law_names_before_is_total(a, b);
    }
    lemma_modified_ascends(before, after);
    lemma_modified_ascends(after, before);
    assert forall|p: Names| s.contains(p) == t.contains(p) by {
        lemma_modified_in(before, after, p);
        lemma_modified_in(after, before, p);
    }
    lemma_ascending_alike(less, s, t);
}

/// A path is in one of the groups.
pub open spec fn is_member(g: Seq<Group>, p: Names) -> bool {
    exists|i: int| 0 <= i < g.len() && (#[trigger] g[i]).1.contains(p)
}

/// Putting a path in makes it a member, and no other.
proof fn lemma_with_member(g: Seq<Group>, root: Names, p: Names, q: Names)
    ensures
        is_member(with_member(g, root, p), q) == (is_member(g, q) || p == q),
    decreases g.len(),
{
    let w = with_member(g, root, p);
    if g.len() == 0 {
        assert(w[0].1 =~= seq![p]);
        lemma_pushed(Seq::<Names>::empty(), p, q);
        assert(Seq::<Names>::empty().push(p) =~= seq![p]);
        assert(w[0].1.contains(q) == (p == q));
    } else {
        let d = g.drop_last();
        let n = g.len() - 1;
        assert(is_member(g, q) == (is_member(d, q) || g[n].1.contains(q))) by {
            if is_member(d, q) {
                let i = choose|i: int| 0 <= i < d.len() && (#[trigger] d[i]).1.contains(q);
                assert(g[i] == d[i]);
            }
            if is_member(g, q) {
                let i = choose|i: int| 0 <= i < g.len() && (#[trigger] g[i]).1.contains(q);
                if i < n {
                    assert(d[i] == g[i]);
                }
            }
        }
        if g.last().0 == root {
            lemma_pushed(g.last().1, p, q);
            lemma_member_pushed(d, (root, g.last().1.push(p)), q);
        } else if names_before(g.last().0, root) {
            lemma_pushed(Seq::<Names>::empty(), p, q);
            assert(Seq::<Names>::empty().push(p) =~= seq![p]);
            lemma_member_pushed(g, (root, seq![p]), q);
        } else {
            lemma_with_member(d, root, p, q);
            lemma_member_pushed(with_member(d, root, p), g.last(), q);
        }
    }
}

/// The members of groups that one more was pushed to.
proof fn lemma_member_pushed(g: Seq<Group>, x: Group, q: Names)
    ensures
        is_member(g.push(x), q) == (is_member(g, q) || x.1.contains(q)),
{
    let w = g.push(x);
    if is_member(g, q) {
        let i = choose|i: int| 0 <= i < g.len() && (#[trigger] g[i]).1.contains(q);
        assert(w[i] == g[i]);
    }
    if x.1.contains(q) {
        assert(w[g.len() as int].1.contains(q));
    }
    if is_member(w, q) {
        let i = choose|i: int| 0 <= i < w.len() && (#[trigger] w[i]).1.contains(q);
        if i < g.len() {
            assert(g[i] == w[i]);
        }
    }
}

/// What is taken together is what was there: the groups hold the paths that were
/// given and no others.
pub proof fn law_collapse_keeps_the_paths(paths: Seq<Names>, f: Seq<(Names, FileSig)>, q: Names)
    ensures
        is_member(groups(paths, f), q) == paths.contains(q),
    decreases paths.len(),
{
    if paths.len() > 0 {
        let d = paths.drop_last();
        law_collapse_keeps_the_paths(d, f, q);
        lemma_with_member(groups(d, f), root_of(paths.last(), f), paths.last(), q);
        lemma_pushed(d, paths.last(), q);
        assert(d.push(paths.last()) =~= paths);
    }
}

/// How many paths groups hold together.
pub open spec fn member_count(g: Seq<Group>) -> nat
    decreases g.len(),
{
    if g.len() == 0 {
        0
    } else {
        member_count(g.drop_last()) + g.last().1.len()
    }
}

/// Putting a path in adds one.
proof fn lemma_member_count(g: Seq<Group>, root: Names, p: Names)
    ensures
        member_count(with_member(g, root, p)) == member_count(g) + 1,
    decreases g.len(),
{
    if g.len() == 0 {
        let w = seq![(root, seq![p])];
        assert(w.drop_last() =~= Seq::empty());
        assert(member_count(w.drop_last()) == 0);
        assert(member_count(w) == 1);
    } else if g.last().0 == root {
        let w = g.drop_last().push((root, g.last().1.push(p)));
        assert(w.drop_last() =~= g.drop_last());
    } else if names_before(g.last().0, root) {
        let w = g.push((root, seq![p]));
        assert(w.drop_last() =~= g);
        assert(w.last().1.len() == 1);
    } else {
        lemma_member_count(g.drop_last(), root, p);
        let v = with_member(g.drop_last(), root, p);
        assert(v.push(g.last()).drop_last() =~= v);
    }
}

/// Every path is counted once, whatever it is reported with.
pub proof fn law_collapse_counts_every_path(paths: Seq<Names>, f: Seq<(Names, FileSig)>)
    ensures
        member_count(groups(paths, f)) == paths.len(),
    decreases paths.len(),
{
    if paths.len() > 0 {
        law_collapse_counts_every_path(paths.drop_last(), f);
        lemma_member_count(
            groups(paths.drop_last(), f),
            root_of(paths.last(), f),
            paths.last(),
        );
    }
}

/// Every member of every group has the group's root.
pub open spec fn well_grouped(g: Seq<Group>, f: Seq<(Names, FileSig)>) -> bool {
    forall|i: int, j: int|
        0 <= i < g.len() && 0 <= j < g[i].1.len() ==> root_of(#[trigger] g[i].1[j], f) == g[i].0
}

/// Putting a path with its root keeps groups as they should be.
proof fn lemma_well_grouped(g: Seq<Group>, p: Names, f: Seq<(Names, FileSig)>)
    requires
        well_grouped(g, f),
    ensures
        well_grouped(with_member(g, root_of(p, f), p), f),
    decreases g.len(),
{
    let root = root_of(p, f);
    let w = with_member(g, root, p);
    if g.len() > 0 {
        let d = g.drop_last();
        assert forall|i: int, j: int| 0 <= i < d.len() && 0 <= j < d[i].1.len() implies root_of(
            #[trigger] d[i].1[j],
            f,
        ) == d[i].0 by {
            assert(g[i].1[j] == d[i].1[j]);
        }
        if !(g.last().0 == root || names_before(g.last().0, root)) {
            lemma_well_grouped(d, p, f);
        }
        let v = with_member(d, root, p);
        assert forall|i: int, j: int| 0 <= i < w.len() && 0 <= j < w[i].1.len() implies root_of(
            #[trigger] w[i].1[j],
            f,
        ) == w[i].0 by {
            if g.last().0 == root {
                if i < g.len() - 1 {
                    assert(w[i] == g[i]);
                    assert(g[i].1[j] == w[i].1[j]);
                } else if j < g.last().1.len() {
                    assert(g[g.len() - 1].1[j] == w[i].1[j]);
                }
            } else if names_before(g.last().0, root) {
                if i < g.len() {
                    assert(w[i] == g[i]);
                    assert(g[i].1[j] == w[i].1[j]);
                }
            } else {
                if i < v.len() {
                    assert(w[i] == v[i]);
                    assert(v[i].1[j] == w[i].1[j]);
                } else {
                    assert(g[g.len() - 1].1[j] == w[i].1[j]);
                }
            }
        }
    }
}

/// Paths are grouped with their roots.
proof fn lemma_groups_well(paths: Seq<Names>, f: Seq<(Names, FileSig)>)
    ensures
        well_grouped(groups(paths, f), f),
    decreases paths.len(),
{
    if paths.len() > 0 {
        lemma_groups_well(paths.drop_last(), f);
        lemma_well_grouped(groups(paths.drop_last(), f), paths.last(), f);
    }
}

/// The root of a path is the path, or a directory above it that holds none of the
/// files.
proof fn lemma_root(p: Names, k: int, f: Seq<(Names, FileSig)>)
    requires
        k >= 1,
    ensures
        root_from(p, k, f) == p || (is_above(root_from(p, k, f), p) && !holds_file(
            f,
            root_from(p, k, f),
        )),
    decreases p.len() - k,
{
    if k < p.len() {
        if holds_file(f, p.take(k)) {
            lemma_root(p, k + 1, f);
        } else {
            assert(p.take(k).take(k) =~= p.take(k));
        }
    }
}

/// A directory that stands for more than one path did not exist: it holds none of
/// the files that the paths are compared with.
pub proof fn law_collapsed_directories_are_new(
    paths: Seq<Names>,
    f: Seq<(Names, FileSig)>,
    i: int,
    a: int,
    b: int,
)
    requires
        0 <= i < groups(paths, f).len(),
        0 <= a < groups(paths, f)[i].1.len(),
        0 <= b < groups(paths, f)[i].1.len(),
        groups(paths, f)[i].1[a] != groups(paths, f)[i].1[b],
    ensures
        !holds_file(f, groups(paths, f)[i].0),
{
    let g = groups(paths, f);
    lemma_groups_well(paths, f);
    assert(root_of(g[i].1[a], f) == g[i].0);
    assert(root_of(g[i].1[b], f) == g[i].0);
    lemma_root(g[i].1[a], 1, f);
    lemma_root(g[i].1[b], 1, f);
}

/// What a snapshot holds of a file is what was put in for its path last, and other
/// files are as they were.
pub proof fn law_snapshots_hold_what_was_put_in(
    f: Seq<(Names, FileSig)>,
    p: Names,
    sig: FileSig,
    other: Names,
)
    requires
        ascending(f),
    ensures
        sig_of(with_file(f, p, sig), p) == Some(sig),
        other != p ==> sig_of(with_file(f, p, sig), other) == sig_of(f, other),
        ascending(with_file(f, p, sig)),
        sig_of(f, p) is None ==> with_file(f, p, sig).len() == f.len() + 1,
        sig_of(f, p) is Some ==> with_file(f, p, sig).len() == f.len(),
    decreases f.len(),
{
    lemma_with_file(f, p, sig);
    let w = with_file(f, p, sig);
    if f.len() > 0 {
        let d = f.drop_last();
        let last = f.last();
        assert forall|i: int, j: int| 0 <= i < j < d.len() implies names_before(
            (#[trigger] d[i]).0,
            (#[trigger] d[j]).0,
        ) by {
            assert(names_before(f[i].0, f[j].0));
        }
        law_snapshots_hold_what_was_put_in(d, p, sig, other);
        if last.0 == p {
            assert(w.drop_last() =~= d);
            assert(w.last() == (p, sig));
        } else if names_before(last.0, p) {
            assert(w.drop_last() =~= f);
            assert(w.last() == (p, sig));
            lemma_no_sig_behind(f, p);
        } else {
            assert(w.drop_last() =~= with_file(d, p, sig));
            assert(w.last() == last);
        }
    } else {
        assert(w.drop_last() =~= f);
        assert(w.last() == (p, sig));
    }
}

proof fn lemma_no_sig_behind(f: Seq<(Names, FileSig)>, p: Names)
    requires
        ascending(f),
        f.len() > 0,
        names_before(f.last().0, p),
    ensures
        sig_of(f, p) is None,
    decreases f.len(),
{
    law_names_before_is_total(f.last().0, p);
    let d = f.drop_last();
    if d.len() > 0 {
        assert forall|i: int, j: int| 0 <= i < j < d.len() implies names_before(
            (#[trigger] d[i]).0,
            (#[trigger] d[j]).0,
        ) by {
            assert(names_before(f[i].0, f[j].0));
        }
        assert(names_before(f[d.len() - 1].0, f[f.len() - 1].0));
        crate::relpath::law_names_before_is_transitive(d.last().0, f.last().0, p);
        lemma_no_sig_behind(d, p);
    }
    assert(sig_of(d, p) is None);
}

/// A file is offered to a snapshot until that holds as many as it may; one that
/// cannot be read is passed over.
pub proof fn law_snapshots_are_bounded(
    files: Seq<(Names, FileSig)>,
    path: Text,
    sig: Option<FileSig>,
    max: nat,
)
    ensures
        files.len() >= max <==> offered(files, path, sig, max) is None,
        files.len() < max ==> (sig matches Some(s) ==> offered(files, path, sig, max) == Some(
            with_file(files, names_of(path), s),
        )),
        files.len() < max && sig is None ==> offered(files, path, sig, max) == Some(files),
{
}

/// Whether a directory holds no file of a snapshot.
pub open spec fn is_new_dir(f: Seq<(Names, FileSig)>, d: Names) -> bool {
    forall|i: int|
        0 <= i < f.len() ==> !(d.len() < (#[trigger] f[i]).0.len() && f[i].0.take(d.len() as int)
            == d)
}

/// A path is told by the topmost directory above it that is new, and by itself
/// where none is.
pub proof fn law_topmost_new_directory(p: Names, f: Seq<(Names, FileSig)>, k: int)
    ensures
        0 < k < p.len() && is_new_dir(f, p.take(k)) && (forall|j: int|
            0 < j < k ==> !is_new_dir(f, #[trigger] p.take(j))) ==> root_of(p, f) == p.take(k),
        (forall|j: int| 0 < j < p.len() ==> !is_new_dir(f, #[trigger] p.take(j))) ==> root_of(p, f)
            == p,
{
    if 0 < k < p.len() && is_new_dir(f, p.take(k)) && (forall|j: int|
        0 < j < k ==> !is_new_dir(f, #[trigger] p.take(j))) {
        lemma_root_at(p, f, 1, k);
    }
    if forall|j: int| 0 < j < p.len() ==> !is_new_dir(f, #[trigger] p.take(j)) {
        lemma_no_root(p, f, 1);
    }
}

proof fn lemma_new_dir(f: Seq<(Names, FileSig)>, d: Names)
    ensures
        is_new_dir(f, d) <==> !holds_file(f, d),
{
    if holds_file(f, d) {
        let i = choose|i: int| 0 <= i < f.len() && is_above(d, (#[trigger] f[i]).0);
        assert(d.len() < f[i].0.len() && f[i].0.take(d.len() as int) == d);
    }
    if !is_new_dir(f, d) {
        let i = choose|i: int|
            0 <= i < f.len() && (d.len() < (#[trigger] f[i]).0.len() && f[i].0.take(d.len() as int)
                == d);
        assert(is_above(d, f[i].0));
    }
}

proof fn lemma_root_at(p: Names, f: Seq<(Names, FileSig)>, i: int, k: int)
    requires
        0 < i <= k < p.len(),
        is_new_dir(f, p.take(k)),
        forall|j: int| 0 < j < k ==> !is_new_dir(f, #[trigger] p.take(j)),
    ensures
        root_from(p, i, f) == p.take(k),
    decreases k - i,
{
    lemma_new_dir(f, p.take(i));
    if i < k {
        lemma_root_at(p, f, i + 1, k);
    }
}

proof fn lemma_no_root(p: Names, f: Seq<(Names, FileSig)>, i: int)
    requires
        0 < i,
        forall|j: int| 0 < j < p.len() ==> !is_new_dir(f, #[trigger] p.take(j)),
    ensures
        root_from(p, i, f) == p,
    decreases p.len() - i,
{
    if i < p.len() {
        lemma_new_dir(f, p.take(i));
        lemma_no_root(p, f, i + 1);
    }
}

/// A group of one path is a file, told by that path; one of several is a directory
/// with their number.
pub proof fn law_groups_are_files_or_directories(root: Names, members: Seq<Names>)
    ensures
        members.len() == 1 ==> group_entry((root, members)) == EntryView::File(
            joined(members[0], "/"@),
        ),
        members.len() != 1 ==> group_entry((root, members)) == EntryView::Dir(
            joined(root, "/"@),
            members.len(),
        ),
{
}

/// What came to the path is what it did not hold before, in order; nothing else
/// did.
pub proof fn law_path_diff_lists_what_is_new(before: Seq<Text>, after: Seq<Text>)
    ensures
        new_texts(before, after) == after.filter(|t: Text| !before.contains(t)),
    decreases after.len(),
{
    reveal(Seq::filter);
    if after.len() > 0 {
        law_path_diff_lists_what_is_new(before, after.drop_last());
    }
}

/// Only the directory `.git` is left out of a snapshot.
pub proof fn law_git_is_left_out(is_dir: bool, name: Text)
    ensures
        is_pruned(is_dir, name) <==> is_dir && name == seq!['.', 'g', 'i', 't'],
{
    reveal_strlit(".git");
    assert(".git"@ =~= seq!['.', 'g', 'i', 't']);
}

/// The entries of a change are the new directories and files of one side, each
/// once, and the modified files by their paths; a change that is not known lists
/// none and says so.
pub proof fn law_how_a_change_is_told(before: Seq<(Names, FileSig)>, after: Seq<(Names, FileSig)>)
    ensures
        fs_change(before, after).added == collapsed(only_in(after, before), before),
        fs_change(before, after).removed == collapsed(only_in(before, after), after),
        fs_change(before, after).modified.len() == modified_in(before, after).len(),
        forall|i: int|
            0 <= i < modified_in(before, after).len() ==> #[trigger] fs_change(
                before,
                after,
            ).modified[i] == joined(modified_in(before, after)[i], "/"@),
        !fs_change(before, after).truncated,
        fs_unknown().truncated,
        fs_unknown().added.len() == 0 && fs_unknown().removed.len() == 0
            && fs_unknown().modified.len() == 0,
{
}

/// The lists of an environment's change are in the order of the environments: what
/// was added and what changed as in the new one, what was removed as in the old.
pub proof fn law_env_diff_keeps_the_order(
    before: Seq<(Text, Text)>,
    after: Seq<(Text, Text)>,
    e: (Text, Text),
)
    ensures
        added_pairs(before, after) == after.filter(
            |p: (Text, Text)| lookup(before, p.0) is None,
        ),
        removed_keys(before, after) == before.filter(
            |p: (Text, Text)| lookup(after, p.0) is None,
        ).map_values(|p: (Text, Text)| p.0),
        changed_pairs(before, Seq::empty()) == Seq::<(Text, Text, Text)>::empty(),
        changed_pairs(before, after.push(e)) == (match lookup(before, e.0) {
            Some(old) => if old != e.1 {
                changed_pairs(before, after).push((e.0, old, e.1))
            } else {
                changed_pairs(before, after)
            },
            None => changed_pairs(before, after),
        }),
{
    lemma_added_filter(before, after);
    lemma_removed_filter(before, after);
    assert(after.push(e).drop_last() =~= after);
}

proof fn lemma_added_filter(before: Seq<(Text, Text)>, after: Seq<(Text, Text)>)
    ensures
        added_pairs(before, after) == after.filter(
            |p: (Text, Text)| lookup(before, p.0) is None,
        ),
    decreases after.len(),
{
    reveal(Seq::filter);
    if after.len() > 0 {
        lemma_added_filter(before, after.drop_last());
    }
}

proof fn lemma_removed_filter(before: Seq<(Text, Text)>, after: Seq<(Text, Text)>)
    ensures
        removed_keys(before, after) == before.filter(
            |p: (Text, Text)| lookup(after, p.0) is None,
        ).map_values(|p: (Text, Text)| p.0),
    decreases before.len(),
{
    reveal(Seq::filter);
    let f = |p: (Text, Text)| lookup(after, p.0) is None;
    let g = |p: (Text, Text)| p.0;
    if before.len() > 0 {
        let d = before.drop_last();
        lemma_removed_filter(d, after);
        if f(before.last()) {
            assert(before.filter(f) =~= d.filter(f).push(before.last()));
            assert(before.filter(f).map_values(g) =~= d.filter(f).map_values(g).push(
                before.last().0,
            ));
        } else {
            assert(before.filter(f) =~= d.filter(f));
        }
    } else {
        assert(before.filter(f).map_values(g) =~= Seq::empty());
    }
}

/// The files of a change are in the order of the snapshots.
pub proof fn law_fs_diff_keeps_the_order(
    f: Seq<(Names, FileSig)>,
    other: Seq<(Names, FileSig)>,
    e: (Names, FileSig),
)
    ensures
        only_in(Seq::empty(), other) == Seq::<Names>::empty(),
        sig_of(other, e.0) is None ==> only_in(f.push(e), other) == only_in(f, other).push(e.0),
        sig_of(other, e.0) is Some ==> only_in(f.push(e), other) == only_in(f, other),
        modified_in(other, Seq::empty()) == Seq::<Names>::empty(),
        sig_of(other, e.0) is Some && sig_of(other, e.0) != Some(e.1) ==> modified_in(
            other,
            f.push(e),
        ) == modified_in(other, f).push(e.0),
        sig_of(other, e.0) is None || sig_of(other, e.0) == Some(e.1) ==> modified_in(
            other,
            f.push(e),
        ) == modified_in(other, f),
{
    assert(f.push(e).drop_last() =~= f);
}

/// Groups stand in the order of their directories, each directory once.
pub proof fn law_groups_stand_in_order(paths: Seq<Names>, f: Seq<(Names, FileSig)>)
    ensures
        forall|i: int, j: int|
            0 <= i < j < groups(paths, f).len() ==> names_before(
                (#[trigger] groups(paths, f)[i]).0,
                (#[trigger] groups(paths, f)[j]).0,
            ),
    decreases paths.len(),
{
    if paths.len() > 0 {
        law_groups_stand_in_order(paths.drop_last(), f);
        lemma_member_order(groups(paths.drop_last(), f), root_of(paths.last(), f), paths.last());
    }
}

proof fn lemma_member_order(g: Seq<Group>, root: Names, p: Names)
    requires
        forall|i: int, j: int|
            0 <= i < j < g.len() ==> names_before((#[trigger] g[i]).0, (#[trigger] g[j]).0),
    ensures
        forall|i: int, j: int|
            0 <= i < j < with_member(g, root, p).len() ==> names_before(
                (#[trigger] with_member(g, root, p)[i]).0,
                (#[trigger] with_member(g, root, p)[j]).0,
            ),
        forall|i: int|
            0 <= i < with_member(g, root, p).len() ==> (#[trigger] with_member(g, root, p)[i]).0
                == root || exists|j: int|
                0 <= j < g.len() && (#[trigger] g[j]).0 == with_member(g, root, p)[i].0,
    decreases g.len(),
{
    let w = with_member(g, root, p);
    if g.len() > 0 {
        let d = g.drop_last();
        let last = g.last();
        let n = g.len() - 1;
        assert(g[n] == last);
        assert forall|i: int, j: int| 0 <= i < j < d.len() implies names_before(
            (#[trigger] d[i]).0,
            (#[trigger] d[j]).0,
        ) by {
            assert(names_before(g[i].0, g[j].0));
        }
        if last.0 == root {
            assert forall|i: int, j: int| 0 <= i < j < w.len() implies names_before(
                (#[trigger] w[i]).0,
                (#[trigger] w[j]).0,
            ) by {
                assert(w[i].0 == g[i].0 && w[j].0 == g[j].0);
                assert(names_before(g[i].0, g[j].0));
            }
            assert forall|i: int| 0 <= i < w.len() implies (#[trigger] w[i]).0 == root || exists|
                j: int,
            |
                0 <= j < g.len() && (#[trigger] g[j]).0 == w[i].0 by {
                assert(g[i].0 == w[i].0);
            }
        } else if names_before(last.0, root) {
            assert forall|i: int, j: int| 0 <= i < j < w.len() implies names_before(
                (#[trigger] w[i]).0,
                (#[trigger] w[j]).0,
            ) by {
                if j < g.len() {
                    assert(names_before(g[i].0, g[j].0));
                } else if i < n {
                    assert(names_before(g[i].0, g[n].0));
                    crate::relpath::law_names_before_is_transitive(g[i].0, last.0, root);
                }
            }
            assert forall|i: int| 0 <= i < w.len() implies (#[trigger] w[i]).0 == root || exists|
                j: int,
            |
                0 <= j < g.len() && (#[trigger] g[j]).0 == w[i].0 by {
                if i < g.len() {
                    assert(g[i].0 == w[i].0);
                }
            }
        } else {
            lemma_member_order(d, root, p);
            let u = with_member(d, root, p);
            law_names_before_is_total(last.0, root);
            assert(w =~= u.push(last));
            assert forall|i: int, j: int| 0 <= i < j < w.len() implies names_before(
                (#[trigger] w[i]).0,
                (#[trigger] w[j]).0,
            ) by {
                if j < u.len() {
                    assert(names_before(u[i].0, u[j].0));
                } else if u[i].0 != root {
                    let k = choose|k: int| 0 <= k < d.len() && (#[trigger] d[k]).0 == u[i].0;
                    assert(names_before(g[k].0, g[n].0));
                }
            }
            assert forall|i: int| 0 <= i < w.len() implies (#[trigger] w[i]).0 == root || exists|
                j: int,
            |
                0 <= j < g.len() && (#[trigger] g[j]).0 == w[i].0 by {
                if i < u.len() {
                    assert(w[i] == u[i]);
                    if u[i].0 != root {
                        let k = choose|k: int| 0 <= k < d.len() && (#[trigger] d[k]).0 == u[i].0;
                        assert(g[k].0 == w[i].0);
                    }
                } else {
                    assert(g[n].0 == w[i].0);
                }
            }
        }
    }
}

} // verus!
