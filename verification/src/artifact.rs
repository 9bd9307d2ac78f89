//! Local stand-ins for `actions/upload-artifact` and `actions/download-artifact`:
//! which reference names one, and which directory an upload is relative to.

use crate::paths::{from_components, parent, parent_components, path_of};
use crate::scan::{parts_of, split};
use crate::text::{str_eq, texts, Text};
use vstd::prelude::*;

verus! {

/// Which artifact action a `uses:` reference names.
#[derive(Debug, Clone, Copy, PartialEq, Eq, Structural)]
pub enum Kind {
    /// `actions/upload-artifact`
    Upload,
    /// `actions/download-artifact`
    Download,
}

/// The part of a reference before its version.
pub open spec fn unversioned(reference: Text) -> Text {
    parts_of(reference, '@')[0]
}

/// The artifact action that a reference names, at any version.
pub open spec fn kind_of(reference: Text) -> Option<Kind> {
    if unversioned(reference) == "actions/upload-artifact"@ {
        Some(Kind::Upload)
    } else if unversioned(reference) == "actions/download-artifact"@ {
        Some(Kind::Download)
    } else {
        None
    }
}

/// The part of a reference before its version.
pub fn without_version(reference: &str) -> (r: String)
    ensures
        r@ == unversioned(reference@),
{
    let parts = split(reference, '@');
    assert(parts_of(reference@, '@').len() >= 1);
    assert(texts(parts@).len() == parts@.len());
    assert(texts(parts@)[0] == parts@[0]@);
    parts[0].clone()
}

/// Recognize `actions/upload-artifact` and `actions/download-artifact` at any
/// version.
pub fn kind(reference: &str) -> (r: Option<Kind>)
    ensures
        r == kind_of(reference@),
{
    let name = without_version(reference);
    if str_eq(name.as_str(), "actions/upload-artifact") {
        Some(Kind::Upload)
    } else if str_eq(name.as_str(), "actions/download-artifact") {
        Some(Kind::Download)
    } else {
        None
    }
}

/// What two sequences start with alike.
pub open spec fn common(a: Seq<Text>, b: Seq<Text>) -> Seq<Text>
    decreases a.len(),
{
    if a.len() == 0 || b.len() == 0 || a[0] != b[0] {
        Seq::empty()
    } else {
        seq![a[0]] + common(a.skip(1), b.skip(1))
    }
}

/// What `prefix` and the directories of all files start with alike.
pub open spec fn common_with(prefix: Seq<Text>, files: Seq<Text>) -> Seq<Text>
    decreases files.len(),
{
    if files.len() == 0 {
        prefix
    } else {
        common_with(common(prefix, parent_components(files[0])), files.skip(1))
    }
}

/// What the directories of all files start with alike.
pub open spec fn common_parent(files: Seq<Text>) -> Seq<Text> {
    if files.len() == 0 {
        Seq::empty()
    } else {
        common_with(parent_components(files[0]), files.skip(1))
    }
}

/// What two sequences start with alike is what both hold up to where they differ.
proof fn lemma_common(a: Seq<Text>, b: Seq<Text>, n: int)
    requires
        0 <= n <= a.len(),
        n <= b.len(),
        forall|i: int| 0 <= i < n ==> a[i] == b[i],
        n == a.len() || n == b.len() || a[n] != b[n],
    ensures
        common(a, b) == a.take(n),
    decreases a.len(),
{
    if n == 0 {
        assert(a.take(0) =~= Seq::empty());
    } else {
        let x = a.skip(1);
        let y = b.skip(1);
        assert(forall|i: int| 0 <= i < n - 1 ==> x[i] == a[i + 1] && y[i] == b[i + 1]);
        lemma_common(x, y, n - 1);
        assert(seq![a[0]] + x.take(n - 1) =~= a.take(n));
    }
}

/// Cut a list of components where it differs from another.
fn keep_common(prefix: &mut Vec<String>, other: &Vec<String>)
    ensures
        texts(final(prefix)@) == common(texts(old(prefix)@), texts(other@)),
{
    let ghost a = texts(prefix@);
    let ghost b = texts(other@);
    let mut n: usize = 0;
    while n < prefix.len() && n < other.len() && str_eq(prefix[n].as_str(), other[n].as_str())
        invariant
            n <= prefix@.len(),
            n <= other@.len(),
            a == texts(prefix@),
            b == texts(other@),
            prefix@ == old(prefix)@,
            forall|i: int| 0 <= i < n ==> a[i] == b[i],
        decreases prefix@.len() - n,
    {
        assert(a[n as int] == prefix@[n as int]@);
        assert(b[n as int] == other@[n as int]@);
        n += 1;
    }
    proof {
        if n < prefix@.len() && n < other@.len() {
            assert(a[n as int] == prefix@[n as int]@);
            assert(b[n as int] == other@[n as int]@);
        }
        lemma_common(a, b, n as int);
    }
    prefix.truncate(n);
    assert(texts(prefix@) =~= a.take(n as int));
}

/// The longest common directory prefix of a set of files. An upload stores paths
/// relative to it, so `path: dist` stores what is in `dist`.
pub fn common_dir_prefix(files: &Vec<String>) -> (r: String)
    ensures
        r@ == path_of(common_parent(texts(files@))),
{
    let ghost all = texts(files@);
    if files.len() == 0 {
        let none = String::new();
        assert(none@ =~= path_of(Seq::empty()));
        return none;
    }
    let mut prefix = parent(files[0].as_str());
    let mut i: usize = 1;
    while i < files.len()
        invariant
            1 <= i <= files@.len(),
            all == texts(files@),
            common_parent(all) == common_with(texts(prefix@), all.skip(i as int)),
        decreases files@.len() - i,
    {
        assert(all.skip(i as int)[0] == files@[i as int]@);
        assert(all.skip(i as int).skip(1) =~= all.skip(i + 1));
        keep_common(&mut prefix, &parent(files[i].as_str()));
        i += 1;
    }
    from_components(&prefix)
}

// ---------------------------------------------------------------------------
// Laws
// ---------------------------------------------------------------------------

/// The version of a reference does not matter.
pub proof fn law_kind_ignores_the_version(name: Text, version: Text)
    requires
        forall|i: int| 0 <= i < name.len() ==> name[i] != '@',
    ensures
        kind_of(name + "@"@ + version) == kind_of(name),
{
    reveal_strlit("@");
    let whole = name + "@"@ + version;
    let n = name.len() as int;
    crate::scan::lemma_pos_from(whole, '@', 0);
    crate::scan::lemma_pos_from(name, '@', 0);
    assert(whole[n] == '@');
    assert forall|j: int| 0 <= j < n implies whole[j] != '@' by {
        assert(whole[j] == name[j]);
    }
    assert(crate::scan::pos_of(whole, '@') == Some(n));
    assert(whole.take(n) =~= name);
}

/// `a` starts with `p`.
pub open spec fn leads(p: Seq<Text>, a: Seq<Text>) -> bool {
    p.len() <= a.len() && forall|i: int| 0 <= i < p.len() ==> p[i] == a[i]
}

/// What two sequences start with alike leads both, and nothing longer does.
proof fn lemma_common_leads(a: Seq<Text>, b: Seq<Text>, p: Seq<Text>)
    ensures
        leads(common(a, b), a),
        leads(common(a, b), b),
        leads(p, a) && leads(p, b) ==> leads(p, common(a, b)),
    decreases a.len(),
{
    if !(a.len() == 0 || b.len() == 0 || a[0] != b[0]) {
        let x = a.skip(1);
        let y = b.skip(1);
        let c = common(x, y);
        if p.len() > 0 {
            lemma_common_leads(x, y, p.skip(1));
            if leads(p, a) && leads(p, b) {
                let q = p.skip(1);
                assert forall|i: int| 0 <= i < q.len() implies q[i] == x[i] && q[i] == y[i] by {
                    assert(p[i + 1] == a[i + 1] && p[i + 1] == b[i + 1]);
                }
                assert(leads(q, c));
                assert forall|i: int| 0 <= i < p.len() implies p[i] == common(a, b)[i] by {
                    if i > 0 {
                        assert(q[i - 1] == c[i - 1]);
                    } else {
                        assert(p[0] == a[0]);
                    }
                }
            }
        } else {
            lemma_common_leads(x, y, p);
        }
        assert forall|i: int| 0 <= i < common(a, b).len() implies common(a, b)[i] == a[i]
            && common(a, b)[i] == b[i] by {
            if i > 0 {
                assert(c[i - 1] == x[i - 1] && c[i - 1] == y[i - 1]);
            }
        }
    }
}

/// What leads a list of directories leads each, and nothing longer does.
proof fn lemma_common_with(prefix: Seq<Text>, files: Seq<Text>, p: Seq<Text>)
    ensures
        leads(common_with(prefix, files), prefix),
        forall|i: int|
            0 <= i < files.len() ==> leads(
                common_with(prefix, files),
                parent_components(#[trigger] files[i]),
            ),
        leads(p, prefix) && (forall|i: int|
            0 <= i < files.len() ==> leads(p, parent_components(#[trigger] files[i])))
            ==> leads(p, common_with(prefix, files)),
    decreases files.len(),
{
    if files.len() > 0 {
        let d = parent_components(files[0]);
        let c = common(prefix, d);
        let r = common_with(prefix, files);
        lemma_common_leads(prefix, d, p);
        lemma_common_with(c, files.skip(1), p);
        assert(leads(r, c));
        assert(leads(r, prefix));
        assert forall|i: int| 0 <= i < files.len() implies leads(
            r,
            parent_components(#[trigger] files[i]),
        ) by {
            if i > 0 {
                assert(files.skip(1)[i - 1] == files[i]);
            }
        }
        if leads(p, prefix) && (forall|i: int|
            0 <= i < files.len() ==> leads(p, parent_components(#[trigger] files[i]))) {
            assert(leads(p, parent_components(files[0])));
            assert forall|i: int| 0 <= i < files.skip(1).len() implies leads(
                p,
                parent_components(#[trigger] files.skip(1)[i]),
            ) by {
                assert(files.skip(1)[i] == files[i + 1]);
            }
        }
    }
}

/// The common prefix holds every file, and no longer one does.
pub proof fn law_common_prefix_is_the_longest(files: Seq<Text>, p: Seq<Text>)
    requires
        files.len() > 0,
    ensures
        forall|i: int|
            0 <= i < files.len() ==> leads(
                common_parent(files),
                parent_components(#[trigger] files[i]),
            ),
        (forall|i: int|
            0 <= i < files.len() ==> leads(p, parent_components(#[trigger] files[i]))) ==> p.len()
            <= common_parent(files).len(),
{
    let first = parent_components(files[0]);
    lemma_common_with(first, files.skip(1), p);
    assert forall|i: int| 0 <= i < files.len() implies leads(
        common_parent(files),
        parent_components(#[trigger] files[i]),
    ) by {
        if i > 0 {
            assert(files.skip(1)[i - 1] == files[i]);
        }
    }
    if forall|i: int|
        0 <= i < files.len() ==> leads(p, parent_components(#[trigger] files[i])) {
        assert(leads(p, parent_components(files[0])));
        assert forall|i: int| 0 <= i < files.skip(1).len() implies leads(
            p,
            parent_components(#[trigger] files.skip(1)[i]),
        ) by {
            assert(files.skip(1)[i] == files[i + 1]);
        }
    }
}

/// The two actions that move artifacts are told by their names, whatever the
/// version; no other is.
pub proof fn law_which_actions_move_artifacts(name: Text)
    requires
        !name.contains('@'),
    ensures
        kind_of(name) == Some(Kind::Upload) <==> name == "actions/upload-artifact"@,
        kind_of(name) == Some(Kind::Download) <==> name == "actions/download-artifact"@,
{
    reveal_strlit("actions/upload-artifact");
    reveal_strlit("actions/download-artifact");
    assert("actions/upload-artifact"@.len() == 23 && "actions/download-artifact"@.len() == 25);
    crate::scan::laws::law_cutting_at_the_first(name, '@');
    assert(parts_of(name, '@') =~= seq![name]);
}

} // verus!
