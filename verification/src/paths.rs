//! File paths as text, separated by `/`.

use crate::scan::{parts_of, split};
use crate::text::{
    begins, concat2, concat3, ends, ends_with, is_empty, starts_with, str_eq, texts, Text,
};
use vstd::prelude::*;

verus! {

/// A path from the root.
pub open spec fn is_absolute(p: Text) -> bool {
    begins(p, "/"@)
}

/// A path under another: an absolute one stands for itself.
pub open spec fn path_join(base: Text, p: Text) -> Text {
    if is_absolute(p) {
        p
    } else if base.len() == 0 || ends(base, "/"@) {
        base + p
    } else {
        base + "/"@ + p
    }
}

/// Whether a path starts at the root.
pub fn absolute(p: &str) -> (r: bool)
    ensures
        r == is_absolute(p@),
{
    starts_with(p, "/")
}

/// Put a path under another.
pub fn join_path(base: &str, p: &str) -> (r: String)
    ensures
        r@ == path_join(base@, p@),
{
    if absolute(p) {
        p.to_owned()
    } else if is_empty(base) || ends_with(base, "/") {
        concat2(base, p)
    } else {
        concat3(base, "/", p)
    }
}

/// The parts that count: no empty ones, and `.` only where it leads.
pub open spec fn kept_parts(parts: Seq<Text>, lead: bool) -> Seq<Text>
    decreases parts.len(),
{
    if parts.len() == 0 {
        Seq::empty()
    } else if parts[0].len() == 0 || (parts[0] == "."@ && !lead) {
        kept_parts(parts.skip(1), false)
    } else {
        seq![parts[0]] + kept_parts(parts.skip(1), false)
    }
}

/// The components of a path, the root among them as `/`.
pub open spec fn components_of(p: Text) -> Seq<Text> {
    if is_absolute(p) {
        seq!["/"@] + kept_parts(parts_of(p, '/'), false)
    } else {
        kept_parts(parts_of(p, '/'), true)
    }
}

/// The components of the directory that holds a path; the root and the empty path
/// have none.
pub open spec fn parent_components(p: Text) -> Seq<Text> {
    let c = components_of(p);
    if c.len() == 0 || c.last() == "/"@ {
        Seq::empty()
    } else {
        c.drop_last()
    }
}

/// The path that components make.
pub open spec fn path_of(c: Seq<Text>) -> Text
    decreases c.len(),
{
    if c.len() == 0 {
        Seq::empty()
    } else {
        path_join(path_of(c.drop_last()), c.last())
    }
}

/// Split a path into its components.
pub fn components(p: &str) -> (r: Vec<String>)
    ensures
        texts(r@) == components_of(p@),
{
    let parts = split(p, '/');
    let ghost all = texts(parts@);
    let abs = absolute(p);
    let mut out: Vec<String> = Vec::new();
    if abs {
        out.push("/".to_owned());
    }
    let ghost start = texts(out@);
    assert(abs ==> start =~= seq!["/"@]);
    assert(!abs ==> start =~= Seq::empty());
    assert(all.skip(0) =~= all);
    let mut i: usize = 0;
    let mut lead = !abs;
    let ghost first = !abs;
    while i < parts.len()
        invariant
            i <= parts@.len(),
            all == texts(parts@),
            start + kept_parts(all, first) == texts(out@) + kept_parts(all.skip(i as int), lead),
        decreases parts@.len() - i,
    {
        let ghost here = all.skip(i as int);
        assert(here[0] == parts@[i as int]@);
        assert(here.skip(1) =~= all.skip(i + 1));
        if !(is_empty(parts[i].as_str()) || (str_eq(parts[i].as_str(), ".") && !lead)) {
            let part = parts[i].clone();
            let ghost done = texts(out@);
            out.push(part);
            assert(texts(out@) =~= done + seq![part@]);
            assert(done + (seq![part@] + kept_parts(here.skip(1), false)) =~= texts(out@)
                + kept_parts(here.skip(1), false));
        }
        lead = false;
        i += 1;
    }
    assert(texts(out@) + Seq::<Text>::empty() =~= texts(out@));
    assert(Seq::<Text>::empty() + kept_parts(all, first) =~= kept_parts(all, first));
    out
}

/// The components of the directory that holds a path.
pub fn parent(p: &str) -> (r: Vec<String>)
    ensures
        texts(r@) == parent_components(p@),
{
    let mut c = components(p);
    let ghost all = texts(c@);
    match c.pop() {
        Some(last) => {
            assert(all.last() == last@);
            if str_eq(last.as_str(), "/") {
                let none: Vec<String> = Vec::new();
                assert(texts(none@) =~= Seq::empty());
                none
            } else {
                assert(texts(c@) =~= all.drop_last());
                c
            }
        },
        None => {
            assert(texts(c@) =~= Seq::empty());
            c
        },
    }
}

/// Make a path of components.
pub fn from_components(c: &Vec<String>) -> (r: String)
    ensures
        r@ == path_of(texts(c@)),
{
    let ghost all = texts(c@);
    let mut out = String::new();
    let mut i: usize = 0;
    assert(out@ =~= Seq::empty());
    assert(all.take(0) =~= Seq::empty());
    while i < c.len()
        invariant
            i <= c@.len(),
            all == texts(c@),
            out@ == path_of(all.take(i as int)),
        decreases c@.len() - i,
    {
        assert(all.take(i + 1).drop_last() =~= all.take(i as int));
        assert(all.take(i + 1).last() == c@[i as int]@);
        out = join_path(out.as_str(), c[i].as_str());
        i += 1;
    }
    assert(all.take(i as int) =~= all);
    out
}

// ---------------------------------------------------------------------------
// Laws
// ---------------------------------------------------------------------------

/// Empty parts and dots do not count among the names of a path, but for a dot in
/// front; every other part does, in order.
pub proof fn law_which_parts_count(part: Text, rest: Seq<Text>, lead: bool)
    ensures
        part.len() == 0 ==> kept_parts(seq![part] + rest, lead) == kept_parts(rest, false),
        part == seq!['.'] && !lead ==> kept_parts(seq![part] + rest, lead) == kept_parts(
            rest,
            false,
        ),
        part == seq!['.'] && lead ==> kept_parts(seq![part] + rest, lead) == seq![part]
            + kept_parts(rest, false),
        part.len() > 0 && part != seq!['.'] ==> kept_parts(seq![part] + rest, lead) == seq![part]
            + kept_parts(rest, false),
        kept_parts(Seq::empty(), lead) == Seq::<Text>::empty(),
{
    reveal_strlit(".");
    assert("."@ =~= seq!['.']);
    assert((seq![part] + rest).skip(1) =~= rest);
    assert((seq![part] + rest)[0] == part);
}

/// A path has the names between its slashes, behind the root where it starts
/// there; its parent has all of them but the last.
pub proof fn law_names_of_a_path(p: Text)
    ensures
        p.len() > 0 && p[0] == '/' ==> components_of(p) == seq![seq!['/']] + kept_parts(
            crate::scan::parts_of(p, '/'),
            false,
        ),
        !(p.len() > 0 && p[0] == '/') ==> components_of(p) == kept_parts(
            crate::scan::parts_of(p, '/'),
            true,
        ),
        components_of(p).len() > 0 && components_of(p).last() != seq!['/'] ==> parent_components(p)
            == components_of(p).drop_last(),
        components_of(p).len() == 0 || components_of(p).last() == seq!['/'] ==> parent_components(
            p,
        ).len() == 0,
{
    reveal_strlit("/");
    assert("/"@ =~= seq!['/']);
    if p.len() > 0 {
        assert(p.subrange(0, 1)[0] == p[0]);
        if p[0] == '/' {
            assert(p.subrange(0, 1) =~= seq!['/']);
        }
    }
}

/// Names make a path one after another, each under what came before.
pub proof fn law_paths_are_made_of_names(c: Seq<Text>, name: Text)
    ensures
        path_of(Seq::empty()) == Seq::<char>::empty(),
        path_of(c.push(name)) == path_join(path_of(c), name),
{
    assert(c.push(name).drop_last() =~= c);
}

} // verus!
