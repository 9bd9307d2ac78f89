//! Remote actions, `owner/repo[/subdir]@ref`: what a reference means, and how the
//! repository is fetched into a local cache.

use crate::cache::{home_subdir, under_home};
use crate::paths::{join_path, path_join};
use crate::scan::{contains, cut, holds, split_once, trim, trimmed};
use crate::text::{
    begins, chars_of, concat2, concat3, concat4, concat5, is_alpha, is_ascii_alphabetic, is_ascii_digit,
    is_digit, is_empty, opt_text, starts_with, str_eq, texts, Text,
};
use vstd::prelude::*;

verus! {

/// A parsed remote action reference.
#[derive(Debug, Clone, PartialEq)]
pub struct RemoteRef {
    /// The repository's owner.
    pub owner: String,
    /// The repository.
    pub repo: String,
    /// The path to the action within the repository, if it is not at the root.
    pub subpath: Option<String>,
    /// The git ref: a tag, a branch or a commit.
    pub git_ref: String,
}

/// [`RemoteRef`] over views.
#[verifier::ext_equal]
pub struct RemoteView {
    /// The repository's owner.
    pub owner: Text,
    /// The repository.
    pub repo: Text,
    /// The path to the action within the repository.
    pub subpath: Option<Text>,
    /// The git ref.
    pub git_ref: Text,
}

impl View for RemoteRef {
    type V = RemoteView;

    open spec fn view(&self) -> RemoteView {
        RemoteView {
            owner: self.owner@,
            repo: self.repo@,
            subpath: opt_text(self.subpath),
            git_ref: self.git_ref@,
        }
    }
}

/// A character of a name.
pub open spec fn name_char(c: char) -> bool {
    is_alpha(c) || is_digit(c) || c == '.' || c == '-' || c == '_'
}

/// Not empty, with no leading dash and no `..`: such a text is neither a flag nor
/// a way out of a directory.
pub open spec fn is_safe(s: Text) -> bool {
    s.len() > 0 && !begins(s, "-"@) && !holds(s, ".."@)
}

/// An owner's or a repository's name.
pub open spec fn is_name(s: Text) -> bool {
    is_safe(s) && forall|i: int| 0 <= i < s.len() ==> name_char(s[i])
}

/// A git ref: like a name, but a slash may stand in it.
pub open spec fn is_ref(s: Text) -> bool {
    is_safe(s) && forall|i: int| 0 <= i < s.len() ==> name_char(s[i]) || s[i] == '/'
}

/// A path within a repository: like a ref, but not absolute.
pub open spec fn is_subpath(s: Text) -> bool {
    is_ref(s) && !begins(s, "/"@)
}

/// What a path `owner/repo[/sub]` and a ref mean.
pub open spec fn remote_parts(path: Text, git_ref: Text) -> Option<RemoteView> {
    match cut(path, '/') {
        None => None,
        Some(p) => {
            let (repo, sub) = match cut(p.1, '/') {
                Some(q) => (q.0, if q.1.len() == 0 {
                    None
                } else {
                    Some(q.1)
                }),
                None => (p.1, None),
            };
            if !is_name(p.0) || !is_name(repo) || !is_ref(git_ref) {
                None
            } else if sub matches Some(s) && !is_subpath(s) {
                None
            } else {
                Some(RemoteView { owner: p.0, repo, subpath: sub, git_ref })
            }
        },
    }
}

/// What a reference means, if it is a remote one; a path that starts with `./` is
/// a local one.
pub open spec fn remote(reference: Text) -> Option<RemoteView> {
    if begins(reference, "./"@) {
        None
    } else {
        match cut(reference, '@') {
            None => None,
            Some(p) => remote_parts(p.0, p.1),
        }
    }
}

/// Whether a text is neither a flag nor a way out of a directory.
fn safe(s: &str) -> (r: bool)
    ensures
        r == is_safe(s@),
{
    !is_empty(s) && !starts_with(s, "-") && !contains(s, "..")
}

/// Whether all characters are those of a name, or slashes where they may stand.
fn name_chars(s: &str, slash: bool) -> (r: bool)
    ensures
        r == (forall|i: int| 0 <= i < s@.len() ==> name_char(s@[i]) || (slash && s@[i] == '/')),
{
    let v = chars_of(s);
    let mut i: usize = 0;
    while i < v.len()
        invariant
            i <= v@.len(),
            v@ == s@,
            forall|k: int| 0 <= k < i ==> name_char(s@[k]) || (slash && s@[k] == '/'),
        decreases v@.len() - i,
    {
        let c = v[i];
        if !(is_ascii_alphabetic(c) || is_ascii_digit(c) || c == '.' || c == '-' || c == '_' || (
        slash && c == '/')) {
            return false;
        }
        i += 1;
    }
    true
}

/// An owner's or a repository's name: alphanumerics, `.`, `-` and `_`, with no
/// leading `-` and no `..`.
pub fn valid_name(s: &str) -> (r: bool)
    ensures
        r == is_name(s@),
{
    safe(s) && name_chars(s, false)
}

/// A git ref: like a name, but it may hold `/`.
pub fn valid_ref(s: &str) -> (r: bool)
    ensures
        r == is_ref(s@),
{
    safe(s) && name_chars(s, true)
}

/// A path within a repository: like a ref, but it does not start at the root.
pub fn valid_subpath(s: &str) -> (r: bool)
    ensures
        r == is_subpath(s@),
{
    valid_ref(s) && !starts_with(s, "/")
}

/// Parse an `owner/repo[/sub/path]@ref` reference; `None` if it is not of that
/// shape, as a local `./` path is not, or if a component is unsafe.
pub fn parse_remote(reference: &str) -> (r: Option<RemoteRef>)
    ensures
        (match r {
            Some(x) => Some(x@),
            None => None,
        }) == remote(reference@),
{
    if starts_with(reference, "./") {
        return None;
    }
    let (path, git_ref) = match split_once(reference, '@') {
        Some(p) => p,
        None => {
            return None;
        },
    };
    let (owner, rest) = match split_once(path.as_str(), '/') {
        Some(p) => p,
        None => {
            return None;
        },
    };
    let (repo, subpath): (String, Option<String>) = match split_once(rest.as_str(), '/') {
        Some(q) => {
            if is_empty(q.1.as_str()) {
                (q.0, None)
            } else {
                (q.0, Some(q.1))
            }
        },
        None => (rest, None),
    };
    if !valid_name(owner.as_str()) || !valid_name(repo.as_str()) || !valid_ref(git_ref.as_str()) {
        return None;
    }
    match &subpath {
        Some(s) => {
            if !valid_subpath(s.as_str()) {
                return None;
            }
        },
        None => {},
    }
    Some(RemoteRef { owner, repo, subpath, git_ref })
}

/// The root of the on-disk action cache (`~/.cache/stepci/actions`), given the
/// home directory.
pub fn cache_root(home: &Option<String>) -> (r: Result<String, String>)
    ensures
        (match r {
            Ok(p) => Ok(p@),
            Err(e) => Err(e@),
        }) == under_home(
            opt_text(*home),
            ".cache/stepci/actions"@,
            "no HOME directory for the action cache"@,
        ),
{
    home_subdir(home, ".cache/stepci/actions", "no HOME directory for the action cache")
}

/// How a remote action is fetched.
#[derive(Debug)]
pub struct FetchPlan {
    /// Where the repository goes.
    pub repo_dir: String,
    /// A directory that is there once the repository has been fetched.
    pub marker: String,
    /// The git commands that fetch it, in order, by their arguments.
    pub commands: Vec<Vec<String>>,
    /// The directory of the action.
    pub action_dir: String,
}

/// A ref with its slashes turned into underscores.
pub open spec fn flat_ref(s: Text) -> Text {
    s.map_values(
        |c: char|
            if c == '/' || c == '\\' {
                '_'
            } else {
                c
            },
    )
}

/// Where the repository of a reference goes.
pub open spec fn repo_dir_of(r: RemoteView, root: Text) -> Text {
    path_join(path_join(path_join(root, r.owner), r.repo), flat_ref(r.git_ref))
}

/// The git commands that fetch a reference.
pub open spec fn git_commands(r: RemoteView) -> Seq<Seq<Text>> {
    seq![
        seq!["init"@, "-q"@],
        seq!["remote"@, "add"@, "origin"@, "https://github.com/"@ + r.owner + "/"@ + r.repo],
        seq!["fetch"@, "-q"@, "--depth"@, "1"@, "origin"@, r.git_ref],
        seq!["checkout"@, "-q"@, "FETCH_HEAD"@],
    ]
}

/// Argument lists over views.
pub open spec fn arg_lists(v: Seq<Vec<String>>) -> Seq<Seq<Text>> {
    v.map_values(|a: Vec<String>| texts(a@))
}

/// Turn the slashes of a ref into underscores.
fn flatten_ref(s: &str) -> (r: String)
    ensures
        r@ == flat_ref(s@),
{
    let v = chars_of(s);
    let mut out = String::new();
    let mut i: usize = 0;
    assert(out@ =~= flat_ref(s@).take(0));
    while i < v.len()
        invariant
            i <= v@.len(),
            v@ == s@,
            out@ == flat_ref(s@).take(i as int),
        decreases v@.len() - i,
    {
        let c = v[i];
        out.push(
            if c == '/' || c == '\\' {
                '_'
            } else {
                c
            },
        );
        assert(out@ =~= flat_ref(s@).take(i + 1));
        i += 1;
    }
    assert(flat_ref(s@).take(i as int) =~= flat_ref(s@));
    out
}

/// Plan how a remote action is fetched: a shallow fetch of the exact ref, which
/// may be a tag, a branch or a commit.
pub fn fetch_plan(r: &RemoteRef, root: &str) -> (p: FetchPlan)
    ensures
        p.repo_dir@ == repo_dir_of(r@, root@),
        p.marker@ == path_join(repo_dir_of(r@, root@), ".git"@),
        arg_lists(p.commands@) == git_commands(r@),
        p.action_dir@ == (match r@.subpath {
            Some(sub) => path_join(repo_dir_of(r@, root@), sub),
            None => repo_dir_of(r@, root@),
        }),
{
    let a = join_path(root, r.owner.as_str());
    let b = join_path(a.as_str(), r.repo.as_str());
    let repo_dir = join_path(b.as_str(), flatten_ref(r.git_ref.as_str()).as_str());
    let url = concat4("https://github.com/", r.owner.as_str(), "/", r.repo.as_str());
    let mut commands: Vec<Vec<String>> = Vec::new();
    let c0: Vec<String> = vec!["init".to_owned(), "-q".to_owned()];
    let c1: Vec<String> = vec!["remote".to_owned(), "add".to_owned(), "origin".to_owned(), url];
    let c2: Vec<String> = vec![
        "fetch".to_owned(),
        "-q".to_owned(),
        "--depth".to_owned(),
        "1".to_owned(),
        "origin".to_owned(),
        r.git_ref.clone(),
    ];
    let c3: Vec<String> = vec!["checkout".to_owned(), "-q".to_owned(), "FETCH_HEAD".to_owned()];
    proof {
        let want = git_commands(r@);
        assert(texts(c0@) =~= want[0]);
        assert(texts(c1@) =~= want[1]);
        assert(texts(c2@) =~= want[2]);
        assert(texts(c3@) =~= want[3]);
    }
    commands.push(c0);
    commands.push(c1);
    commands.push(c2);
    commands.push(c3);
    assert(arg_lists(commands@) =~= git_commands(r@));
    let marker = join_path(repo_dir.as_str(), ".git");
    let action_dir = match &r.subpath {
        Some(sub) => join_path(repo_dir.as_str(), sub.as_str()),
        None => repo_dir.clone(),
    };
    FetchPlan { repo_dir, marker, commands, action_dir }
}

/// What is said where a git command goes wrong: fetching names the action.
pub open spec fn git_message(r: RemoteView, args: Seq<Text>, what: Text) -> Text {
    if args.len() > 0 && args[0] == "fetch"@ {
        ("fetching `"@ + r.owner + "/"@ + r.repo + "@"@) + (r.git_ref + "`: "@ + what)
    } else {
        what
    }
}

/// Say what went wrong with a git command.
fn git_wrong(r: &RemoteRef, args: &Vec<String>, what: &str) -> (m: String)
    ensures
        m@ == git_message(r@, texts(args@), what@),
{
    proof {
        if args@.len() > 0 {
            assert(texts(args@)[0] == args@[0]@);
        }
    }
    if args.len() > 0 && str_eq(args[0].as_str(), "fetch") {
        let mut head = concat5("fetching `", r.owner.as_str(), "/", r.repo.as_str(), "@");
        let tail = concat3(r.git_ref.as_str(), "`: ", what);
        head.append(tail.as_str());
        head
    } else {
        what.to_owned()
    }
}

/// The name of a git command.
pub open spec fn git_name(args: Seq<Text>) -> Text {
    if args.len() > 0 {
        args[0]
    } else {
        ""@
    }
}

/// Say that a git command failed, given what it printed.
pub fn git_failure(r: &RemoteRef, args: &Vec<String>, stderr: &str) -> (m: String)
    ensures
        m@ == git_message(
            r@,
            texts(args@),
            "git "@ + git_name(texts(args@)) + ": "@ + trimmed(stderr@),
        ),
{
    let name = if args.len() > 0 {
        args[0].as_str()
    } else {
        ""
    };
    proof {
        if args@.len() > 0 {
            assert(texts(args@)[0] == args@[0]@);
        }
    }
    git_wrong(r, args, concat4("git ", name, ": ", trim(stderr).as_str()).as_str())
}

/// Say that git did not start, and why.
pub fn git_not_started(r: &RemoteRef, args: &Vec<String>, why: &str) -> (m: String)
    ensures
        m@ == git_message(r@, texts(args@), "failed to run git: "@ + why@),
{
    git_wrong(r, args, concat2("failed to run git: ", why).as_str())
}

// ---------------------------------------------------------------------------
// Laws
// ---------------------------------------------------------------------------

/// Every component of a reference that is accepted is safe: it is no flag for
/// git, and it does not lead out of the cache.
pub proof fn law_remote_components_are_safe(reference: Text)
    ensures
        remote(reference) matches Some(r) ==> is_name(r.owner) && is_name(r.repo) && is_ref(
            r.git_ref,
        ) && (r.subpath matches Some(s) ==> is_subpath(s)),
{
}

/// A local path, whatever follows, is no remote reference.
pub proof fn law_local_paths_are_not_remote(path: Text)
    ensures
        remote("./"@ + path) is None,
        remote("../"@ + path) is None,
{
    reveal_strlit("./");
    reveal_strlit("../");
    reveal_strlit("..");
    let s = "./"@ + path;
    assert(s.subrange(0, 2) =~= "./"@);
    let t = "../"@ + path;
    match cut(t, '@') {
        Some(p) => {
            crate::scan::lemma_pos_from(t, '@', 0);
            crate::scan::lemma_pos_from(p.0, '/', 0);
            assert(t[0] == '.' && t[1] == '.' && t[2] == '/');
            assert(p.0.len() >= 3 && p.0[0] == '.' && p.0[1] == '.' && p.0[2] == '/');
            assert(crate::scan::pos_of(p.0, '/') == Some(2int));
            let owner = p.0.take(2);
            assert(owner.subrange(0, 2) =~= ".."@);
            crate::scan::lemma_index_from(owner, ".."@, 0);
            assert(crate::text::has_at(owner, ".."@, 0));
            assert(holds(owner, ".."@));
        },
        None => {},
    }
}

/// A reference made of valid components reads back as those components; an owner
/// that is a dot makes a local path.
pub proof fn law_references_read_back(r: RemoteView)
    requires
        is_name(r.owner),
        r.owner != "."@,
        is_name(r.repo),
        is_ref(r.git_ref),
        r.subpath matches Some(s) ==> is_subpath(s),
    ensures
        remote(
            r.owner + "/"@ + r.repo + (match r.subpath {
                Some(s) => "/"@ + s,
                None => Seq::empty(),
            }) + "@"@ + r.git_ref,
        ) == Some(r),
{
    reveal_strlit("/");
    reveal_strlit("@");
    let tail: Text = match r.subpath {
        Some(s) => "/"@ + s,
        None => Seq::empty(),
    };
    let path = r.owner + "/"@ + r.repo + tail;
    let whole = path + "@"@ + r.git_ref;
    assert(forall|i: int| 0 <= i < path.len() ==> path[i] != '@') by {
        assert forall|i: int| 0 <= i < path.len() implies path[i] != '@' by {
            let a = r.owner.len() as int;
            let b = r.repo.len() as int;
            if i < a {
                assert(path[i] == r.owner[i]);
            } else if i == a {
                assert(path[i] == '/');
            } else if i < a + 1 + b {
                assert(path[i] == r.repo[i - a - 1]);
            } else {
                assert(path[i] == tail[i - a - 1 - b]);
                match r.subpath {
                    Some(s) => {
                        if i > a + 1 + b {
                            assert(tail[i - a - 1 - b] == s[i - a - 2 - b]);
                        }
                    },
                    None => {},
                }
            }
        }
    }
    assert(!begins(whole, "./"@)) by {
        reveal_strlit("./");
        reveal_strlit(".");
        if begins(whole, "./"@) {
            assert(whole.subrange(0, 2)[0] == whole[0] && whole.subrange(0, 2)[1] == whole[1]);
            if r.owner.len() == 1 {
                assert(whole[0] == r.owner[0]);
                assert(r.owner =~= "."@);
            } else {
                assert(whole[1] == r.owner[1]);
                assert(name_char(r.owner[1]));
            }
        }
    }
    lemma_cut(path, '@', r.git_ref);
    assert(whole =~= path + seq!['@'] + r.git_ref);
    let rest = r.repo + tail;
    lemma_cut(r.owner, '/', rest);
    assert(path =~= r.owner + seq!['/'] + rest);
    match r.subpath {
        Some(s) => {
            lemma_cut(r.repo, '/', s);
            assert(rest =~= r.repo + seq!['/'] + s);
        },
        None => {
            assert(rest =~= r.repo);
            crate::scan::lemma_pos_from(rest, '/', 0);
        },
    }
}

/// A text cut at the first of a character falls into what stands around it.
proof fn lemma_cut(a: Text, c: char, b: Text)
    requires
        forall|i: int| 0 <= i < a.len() ==> a[i] != c,
    ensures
        cut(a + seq![c] + b, c) == Some((a, b)),
{
    let s = a + seq![c] + b;
    let n = a.len() as int;
    crate::scan::lemma_pos_from(s, c, 0);
    assert(s[n] == c);
    assert forall|j: int| 0 <= j < n implies s[j] != c by {
        assert(s[j] == a[j]);
    }
    assert(crate::scan::pos_of(s, c) == Some(n));
    assert(s.take(n) =~= a);
    assert(s.skip(n + 1) =~= b);
}

/// Names are letters, digits, dots, hyphens and underscores; they do not begin
/// with a hyphen, hold two dots in a row or stand empty. A ref may hold slashes
/// too, and a subpath as well, but not in front.
pub proof fn law_which_names_are_safe(s: Text)
    ensures
        is_name(s) <==> {
            &&& s.len() > 0
            &&& s[0] != '-'
            &&& forall|i: int| 0 <= i < s.len() - 1 ==> !(#[trigger] s[i] == '.' && s[i + 1] == '.')
            &&& forall|i: int|
                0 <= i < s.len() ==> 'a' <= #[trigger] s[i] <= 'z' || 'A' <= s[i] <= 'Z' || '0'
                    <= s[i] <= '9' || s[i] == '.' || s[i] == '-' || s[i] == '_'
        },
        is_ref(s) <==> {
            &&& s.len() > 0
            &&& s[0] != '-'
            &&& forall|i: int| 0 <= i < s.len() - 1 ==> !(#[trigger] s[i] == '.' && s[i + 1] == '.')
            &&& forall|i: int|
                0 <= i < s.len() ==> 'a' <= #[trigger] s[i] <= 'z' || 'A' <= s[i] <= 'Z' || '0'
                    <= s[i] <= '9' || s[i] == '.' || s[i] == '-' || s[i] == '_' || s[i] == '/'
        },
        is_subpath(s) <==> is_ref(s) && s[0] != '/',
{
    reveal_strlit("-");
    reveal_strlit("..");
    reveal_strlit("/");
    crate::scan::lemma_index_from(s, ".."@, 0);
    if s.len() > 0 {
        assert(s.subrange(0, 1)[0] == s[0]);
        if s[0] == '-' {
            assert(s.subrange(0, 1) =~= "-"@);
        }
        if s[0] == '/' {
            assert(s.subrange(0, 1) =~= "/"@);
        }
    }
    if let Some(i) = crate::scan::index_of(s, ".."@) {
        assert(s.subrange(i, i + 2)[0] == '.');
        assert(s.subrange(i, i + 2)[1] == '.');
        assert(s[i] == '.' && s[i + 1] == '.');
    } else {
        assert forall|i: int| 0 <= i < s.len() - 1 implies !(#[trigger] s[i] == '.' && s[i + 1]
            == '.') by {
            if s[i] == '.' && s[i + 1] == '.' {
                assert(s.subrange(i, i + 2) =~= ".."@);
                assert(crate::text::has_at(s, ".."@, i));
            }
        }
    }
}

/// A reference without a version, or with an owner, repository, version or subpath
/// that is not safe, is none.
pub proof fn law_other_references_are_refused(
    owner: Text,
    repo: Text,
    sub: Text,
    git_ref: Text,
    s: Text,
)
    requires
        !owner.contains('/'),
        !owner.contains('@'),
        !repo.contains('/'),
        !repo.contains('@'),
        !sub.contains('@'),
    ensures
        !s.contains('@') ==> remote(s) is None,
        !is_name(owner) || !is_name(repo) || !is_ref(git_ref) ==> remote(
            owner + seq!['/'] + repo + seq!['@'] + git_ref,
        ) is None,
        sub.len() > 0 && (!is_name(owner) || !is_name(repo) || !is_ref(git_ref) || !is_subpath(
            sub,
        )) ==> remote(owner + seq!['/'] + repo + seq!['/'] + sub + seq!['@'] + git_ref) is None,
{
    crate::scan::laws::law_cutting_at_the_first(s, '@');
    let p = owner + seq!['/'] + repo;
    let w = p + seq!['@'] + git_ref;
    lemma_no_char(owner, '/', repo, '@');
    lemma_cut_here(p, '@', git_ref);
    lemma_cut_here(owner, '/', repo);
    crate::scan::laws::law_cutting_at_the_first(repo, '/');
    let r = repo + seq!['/'] + sub;
    let q = owner + seq!['/'] + repo + seq!['/'] + sub;
    assert(q =~= owner + seq!['/'] + r);
    lemma_no_char(repo, '/', sub, '@');
    lemma_no_char(owner, '/', r, '@');
    lemma_cut_here(q, '@', git_ref);
    lemma_cut_here(owner, '/', r);
    lemma_cut_here(repo, '/', sub);
    assert(q + seq!['@'] + git_ref =~= owner + seq!['/'] + repo + seq!['/'] + sub + seq!['@']
        + git_ref);
}

proof fn lemma_no_char(a: Text, s: char, b: Text, c: char)
    requires
        s != c,
        !a.contains(c),
        !b.contains(c),
    ensures
        !(a + seq![s] + b).contains(c),
{
    let w = a + seq![s] + b;
    if w.contains(c) {
        let i = choose|i: int| 0 <= i < w.len() && w[i] == c;
        if i < a.len() {
            assert(a[i] == c);
        } else if i > a.len() {
            assert(b[i - a.len() - 1] == c);
        }
    }
}

proof fn lemma_cut_here(a: Text, c: char, b: Text)
    requires
        !a.contains(c),
    ensures
        cut(a + seq![c] + b, c) == Some((a, b)),
{
    let s = a + seq![c] + b;
    let n = a.len() as int;
    crate::scan::lemma_pos_from(s, c, 0);
    assert(s[n] == c);
    let e = crate::scan::pos_of(s, c)->Some_0;
    if e < n {
        assert(a[e] == c);
    }
    assert(e == n);
    assert(s.take(n) =~= a);
    assert(s.skip(n + 1) =~= b);
}

/// A repository is kept under its owner, its name and its version, in which
/// slashes become underscores.
pub proof fn law_where_a_repository_is_kept(r: RemoteView, root: Text, i: int)
    ensures
        repo_dir_of(r, root) == path_join(
            path_join(path_join(root, r.owner), r.repo),
            flat_ref(r.git_ref),
        ),
        flat_ref(r.git_ref).len() == r.git_ref.len(),
        0 <= i < r.git_ref.len() && (r.git_ref[i] == '/' || r.git_ref[i] == '\\') ==> flat_ref(
            r.git_ref,
        )[i] == '_',
        0 <= i < r.git_ref.len() && r.git_ref[i] != '/' && r.git_ref[i] != '\\' ==> flat_ref(
            r.git_ref,
        )[i] == r.git_ref[i],
{
}

/// A repository is fetched in four steps, of which the third asks for the one
/// version, from the repository on GitHub.
pub proof fn law_how_a_repository_is_fetched(r: RemoteView, what: Text)
    ensures
        git_commands(r).len() == 4,
        git_commands(r)[0] == seq!["init"@, "-q"@],
        git_commands(r)[1] == seq![
            "remote"@,
            "add"@,
            "origin"@,
            "https://github.com/"@ + r.owner + "/"@ + r.repo,
        ],
        git_commands(r)[2] == seq!["fetch"@, "-q"@, "--depth"@, "1"@, "origin"@, r.git_ref],
        git_commands(r)[3] == seq!["checkout"@, "-q"@, "FETCH_HEAD"@],
        git_message(r, git_commands(r)[2], what) == "fetching `"@ + r.owner + "/"@ + r.repo + "@"@
            + (r.git_ref + "`: "@ + what),
        git_message(r, git_commands(r)[0], what) == what,
        git_message(r, git_commands(r)[1], what) == what,
        git_message(r, git_commands(r)[3], what) == what,
{
    reveal_strlit("fetch");
    reveal_strlit("init");
    reveal_strlit("remote");
    reveal_strlit("checkout");
    assert("fetch"@[0] == 'f' && "init"@[0] == 'i' && "remote"@[0] == 'r' && "checkout"@[0] == 'c');
    assert(git_commands(r)[0][0] == "init"@ && git_commands(r)[1][0] == "remote"@
        && git_commands(r)[2][0] == "fetch"@ && git_commands(r)[3][0] == "checkout"@);
}

} // verus!
