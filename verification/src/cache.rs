//! Where the local store behind the `actions/cache` stand-in keeps its entries:
//! under `~/.cache/stepci/cache`, by a hash of the key.

use crate::numtext::{digits, nat_text};
use crate::paths::{is_absolute, join_path, path_join};
use crate::scan::{trim, trimmed};
use crate::text::{after_prefix, clone_opt, ends, opt_text, str_eq, strip_prefix, Text};
use std::collections::hash_map::DefaultHasher;
use std::hash::{BuildHasher, BuildHasherDefault};
use vstd::prelude::*;

verus! {

/// The home directory: `HOME`, or else `USERPROFILE`.
pub open spec fn home_of(home: Option<Text>, profile: Option<Text>) -> Option<Text> {
    match home {
        Some(h) => Some(h),
        None => profile,
    }
}

/// The home directory, from the values of `HOME` and `USERPROFILE`.
pub fn home(given: &Option<String>, profile: &Option<String>) -> (r: Option<String>)
    ensures
        opt_text(r) == home_of(opt_text(*given), opt_text(*profile)),
{
    match given {
        Some(h) => Some(h.clone()),
        None => clone_opt(profile),
    }
}

/// A directory under the home directory, or a complaint that there is none.
pub open spec fn under_home(home: Option<Text>, sub: Text, complaint: Text) -> Result<Text, Text> {
    match home {
        Some(h) => Ok(path_join(h, sub)),
        None => Err(complaint),
    }
}

/// A directory under the home directory.
pub fn home_subdir(home: &Option<String>, sub: &str, complaint: &str) -> (r: Result<
    String,
    String,
>)
    ensures
        (match r {
            Ok(p) => Ok(p@),
            Err(e) => Err(e@),
        }) == under_home(opt_text(*home), sub@, complaint@),
{
    match home {
        Some(h) => Ok(join_path(h.as_str(), sub)),
        None => Err(complaint.to_owned()),
    }
}

/// The root of the on-disk cache (`~/.cache/stepci/cache`), given the home
/// directory.
pub fn cache_root(home: &Option<String>) -> (r: Result<String, String>)
    ensures
        (match r {
            Ok(p) => Ok(p@),
            Err(e) => Err(e@),
        }) == under_home(
            opt_text(*home),
            ".cache/stepci/cache"@,
            "no HOME directory for the cache"@,
        ),
{
    home_subdir(home, ".cache/stepci/cache", "no HOME directory for the cache")
}

/// The hash of a key.
pub uninterp spec fn key_hash(key: Seq<char>) -> u64;

/// `BuildHasher::hash_one`, with `DefaultHasher`, of a string. Equal strings hash
/// alike, and all hashers that are made this way are the same, so that the result
/// depends on the string alone. Which number it is is up to the standard library.
#[verifier::external_body]
fn text_hash(key: &str) -> (r: u64)
    ensures
        r == key_hash(key@),
{
    BuildHasherDefault::<DefaultHasher>::default().hash_one(key)
}

/// The name of a key's entry.
pub open spec fn key_name(key: Text) -> Text {
    digits(key_hash(key) as nat, 16)
}

/// A stable name for a cache key that is safe in a file system: its hash in
/// hexadecimal.
pub fn hash_key(key: &str) -> (r: String)
    ensures
        r@ == key_name(key@),
{
    nat_text(text_hash(key) as u128, 16)
}

/// The directory that holds the entry of a cache key.
pub fn entry_dir(root: &str, key: &str) -> (r: String)
    ensures
        r@ == path_join(root@, key_name(key@)),
{
    join_path(root, hash_key(key).as_str())
}

/// Where a `path` entry points: `~` is the home directory, and a relative path is
/// taken under the workspace.
pub open spec fn resolved_path(entry: Text, workspace: Text, home: Option<Text>) -> Text {
    let e = trimmed(entry);
    match (home, after_prefix(e, "~/"@)) {
        (Some(h), Some(rest)) => path_join(h, rest),
        (Some(h), None) => if e == "~"@ {
            h
        } else {
            path_join(workspace, e)
        },
        (None, _) => path_join(workspace, e),
    }
}

/// Resolve a cache `path` entry to an absolute path.
pub fn resolve_path(entry: &str, workspace: &str, home: &Option<String>) -> (r: String)
    ensures
        r@ == resolved_path(entry@, workspace@, opt_text(*home)),
{
    let e = trim(entry);
    match home {
        Some(h) => {
            match strip_prefix(e.as_str(), "~/") {
                Some(rest) => {
                    return join_path(h.as_str(), rest.as_str());
                },
                None => {},
            }
            if str_eq(e.as_str(), "~") {
                return h.clone();
            }
        },
        None => {},
    }
    join_path(workspace, e.as_str())
}

// ---------------------------------------------------------------------------
// Laws
// ---------------------------------------------------------------------------

/// An absolute path stands for itself, whatever the workspace and the home
/// directory are.
pub proof fn law_absolute_paths_stand(p: Text, workspace: Text, home: Option<Text>)
    requires
        is_absolute(trimmed(p)),
    ensures
        resolved_path(p, workspace, home) == trimmed(p),
{
    reveal_strlit("/");
    reveal_strlit("~/");
    reveal_strlit("~");
    let e = trimmed(p);
    assert(e.subrange(0, 1)[0] == '/');
    if crate::text::begins(e, "~/"@) {
        assert(e.subrange(0, 2)[0] == '~');
    }
}

/// A lower-case hexadecimal digit.
pub open spec fn is_hex(c: char) -> bool {
    '0' <= c <= '9' || 'a' <= c <= 'f'
}

/// A number below a power of sixteen has at most that many hexadecimal digits.
proof fn lemma_hex_digits(n: nat, k: nat)
    requires
        n < sixteen_to(k),
        k >= 1,
    ensures
        1 <= digits(n, 16).len() <= k,
        forall|i: int| 0 <= i < digits(n, 16).len() ==> is_hex(#[trigger] digits(n, 16)[i]),
    decreases k,
{
    if n >= 16 {
        if k == 1 {
            assert(sixteen_to(0) == 1);
        } else {
            lemma_hex_digits(n / 16, (k - 1) as nat);
        }
    }
}

/// Sixteen to a power.
spec fn sixteen_to(k: nat) -> nat
    decreases k,
{
    if k == 0 {
        1
    } else {
        16 * sixteen_to((k - 1) as nat)
    }
}

/// The name of an entry is one to sixteen lower-case hexadecimal digits, whatever
/// the key is.
pub proof fn law_entry_names_are_hex(key: Text)
    ensures
        1 <= key_name(key).len() <= 16,
        forall|i: int| 0 <= i < key_name(key).len() ==> is_hex(#[trigger] key_name(key)[i]),
{
    reveal_with_fuel(sixteen_to, 17);
    assert(sixteen_to(16) == 0x1_0000_0000_0000_0000);
    lemma_hex_digits(key_hash(key) as nat, 16);
}

/// An entry lies directly under the root of the cache, whatever the key is: it is
/// the root, a slash unless the root ends with one, and a name that holds none.
pub proof fn law_entries_lie_under_the_root(root: Text, key: Text)
    requires
        root.len() > 0,
    ensures
        path_join(root, key_name(key)) == if ends(root, "/"@) {
            root + key_name(key)
        } else {
            root + "/"@ + key_name(key)
        },
        forall|i: int| 0 <= i < key_name(key).len() ==> #[trigger] key_name(key)[i] != '/',
        key_name(key) != "."@,
        key_name(key) != ".."@,
{
    reveal_strlit("/");
    reveal_strlit(".");
    reveal_strlit("..");
    law_entry_names_are_hex(key);
    let n = key_name(key);
    assert(is_hex(n[0]));
    if is_absolute(n) {
        assert(n.subrange(0, 1)[0] == n[0]);
    }
}

/// `HOME` counts before the profile, and what lies under the home directory is an
/// error where there is none.
pub proof fn law_where_home_is(home: Option<Text>, profile: Option<Text>, sub: Text, said: Text)
    ensures
        home matches Some(h) ==> home_of(home, profile) == Some(h),
        home is None ==> home_of(home, profile) == profile,
        home matches Some(h) ==> under_home(home, sub, said) == Ok::<Text, Text>(
            path_join(h, sub),
        ),
        home is None ==> under_home(home, sub, said) == Err::<Text, Text>(said),
{
}

/// A path to cache lies under the home directory where it begins with `~/`, is
/// that directory where it is `~`, and lies under the workspace otherwise; white
/// space around it does not count.
pub proof fn law_where_a_cached_path_lies(
    entry: Text,
    rest: Text,
    workspace: Text,
    h: Text,
    home: Option<Text>,
)
    ensures
        trimmed(entry) == seq!['~', '/'] + rest ==> resolved_path(entry, workspace, Some(h))
            == path_join(h, rest),
        trimmed(entry) == seq!['~'] ==> resolved_path(entry, workspace, Some(h)) == h,
        trimmed(entry).len() > 0 && trimmed(entry)[0] != '~' ==> resolved_path(
            entry,
            workspace,
            home,
        ) == path_join(workspace, trimmed(entry)),
        resolved_path(entry, workspace, None) == path_join(workspace, trimmed(entry)),
{
    reveal_strlit("~/");
    reveal_strlit("~");
    let e = trimmed(entry);
    assert("~/"@ =~= seq!['~', '/']);
    assert("~"@ =~= seq!['~']);
    crate::text::law_prefixes_and_suffixes(rest, "~/"@);
    if crate::text::begins(e, "~/"@) {
        assert(e.subrange(0, 2)[0] == '~');
        assert(e[0] == '~');
    }
}

} // verus!
