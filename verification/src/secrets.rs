//! The secrets that a run can refer to: dotenv files, `--secret NAME[=VALUE]`
//! flags, and references to secret managers.

use crate::numtext::{decimal, usize_text};
use crate::results::{after_done, ahead};
use crate::scan::{
    chomp, chomped, cut, cut_last, lines, lines_of, rsplit_once, split_once, trim, trimmed,
};
use crate::strmap::{map_entries, map_new, put_pairs, StrMap};
use crate::table::{collected, lookup, put_all};
use crate::text::{
    after_prefix, begins, chars_of, concat2, concat3, concat4, is_empty, pairs, slice_text,
    starts_with, str_eq, strip_prefix, texts, Text,
};
use vstd::prelude::*;

verus! {

/// Why secrets cannot be loaded.
#[derive(Debug)]
pub enum SecretError {
    /// A line of a secret file without an equals sign.
    NoEquals(usize),
    /// A line of a secret file without a key.
    EmptyKey(usize),
    /// A flag with a value and no name, by the whole flag.
    EmptyName(String),
    /// A flag with nothing in it.
    Nothing,
    /// A name that is not in the environment.
    NotSet(String),
    /// A Vault reference without a field.
    NoField(String),
    /// A secret manager that failed, by its name and what it said.
    Tool(String, String),
}

/// [`SecretError`] over views.
pub enum SecretFault {
    /// A line of a secret file without an equals sign.
    NoEquals(nat),
    /// A line of a secret file without a key.
    EmptyKey(nat),
    /// A flag with a value and no name.
    EmptyName(Text),
    /// A flag with nothing in it.
    Nothing,
    /// A name that is not in the environment.
    NotSet(Text),
    /// A Vault reference without a field.
    NoField(Text),
    /// A secret manager that failed.
    Tool(Text, Text),
}

impl View for SecretError {
    type V = SecretFault;

    open spec fn view(&self) -> SecretFault {
        match *self {
            SecretError::NoEquals(n) => SecretFault::NoEquals(n as nat),
            SecretError::EmptyKey(n) => SecretFault::EmptyKey(n as nat),
            SecretError::EmptyName(t) => SecretFault::EmptyName(t@),
            SecretError::Nothing => SecretFault::Nothing,
            SecretError::NotSet(t) => SecretFault::NotSet(t@),
            SecretError::NoField(t) => SecretFault::NoField(t@),
            SecretError::Tool(a, b) => SecretFault::Tool(a@, b@),
        }
    }
}

/// The message of an error.
pub open spec fn secret_message(f: SecretFault) -> Text {
    match f {
        SecretFault::NoEquals(n) => "secret file line "@ + decimal(n) + ": expected `KEY=VALUE`"@,
        SecretFault::EmptyKey(n) => "secret file line "@ + decimal(n) + ": empty key"@,
        SecretFault::EmptyName(t) => "--secret `"@ + t + "`: empty name"@,
        SecretFault::Nothing => "--secret: empty name"@,
        SecretFault::NotSet(t) => "--secret "@ + t + ": environment variable `"@ + t
            + "` is not set"@,
        SecretFault::NoField(t) => "Vault reference must be `vault://<path>#<field>`, got `"@ + t
            + "`"@,
        SecretFault::Tool(a, b) => "`"@ + a + "` failed: "@ + b,
    }
}

impl SecretError {
    /// The message of the error.
    pub fn message(&self) -> (r: String)
        ensures
            r@ == secret_message(self@),
    {
        match self {
            SecretError::NoEquals(n) => concat3(
                "secret file line ",
                usize_text(*n).as_str(),
                ": expected `KEY=VALUE`",
            ),
            SecretError::EmptyKey(n) => concat3(
                "secret file line ",
                usize_text(*n).as_str(),
                ": empty key",
            ),
            SecretError::EmptyName(t) => concat3("--secret `", t.as_str(), "`: empty name"),
            SecretError::Nothing => "--secret: empty name".to_owned(),
            SecretError::NotSet(t) => {
                let head = concat3("--secret ", t.as_str(), ": environment variable `");
                concat3(head.as_str(), t.as_str(), "` is not set")
            },
            SecretError::NoField(t) => concat3(
                "Vault reference must be `vault://<path>#<field>`, got `",
                t.as_str(),
                "`",
            ),
            SecretError::Tool(a, b) => concat4("`", a.as_str(), "` failed: ", b.as_str()),
        }
    }
}

// ---------------------------------------------------------------------------
// Flags
// ---------------------------------------------------------------------------

/// A `--secret` flag's name and value; a bare name takes its value from the
/// environment.
pub open spec fn flag_secret(entry: Text, env: Seq<(Text, Text)>) -> Result<
    (Text, Text),
    SecretFault,
> {
    match cut(entry, '=') {
        Some(p) => if trimmed(p.0).len() == 0 {
            Err(SecretFault::EmptyName(entry))
        } else {
            Ok((trimmed(p.0), p.1))
        },
        None => {
            let name = trimmed(entry);
            if name.len() == 0 {
                Err(SecretFault::Nothing)
            } else {
                match lookup(env, name) {
                    Some(v) => Ok((name, v)),
                    None => Err(SecretFault::NotSet(name)),
                }
            }
        },
    }
}

/// The value of the first pair with a key.
pub fn find_pair(v: &Vec<(String, String)>, k: &str) -> (r: Option<String>)
    ensures
        crate::text::opt_text(r) == lookup(pairs(v@), k@),
{
    let ghost all = pairs(v@);
    assert(all.skip(0) =~= all);
    let mut i: usize = 0;
    while i < v.len()
        invariant
            i <= v@.len(),
            all == pairs(v@),
            lookup(all, k@) == lookup(all.skip(i as int), k@),
        decreases v@.len() - i,
    {
        assert(all.skip(i as int).skip(1) =~= all.skip(i + 1));
        if str_eq(v[i].0.as_str(), k) {
            return Some(v[i].1.clone());
        }
        i += 1;
    }
    None
}

/// Split a `--secret` entry: `NAME=VALUE`, or a bare `NAME` whose value is in the
/// environment.
pub fn split_secret(entry: &str, env: &Vec<(String, String)>) -> (r: Result<
    (String, String),
    SecretError,
>)
    ensures
        (match r {
            Ok(p) => Ok((p.0@, p.1@)),
            Err(e) => Err(e@),
        }) == flag_secret(entry@, pairs(env@)),
{
    match split_once(entry, '=') {
        Some(p) => {
            let k = trim(p.0.as_str());
            if is_empty(k.as_str()) {
                Err(SecretError::EmptyName(entry.to_owned()))
            } else {
                Ok((k, p.1))
            }
        },
        None => {
            let name = trim(entry);
            if is_empty(name.as_str()) {
                return Err(SecretError::Nothing);
            }
            match find_pair(env, name.as_str()) {
                Some(v) => Ok((name, v)),
                None => Err(SecretError::NotSet(name)),
            }
        },
    }
}

// ---------------------------------------------------------------------------
// Secret managers
// ---------------------------------------------------------------------------

/// How a secret's value is had.
#[derive(Debug)]
pub enum Resolution {
    /// It is the text itself.
    Literal(String),
    /// A program prints it.
    Tool {
        /// The program.
        bin: String,
        /// Its arguments.
        args: Vec<String>,
        /// What is being done, for a failure.
        about: String,
    },
}

/// [`Resolution`] over views.
#[verifier::ext_equal]
pub enum ResolutionView {
    /// It is the text itself.
    Literal(Text),
    /// A program prints it: the program, its arguments, what is being done.
    Tool(Text, Seq<Text>, Text),
}

impl View for Resolution {
    type V = ResolutionView;

    open spec fn view(&self) -> ResolutionView {
        match *self {
            Resolution::Literal(t) => ResolutionView::Literal(t@),
            Resolution::Tool { bin, args, about } => ResolutionView::Tool(
                bin@,
                texts(args@),
                about@,
            ),
        }
    }
}

/// How the value of a secret is had: `op://` through the 1Password program,
/// `vault://path#field` through the Vault one, anything else as it stands. A path
/// that starts with a dash is not read as a flag.
pub open spec fn resolution(raw: Text) -> Result<ResolutionView, SecretFault> {
    if begins(raw, "op://"@) {
        Ok(
            ResolutionView::Tool(
                "op"@,
                seq!["read"@, "--no-newline"@, raw],
                "resolving a 1Password (op://) reference"@,
            ),
        )
    } else {
        match after_prefix(raw, "vault://"@) {
            Some(rest) => match cut_last(rest, '#') {
                Some(p) => Ok(
                    ResolutionView::Tool(
                        "vault"@,
                        seq!["kv"@, "get"@, "-field="@ + p.1, "--"@, p.0],
                        "resolving a Vault (vault://) reference"@,
                    ),
                ),
                None => Err(SecretFault::NoField(raw)),
            },
            None => Ok(ResolutionView::Literal(raw)),
        }
    }
}

/// Decide how the value of a secret is had.
pub fn resolve(raw: &str) -> (r: Result<Resolution, SecretError>)
    ensures
        (match r {
            Ok(x) => Ok(x@),
            Err(e) => Err(e@),
        }) == resolution(raw@),
{
    if starts_with(raw, "op://") {
        let args: Vec<String> = vec![
            "read".to_owned(),
            "--no-newline".to_owned(),
            raw.to_owned(),
        ];
        assert(texts(args@) =~= seq!["read"@, "--no-newline"@, raw@]);
        return Ok(
            Resolution::Tool {
                bin: "op".to_owned(),
                args,
                about: "resolving a 1Password (op://) reference".to_owned(),
            },
        );
    }
    match strip_prefix(raw, "vault://") {
        Some(rest) => match rsplit_once(rest.as_str(), '#') {
            Some(p) => {
                let field = concat2("-field=", p.1.as_str());
                let args: Vec<String> = vec![
                    "kv".to_owned(),
                    "get".to_owned(),
                    field,
                    "--".to_owned(),
                    p.0,
                ];
                assert(texts(args@) =~= seq!["kv"@, "get"@, "-field="@ + p.1@, "--"@, p.0@]);
                Ok(
                    Resolution::Tool {
                        bin: "vault".to_owned(),
                        args,
                        about: "resolving a Vault (vault://) reference".to_owned(),
                    },
                )
            },
            None => Err(SecretError::NoField(raw.to_owned())),
        },
        None => Ok(Resolution::Literal(raw.to_owned())),
    }
}

/// What a secret manager's run gives: its output without the line ends at its
/// end, or what it complained of.
pub fn tool_output(bin: &str, success: bool, stdout: &str, stderr: &str) -> (r: Result<
    String,
    SecretError,
>)
    ensures
        (match r {
            Ok(t) => Ok(t@),
            Err(e) => Err(e@),
        }) == (if success {
            Ok(chomped(stdout@))
        } else {
            Err(SecretFault::Tool(bin@, trimmed(stderr@)))
        }),
{
    if success {
        Ok(chomp(stdout))
    } else {
        Err(SecretError::Tool(bin.to_owned(), trim(stderr)))
    }
}

// ---------------------------------------------------------------------------
// Secret files
// ---------------------------------------------------------------------------

/// A text without one pair of matching quotes around it.
pub open spec fn unquoted(s: Text) -> Text {
    if s.len() >= 2 && s[0] == s.last() && (s[0] == '"' || s[0] == '\'') {
        s.subrange(1, s.len() - 1)
    } else {
        s
    }
}

/// Strip a single pair of matching surrounding quotes.
pub fn unquote(s: &str) -> (r: String)
    ensures
        r@ == unquoted(s@),
{
    let v = chars_of(s);
    if v.len() >= 2 && v[0] == v[v.len() - 1] && (v[0] == '"' || v[0] == '\'') {
        slice_text(&v, 1, v.len() - 1)
    } else {
        s.to_owned()
    }
}

/// A line that sets nothing: blank, or a comment.
pub open spec fn sets_nothing(line: Text) -> bool {
    trimmed(line).len() == 0 || begins(trimmed(line), "#"@)
}

/// What a line that sets something sets; `no` is its number.
pub open spec fn dotenv_line(line: Text, no: nat) -> Result<(Text, Text), SecretFault> {
    let t = trimmed(line);
    let body = match after_prefix(t, "export "@) {
        Some(b) => b,
        None => t,
    };
    match cut(body, '=') {
        None => Err(SecretFault::NoEquals(no)),
        Some(p) => if trimmed(p.0).len() == 0 {
            Err(SecretFault::EmptyKey(no))
        } else {
            Ok((trimmed(p.0), unquoted(trimmed(p.1))))
        },
    }
}

/// What the lines of a secret file set, in order; `from` lines come before them.
pub open spec fn dotenv(ls: Seq<Text>, from: nat) -> Result<Seq<(Text, Text)>, SecretFault>
    decreases ls.len(),
{
    if ls.len() == 0 {
        Ok(Seq::empty())
    } else if sets_nothing(ls[0]) {
        dotenv(ls.skip(1), from + 1)
    } else {
        ahead(dotenv_line(ls[0], from + 1), dotenv(ls.skip(1), from + 1))
    }
}

/// What a line that sets something sets.
fn parse_dotenv_line(line: &str, no: usize) -> (r: Result<(String, String), SecretError>)
    ensures
        (match r {
            Ok(p) => Ok((p.0@, p.1@)),
            Err(e) => Err(e@),
        }) == dotenv_line(line@, no as nat),
{
    let t = trim(line);
    let body = match strip_prefix(t.as_str(), "export ") {
        Some(b) => b,
        None => t,
    };
    match split_once(body.as_str(), '=') {
        None => Err(SecretError::NoEquals(no)),
        Some(p) => {
            let k = trim(p.0.as_str());
            if is_empty(k.as_str()) {
                Err(SecretError::EmptyKey(no))
            } else {
                Ok((k, unquote(trim(p.1.as_str()).as_str())))
            }
        },
    }
}

/// A minimal dotenv parser: `KEY=VALUE`, whole-line `#` comments, blank lines,
/// optional surrounding quotes, an optional `export ` prefix.
///
/// There are no inline comments: `#` can stand in a secret.
pub fn parse_dotenv(content: &str) -> (r: Result<Vec<(String, String)>, SecretError>)
    ensures
        (match r {
            Ok(v) => Ok(pairs(v@)),
            Err(e) => Err(e@),
        }) == dotenv(lines_of(content@), 0),
{
    let ls = lines(content);
    let ghost all = texts(ls@);
    let n = ls.len();
    let mut out: Vec<(String, String)> = Vec::new();
    let mut i: usize = 0;
    proof {
        assert(all.skip(0) =~= all);
        assert(pairs(out@) =~= Seq::empty());
        match dotenv(all, 0) {
            Ok(t) => {
                assert(Seq::<(Text, Text)>::empty() + t =~= t);
            },
            Err(_) => {},
        }
    }
    while i < n
        invariant
            i <= n,
            n == ls@.len(),
            all == texts(ls@),
            all == lines_of(content@),
            dotenv(all, 0) == after_done(pairs(out@), dotenv(all.skip(i as int), i as nat)),
        decreases n - i,
    {
        let ghost here = all.skip(i as int);
        assert(here[0] == ls@[i as int]@);
        assert(here.skip(1) =~= all.skip(i + 1));
        let t = trim(ls[i].as_str());
        if !is_empty(t.as_str()) && !starts_with(t.as_str(), "#") {
            match parse_dotenv_line(ls[i].as_str(), i + 1) {
                Err(e) => {
                    return Err(e);
                },
                Ok(p) => {
                    let ghost done = pairs(out@);
                    let ghost kv = (p.0@, p.1@);
                    out.push(p);
                    proof {
                        assert(pairs(out@) =~= done + seq![kv]);
                        match dotenv(all.skip(i + 1), (i + 1) as nat) {
                            Ok(rest) => {
                                assert(done + (seq![kv] + rest) =~= pairs(out@) + rest);
                            },
                            Err(_) => {},
                        }
                    }
                },
            }
        }
        i += 1;
    }
    assert(pairs(out@) + Seq::<(Text, Text)>::empty() =~= pairs(out@));
    Ok(out)
}

/// The secrets of a run, given those of the secret file and those of the flags
/// with their values: flags override the file.
pub fn load_secrets(file: &Vec<(String, String)>, inline: &Vec<(String, String)>) -> (r: StrMap)
    ensures
        map_entries(r) == put_all(collected(pairs(file@)), pairs(inline@)),
{
    let mut m = map_new();
    put_pairs(&mut m, file);
    put_pairs(&mut m, inline);
    m
}

// ---------------------------------------------------------------------------
// Laws
// ---------------------------------------------------------------------------

/// A value that names no secret manager is passed through.
pub proof fn law_literals_pass_through(raw: Text)
    requires
        !begins(raw, "op://"@),
        !begins(raw, "vault://"@),
    ensures
        resolution(raw) == Ok::<ResolutionView, SecretFault>(ResolutionView::Literal(raw)),
{
}

/// Quotes around a value come off once.
pub proof fn law_one_pair_of_quotes_comes_off(s: Text, q: char)
    requires
        q == '"' || q == '\'',
    ensures
        unquoted(seq![q] + s + seq![q]) == s,
{
    let w = seq![q] + s + seq![q];
    assert(w.subrange(1, w.len() - 1) =~= s);
}

/// A line that is blank or a comment changes nothing but the count of lines.
pub proof fn law_comments_set_nothing(line: Text, ls: Seq<Text>, from: nat)
    requires
        sets_nothing(line),
    ensures
        dotenv(seq![line] + ls, from) == dotenv(ls, from + 1),
{
    assert((seq![line] + ls).skip(1) =~= ls);
}

/// The last flag for a name gives its value, whatever the file and the flags
/// before it say.
pub proof fn law_flags_override_the_file(
    file: Seq<(Text, Text)>,
    inline: Seq<(Text, Text)>,
    k: Text,
    v: Text,
)
    ensures
        lookup(put_all(collected(file), inline.push((k, v))), k) == Some(v),
{
    assert(inline.push((k, v)).drop_last() =~= inline);
    crate::table::law_put_then_lookup(put_all(collected(file), inline), k, v, k);
}

/// A flag `NAME=VALUE` sets the value as it stands under the trimmed name; `NAME`
/// alone takes the variable of that name; an empty name is an error.
pub proof fn law_flags_name_their_secret(name: Text, value: Text, env: Seq<(Text, Text)>)
    requires
        !name.contains('='),
    ensures
        trimmed(name).len() > 0 ==> flag_secret(name + seq!['='] + value, env) == Ok::<
            (Text, Text),
            SecretFault,
        >((trimmed(name), value)),
        trimmed(name).len() == 0 ==> flag_secret(name + seq!['='] + value, env) == Err::<
            (Text, Text),
            SecretFault,
        >(SecretFault::EmptyName(name + seq!['='] + value)),
        trimmed(name).len() > 0 ==> (lookup(env, trimmed(name)) matches Some(v) ==> flag_secret(
            name,
            env,
        ) == Ok::<(Text, Text), SecretFault>((trimmed(name), v))),
        trimmed(name).len() > 0 && lookup(env, trimmed(name)) is None ==> flag_secret(name, env)
            == Err::<(Text, Text), SecretFault>(SecretFault::NotSet(trimmed(name))),
        trimmed(name).len() == 0 ==> flag_secret(name, env) == Err::<(Text, Text), SecretFault>(
            SecretFault::Nothing,
        ),
{
    lemma_cut_at(name, '=', value);
    crate::scan::laws::law_cutting_at_the_first(name, '=');
}

proof fn lemma_cut_at(a: Text, c: char, b: Text)
    requires
        !a.contains(c),
    ensures
        cut(a + seq![c] + b, c) == Some((a, b)),
{
    let s = a + seq![c] + b;
    let n = a.len() as int;
    crate::scan::lemma_pos_from(s, c, 0);
    assert(s[n] == c);
    let e = crate::scan::pos_of(s, c)->Some_0;
    if e < n {
        assert(a[e] == c);
    }
    assert(e == n);
    assert(s.take(n) =~= a);
    assert(s.skip(n + 1) =~= b);
}

/// A 1Password reference is read with `op`, a Vault reference with `vault`, whose
/// field stands behind the last `#`; one without a field is an error.
pub proof fn law_references_are_resolved(r: Text, path: Text, field: Text)
    requires
        !field.contains('#'),
    ensures
        resolution("op://"@ + r) == Ok::<ResolutionView, SecretFault>(
            ResolutionView::Tool(
                "op"@,
                seq!["read"@, "--no-newline"@, "op://"@ + r],
                "resolving a 1Password (op://) reference"@,
            ),
        ),
        resolution("vault://"@ + path + seq!['#'] + field) == Ok::<ResolutionView, SecretFault>(
            ResolutionView::Tool(
                "vault"@,
                seq!["kv"@, "get"@, "-field="@ + field, "--"@, path],
                "resolving a Vault (vault://) reference"@,
            ),
        ),
        !path.contains('#') ==> resolution("vault://"@ + path) == Err::<
            ResolutionView,
            SecretFault,
        >(SecretFault::NoField("vault://"@ + path)),
{
    reveal_strlit("op://");
    reveal_strlit("vault://");
    let o = "op://"@ + r;
    assert(o.subrange(0, 5) =~= "op://"@);
    let rest = path + seq!['#'] + field;
    let v = "vault://"@ + path + seq!['#'] + field;
    assert(v =~= "vault://"@ + rest);
    crate::text::law_prefixes_and_suffixes(rest, "vault://"@);
    crate::text::law_prefixes_and_suffixes(path, "vault://"@);
    assert("op://"@[0] == 'o' && "vault://"@[0] == 'v');
    if begins(v, "op://"@) {
        assert(v.subrange(0, 5)[0] == 'o');
    }
    let u = "vault://"@ + path;
    if begins(u, "op://"@) {
        assert(u.subrange(0, 5)[0] == 'o');
    }
    crate::scan::laws::law_cutting_at_the_last(rest, '#');
    let n = path.len() as int;
    assert(rest[n] == '#');
    assert(rest.contains('#'));
    let e = crate::scan::last_pos(rest, '#')->Some_0;
    if e > n {
        assert(field[e - n - 1] == '#');
    }
    assert(e == n);
    assert(rest.take(n) =~= path);
    assert(rest.skip(n + 1) =~= field);
    crate::scan::laws::law_cutting_at_the_last(path, '#');
}

/// A line of a secrets file sets the trimmed key to the value without its quotes,
/// whether or not `export` stands before it; a line without an equals sign or with
/// an empty key is an error that gives its number.
pub proof fn law_lines_of_a_secrets_file(line: Text, k: Text, v: Text, no: nat)
    requires
        !k.contains('='),
        trimmed(line) == k + seq!['='] + v,
        forall|t: Text| trimmed(line) != #[trigger] ("export "@ + t),
    ensures
        trimmed(k).len() > 0 ==> dotenv_line(line, no) == Ok::<(Text, Text), SecretFault>(
            (trimmed(k), unquoted(trimmed(v))),
        ),
        trimmed(k).len() == 0 ==> dotenv_line(line, no) == Err::<(Text, Text), SecretFault>(
            SecretFault::EmptyKey(no),
        ),
{
    lemma_cut_at(k, '=', v);
    let t = trimmed(line);
    if let Some(b) = after_prefix(t, "export "@) {
        crate::text::law_prefixes_and_suffixes(t, "export "@);
        assert(t == "export "@ + b);
    }
}

/// `export` in front of an assignment does not count.
pub proof fn law_export_does_not_count(line: Text, k: Text, v: Text, no: nat)
    requires
        !k.contains('='),
        trimmed(line) == "export "@ + (k + seq!['='] + v),
        trimmed(k).len() > 0,
    ensures
        dotenv_line(line, no) == Ok::<(Text, Text), SecretFault>(
            (trimmed(k), unquoted(trimmed(v))),
        ),
{
    lemma_cut_at(k, '=', v);
    crate::text::law_prefixes_and_suffixes(k + seq!['='] + v, "export "@);
}

/// A line without an equals sign is an error that gives its number.
pub proof fn law_secrets_need_a_value(line: Text, no: nat)
    requires
        !trimmed(line).contains('='),
    ensures
        dotenv_line(line, no) == Err::<(Text, Text), SecretFault>(SecretFault::NoEquals(no)),
{
    let t = trimmed(line);
    crate::scan::laws::law_cutting_at_the_first(t, '=');
    if let Some(b) = after_prefix(t, "export "@) {
        crate::text::law_prefixes_and_suffixes(t, "export "@);
        crate::scan::laws::law_cutting_at_the_first(b, '=');
        if b.contains('=') {
            let i = choose|i: int| 0 <= i < b.len() && b[i] == '=';
            assert(t["export "@.len() + i] == '=');
        }
    }
}

/// The lines of a secrets file are read in order, and numbered from one.
pub proof fn law_secrets_files_are_read_in_order(line: Text, ls: Seq<Text>, from: nat)
    requires
        !sets_nothing(line),
    ensures
        dotenv_line(line, from + 1) matches Ok(p) ==> (dotenv(ls, from + 1) matches Ok(r)
            ==> dotenv(seq![line] + ls, from) == Ok::<Seq<(Text, Text)>, SecretFault>(
            seq![p] + r,
        )),
        dotenv_line(line, from + 1) matches Err(f) ==> dotenv(seq![line] + ls, from) == Err::<
            Seq<(Text, Text)>,
            SecretFault,
        >(f),
        sets_nothing(line) <==> trimmed(line).len() == 0 || trimmed(line)[0] == '#',
{
    assert((seq![line] + ls).skip(1) =~= ls);
    assert((seq![line] + ls)[0] == line);
    reveal_strlit("#");
    let t = trimmed(line);
    if t.len() > 0 && t[0] == '#' {
        assert(t.subrange(0, 1) =~= "#"@);
    }
}

/// What is not in a pair of quotes is as it stands.
pub proof fn law_other_quotes_stay(s: Text)
    requires
        s.len() < 2 || s[0] != s.last() || (s[0] != '"' && s[0] != '\''),
    ensures
        unquoted(s) == s,
{
}

/// What each fault says, with the line, the name or the tool that it is about.
pub proof fn law_what_secret_faults_say(n: nat, t: Text, a: Text)
    ensures
        secret_message(SecretFault::NoEquals(n)) == "secret file line "@ + decimal(n)
            + ": expected `KEY=VALUE`"@,
        secret_message(SecretFault::EmptyKey(n)) == "secret file line "@ + decimal(n)
            + ": empty key"@,
        secret_message(SecretFault::EmptyName(t)) == "--secret `"@ + t + "`: empty name"@,
        secret_message(SecretFault::Nothing) == "--secret: empty name"@,
        secret_message(SecretFault::NotSet(t)) == "--secret "@ + t + ": environment variable `"@ + t
            + "` is not set"@,
        secret_message(SecretFault::NoField(t))
            == "Vault reference must be `vault://<path>#<field>`, got `"@ + t + "`"@,
        secret_message(SecretFault::Tool(a, t)) == "`"@ + a + "` failed: "@ + t,
{
}

} // verus!
