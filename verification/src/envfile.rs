//! The files that a step writes to talk back to the runner: `$GITHUB_ENV` and
//! `$GITHUB_OUTPUT` (`KEY=VALUE` or a heredoc) and `$GITHUB_PATH` (one path per
//! line).

use crate::results::{after_done, ahead};
use crate::scan::{
    blank, find, find_char_from, holds, index_of, is_blank, join, joined, lemma_index_from,
    lemma_not_blank, lemma_pos_from, lemma_trimmed_start, lines, lines_of, pos_of, trim, trimmed,
};
use crate::text::{
    chars_of, concat3, concat5, has_at, is_empty, pairs, slice_text, str_eq, texts, Text,
};
use vstd::prelude::*;

verus! {

/// Why a file cannot be read.
#[derive(Debug)]
pub enum EnvFileError {
    /// A heredoc without a key or a delimiter, by its line.
    BadHeredoc(String),
    /// A heredoc that does not end, by its key and its delimiter.
    Unterminated(String, String),
    /// An assignment without a key, by its line.
    EmptyKey(String),
    /// Neither an assignment nor a heredoc, by its line.
    Invalid(String),
}

/// [`EnvFileError`] over views.
pub enum EnvFileFault {
    /// A heredoc without a key or a delimiter.
    BadHeredoc(Text),
    /// A heredoc that does not end.
    Unterminated(Text, Text),
    /// An assignment without a key.
    EmptyKey(Text),
    /// Neither an assignment nor a heredoc.
    Invalid(Text),
}

impl View for EnvFileError {
    type V = EnvFileFault;

    open spec fn view(&self) -> EnvFileFault {
        match *self {
            EnvFileError::BadHeredoc(l) => EnvFileFault::BadHeredoc(l@),
            EnvFileError::Unterminated(k, d) => EnvFileFault::Unterminated(k@, d@),
            EnvFileError::EmptyKey(l) => EnvFileFault::EmptyKey(l@),
            EnvFileError::Invalid(l) => EnvFileFault::Invalid(l@),
        }
    }
}

/// The message of an error.
pub open spec fn env_file_message(f: EnvFileFault) -> Text {
    match f {
        EnvFileFault::BadHeredoc(l) => "invalid heredoc line: `"@ + l + "`"@,
        EnvFileFault::Unterminated(k, d) => "unterminated heredoc for `"@ + k
            + "` (missing closing `"@ + d + "`)"@,
        EnvFileFault::EmptyKey(l) => "invalid line (empty key): `"@ + l + "`"@,
        EnvFileFault::Invalid(l) =>
            "invalid line in env file (expected `KEY=VALUE` or a heredoc): `"@ + l + "`"@,
    }
}

impl EnvFileError {
    /// The message of the error.
    pub fn message(&self) -> (r: String)
        ensures
            r@ == env_file_message(self@),
    {
        match self {
            EnvFileError::BadHeredoc(l) => concat3("invalid heredoc line: `", l.as_str(), "`"),
            EnvFileError::Unterminated(k, d) => concat5(
                "unterminated heredoc for `",
                k.as_str(),
                "` (missing closing `",
                d.as_str(),
                "`)",
            ),
            EnvFileError::EmptyKey(l) => concat3("invalid line (empty key): `", l.as_str(), "`"),
            EnvFileError::Invalid(l) => concat3(
                "invalid line in env file (expected `KEY=VALUE` or a heredoc): `",
                l.as_str(),
                "`",
            ),
        }
    }
}

/// A line opens a heredoc: `<<` stands in it, before any `=`.
pub open spec fn is_heredoc(line: Text) -> bool {
    match (index_of(line, "<<"@), pos_of(line, '=')) {
        (Some(l), Some(e)) => l < e,
        (Some(_), None) => true,
        _ => false,
    }
}

/// The first line that is just the delimiter.
pub open spec fn closing(ls: Seq<Text>, delim: Text) -> Option<int>
    decreases ls.len(),
{
    if ls.len() == 0 {
        None
    } else if ls[0] == delim {
        Some(0)
    } else {
        match closing(ls.skip(1), delim) {
            Some(k) => Some(k + 1),
            None => None,
        }
    }
}

/// Where a delimiter stands, spelled out.
proof fn lemma_closing(ls: Seq<Text>, delim: Text)
    ensures
        closing(ls, delim) matches Some(k) ==> 0 <= k < ls.len() && ls[k] == delim && (forall|j: int|
            0 <= j < k ==> ls[j] != delim),
        closing(ls, delim) is None ==> (forall|j: int| 0 <= j < ls.len() ==> ls[j] != delim),
    decreases ls.len(),
{
    if ls.len() > 0 && ls[0] != delim {
        lemma_closing(ls.skip(1), delim);
        match closing(ls.skip(1), delim) {
            Some(k) => {
                assert(ls.skip(1)[k] == ls[k + 1]);
                assert forall|j: int| 0 <= j < k + 1 implies ls[j] != delim by {
                    if j > 0 {
                        assert(ls.skip(1)[j - 1] == ls[j]);
                    }
                }
            },
            None => {
                assert forall|j: int| 0 <= j < ls.len() implies ls[j] != delim by {
                    if j > 0 {
                        assert(ls.skip(1)[j - 1] == ls[j]);
                    }
                }
            },
        }
    }
}

/// The key and the delimiter of a heredoc line.
pub open spec fn heredoc_head(line: Text) -> (Text, Text) {
    let l = index_of(line, "<<"@)->Some_0;
    (trimmed(line.take(l)), trimmed(line.skip(l + 2)))
}

/// The pairs that lines set, in order.
pub open spec fn key_values(ls: Seq<Text>) -> Result<Seq<(Text, Text)>, EnvFileFault>
    decreases ls.len(),
{
    if ls.len() == 0 {
        Ok(Seq::empty())
    } else {
        let line = ls[0];
        let rest = ls.skip(1);
        if is_blank(line) {
            key_values(rest)
        } else if is_heredoc(line) {
            let (key, delim) = heredoc_head(line);
            if key.len() == 0 || delim.len() == 0 {
                Err(EnvFileFault::BadHeredoc(line))
            } else {
                match closing(rest, delim) {
                    None => Err(EnvFileFault::Unterminated(key, delim)),
                    Some(k) => if 0 <= k < rest.len() {
                        ahead(
                            Ok((key, joined(rest.take(k), "\n"@))),
                            key_values(rest.skip(k + 1)),
                        )
                    } else {
                        Ok(Seq::empty())
                    },
                }
            }
        } else {
            match pos_of(line, '=') {
                None => Err(EnvFileFault::Invalid(line)),
                Some(e) => {
                    let key = trimmed(line.take(e));
                    if key.len() == 0 {
                        Err(EnvFileFault::EmptyKey(line))
                    } else {
                        ahead(Ok((key, line.skip(e + 1))), key_values(rest))
                    }
                },
            }
        }
    }
}

/// Where a heredoc that opens at line `i` ends: its value and the line behind it.
fn heredoc_value(ls: &Vec<String>, from: usize, delim: &str) -> (r: Option<(String, usize)>)
    requires
        from <= ls@.len(),
    ensures
        match r {
            Some(p) => closing(texts(ls@).skip(from as int), delim@) == Some(p.1 - from - 1)
                && from < p.1 <= ls@.len() && p.0@ == joined(
                texts(ls@).skip(from as int).take(p.1 - from - 1),
                "\n"@,
            ),
            None => closing(texts(ls@).skip(from as int), delim@) is None,
        },
{
    let ghost rest = texts(ls@).skip(from as int);
    let n = ls.len();
    let mut value: Vec<String> = Vec::new();
    let mut i: usize = from;
    while i < n
        invariant
            from <= i <= n,
            n == ls@.len(),
            rest == texts(ls@).skip(from as int),
            texts(value@) == rest.take(i - from),
            forall|j: int| 0 <= j < i - from ==> rest[j] != delim@,
        decreases n - i,
    {
        assert(rest[i - from] == ls@[i as int]@);
        proof {
            lemma_closing(rest, delim@);
        }
        if str_eq(ls[i].as_str(), delim) {
            return Some((join(&value, "\n"), i + 1));
        }
        let ghost done = texts(value@);
        let line = ls[i].clone();
        value.push(line);
        assert(texts(value@) =~= done + seq![line@]);
        assert(texts(value@) =~= rest.take(i + 1 - from));
        i += 1;
    }
    proof {
        lemma_closing(rest, delim@);
    }
    None
}

/// One more pair in front of what follows.
proof fn lemma_one_more(
    done: Seq<(Text, Text)>,
    kv: (Text, Text),
    tail: Result<Seq<(Text, Text)>, EnvFileFault>,
)
    ensures
        after_done(done, ahead(Ok(kv), tail)) == after_done(done + seq![kv], tail),
{
    match tail {
        Ok(t) => {
            assert(done + (seq![kv] + t) =~= done + seq![kv] + t);
        },
        Err(_) => {},
    }
}

/// Parse `$GITHUB_ENV` or `$GITHUB_OUTPUT` content into ordered pairs.
///
/// A line is `KEY=VALUE`, or opens a heredoc for a value of several lines:
/// `KEY<<DELIM`, the lines of the value, and a line `DELIM`. Where a line has both
/// `=` and `<<`, whichever comes first decides.
pub fn parse_key_values(content: &str) -> (r: Result<Vec<(String, String)>, EnvFileError>)
    ensures
        (match r {
            Ok(v) => Ok(pairs(v@)),
            Err(e) => Err(e@),
        }) == key_values(lines_of(content@)),
{
    let ls = lines(content);
    let ghost all = texts(ls@);
    let n = ls.len();
    let mut out: Vec<(String, String)> = Vec::new();
    let mut i: usize = 0;
    proof {
        assert(all.skip(0) =~= all);
        assert(pairs(out@) =~= Seq::empty());
        match key_values(all) {
            Ok(t) => {
                assert(Seq::<(Text, Text)>::empty() + t =~= t);
            },
            Err(_) => {},
        }
    }
    while i < n
        invariant
            i <= n,
            n == ls@.len(),
            all == texts(ls@),
            all == lines_of(content@),
            key_values(all) == after_done(pairs(out@), key_values(all.skip(i as int))),
        decreases n - i,
    {
        let line = ls[i].clone();
        let ghost here = all.skip(i as int);
        let ghost rest = here.skip(1);
        assert(here[0] == line@);
        assert(rest =~= all.skip(i + 1));
        if blank(line.as_str()) {
            i += 1;
        } else {
            let chars = chars_of(line.as_str());
            let width = chars.len();
            let lt = find(line.as_str(), "<<");
            let eq = find_char_from(&chars, '=', 0);
            let heredoc: bool = match (lt, eq) {
                (Some(l), Some(e)) => l < e,
                (Some(_), None) => true,
                _ => false,
            };
            let ghost done = pairs(out@);
            proof {
                reveal_strlit("<<");
                lemma_index_from(line@, "<<"@, 0);
                lemma_pos_from(line@, '=', 0);
            }
            if heredoc {
                let l = match lt {
                    Some(l) => l,
                    None => 0,
                };
                let key = trim(slice_text(&chars, 0, l).as_str());
                let delim = trim(slice_text(&chars, l + 2, width).as_str());
                assert(line@.subrange(0, l as int) =~= line@.take(l as int));
                assert(line@.subrange(l + 2, line@.len() as int) =~= line@.skip(l + 2));
                if is_empty(key.as_str()) || is_empty(delim.as_str()) {
                    return Err(EnvFileError::BadHeredoc(line));
                }
                match heredoc_value(&ls, i + 1, delim.as_str()) {
                    None => {
                        return Err(EnvFileError::Unterminated(key, delim));
                    },
                    Some(p) => {
                        let ghost kv = (key@, p.0@);
                        out.push((key, p.0));
                        proof {
                            assert(pairs(out@) =~= done + seq![kv]);
                            assert(rest.skip(p.1 - i - 1) =~= all.skip(p.1 as int));
                            lemma_one_more(done, kv, key_values(all.skip(p.1 as int)));
                        }
                        i = p.1;
                    },
                }
            } else {
                match eq {
                    None => {
                        return Err(EnvFileError::Invalid(line));
                    },
                    Some(e) => {
                        let key = trim(slice_text(&chars, 0, e).as_str());
                        assert(line@.subrange(0, e as int) =~= line@.take(e as int));
                        if is_empty(key.as_str()) {
                            return Err(EnvFileError::EmptyKey(line));
                        }
                        let value = slice_text(&chars, e + 1, width);
                        assert(line@.subrange(e + 1, line@.len() as int) =~= line@.skip(e + 1));
                        let ghost kv = (key@, value@);
                        out.push((key, value));
                        proof {
                            assert(pairs(out@) =~= done + seq![kv]);
                            lemma_one_more(done, kv, key_values(rest));
                        }
                        i += 1;
                    },
                }
            }
        }
    }
    assert(pairs(out@) + Seq::<(Text, Text)>::empty() =~= pairs(out@));
    Ok(out)
}

/// The lines that are not blank.
pub open spec fn path_lines(ls: Seq<Text>) -> Seq<Text>
    decreases ls.len(),
{
    if ls.len() == 0 {
        Seq::empty()
    } else if is_blank(ls[0]) {
        path_lines(ls.skip(1))
    } else {
        seq![ls[0]] + path_lines(ls.skip(1))
    }
}

/// Parse `$GITHUB_PATH`: each line that is not blank is a directory to prepend to
/// `PATH`.
pub fn parse_path_additions(content: &str) -> (r: Vec<String>)
    ensures
        texts(r@) == path_lines(lines_of(content@)),
{
    let ls = lines(content);
    let ghost all = texts(ls@);
    let mut out: Vec<String> = Vec::new();
    let mut i: usize = 0;
    assert(all.skip(0) =~= all);
    assert(texts(out@) + path_lines(all) =~= path_lines(all));
    while i < ls.len()
        invariant
            i <= ls@.len(),
            all == texts(ls@),
            path_lines(all) == texts(out@) + path_lines(all.skip(i as int)),
        decreases ls@.len() - i,
    {
        let ghost here = all.skip(i as int);
        assert(here[0] == ls@[i as int]@);
        assert(here.skip(1) =~= all.skip(i + 1));
        if !blank(ls[i].as_str()) {
            let ghost done = texts(out@);
            let line = ls[i].clone();
            out.push(line);
            assert(texts(out@) =~= done + seq![line@]);
            assert(done + (seq![line@] + path_lines(all.skip(i + 1))) =~= texts(out@) + path_lines(
                all.skip(i + 1),
            ));
        }
        i += 1;
    }
    assert(texts(out@) + Seq::<Text>::empty() =~= texts(out@));
    out
}

// ---------------------------------------------------------------------------
// Laws
// ---------------------------------------------------------------------------

/// A key that can be written: not empty, with no space around it, no `=` and no
/// `<<`.
pub open spec fn is_key(k: Text) -> bool {
    &&& k.len() > 0
    &&& trimmed(k) == k
    &&& pos_of(k, '=') is None
    &&& !holds(k, "<<"@)
}

/// An assignment on one line reads back as what was written.
pub proof fn law_assignment_reads_back(k: Text, v: Text)
    requires
        is_key(k),
    ensures
        key_values(seq![k + "="@ + v]) == Ok::<Seq<(Text, Text)>, EnvFileFault>(seq![(k, v)]),
{
    reveal_strlit("=");
    reveal_strlit("<<");
    let line = k + "="@ + v;
    let n = k.len() as int;
    lemma_pos_from(k, '=', 0);
    lemma_pos_from(line, '=', 0);
    assert(pos_of(line, '=') == Some(n)) by {
        assert(line[n] == '=');
        assert forall|j: int| 0 <= j < n implies line[j] != '=' by {
            assert(line[j] == k[j]);
        }
    }
    lemma_index_from(line, "<<"@, 0);
    assert(!is_heredoc(line)) by {
        match index_of(line, "<<"@) {
            Some(l) => {
                if l < n {
                    assert(line.subrange(l, l + 2)[1] == "<<"@[1]);
                    assert(line[l + 1] == '<');
                    assert(l + 1 < n);
                    assert(k.subrange(l, l + 2) =~= line.subrange(l, l + 2));
                    lemma_index_from(k, "<<"@, 0);
                    assert(has_at(k, "<<"@, l));
                }
            },
            None => {},
        }
    }
    assert(line.take(n) =~= k);
    assert(line.skip(n + 1) =~= v);
    assert(!is_blank(line)) by {
        lemma_trimmed_start(k);
        assert(line[0] == k[0]);
        lemma_not_blank(line);
    }
    let ls = seq![line];
    assert(ls.skip(1) =~= Seq::empty());
    reveal_with_fuel(key_values, 2);
    assert(seq![(k, v)] + Seq::<(Text, Text)>::empty() =~= seq![(k, v)]);
}

/// A value of several lines that does not hold its delimiter reads back as what
/// was written; a key that ends in `<` would run into the `<<`.
pub proof fn law_heredoc_reads_back(k: Text, delim: Text, value: Seq<Text>)
    requires
        is_key(k),
        k.last() != '<',
        delim.len() > 0,
        trimmed(delim) == delim,
        forall|j: int| 0 <= j < value.len() ==> value[j] != delim,
    ensures
        key_values(seq![k + "<<"@ + delim] + value + seq![delim]) == Ok::<
            Seq<(Text, Text)>,
            EnvFileFault,
        >(seq![(k, joined(value, "\n"@))]),
{
    reveal_strlit("<<");
    let line = k + "<<"@ + delim;
    let n = k.len() as int;
    lemma_pos_from(k, '=', 0);
    lemma_pos_from(line, '=', 0);
    lemma_index_from(line, "<<"@, 0);
    assert(index_of(line, "<<"@) == Some(n)) by {
        assert(line.subrange(n, n + 2) =~= "<<"@);
        assert(has_at(line, "<<"@, n));
        match index_of(line, "<<"@) {
            Some(l) => {
                if l < n {
                    assert(line.subrange(l, l + 2)[0] == "<<"@[0]);
                    assert(line[l] == k[l]);
                    assert(l + 1 < n);
                    assert(k.subrange(l, l + 2) =~= line.subrange(l, l + 2));
                    lemma_index_from(k, "<<"@, 0);
                    assert(has_at(k, "<<"@, l));
                }
            },
            None => {},
        }
    }
    assert(is_heredoc(line)) by {
        match pos_of(line, '=') {
            Some(e) => {
                if e < n {
                    assert(line[e] == k[e]);
                }
                assert(line[n] == '<');
                assert(e != n);
            },
            None => {},
        }
    }
    assert(line.take(n) =~= k);
    assert(line.skip(n + 2) =~= delim);
    assert(!is_blank(line)) by {
        lemma_trimmed_start(k);
        assert(line[0] == k[0]);
        lemma_not_blank(line);
    }
    reveal_with_fuel(key_values, 2);
    let ls = seq![line] + value + seq![delim];
    let rest = ls.skip(1);
    let m = value.len() as int;
    assert(rest =~= value + seq![delim]);
    lemma_closing(rest, delim);
    assert(closing(rest, delim) == Some(m)) by {
        assert(rest[m] == delim);
        assert forall|j: int| 0 <= j < m implies rest[j] != delim by {
            assert(rest[j] == value[j]);
        }
    }
    assert(rest.take(m) =~= value);
    assert(rest.skip(m + 1) =~= Seq::empty());
    let kv = (k, joined(value, "\n"@));
    assert(seq![kv] + Seq::<(Text, Text)>::empty() =~= seq![kv]);
}

/// What is appended to a file that can be read adds to what it sets, in order.
pub proof fn law_appended_lines_follow(a: Seq<Text>, b: Seq<Text>)
    requires
        key_values(a) is Ok,
    ensures
        key_values(a + b) == after_done(key_values(a)->Ok_0, key_values(b)),
    decreases a.len(),
{
    if a.len() == 0 {
        assert(a + b =~= b);
        match key_values(b) {
            Ok(t) => {
                assert(Seq::<(Text, Text)>::empty() + t =~= t);
            },
            Err(_) => {},
        }
    } else {
        let line = a[0];
        let rest = a.skip(1);
        assert((a + b).skip(1) =~= rest + b);
        if is_blank(line) {
            law_appended_lines_follow(rest, b);
        } else if is_heredoc(line) {
            let (key, delim) = heredoc_head(line);
            lemma_closing(rest, delim);
            let k = closing(rest, delim)->Some_0;
            lemma_closing(rest + b, delim);
            assert(closing(rest + b, delim) == Some(k)) by {
                assert((rest + b)[k] == delim);
                assert forall|j: int| 0 <= j < k implies (rest + b)[j] != delim by {
                    assert((rest + b)[j] == rest[j]);
                }
            }
            assert((rest + b).take(k) =~= rest.take(k));
            assert((rest + b).skip(k + 1) =~= rest.skip(k + 1) + b);
            law_appended_lines_follow(rest.skip(k + 1), b);
            let kv = (key, joined(rest.take(k), "\n"@));
            let t = key_values(rest.skip(k + 1))->Ok_0;
            lemma_first_then(kv, t, key_values(b));
        } else {
            law_appended_lines_follow(rest, b);
            let e = pos_of(line, '=')->Some_0;
            let kv = (trimmed(line.take(e)), line.skip(e + 1));
            let t = key_values(rest)->Ok_0;
            lemma_first_then(kv, t, key_values(b));
        }
    }
}

/// A pair in front of pairs in front of what follows.
proof fn lemma_first_then(
    kv: (Text, Text),
    t: Seq<(Text, Text)>,
    tail: Result<Seq<(Text, Text)>, EnvFileFault>,
)
    ensures
        ahead(Ok(kv), after_done(t, tail)) == after_done(seq![kv] + t, tail),
{
    match tail {
        Ok(u) => {
            assert(seq![kv] + (t + u) =~= seq![kv] + t + u);
        },
        Err(_) => {},
    }
}

/// Something that is written to a file.
pub enum Item {
    /// A key and its value, on one line.
    Assignment(Text, Text),
    /// A key, a delimiter and the lines of the value.
    Heredoc(Text, Text, Seq<Text>),
}

/// It can be written so that it is read back.
pub open spec fn is_item(i: Item) -> bool {
    match i {
        Item::Assignment(k, _) => is_key(k),
        Item::Heredoc(k, delim, value) => {
            &&& is_key(k)
            &&& k.last() != '<'
            &&& delim.len() > 0
            &&& trimmed(delim) == delim
            &&& forall|j: int| 0 <= j < value.len() ==> value[j] != delim
        },
    }
}

/// The lines in which it is written.
pub open spec fn item_lines(i: Item) -> Seq<Text> {
    match i {
        Item::Assignment(k, v) => seq![k + "="@ + v],
        Item::Heredoc(k, delim, value) => seq![k + "<<"@ + delim] + value + seq![delim],
    }
}

/// What it sets.
pub open spec fn item_pair(i: Item) -> (Text, Text) {
    match i {
        Item::Assignment(k, v) => (k, v),
        Item::Heredoc(k, _, value) => (k, joined(value, "\n"@)),
    }
}

/// The lines in which items are written, one after another.
pub open spec fn all_lines(items: Seq<Item>) -> Seq<Text>
    decreases items.len(),
{
    if items.len() == 0 {
        Seq::empty()
    } else {
        item_lines(items[0]) + all_lines(items.skip(1))
    }
}

/// Whatever is written, item after item, is read back in order.
pub proof fn law_items_read_back(items: Seq<Item>)
    requires
        forall|i: int| 0 <= i < items.len() ==> is_item(#[trigger] items[i]),
    ensures
        key_values(all_lines(items)) == Ok::<Seq<(Text, Text)>, EnvFileFault>(
            items.map_values(|i: Item| item_pair(i)),
        ),
    decreases items.len(),
{
    let all = items.map_values(|i: Item| item_pair(i));
    if items.len() == 0 {
        assert(all =~= Seq::empty());
    } else {
        let rest = items.skip(1);
        assert(is_item(items[0]));
        match items[0] {
            Item::Assignment(k, v) => law_assignment_reads_back(k, v),
            Item::Heredoc(k, delim, value) => law_heredoc_reads_back(k, delim, value),
        }
        assert forall|i: int| 0 <= i < rest.len() implies is_item(#[trigger] rest[i]) by {
            assert(rest[i] == items[i + 1]);
        }
        law_items_read_back(rest);
        law_appended_lines_follow(item_lines(items[0]), all_lines(rest));
        assert(seq![item_pair(items[0])] + rest.map_values(|i: Item| item_pair(i)) =~= all);
    }
}

/// A text that stands on one line, and stays as it is when the line is read.
pub open spec fn is_line(t: Text) -> bool {
    pos_of(t, '\n') is None && (t.len() > 0 ==> t.last() != '\r')
}

/// Lines as the text of a file, each with its end.
pub open spec fn file_text(ls: Seq<Text>) -> Text
    decreases ls.len(),
{
    if ls.len() == 0 {
        Seq::empty()
    } else {
        ls[0] + seq!['\n'] + file_text(ls.skip(1))
    }
}

/// The lines of a file are those that were written to it.
proof fn lemma_file_lines(ls: Seq<Text>)
    requires
        forall|i: int| 0 <= i < ls.len() ==> is_line(#[trigger] ls[i]),
    ensures
        lines_of(file_text(ls)) == ls,
    decreases ls.len(),
{
    if ls.len() > 0 {
        let rest = ls.skip(1);
        assert(is_line(ls[0]));
        assert forall|i: int| 0 <= i < rest.len() implies is_line(#[trigger] rest[i]) by {
            assert(rest[i] == ls[i + 1]);
        }
        lemma_file_lines(rest);
        let w = file_text(ls);
        let n = ls[0].len() as int;
        lemma_pos_from(ls[0], '\n', 0);
        lemma_pos_from(w, '\n', 0);
        assert(w[n] == '\n');
        assert forall|j: int| 0 <= j < n implies w[j] != '\n' by {
            assert(w[j] == ls[0][j]);
        }
        assert(pos_of(w, '\n') == Some(n));
        assert(w.take(n) =~= ls[0]);
        assert(w.skip(n + 1) =~= file_text(rest));
        assert(seq![ls[0]] + rest =~= ls);
    } else {
        assert(ls =~= Seq::empty());
    }
}

/// A file to which items were written line by line reads as what they set, in
/// order, where no line of theirs holds a line break.
pub proof fn law_files_read_back(items: Seq<Item>)
    requires
        forall|i: int| 0 <= i < items.len() ==> is_item(#[trigger] items[i]),
        forall|i: int| 0 <= i < all_lines(items).len() ==> is_line(#[trigger] all_lines(items)[i]),
    ensures
        key_values(lines_of(file_text(all_lines(items)))) == Ok::<
            Seq<(Text, Text)>,
            EnvFileFault,
        >(items.map_values(|i: Item| item_pair(i))),
{
    law_items_read_back(items);
    lemma_file_lines(all_lines(items));
}

/// A line that is neither blank, an assignment nor a heredoc is an error, and so
/// is one with an empty key, or a heredoc that is not closed.
pub proof fn law_lines_that_are_wrong(line: Text, rest: Seq<Text>)
    requires
        !is_blank(line),
    ensures
        !line.contains('=') && !holds(line, "<<"@) ==> key_values(seq![line] + rest) == Err::<
            Seq<(Text, Text)>,
            EnvFileFault,
        >(EnvFileFault::Invalid(line)),
        forall|k: Text, v: Text|
            line == #[trigger] (k + seq!['='] + v) && !k.contains('=') && !holds(line, "<<"@)
                && is_blank(k) ==> key_values(seq![line] + rest) == Err::<
                Seq<(Text, Text)>,
                EnvFileFault,
            >(EnvFileFault::EmptyKey(line)),
        is_heredoc(line) && heredoc_head(line).0.len() > 0 && heredoc_head(line).1.len() > 0
            && !rest.contains(heredoc_head(line).1) ==> key_values(seq![line] + rest) == Err::<
            Seq<(Text, Text)>,
            EnvFileFault,
        >(EnvFileFault::Unterminated(heredoc_head(line).0, heredoc_head(line).1)),
        is_heredoc(line) && (heredoc_head(line).0.len() == 0 || heredoc_head(line).1.len() == 0)
            ==> key_values(seq![line] + rest) == Err::<Seq<(Text, Text)>, EnvFileFault>(
            EnvFileFault::BadHeredoc(line),
        ),
{
    let all = seq![line] + rest;
    assert(all[0] == line);
    assert(all.skip(1) =~= rest);
    crate::scan::laws::law_cutting_at_the_first(line, '=');
    assert forall|k: Text, v: Text|
        line == #[trigger] (k + seq!['='] + v) && !k.contains('=') && !holds(line, "<<"@)
            && is_blank(k) implies key_values(all) == Err::<Seq<(Text, Text)>, EnvFileFault>(
        EnvFileFault::EmptyKey(line),
    ) by {
        let n = k.len() as int;
        assert(line[n] == '=');
        assert(line.contains('='));
        let e = pos_of(line, '=')->Some_0;
        if e < n {
            assert(k[e] == '=');
        }
        assert(e == n);
        assert(line.take(n) =~= k);
    }
    if !rest.contains(heredoc_head(line).1) {
        lemma_never_closed(rest, heredoc_head(line).1);
    }
}

proof fn lemma_never_closed(ls: Seq<Text>, delim: Text)
    requires
        !ls.contains(delim),
    ensures
        closing(ls, delim) is None,
    decreases ls.len(),
{
    if ls.len() > 0 {
        assert(ls[0] != delim);
        let t = ls.skip(1);
        if t.contains(delim) {
            let i = choose|i: int| 0 <= i < t.len() && t[i] == delim;
            assert(ls[i + 1] == delim);
        }
        lemma_never_closed(t, delim);
    }
}

/// Blank lines set nothing, neither variables nor path entries; every other line
/// of the path file is an entry, as it stands.
pub proof fn law_blank_lines_set_nothing(line: Text, rest: Seq<Text>)
    ensures
        is_blank(line) ==> key_values(seq![line] + rest) == key_values(rest),
        is_blank(line) ==> path_lines(seq![line] + rest) == path_lines(rest),
        !is_blank(line) ==> path_lines(seq![line] + rest) == seq![line] + path_lines(rest),
        path_lines(Seq::empty()) == Seq::<Text>::empty(),
        key_values(Seq::empty()) == Ok::<Seq<(Text, Text)>, EnvFileFault>(Seq::empty()),
{
    let all = seq![line] + rest;
    assert(all[0] == line);
    assert(all.skip(1) =~= rest);
}

/// A line is a heredoc where `<<` stands in it before any equals sign.
pub proof fn law_which_lines_are_heredocs(a: Text, b: Text)
    requires
        !a.contains('='),
        !a.contains('<'),
    ensures
        is_heredoc(a + "<<"@ + b),
        !is_heredoc(a + seq!['='] + b),
        heredoc_head(a + "<<"@ + b) == (trimmed(a), trimmed(b)),
{
    reveal_strlit("<<");
    let p = "<<"@;
    let s = a + p + b;
    let n = a.len() as int;
    crate::scan::lemma_index_from(s, p, 0);
    assert(s.subrange(n, n + 2) =~= p);
    assert(crate::text::has_at(s, p, n));
    let i = index_of(s, p)->Some_0;
    if i < n {
        assert(s.subrange(i, i + 2)[0] == '<');
        assert(a[i] == '<');
    }
    assert(i == n);
    assert(s.take(n) =~= a);
    assert(s.skip(n + 2) =~= b);
    crate::scan::lemma_pos_from(s, '=', 0);
    if let Some(e) = pos_of(s, '=') {
        if e < n {
            assert(a[e] == '=');
        }
        assert(s[n] == '<');
    }
    let t = a + seq!['='] + b;
    crate::scan::lemma_pos_from(t, '=', 0);
    assert(t[n] == '=');
    let e = pos_of(t, '=')->Some_0;
    if e < n {
        assert(a[e] == '=');
    }
    crate::scan::lemma_index_from(t, p, 0);
    if let Some(j) = index_of(t, p) {
        assert(t.subrange(j, j + 2)[0] == '<');
        if j < n {
            assert(a[j] == '<');
        }
    }
}

/// What each fault of a file says, with the line or the key that it is about.
pub proof fn law_what_env_file_faults_say(l: Text, k: Text, d: Text)
    ensures
        env_file_message(EnvFileFault::BadHeredoc(l)) == "invalid heredoc line: `"@ + l + "`"@,
        env_file_message(EnvFileFault::Unterminated(k, d)) == "unterminated heredoc for `"@ + k
            + "` (missing closing `"@ + d + "`)"@,
        env_file_message(EnvFileFault::EmptyKey(l)) == "invalid line (empty key): `"@ + l + "`"@,
        env_file_message(EnvFileFault::Invalid(l))
            == "invalid line in env file (expected `KEY=VALUE` or a heredoc): `"@ + l + "`"@,
{
}

} // verus!
