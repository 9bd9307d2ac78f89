//! Pausing before a step, and showing what a step changed.

use crate::diff::{entry_views, Entry, EntryView, EnvDiff, EnvDiffView, FsDiff, FsDiffView};
use crate::exec::mask::{clip, clipped, mask_secrets, without_secrets};
use crate::exec::RunOptions;
use crate::model::{Step, StepView};
use crate::numtext::{decimal, usize_text};
use crate::scan::{lines, lines_of, trim, trimmed};
use crate::strmap::{map_entries, map_entry, map_len, StrMap};
use crate::text::{
    concat2, concat3, concat4, has_text, is_empty, lowered, opt_text, str_eq, texts, to_lower, Text,
};
use vstd::prelude::*;

verus! {

/// How many files of a workspace are looked at.
pub const MAX_DIFF_FILES: usize = 20_000;

/// How many modified files are listed.
pub const MAX_MODIFIED: usize = 50;

// ---------------------------------------------------------------------------
// Pausing
// ---------------------------------------------------------------------------

/// A run pauses before a step.
pub open spec fn pauses(step: StepView, step_all: bool, points: Seq<Text>) -> bool {
    step_all || (step.id matches Some(id) && points.contains(id))
}

/// Whether to pause before a step.
pub fn should_pause_at(step: &Step, opts: &RunOptions) -> (r: bool)
    ensures
        r == pauses(step@, opts.step_all, texts(opts.breakpoints@)),
{
    if opts.step_all {
        return true;
    }
    match &step.id {
        Some(id) => has_text(&opts.breakpoints, id.as_str()),
        None => false,
    }
}

/// What was asked for at a pause.
#[derive(Debug)]
pub enum Reply {
    /// Run the step.
    Run,
    /// Skip the step.
    Skip,
    /// Leave the run.
    Quit,
    /// Show the step.
    Info,
    /// Open a shell.
    Shell,
    /// Something else.
    Unknown(String),
}

/// [`Reply`] over views.
#[verifier::ext_equal]
pub enum ReplyView {
    /// Run the step.
    Run,
    /// Skip the step.
    Skip,
    /// Leave the run.
    Quit,
    /// Show the step.
    Info,
    /// Open a shell.
    Shell,
    /// Something else.
    Unknown(Text),
}

impl View for Reply {
    type V = ReplyView;

    open spec fn view(&self) -> ReplyView {
        match *self {
            Reply::Run => ReplyView::Run,
            Reply::Skip => ReplyView::Skip,
            Reply::Quit => ReplyView::Quit,
            Reply::Info => ReplyView::Info,
            Reply::Shell => ReplyView::Shell,
            Reply::Unknown(t) => ReplyView::Unknown(t@),
        }
    }
}

/// What a line asks for at a pause; without a line there is nobody left to ask.
pub open spec fn reply_of(line: Option<Text>) -> ReplyView {
    match line {
        None => ReplyView::Quit,
        Some(l) => {
            let t = lowered(trimmed(l));
            if t.len() == 0 || t == "c"@ || t == "continue"@ {
                ReplyView::Run
            } else if t == "k"@ || t == "skip"@ {
                ReplyView::Skip
            } else if t == "q"@ || t == "quit"@ {
                ReplyView::Quit
            } else if t == "i"@ || t == "info"@ {
                ReplyView::Info
            } else if t == "s"@ || t == "shell"@ {
                ReplyView::Shell
            } else {
                ReplyView::Unknown(t)
            }
        },
    }
}

/// Read what was asked for at a pause.
pub fn read_reply(line: &Option<String>) -> (r: Reply)
    ensures
        r@ == reply_of(opt_text(*line)),
{
    match line {
        None => Reply::Quit,
        Some(l) => {
            let t = to_lower(trim(l.as_str()).as_str());
            let w = t.as_str();
            if is_empty(w) || str_eq(w, "c") || str_eq(w, "continue") {
                Reply::Run
            } else if str_eq(w, "k") || str_eq(w, "skip") {
                Reply::Skip
            } else if str_eq(w, "q") || str_eq(w, "quit") {
                Reply::Quit
            } else if str_eq(w, "i") || str_eq(w, "info") {
                Reply::Info
            } else if str_eq(w, "s") || str_eq(w, "shell") {
                Reply::Shell
            } else {
                Reply::Unknown(t)
            }
        },
    }
}

/// What is printed at a pause.
pub fn pause_lines(number: usize, label: &str, shell: &str, cwd: &str) -> (r: Vec<String>)
    ensures
        texts(r@) == seq![
            "  ⏸  paused before step "@ + decimal(number as nat) + ": "@ + label@,
            "     shell: "@ + shell@ + "   cwd: "@ + cwd@,
        ],
{
    let mut v: Vec<String> = Vec::new();
    v.push(concat4("  ⏸  paused before step ", usize_text(number).as_str(), ": ", label));
    v.push(concat4("     shell: ", shell, "   cwd: ", cwd));
    assert(texts(v@) =~= seq![
        "  ⏸  paused before step "@ + decimal(number as nat) + ": "@ + label@,
        "     shell: "@ + shell@ + "   cwd: "@ + cwd@,
    ]);
    v
}

/// What is printed of a reply that is not known.
pub fn unknown_line(reply: &str) -> (r: String)
    ensures
        r@ == "     unknown command `"@ + reply@ + "` (c/s/i/k/q)"@,
{
    concat3("     unknown command `", reply, "` (c/s/i/k/q)")
}

/// A script's lines as they are shown.
pub open spec fn script_lines(ls: Seq<Text>, secrets: Seq<(Text, Text)>) -> Seq<Text> {
    ls.map_values(|l: Text| "     "@ + without_secrets(l, secrets))
}

/// A variable as it is shown.
pub open spec fn env_line(e: (Text, Text), secrets: Seq<(Text, Text)>) -> Text {
    "     "@ + e.0 + "="@ + clipped(without_secrets(e.1, secrets))
}

/// What is shown of an environment.
pub open spec fn env_lines(env: Seq<(Text, Text)>, secrets: Seq<(Text, Text)>) -> Seq<Text> {
    if env.len() == 0 {
        Seq::empty()
    } else {
        seq!["     ── env ──"@] + env.map_values(|e: (Text, Text)| env_line(e, secrets))
    }
}

/// What is shown of a step: its script and its variables, with secrets masked.
pub open spec fn info_lines(
    script: Text,
    env: Seq<(Text, Text)>,
    secrets: Seq<(Text, Text)>,
) -> Seq<Text> {
    seq!["     ── script ──"@] + script_lines(lines_of(script), secrets) + env_lines(
        env,
        secrets,
    )
}

/// The lines that show a step.
pub fn step_info(script: &str, env: &StrMap, secrets: &StrMap) -> (r: Vec<String>)
    ensures
        texts(r@) == info_lines(script@, map_entries(*env), map_entries(*secrets)),
{
    let ghost sec = map_entries(*secrets);
    let mut out: Vec<String> = Vec::new();
    out.push("     ── script ──".to_owned());
    let ls = lines(script);
    let ghost all = script_lines(texts(ls@), sec);
    let mut i: usize = 0;
    assert(texts(out@) =~= seq!["     ── script ──"@] + all.take(0));
    while i < ls.len()
        invariant
            i <= ls@.len(),
            sec == map_entries(*secrets),
            all == script_lines(texts(ls@), sec),
            texts(out@) == seq!["     ── script ──"@] + all.take(i as int),
        decreases ls@.len() - i,
    {
        let ghost done = texts(out@);
        let t = concat2("     ", mask_secrets(ls[i].as_str(), secrets).as_str());
        assert(texts(ls@)[i as int] == ls@[i as int]@);
        assert(all[i as int] == t@);
        out.push(t);
        assert(texts(out@) =~= done.push(t@));
        assert(texts(out@) =~= seq!["     ── script ──"@] + all.take(i + 1));
        i += 1;
    }
    assert(all.take(ls@.len() as int) =~= all);
    let n = map_len(env);
    let ghost head = texts(out@);
    if n > 0 {
        out.push("     ── env ──".to_owned());
        let ghost vars = map_entries(*env).map_values(|e: (Text, Text)| env_line(e, sec));
        let ghost start = head.push("     ── env ──"@);
        let mut k: usize = 0;
        assert(texts(out@) =~= start + vars.take(0));
        while k < n
            invariant
                k <= n,
                n == map_entries(*env).len(),
                n == vars.len(),
                sec == map_entries(*secrets),
                vars == map_entries(*env).map_values(|e: (Text, Text)| env_line(e, sec)),
                texts(out@) == start + vars.take(k as int),
            decreases n - k,
        {
            let ghost done = texts(out@);
            let (name, v) = map_entry(env, k);
            let t = concat4(
                "     ",
                name.as_str(),
                "=",
                clip(mask_secrets(v.as_str(), secrets).as_str()).as_str(),
            );
            assert(vars[k as int] == t@);
            out.push(t);
            assert(texts(out@) =~= done.push(t@));
            assert(texts(out@) =~= start + vars.take(k + 1));
            k += 1;
        }
        assert(vars.take(n as int) =~= vars);
        assert(start + vars =~= head + (seq!["     ── env ──"@] + vars));
    }
    assert(texts(out@) =~= info_lines(script@, map_entries(*env), sec));
    out
}

// ---------------------------------------------------------------------------
// What a step changed
// ---------------------------------------------------------------------------

/// An entry as it is shown.
pub open spec fn entry_text(e: EntryView) -> Text {
    match e {
        EntryView::File(p) => p,
        EntryView::Dir(p, n) => p + "/ ("@ + decimal(n) + " files)"@,
    }
}

/// An entry as it is shown.
pub fn fmt_entry(e: &Entry) -> (r: String)
    ensures
        r@ == entry_text(e@),
{
    match e {
        Entry::File(p) => p.clone(),
        Entry::Dir(p, n) => concat4(p.as_str(), "/ (", usize_text(*n).as_str(), " files)"),
    }
}

/// A value as it is shown.
pub open spec fn safe_value(v: Text, secrets: Seq<(Text, Text)>) -> Text {
    clipped(without_secrets(v, secrets))
}

/// A value as it is shown.
fn show_value(v: &str, secrets: &StrMap) -> (r: String)
    ensures
        r@ == safe_value(v@, map_entries(*secrets)),
{
    clip(mask_secrets(v, secrets).as_str())
}

/// The variables that came.
pub open spec fn added_lines(v: Seq<(Text, Text)>, secrets: Seq<(Text, Text)>) -> Seq<Text> {
    v.map_values(|e: (Text, Text)| "      + "@ + e.0 + " = "@ + safe_value(e.1, secrets))
}

/// The variables that changed.
pub open spec fn changed_lines(v: Seq<(Text, Text, Text)>, secrets: Seq<(Text, Text)>) -> Seq<Text> {
    v.map_values(
        |e: (Text, Text, Text)|
            ("      ~ "@ + e.0 + ": "@) + safe_value(e.1, secrets) + " → "@ + safe_value(
                e.2,
                secrets,
            ),
    )
}

/// Lines with something in front of each.
pub open spec fn marked(mark: Text, v: Seq<Text>) -> Seq<Text> {
    v.map_values(|t: Text| mark + t)
}

/// Lines without the secrets, with something in front of each.
pub open spec fn marked_safe(mark: Text, v: Seq<Text>, secrets: Seq<(Text, Text)>) -> Seq<Text> {
    v.map_values(|t: Text| mark + without_secrets(t, secrets))
}

/// What is shown of an environment's changes.
pub open spec fn env_diff_lines(d: EnvDiffView, secrets: Seq<(Text, Text)>) -> Seq<Text> {
    if d.is_empty() {
        Seq::empty()
    } else {
        seq!["    env:"@] + added_lines(d.added, secrets) + changed_lines(d.changed, secrets)
            + marked("      - "@, d.removed) + marked_safe(
            "      + PATH ⊕ "@,
            d.path_added,
            secrets,
        )
    }
}

/// Entries as they are shown.
pub open spec fn entry_texts(v: Seq<EntryView>) -> Seq<Text> {
    v.map_values(|e: EntryView| entry_text(e))
}

/// The modified files that are listed.
pub open spec fn listed_modified(v: Seq<Text>) -> Seq<Text> {
    if v.len() > MAX_MODIFIED {
        v.take(MAX_MODIFIED as int)
    } else {
        v
    }
}

/// The line that stands for the modified files that are not listed.
pub open spec fn more_modified(n: nat) -> Seq<Text> {
    if n > MAX_MODIFIED {
        seq!["      … and "@ + decimal((n - MAX_MODIFIED) as nat) + " more modified"@]
    } else {
        Seq::empty()
    }
}

/// What is shown of the files.
pub open spec fn fs_diff_lines(d: FsDiffView, secrets: Seq<(Text, Text)>) -> Seq<Text> {
    if d.is_empty() {
        Seq::empty()
    } else {
        seq!["    files:"@] + marked_safe("      + "@, entry_texts(d.added), secrets) + marked_safe(
            "      - "@,
            entry_texts(d.removed),
            secrets,
        ) + marked_safe("      ~ "@, listed_modified(d.modified), secrets) + more_modified(
            d.modified.len(),
        )
    }
}

/// What is shown where the files could not all be looked at.
pub open spec fn truncated_lines(truncated: bool) -> Seq<Text> {
    if truncated {
        seq!["    (filesystem diff skipped: workspace exceeds 20000 files)"@]
    } else {
        Seq::empty()
    }
}

/// What is shown of a step's changes.
pub open spec fn diff_lines(
    env: EnvDiffView,
    fs: FsDiffView,
    secrets: Seq<(Text, Text)>,
) -> Seq<Text> {
    env_diff_lines(env, secrets) + fs_diff_lines(fs, secrets) + truncated_lines(fs.truncated)
}

/// Add lines with something in front of each.
fn push_marked(out: &mut Vec<String>, mark: &str, v: &Vec<String>)
    ensures
        texts(final(out)@) == texts(old(out)@) + marked(mark@, texts(v@)),
{
    let ghost start = texts(out@);
    let ghost all = marked(mark@, texts(v@));
    let mut i: usize = 0;
    assert(start + all.take(0) =~= texts(out@));
    while i < v.len()
        invariant
            i <= v@.len(),
            all == marked(mark@, texts(v@)),
            texts(out@) == start + all.take(i as int),
        decreases v@.len() - i,
    {
        let ghost done = texts(out@);
        let t = concat2(mark, v[i].as_str());
        assert(texts(v@)[i as int] == v@[i as int]@);
        assert(all[i as int] == t@);
        out.push(t);
        assert(texts(out@) =~= done.push(t@));
        assert(texts(out@) =~= start + all.take(i + 1));
        i += 1;
    }
    assert(all.take(v@.len() as int) =~= all);
}

/// Add lines without the secrets, with something in front of each, up to a
/// number of them.
fn push_marked_safe(out: &mut Vec<String>, mark: &str, v: &Vec<String>, upto: usize, secrets: &StrMap)
    requires
        upto <= v@.len(),
    ensures
        texts(final(out)@) == texts(old(out)@) + marked_safe(
            mark@,
            texts(v@).take(upto as int),
            map_entries(*secrets),
        ),
{
    let ghost start = texts(out@);
    let ghost all = marked_safe(mark@, texts(v@).take(upto as int), map_entries(*secrets));
    let mut i: usize = 0;
    assert(start + all.take(0) =~= texts(out@));
    while i < upto
        invariant
            i <= upto <= v@.len(),
            all == marked_safe(mark@, texts(v@).take(upto as int), map_entries(*secrets)),
            texts(out@) == start + all.take(i as int),
        decreases upto - i,
    {
        let ghost done = texts(out@);
        let t = concat2(mark, mask_secrets(v[i].as_str(), secrets).as_str());
        assert(texts(v@).take(upto as int)[i as int] == v@[i as int]@);
        assert(all[i as int] == t@);
        out.push(t);
        assert(texts(out@) =~= done.push(t@));
        assert(texts(out@) =~= start + all.take(i + 1));
        i += 1;
    }
    assert(all.take(upto as int) =~= all);
}

/// Add entries without the secrets, with something in front of each.
fn push_entries(out: &mut Vec<String>, mark: &str, v: &Vec<Entry>, secrets: &StrMap)
    ensures
        texts(final(out)@) == texts(old(out)@) + marked_safe(
            mark@,
            entry_texts(entry_views(v@)),
            map_entries(*secrets),
        ),
{
    let ghost start = texts(out@);
    let ghost all = marked_safe(mark@, entry_texts(entry_views(v@)), map_entries(*secrets));
    let mut i: usize = 0;
    assert(start + all.take(0) =~= texts(out@));
    while i < v.len()
        invariant
            i <= v@.len(),
            all == marked_safe(mark@, entry_texts(entry_views(v@)), map_entries(*secrets)),
            texts(out@) == start + all.take(i as int),
        decreases v@.len() - i,
    {
        let ghost done = texts(out@);
        let t = concat2(mark, mask_secrets(fmt_entry(&v[i]).as_str(), secrets).as_str());
        assert(entry_views(v@)[i as int] == v@[i as int]@);
        assert(entry_texts(entry_views(v@))[i as int] == entry_text(v@[i as int]@));
        assert(all[i as int] == t@);
        out.push(t);
        assert(texts(out@) =~= done.push(t@));
        assert(texts(out@) =~= start + all.take(i + 1));
        i += 1;
    }
    assert(all.take(v@.len() as int) =~= all);
}

/// The lines that show an environment's changes.
fn push_env_diff(out: &mut Vec<String>, d: &EnvDiff, secrets: &StrMap)
    ensures
        texts(final(out)@) == texts(old(out)@) + env_diff_lines(d@, map_entries(*secrets)),
{
    let ghost start = texts(out@);
    let ghost sec = map_entries(*secrets);
    if d.is_empty() {
        assert(start + Seq::<Text>::empty() =~= start);
        return;
    }
    out.push("    env:".to_owned());
    let ghost h0 = start + seq!["    env:"@];
    assert(texts(out@) =~= h0);
    let ghost a = added_lines(d@.added, sec);
    let mut i: usize = 0;
    assert(texts(out@) =~= h0 + a.take(0));
    while i < d.added.len()
        invariant
            i <= d.added@.len(),
            sec == map_entries(*secrets),
            a == added_lines(d@.added, sec),
            texts(out@) == h0 + a.take(i as int),
        decreases d.added@.len() - i,
    {
        let ghost done = texts(out@);
        let t = concat4(
            "      + ",
            d.added[i].0.as_str(),
            " = ",
            show_value(d.added[i].1.as_str(), secrets).as_str(),
        );
        assert(d@.added[i as int] == (d.added@[i as int].0@, d.added@[i as int].1@));
        assert(a[i as int] == t@);
        out.push(t);
        assert(texts(out@) =~= done.push(t@));
        assert(texts(out@) =~= h0 + a.take(i + 1));
        i += 1;
    }
    assert(a.take(d.added@.len() as int) =~= a);
    let ghost h1 = h0 + a;
    let ghost c = changed_lines(d@.changed, sec);
    let mut k: usize = 0;
    assert(texts(out@) =~= h1 + c.take(0));
    while k < d.changed.len()
        invariant
            k <= d.changed@.len(),
            sec == map_entries(*secrets),
            c == changed_lines(d@.changed, sec),
            texts(out@) == h1 + c.take(k as int),
        decreases d.changed@.len() - k,
    {
        let ghost done = texts(out@);
        let head = concat3("      ~ ", d.changed[k].0.as_str(), ": ");
        let t = concat4(
            head.as_str(),
            show_value(d.changed[k].1.as_str(), secrets).as_str(),
            " → ",
            show_value(d.changed[k].2.as_str(), secrets).as_str(),
        );
        assert(d@.changed[k as int] == (
            d.changed@[k as int].0@,
            d.changed@[k as int].1@,
            d.changed@[k as int].2@,
        ));
        assert(c[k as int] == t@);
        out.push(t);
        assert(texts(out@) =~= done.push(t@));
        assert(texts(out@) =~= h1 + c.take(k + 1));
        k += 1;
    }
    assert(c.take(d.changed@.len() as int) =~= c);
    push_marked(out, "      - ", &d.removed);
    assert(texts(d.path_added@).take(d.path_added@.len() as int) =~= d@.path_added);
    push_marked_safe(out, "      + PATH ⊕ ", &d.path_added, d.path_added.len(), secrets);
    assert(texts(out@) =~= start + env_diff_lines(d@, sec));
}

/// The lines that show the files' changes.
fn push_fs_diff(out: &mut Vec<String>, d: &FsDiff, secrets: &StrMap)
    ensures
        texts(final(out)@) == texts(old(out)@) + fs_diff_lines(d@, map_entries(*secrets)),
{
    let ghost start = texts(out@);
    let ghost sec = map_entries(*secrets);
    if d.is_empty() {
        assert(start + Seq::<Text>::empty() =~= start);
        return;
    }
    out.push("    files:".to_owned());
    assert(texts(out@) =~= start + seq!["    files:"@]);
    push_entries(out, "      + ", &d.added, secrets);
    push_entries(out, "      - ", &d.removed, secrets);
    let n = d.modified.len();
    let upto = if n > MAX_MODIFIED {
        MAX_MODIFIED
    } else {
        n
    };
    assert(texts(d.modified@).take(upto as int) =~= listed_modified(d@.modified));
    push_marked_safe(out, "      ~ ", &d.modified, upto, secrets);
    let ghost before = texts(out@);
    if n > MAX_MODIFIED {
        let t = concat3("      … and ", usize_text(n - MAX_MODIFIED).as_str(), " more modified");
        out.push(t);
        assert(texts(out@) =~= before + more_modified(d@.modified.len()));
    } else {
        assert(before =~= before + more_modified(d@.modified.len()));
    }
    assert(texts(out@) =~= start + fs_diff_lines(d@, sec));
}

/// The lines that show what a step changed, with secrets masked.
pub fn print_diff(env: &EnvDiff, fs: &FsDiff, secrets: &StrMap) -> (r: Vec<String>)
    ensures
        texts(r@) == diff_lines(env@, fs@, map_entries(*secrets)),
{
    let mut out: Vec<String> = Vec::new();
    assert(texts(out@) =~= Seq::empty());
    push_env_diff(&mut out, env, secrets);
    push_fs_diff(&mut out, fs, secrets);
    let ghost before = texts(out@);
    if fs.truncated {
        out.push("    (filesystem diff skipped: workspace exceeds 20000 files)".to_owned());
        assert(texts(out@) =~= before + truncated_lines(true));
    } else {
        assert(before =~= before + truncated_lines(false));
    }
    assert(texts(out@) =~= diff_lines(env@, fs@, map_entries(*secrets)));
    out
}

// ---------------------------------------------------------------------------
// Laws
// ---------------------------------------------------------------------------

/// Nothing is shown where nothing changed and all was looked at.
pub proof fn law_no_change_shows_nothing(env: EnvDiffView, fs: FsDiffView, secrets: Seq<(Text, Text)>)
    requires
        env.is_empty(),
        fs.is_empty(),
        !fs.truncated,
    ensures
        diff_lines(env, fs, secrets) == Seq::<Text>::empty(),
{
    assert(diff_lines(env, fs, secrets) =~= Seq::<Text>::empty());
}

/// Of many modified files only the first are listed, and the others are counted.
pub proof fn law_long_lists_are_cut(v: Seq<Text>)
    ensures
        listed_modified(v).len() <= MAX_MODIFIED,
        v.len() <= MAX_MODIFIED ==> listed_modified(v) == v && more_modified(v.len())
            == Seq::<Text>::empty(),
        v.len() > MAX_MODIFIED ==> listed_modified(v) == v.take(MAX_MODIFIED as int)
            && more_modified(v.len()).len() == 1,
{
}

/// A run pauses before a step where it pauses before all, or where a breakpoint
/// has the id of the step.
pub proof fn law_where_a_run_pauses(step: StepView, step_all: bool, points: Seq<Text>)
    ensures
        step_all ==> pauses(step, step_all, points),
        !step_all && step.id is None ==> !pauses(step, step_all, points),
        !step_all ==> (step.id matches Some(id) ==> (pauses(step, step_all, points) <==> exists|
            i: int,
        |
            0 <= i < points.len() && #[trigger] points[i] == id)),
{
}

/// What each answer at a pause means, whatever its case and the white space around
/// it; the end of the input leaves the run.
pub proof fn law_what_answers_mean(line: Text)
    ensures
        reply_of(None) == ReplyView::Quit,
        ({
            let t = lowered(trimmed(line));
            let r = reply_of(Some(line));
            &&& (t.len() == 0 || t == "c"@ || t == "continue"@) <==> r == ReplyView::Run
            &&& (t == "k"@ || t == "skip"@) <==> r == ReplyView::Skip
            &&& (t == "q"@ || t == "quit"@) <==> r == ReplyView::Quit
            &&& (t == "i"@ || t == "info"@) <==> r == ReplyView::Info
            &&& (t == "s"@ || t == "shell"@) <==> r == ReplyView::Shell
            &&& r matches ReplyView::Unknown(u) ==> u == t
        }),
{
    reveal_strlit("c");
    reveal_strlit("continue");
    reveal_strlit("k");
    reveal_strlit("skip");
    reveal_strlit("q");
    reveal_strlit("quit");
    reveal_strlit("i");
    reveal_strlit("info");
    reveal_strlit("s");
    reveal_strlit("shell");
    assert("c"@[0] == 'c' && "continue"@[0] == 'c' && "k"@[0] == 'k' && "skip"@[0] == 's' && "q"@[0]
        == 'q' && "quit"@[0] == 'q' && "i"@[0] == 'i' && "info"@[0] == 'i' && "s"@[0] == 's'
        && "shell"@[0] == 's');
    assert("skip"@.len() == 4 && "shell"@.len() == 5 && "s"@.len() == 1 && "c"@.len() == 1
        && "k"@.len() == 1 && "q"@.len() == 1 && "i"@.len() == 1);
}

/// What is shown of a step: each line of its script and each variable, in order,
/// without any secret value.
pub proof fn law_what_is_shown_of_a_step(
    script: Text,
    env: Seq<(Text, Text)>,
    secrets: Seq<(Text, Text)>,
)
    ensures
        ({
            let r = info_lines(script, env, secrets);
            let ls = lines_of(script);
            &&& r[0] == "     ── script ──"@
            &&& forall|i: int|
                0 <= i < ls.len() ==> r[i + 1] == "     "@ + without_secrets(
                    #[trigger] ls[i],
                    secrets,
                )
            &&& env.len() == 0 ==> r.len() == ls.len() + 1
            &&& env.len() > 0 ==> r.len() == ls.len() + env.len() + 2 && r[ls.len() as int + 1]
                == "     ── env ──"@
            &&& forall|i: int|
                0 <= i < env.len() ==> r[ls.len() + 2 + i] == "     "@ + (#[trigger] env[i]).0
                    + "="@ + clipped(without_secrets(env[i].1, secrets))
        }),
{
}

/// What is shown of the environment's change: what was added, changed and removed
/// and what came to the path, in this order, without any secret value.
pub proof fn law_what_is_shown_of_variables(d: EnvDiffView, secrets: Seq<(Text, Text)>)
    requires
        !d.is_empty(),
    ensures
        ({
            let r = env_diff_lines(d, secrets);
            let a = d.added.len() as int;
            let b = a + d.changed.len();
            let c = b + d.removed.len();
            &&& r.len() == 1 + c + d.path_added.len()
            &&& r[0] == "    env:"@
            &&& forall|i: int|
                0 <= i < d.added.len() ==> r[1 + i] == "      + "@ + (#[trigger] d.added[i]).0
                    + " = "@ + clipped(without_secrets(d.added[i].1, secrets))
            &&& forall|i: int|
                0 <= i < d.changed.len() ==> r[1 + a + i] == ("      ~ "@ + (
                #[trigger] d.changed[i]).0 + ": "@) + clipped(
                    without_secrets(d.changed[i].1, secrets),
                ) + " → "@ + clipped(without_secrets(d.changed[i].2, secrets))
            &&& forall|i: int|
                0 <= i < d.removed.len() ==> r[1 + b + i] == "      - "@ + #[trigger] d.removed[i]
            &&& forall|i: int|
                0 <= i < d.path_added.len() ==> r[1 + c + i] == "      + PATH ⊕ "@
                    + without_secrets(#[trigger] d.path_added[i], secrets)
        }),
{
}

/// What is shown of the files' change: what was added, removed and modified, in
/// this order, the last up to fifty and with a count of the others.
pub proof fn law_what_is_shown_of_files(d: FsDiffView, secrets: Seq<(Text, Text)>)
    requires
        !d.is_empty(),
    ensures
        ({
            let r = fs_diff_lines(d, secrets);
            let a = d.added.len() as int;
            let b = a + d.removed.len();
            let m: int = if d.modified.len() > 50 {
                50
            } else {
                d.modified.len() as int
            };
            &&& r.len() == 1 + b + m + (if d.modified.len() > 50 {
                1int
            } else {
                0int
            })
            &&& r[0] == "    files:"@
            &&& forall|i: int|
                0 <= i < a ==> r[1 + i] == "      + "@ + without_secrets(
                    entry_text(#[trigger] d.added[i]),
                    secrets,
                )
            &&& forall|i: int|
                0 <= i < d.removed.len() ==> r[1 + a + i] == "      - "@ + without_secrets(
                    entry_text(#[trigger] d.removed[i]),
                    secrets,
                )
            &&& forall|i: int|
                0 <= i < m ==> r[1 + b + i] == "      ~ "@ + without_secrets(
                    #[trigger] d.modified[i],
                    secrets,
                )
            &&& d.modified.len() > 50 ==> r[1 + b + 50] == "      … and "@ + decimal(
                (d.modified.len() - 50) as nat,
            ) + " more modified"@
        }),
        forall|p: Text| #[trigger] entry_text(EntryView::File(p)) == p,
        forall|p: Text, n: nat| #[trigger]
            entry_text(EntryView::Dir(p, n)) == p + "/ ("@ + decimal(n) + " files)"@,
{
}

/// What is shown of a step's changes: those of the environment, then those of the
/// files, and a note where the files were too many to look at.
pub proof fn law_what_is_shown_of_changes(
    env: EnvDiffView,
    fs: FsDiffView,
    secrets: Seq<(Text, Text)>,
)
    ensures
        !fs.truncated ==> diff_lines(env, fs, secrets) == env_diff_lines(env, secrets)
            + fs_diff_lines(fs, secrets),
        fs.truncated ==> diff_lines(env, fs, secrets) == (env_diff_lines(env, secrets)
            + fs_diff_lines(fs, secrets)).push(
            "    (filesystem diff skipped: workspace exceeds 20000 files)"@,
        ),
        env.is_empty() ==> env_diff_lines(env, secrets).len() == 0,
        fs.is_empty() ==> fs_diff_lines(fs, secrets).len() == 0,
{
    let h = env_diff_lines(env, secrets) + fs_diff_lines(fs, secrets);
    assert(h + Seq::<Text>::empty() =~= h);
    assert(diff_lines(env, fs, secrets) =~= h + truncated_lines(fs.truncated));
    if fs.truncated {
        assert(diff_lines(env, fs, secrets) =~= h.push(
            "    (filesystem diff skipped: workspace exceeds 20000 files)"@,
        ));
    }
}

} // verus!
