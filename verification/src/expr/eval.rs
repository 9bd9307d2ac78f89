//! From a syntax tree to a value.

use crate::expr::error::{ExprError, Fault};
use crate::expr::parse::{asts, lemma_call_view, Ast, AstView, BinOp};
use crate::json::{json_parsed, json_pretty, json_pretty_text, json_read};
use crate::members::Members;
use crate::numeral::{digit_run, run_end, Need, NeedView, Numerals, NumeralsView};
use crate::numtext::{digits_value, read_digits};
use crate::order::{before, comes_before};
use crate::results::{after_done, ahead};
use crate::scan::{holds, join, joined};
use crate::table::lookup;
use crate::text::{
    begins, chars_of, ends, ends_with, lowered, slice_text, starts_with, str_eq, texts, to_lower,
    Text,
};
use crate::value::{
    lemma_value_view, numeric, shown, tree, tree_value, truthy, values, Value, ValueView,
};
use vstd::prelude::*;

verus! {

/// The status of a job, as `success()`, `failure()` and `cancelled()` see it.
#[derive(Clone, Copy, Debug, PartialEq, Eq, Structural)]
pub enum JobStatus {
    /// Nothing has failed.
    Success,
    /// Something has failed.
    Failure,
    /// The job was cancelled.
    Cancelled,
}

impl Default for JobStatus {
    fn default() -> (r: JobStatus)
        ensures
            r == JobStatus::Success,
    {
        JobStatus::Success
    }
}

/// Everything an expression can read: the named contexts (`github`, `env`,
/// `steps`, `matrix` and so on), the current job status, and the numerals known.
#[derive(Debug)]
pub struct Context {
    /// Top-level context objects by name.
    pub vars: Members,
    /// The current status, for the status functions.
    pub status: JobStatus,
    /// Conversions between text and numbers.
    pub numerals: Numerals,
}

/// [`Context`] over views.
pub struct ContextView {
    /// Top-level context objects by name.
    pub vars: Seq<(Text, ValueView)>,
    /// The current status.
    pub status: JobStatus,
    /// Conversions between text and numbers.
    pub numerals: NumeralsView,
}

impl View for Context {
    type V = ContextView;

    open spec fn view(&self) -> ContextView {
        ContextView {
            vars: self.vars@,
            status: self.status,
            numerals: self.numerals@,
        }
    }
}

impl Context {
    /// A context with no status override and no numerals.
    pub fn new(vars: Members) -> (r: Context)
        ensures
            r@.vars == vars@,
            r@.status == JobStatus::Success,
            r@.numerals.readings.len() == 0,
            r@.numerals.showings.len() == 0,
    {
        Context { vars, status: JobStatus::Success, numerals: Numerals::new() }
    }
}

impl Default for Context {
    /// A context with nothing to read.
    fn default() -> (r: Context)
        ensures
            r@.vars == Seq::<(Text, ValueView)>::empty(),
            r@.status == JobStatus::Success,
            r@.numerals.readings.len() == 0,
            r@.numerals.showings.len() == 0,
    {
        Context::new(Members::new())
    }
}

impl Clone for Context {
    fn clone(&self) -> (r: Context)
        ensures
            r@ == self@,
    {
        Context { vars: self.vars.copy(), status: self.status, numerals: self.numerals.copy() }
    }
}

// ---------------------------------------------------------------------------
// What an expression is worth
// ---------------------------------------------------------------------------

/// A result whose error is a missing conversion, as an expression's.
pub open spec fn needed<A>(r: Result<A, NeedView>) -> Result<A, Fault> {
    match r {
        Ok(a) => Ok(a),
        Err(e) => Err(Fault::Need(e)),
    }
}

/// A truth value as an expression's result.
pub open spec fn verdict(r: Result<bool, NeedView>) -> Result<ValueView, Fault> {
    match r {
        Ok(b) => Ok(ValueView::Bool(b)),
        Err(e) => Err(Fault::Need(e)),
    }
}

/// The value of a key, or null.
pub open spec fn entry_or_null(m: Seq<(Text, ValueView)>, k: Text) -> ValueView {
    match lookup(m, k) {
        Some(v) => v,
        None => ValueView::Null,
    }
}

/// A property or an item of a value; what is not there is null.
pub open spec fn member(base: ValueView, key: ValueView, n: NumeralsView) -> Result<
    ValueView,
    NeedView,
> {
    match base {
        ValueView::Object(m) => match shown(key, n) {
            Ok(k) => Ok(entry_or_null(m, k)),
            Err(e) => Err(e),
        },
        ValueView::Array(items) => match numeric(key, n) {
            Ok(d) => Ok(
                match d.whole() {
                    Some(i) => if 0 <= i < items.len() {
                        items[i]
                    } else {
                        ValueView::Null
                    },
                    None => ValueView::Null,
                },
            ),
            Err(e) => Err(e),
        },
        _ => Ok(ValueView::Null),
    }
}

/// Loose equality: scalars of one kind directly, strings whatever their case,
/// kinds mixed as numbers; lists and objects equal nothing of their kind.
pub open spec fn loosely_equal(a: ValueView, b: ValueView, n: NumeralsView) -> Result<
    bool,
    NeedView,
> {
    match (a, b) {
        (ValueView::Null, ValueView::Null) => Ok(true),
        (ValueView::Bool(x), ValueView::Bool(y)) => Ok(x == y),
        (ValueView::Number(x), ValueView::Number(y)) => Ok(x.same(y)),
        (ValueView::Str(x), ValueView::Str(y)) => Ok(lowered(x) == lowered(y)),
        (ValueView::Array(_), ValueView::Array(_)) => Ok(false),
        (ValueView::Object(_), ValueView::Object(_)) => Ok(false),
        _ => match numeric(a, n) {
            Err(e) => Err(e),
            Ok(x) => match numeric(b, n) {
                Err(e) => Err(e),
                Ok(y) => Ok(x.same(y)),
            },
        },
    }
}

/// What a relational operator says of two things of which one may come first.
pub open spec fn relation_holds(op: BinOp, less: bool, greater: bool) -> bool {
    match op {
        BinOp::Lt => less,
        BinOp::Le => !greater,
        BinOp::Gt => greater,
        BinOp::Ge => !less,
        _ => false,
    }
}

/// A relational comparison: strings by their order whatever their case, booleans
/// by theirs, anything else as numbers; NaN stands in no relation.
pub open spec fn related(op: BinOp, a: ValueView, b: ValueView, n: NumeralsView) -> Result<
    bool,
    NeedView,
> {
    match (a, b) {
        (ValueView::Str(x), ValueView::Str(y)) => Ok(
            relation_holds(
                op,
                before(lowered(x), lowered(y)),
                before(lowered(y), lowered(x)),
            ),
        ),
        (ValueView::Bool(x), ValueView::Bool(y)) => Ok(relation_holds(op, !x && y, x && !y)),
        _ => match numeric(a, n) {
            Err(e) => Err(e),
            Ok(x) => match numeric(b, n) {
                Err(e) => Err(e),
                Ok(y) => Ok(
                    !x.is_nan() && !y.is_nan() && relation_holds(op, x.below(y), y.below(x)),
                ),
            },
        },
    }
}

/// An item is loosely equal to the needle.
pub open spec fn any_equal(items: Seq<ValueView>, needle: ValueView, n: NumeralsView) -> Result<
    bool,
    NeedView,
>
    decreases items.len(),
{
    if items.len() == 0 {
        Ok(false)
    } else {
        match loosely_equal(items[0], needle, n) {
            Err(e) => Err(e),
            Ok(b) => if b {
                Ok(true)
            } else {
                any_equal(items.skip(1), needle, n)
            },
        }
    }
}

/// Two values as lowered strings, the first one first.
pub open spec fn lowered_pair(a: ValueView, b: ValueView, n: NumeralsView) -> Result<
    (Text, Text),
    NeedView,
> {
    match shown(a, n) {
        Err(e) => Err(e),
        Ok(x) => match shown(b, n) {
            Err(e) => Err(e),
            Ok(y) => Ok((lowered(x), lowered(y))),
        },
    }
}

/// `contains`: a list holds an equal item, or a string holds another.
pub open spec fn contained(hay: ValueView, needle: ValueView, n: NumeralsView) -> Result<
    bool,
    NeedView,
> {
    match hay {
        ValueView::Array(items) => any_equal(items, needle, n),
        _ => match lowered_pair(hay, needle, n) {
            Ok(p) => Ok(holds(p.0, p.1)),
            Err(e) => Err(e),
        },
    }
}

/// The string forms of a list of values.
pub open spec fn shown_all(items: Seq<ValueView>, n: NumeralsView) -> Result<Seq<Text>, NeedView>
    decreases items.len(),
{
    if items.len() == 0 {
        Ok(Seq::empty())
    } else {
        ahead(shown(items[0], n), shown_all(items.skip(1), n))
    }
}

/// `join`.
pub open spec fn join_text(first: ValueView, sep: Text, n: NumeralsView) -> Result<Text, NeedView> {
    match first {
        ValueView::Array(items) => match shown_all(items, n) {
            Ok(parts) => Ok(joined(parts, sep)),
            Err(e) => Err(e),
        },
        _ => shown(first, n),
    }
}

/// Text in front of a result.
pub open spec fn prefixed<E>(head: Text, tail: Result<Text, E>) -> Result<Text, E> {
    match tail {
        Ok(t) => Ok(head + t),
        Err(e) => Err(e),
    }
}

/// The character at a position is `c`.
pub open spec fn is_char(s: Text, i: int, c: char) -> bool {
    0 <= i < s.len() && s[i] == c
}

/// The string form of the argument that digits name.
pub open spec fn argument(digits: Text, args: Seq<ValueView>, n: NumeralsView) -> Result<
    Text,
    Fault,
> {
    match digits_value(digits, 10) {
        Some(k) => if k < args.len() {
            needed(shown(args[k as int], n))
        } else {
            Err(Fault::FormatMissing(digits))
        },
        None => Err(Fault::FormatMissing(digits)),
    }
}

/// `format` from position `i` on: `{0}` and the like stand for arguments, `{{`
/// and `}}` for braces.
pub open spec fn formatted(f: Text, i: int, args: Seq<ValueView>, n: NumeralsView) -> Result<
    Text,
    Fault,
>
    decreases f.len() - i,
{
    if !(0 <= i < f.len()) {
        Ok(Seq::empty())
    } else if f[i] == '{' {
        if is_char(f, i + 1, '{') {
            prefixed(seq!['{'], formatted(f, i + 2, args, n))
        } else {
            let j = run_end(f, i + 1);
            if !(i + 1 < j && is_char(f, j, '}')) {
                Err(Fault::FormatMalformed(f))
            } else {
                match argument(f.subrange(i + 1, j), args, n) {
                    Err(e) => Err(e),
                    Ok(t) => prefixed(t, formatted(f, j + 1, args, n)),
                }
            }
        }
    } else if f[i] == '}' {
        if is_char(f, i + 1, '}') {
            prefixed(seq!['}'], formatted(f, i + 2, args, n))
        } else {
            Err(Fault::FormatBrace(f))
        }
    } else {
        prefixed(seq![f[i]], formatted(f, i + 1, args, n))
    }
}

/// `format` of a list of values, the format string first.
pub open spec fn format_values(vals: Seq<ValueView>, n: NumeralsView) -> Result<ValueView, Fault> {
    if vals.len() == 0 {
        Err(Fault::FormatArgs)
    } else {
        match shown(vals[0], n) {
            Err(e) => Err(Fault::Need(e)),
            Ok(f) => match formatted(f, 0, vals.skip(1), n) {
                Err(e) => Err(e),
                Ok(t) => Ok(ValueView::Str(t)),
            },
        }
    }
}

/// A text as an expression's result.
pub open spec fn as_text(r: Result<Text, NeedView>) -> Result<ValueView, Fault> {
    match r {
        Ok(t) => Ok(ValueView::Str(t)),
        Err(e) => Err(Fault::Need(e)),
    }
}

/// A call of a function that takes `want` arguments.
pub open spec fn with_args(
    name: Text,
    got: nat,
    want: nat,
    r: Result<ValueView, Fault>,
) -> Result<ValueView, Fault> {
    if got != want {
        Err(Fault::ArgCount(name, want, got))
    } else {
        r
    }
}

/// What a built-in function gives for its arguments.
pub open spec fn applied(
    name: Text,
    vals: Seq<ValueView>,
    status: JobStatus,
    n: NumeralsView,
) -> Result<ValueView, Fault> {
    let f = lowered(name);
    let got = vals.len();
    if f == "contains"@ {
        with_args(name, got, 2, verdict(contained(vals[0], vals[1], n)))
    } else if f == "startswith"@ {
        with_args(
            name,
            got,
            2,
            match lowered_pair(vals[0], vals[1], n) {
                Ok(p) => Ok(ValueView::Bool(begins(p.0, p.1))),
                Err(e) => Err(Fault::Need(e)),
            },
        )
    } else if f == "endswith"@ {
        with_args(
            name,
            got,
            2,
            match lowered_pair(vals[0], vals[1], n) {
                Ok(p) => Ok(ValueView::Bool(ends(p.0, p.1))),
                Err(e) => Err(Fault::Need(e)),
            },
        )
    } else if f == "format"@ {
        format_values(vals, n)
    } else if f == "join"@ {
        if got == 0 || got > 2 {
            Err(Fault::JoinArgs(got))
        } else if got == 1 {
            as_text(join_text(vals[0], ","@, n))
        } else {
            match shown(vals[1], n) {
                Ok(sep) => as_text(join_text(vals[0], sep, n)),
                Err(e) => Err(Fault::Need(e)),
            }
        }
    } else if f == "tojson"@ {
        with_args(
            name,
            got,
            1,
            match tree(vals[0], n) {
                Ok(t) => Ok(ValueView::Str(json_pretty(t))),
                Err(e) => Err(Fault::Need(e)),
            },
        )
    } else if f == "fromjson"@ {
        with_args(
            name,
            got,
            1,
            match shown(vals[0], n) {
                Ok(s) => match json_parsed(s) {
                    Ok(t) => needed(tree_value(t, n)),
                    Err(m) => Err(Fault::BadJson(m)),
                },
                Err(e) => Err(Fault::Need(e)),
            },
        )
    } else if f == "success"@ {
        with_args(name, got, 0, Ok(ValueView::Bool(status == JobStatus::Success)))
    } else if f == "failure"@ {
        with_args(name, got, 0, Ok(ValueView::Bool(status == JobStatus::Failure)))
    } else if f == "cancelled"@ {
        with_args(name, got, 0, Ok(ValueView::Bool(status == JobStatus::Cancelled)))
    } else if f == "always"@ {
        with_args(name, got, 0, Ok(ValueView::Bool(true)))
    } else if f == "hashfiles"@ {
        Err(Fault::HashFiles)
    } else {
        Err(Fault::UnknownFunction(name))
    }
}

/// What an operator other than `&&` and `||` gives for its operands.
pub open spec fn operated(op: BinOp, a: ValueView, b: ValueView, n: NumeralsView) -> Result<
    ValueView,
    Fault,
> {
    match op {
        BinOp::Eq => verdict(loosely_equal(a, b, n)),
        BinOp::Ne => match loosely_equal(a, b, n) {
            Ok(x) => Ok(ValueView::Bool(!x)),
            Err(e) => Err(Fault::Need(e)),
        },
        _ => verdict(related(op, a, b, n)),
    }
}

/// The value of a syntax tree.
pub open spec fn worth(a: AstView, c: ContextView) -> Result<ValueView, Fault>
    decreases a,
{
    match a {
        AstView::Null => Ok(ValueView::Null),
        AstView::Bool(b) => Ok(ValueView::Bool(b)),
        AstView::Number(d) => Ok(ValueView::Number(d)),
        AstView::Str(s) => Ok(ValueView::Str(s)),
        AstView::Ident(name) => Ok(entry_or_null(c.vars, name)),
        AstView::Property(x, name) => match worth(*x, c) {
            Err(f) => Err(f),
            Ok(v) => needed(member(v, ValueView::Str(name), c.numerals)),
        },
        AstView::Index(x, y) => match worth(*x, c) {
            Err(f) => Err(f),
            Ok(v) => match worth(*y, c) {
                Err(f) => Err(f),
                Ok(k) => needed(member(v, k, c.numerals)),
            },
        },
        AstView::Star(_) => Err(Fault::Filter),
        AstView::Not(x) => match worth(*x, c) {
            Err(f) => Err(f),
            Ok(v) => Ok(ValueView::Bool(!truthy(v))),
        },
        AstView::Call(name, args) => match worths(args, c) {
            Err(f) => Err(f),
            Ok(vals) => applied(name, vals, c.status, c.numerals),
        },
        AstView::Binary(op, x, y) => match worth(*x, c) {
            Err(f) => Err(f),
            Ok(v) => if op == BinOp::And {
                if truthy(v) {
                    worth(*y, c)
                } else {
                    Ok(v)
                }
            } else if op == BinOp::Or {
                if truthy(v) {
                    Ok(v)
                } else {
                    worth(*y, c)
                }
            } else {
                match worth(*y, c) {
                    Err(f) => Err(f),
                    Ok(w) => operated(op, v, w, c.numerals),
                }
            },
        },
    }
}

/// The values of a list of syntax trees; the first fault wins.
pub open spec fn worths(s: Seq<AstView>, c: ContextView) -> Result<Seq<ValueView>, Fault>
    decreases s,
{
    if s.len() == 0 {
        Ok(Seq::empty())
    } else {
        ahead(worth(s[0], c), worths(s.skip(1), c))
    }
}

// ---------------------------------------------------------------------------
// Evaluation
// ---------------------------------------------------------------------------

/// A value result over views.
pub open spec fn got(r: Result<Value, ExprError>) -> Result<ValueView, Fault> {
    match r {
        Ok(v) => Ok(v@),
        Err(e) => Err(e@),
    }
}

/// A result whose error is a missing conversion, over views.
pub open spec fn bool_need(r: Result<bool, Need>) -> Result<bool, NeedView> {
    match r {
        Ok(b) => Ok(b),
        Err(e) => Err(e@),
    }
}

/// A copy of a key's value, or null.
pub fn find_value(m: &Members, k: &str) -> (r: Value)
    ensures
        r@ == entry_or_null(m@, k@),
{
    match m.get(k) {
        Some(v) => v.copy(),
        None => Value::Null,
    }
}

/// Property or index access. Missing keys and out-of-range indices yield null.
pub fn access(base: &Value, key: &Value, n: &Numerals) -> (r: Result<Value, Need>)
    ensures
        crate::value::value_result(r) == member(base@, key@, n@),
{
    proof {
        lemma_value_view(*base);
    }
    match base {
        Value::Object(m) => match key.to_display_string(n) {
            Ok(k) => Ok(find_value(m, k.as_str())),
            Err(e) => Err(e),
        },
        Value::Array(items) => match key.to_number(n) {
            Ok(d) => Ok(
                match d.index_below(items.len()) {
                    Some(i) => items[i].copy(),
                    None => Value::Null,
                },
            ),
            Err(e) => Err(e),
        },
        _ => Ok(Value::Null),
    }
}

/// Loose equality.
pub fn loose_eq(a: &Value, b: &Value, n: &Numerals) -> (r: Result<bool, Need>)
    ensures
        bool_need(r) == loosely_equal(a@, b@, n@),
{
    match (a, b) {
        (Value::Null, Value::Null) => Ok(true),
        (Value::Bool(x), Value::Bool(y)) => Ok(*x == *y),
        (Value::Number(x), Value::Number(y)) => Ok(x.equals(y)),
        (Value::Str(x), Value::Str(y)) => Ok(
            str_eq(to_lower(x.as_str()).as_str(), to_lower(y.as_str()).as_str()),
        ),
        (Value::Array(_), Value::Array(_)) => Ok(false),
        (Value::Object(_), Value::Object(_)) => Ok(false),
        _ => match a.to_number(n) {
            Err(e) => Err(e),
            Ok(x) => match b.to_number(n) {
                Err(e) => Err(e),
                Ok(y) => Ok(x.equals(&y)),
            },
        },
    }
}

/// What a relational operator says.
fn holds_for(op: BinOp, less: bool, greater: bool) -> (r: bool)
    ensures
        r == relation_holds(op, less, greater),
{
    match op {
        BinOp::Lt => less,
        BinOp::Le => !greater,
        BinOp::Gt => greater,
        BinOp::Ge => !less,
        _ => false,
    }
}

/// Relational comparison.
pub fn compare(op: BinOp, a: &Value, b: &Value, n: &Numerals) -> (r: Result<bool, Need>)
    ensures
        bool_need(r) == related(op, a@, b@, n@),
{
    match (a, b) {
        (Value::Str(x), Value::Str(y)) => {
            let p = to_lower(x.as_str());
            let q = to_lower(y.as_str());
            Ok(
                holds_for(
                    op,
                    comes_before(p.as_str(), q.as_str()),
                    comes_before(q.as_str(), p.as_str()),
                ),
            )
        },
        (Value::Bool(x), Value::Bool(y)) => Ok(holds_for(op, !*x && *y, *x && !*y)),
        _ => match a.to_number(n) {
            Err(e) => Err(e),
            Ok(x) => match b.to_number(n) {
                Err(e) => Err(e),
                Ok(y) => Ok(!x.nan() && !y.nan() && holds_for(op, x.less(&y), y.less(&x))),
            },
        },
    }
}

/// Two values as lowered strings.
fn lower_pair(a: &Value, b: &Value, n: &Numerals) -> (r: Result<(String, String), Need>)
    ensures
        (match r {
            Ok(p) => Ok((p.0@, p.1@)),
            Err(e) => Err(e@),
        }) == lowered_pair(a@, b@, n@),
{
    match a.to_display_string(n) {
        Err(e) => Err(e),
        Ok(x) => match b.to_display_string(n) {
            Err(e) => Err(e),
            Ok(y) => Ok((to_lower(x.as_str()), to_lower(y.as_str()))),
        },
    }
}

/// `contains`.
pub fn contains(haystack: &Value, needle: &Value, n: &Numerals) -> (r: Result<bool, Need>)
    ensures
        bool_need(r) == contained(haystack@, needle@, n@),
{
    proof {
        lemma_value_view(*haystack);
    }
    match haystack {
        Value::Array(items) => {
            let ghost all = values(items@);
            assert(all.skip(0) =~= all);
            let mut i: usize = 0;
            while i < items.len()
                invariant
                    i <= items@.len(),
                    all == values(items@),
                    haystack@ == ValueView::Array(all),
                    any_equal(all, needle@, n@) == any_equal(all.skip(i as int), needle@, n@),
                decreases items@.len() - i,
            {
                assert(all.skip(i as int).skip(1) =~= all.skip(i + 1));
                assert(all.skip(i as int)[0] == items@[i as int]@);
                match loose_eq(&items[i], needle, n) {
                    Err(e) => {
                        return Err(e);
                    },
                    Ok(b) => {
                        if b {
                            return Ok(true);
                        }
                    },
                }
                i += 1;
            }
            Ok(false)
        },
        other => match lower_pair(other, needle, n) {
            Ok(p) => Ok(crate::scan::contains(p.0.as_str(), p.1.as_str())),
            Err(e) => Err(e),
        },
    }
}

/// The string forms of a list of values.
fn show_all(items: &Vec<Value>, n: &Numerals) -> (r: Result<Vec<String>, Need>)
    ensures
        (match r {
            Ok(v) => Ok(texts(v@)),
            Err(e) => Err(e@),
        }) == shown_all(values(items@), n@),
{
    let ghost all = values(items@);
    let mut out: Vec<String> = Vec::new();
    let mut i: usize = 0;
    proof {
        assert(all.skip(0) =~= all);
        assert(texts(out@) =~= Seq::empty());
        match shown_all(all, n@) {
            Ok(t) => {
                assert(Seq::<Text>::empty() + t =~= t);
            },
            Err(_) => {},
        }
    }
    while i < items.len()
        invariant
            i <= items@.len(),
            all == values(items@),
            shown_all(all, n@) == after_done(texts(out@), shown_all(all.skip(i as int), n@)),
        decreases items@.len() - i,
    {
        let ghost rest = all.skip(i as int);
        let ghost done = texts(out@);
        assert(rest[0] == items@[i as int]@);
        assert(rest.skip(1) =~= all.skip(i + 1));
        match items[i].to_display_string(n) {
            Err(e) => {
                return Err(e);
            },
            Ok(t) => {
                out.push(t);
                proof {
                    assert(texts(out@) =~= done + seq![t@]);
                    match shown_all(rest.skip(1), n@) {
                        Ok(more) => {
                            assert(done + (seq![t@] + more) =~= texts(out@) + more);
                        },
                        Err(_) => {},
                    }
                }
            },
        }
        i += 1;
    }
    assert(texts(out@) + Seq::<Text>::empty() =~= texts(out@));
    Ok(out)
}

/// `join`.
fn join_values(first: &Value, sep: &str, n: &Numerals) -> (r: Result<String, Need>)
    ensures
        crate::numeral::text_result(r) == join_text(first@, sep@, n@),
{
    proof {
        lemma_value_view(*first);
    }
    match first {
        Value::Array(items) => match show_all(items, n) {
            Ok(parts) => Ok(join(&parts, sep)),
            Err(e) => Err(e),
        },
        other => other.to_display_string(n),
    }
}

/// The string form of the argument that digits name; the first argument stands
/// at 1 in `vals`.
fn format_argument(digits: String, vals: &Vec<Value>, n: &Numerals) -> (r: Result<
    String,
    ExprError,
>)
    requires
        vals@.len() >= 1,
    ensures
        (match r {
            Ok(t) => Ok(t@),
            Err(e) => Err(e@),
        }) == argument(digits@, values(vals@).skip(1), n@),
{
    let v = chars_of(digits.as_str());
    let count = vals.len() - 1;
    assert(v@.skip(0) =~= digits@);
    match read_digits(&v, 0, 10, count as u128) {
        Some(k) => {
            if k < count as u128 {
                assert(values(vals@).skip(1)[k as int] == vals@[k + 1]@);
                return match vals[k as usize + 1].to_display_string(n) {
                    Ok(t) => Ok(t),
                    Err(e) => Err(ExprError::Need(e)),
                };
            }
        },
        None => {},
    }
    Err(ExprError::FormatMissing(digits))
}

/// `format('{0} {1}', a, b)`, with `{{` and `}}` as literal braces.
pub fn format_fn(vals: &Vec<Value>, n: &Numerals) -> (r: Result<Value, ExprError>)
    ensures
        got(r) == format_values(values(vals@), n@),
{
    if vals.len() == 0 {
        return Err(ExprError::FormatArgs);
    }
    let fmt = match vals[0].to_display_string(n) {
        Ok(f) => f,
        Err(e) => {
            return Err(ExprError::Need(e));
        },
    };
    let chars = chars_of(fmt.as_str());
    let len = chars.len();
    let ghost args = values(vals@).skip(1);
    let mut out = String::new();
    let mut i: usize = 0;
    proof {
        assert(out@ =~= Seq::empty());
        match formatted(fmt@, 0, args, n@) {
            Ok(t) => {
                assert(out@ + t =~= t);
            },
            Err(_) => {},
        }
    }
    while i < len
        invariant
            i <= len,
            len == chars@.len(),
            chars@ == fmt@,
            vals@.len() >= 1,
            args == values(vals@).skip(1),
            shown(vals@[0]@, n@) == Ok::<Text, NeedView>(fmt@),
            formatted(fmt@, 0, args, n@) == prefixed(out@, formatted(fmt@, i as int, args, n@)),
        decreases len - i,
    {
        let ghost done = out@;
        let c = chars[i];
        if c == '{' && !(i + 1 < len && chars[i + 1] == '{') {
            let j = digit_run(&chars, i + 1);
            if !(i + 1 < j && j < len && chars[j] == '}') {
                return Err(ExprError::FormatMalformed(fmt));
            }
            match format_argument(slice_text(&chars, i + 1, j), vals, n) {
                Err(e) => {
                    return Err(e);
                },
                Ok(t) => {
                    out.append(t.as_str());
                    proof {
                        match formatted(fmt@, j + 1, args, n@) {
                            Ok(rest) => {
                                assert(done + (t@ + rest) =~= out@ + rest);
                            },
                            Err(_) => {},
                        }
                    }
                    i = j + 1;
                },
            }
        } else if c == '}' && !(i + 1 < len && chars[i + 1] == '}') {
            return Err(ExprError::FormatBrace(fmt));
        } else {
            out.push(c);
            let step: usize = if c == '{' || c == '}' {
                2
            } else {
                1
            };
            proof {
                match formatted(fmt@, i + step, args, n@) {
                    Ok(rest) => {
                        assert(done + (seq![c] + rest) =~= out@ + rest);
                    },
                    Err(_) => {},
                }
            }
            i = i + step;
        }
    }
    assert(out@ + Seq::<char>::empty() =~= out@);
    Ok(Value::Str(out))
}

/// A truth value, or what it needs.
fn as_bool(r: Result<bool, Need>) -> (v: Result<Value, ExprError>)
    ensures
        got(v) == verdict(bool_need(r)),
{
    match r {
        Ok(b) => Ok(Value::Bool(b)),
        Err(e) => Err(ExprError::Need(e)),
    }
}

/// A text, or what it needs.
fn as_string(r: Result<String, Need>) -> (v: Result<Value, ExprError>)
    ensures
        got(v) == as_text(crate::numeral::text_result(r)),
{
    match r {
        Ok(t) => Ok(Value::Str(t)),
        Err(e) => Err(ExprError::Need(e)),
    }
}

/// The complaint about a call with the wrong number of arguments.
pub fn check_args(name: &str, vals: &Vec<Value>, expected: usize) -> (r: Option<ExprError>)
    ensures
        match r {
            Some(e) => vals@.len() != expected && e@ == Fault::ArgCount(
                name@,
                expected as nat,
                vals@.len(),
            ),
            None => vals@.len() == expected,
        },
{
    if vals.len() != expected {
        Some(ExprError::ArgCount { name: name.to_owned(), expected, got: vals.len() })
    } else {
        None
    }
}

/// How many arguments a function with a fixed number of them takes.
fn arity(f: &str) -> (r: Option<usize>)
    ensures
        r == (if f@ == "contains"@ || f@ == "startswith"@ || f@ == "endswith"@ {
            Some(2usize)
        } else if f@ == "tojson"@ || f@ == "fromjson"@ {
            Some(1usize)
        } else if f@ == "success"@ || f@ == "failure"@ || f@ == "cancelled"@ || f@ == "always"@ {
            Some(0usize)
        } else {
            None
        }),
{
    if str_eq(f, "contains") || str_eq(f, "startswith") || str_eq(f, "endswith") {
        Some(2)
    } else if str_eq(f, "tojson") || str_eq(f, "fromjson") {
        Some(1)
    } else if str_eq(f, "success") || str_eq(f, "failure") || str_eq(f, "cancelled") || str_eq(
        f,
        "always",
    ) {
        Some(0)
    } else {
        None
    }
}

/// The names of the built-in functions are all different.
proof fn lemma_names()
    ensures
        "format"@ != "contains"@,
        "format"@ != "startswith"@,
        "format"@ != "endswith"@,
        "format"@ != "tojson"@,
        "format"@ != "fromjson"@,
        "format"@ != "success"@,
        "format"@ != "failure"@,
        "format"@ != "cancelled"@,
        "format"@ != "always"@,
        "join"@ != "contains"@,
        "join"@ != "startswith"@,
        "join"@ != "endswith"@,
        "join"@ != "tojson"@,
        "join"@ != "fromjson"@,
        "join"@ != "success"@,
        "join"@ != "failure"@,
        "join"@ != "cancelled"@,
        "join"@ != "always"@,
        "hashfiles"@ != "contains"@,
        "hashfiles"@ != "startswith"@,
        "hashfiles"@ != "endswith"@,
        "hashfiles"@ != "tojson"@,
        "hashfiles"@ != "fromjson"@,
        "hashfiles"@ != "success"@,
        "hashfiles"@ != "failure"@,
        "hashfiles"@ != "cancelled"@,
        "hashfiles"@ != "always"@,
{
    reveal_strlit("format");
    reveal_strlit("contains");
    reveal_strlit("startswith");
    reveal_strlit("endswith");
    reveal_strlit("tojson");
    reveal_strlit("fromjson");
    reveal_strlit("success");
    reveal_strlit("failure");
    reveal_strlit("cancelled");
    reveal_strlit("always");
    reveal_strlit("join");
    reveal_strlit("hashfiles");
    assert("format"@[0] == 'f' && "failure"@[1] == 'a' && "format"@[1] == 'o');
    assert("fromjson"@[1] == 'r');
    assert("join"@.len() == 4);
    assert("hashfiles"@[0] == 'h');
    assert("cancelled"@[0] == 'c');
    assert("format"@.len() == 6 && "tojson"@.len() == 6 && "always"@.len() == 6);
    assert("tojson"@[0] == 't' && "always"@[0] == 'a');
}

/// Apply a built-in function to its arguments.
pub fn apply(name: &str, vals: &Vec<Value>, status: JobStatus, n: &Numerals) -> (r: Result<
    Value,
    ExprError,
>)
    ensures
        got(r) == applied(name@, values(vals@), status, n@),
{
    let f = to_lower(name);
    proof {
        lemma_names();
    }
    match arity(f.as_str()) {
        Some(want) => match check_args(name, vals, want) {
            Some(e) => {
                return Err(e);
            },
            None => {},
        },
        None => {},
    }
    let is = |t: &str| -> (b: bool)
        ensures
            b == (f@ == t@),
        { str_eq(f.as_str(), t) };
    if is("contains") {
        as_bool(contains(&vals[0], &vals[1], n))
    } else if is("startswith") {
        match lower_pair(&vals[0], &vals[1], n) {
            Ok(p) => Ok(Value::Bool(starts_with(p.0.as_str(), p.1.as_str()))),
            Err(e) => Err(ExprError::Need(e)),
        }
    } else if is("endswith") {
        match lower_pair(&vals[0], &vals[1], n) {
            Ok(p) => Ok(Value::Bool(ends_with(p.0.as_str(), p.1.as_str()))),
            Err(e) => Err(ExprError::Need(e)),
        }
    } else if is("format") {
        format_fn(vals, n)
    } else if is("join") {
        if vals.len() == 0 || vals.len() > 2 {
            Err(ExprError::JoinArgs(vals.len()))
        } else if vals.len() == 1 {
            as_string(join_values(&vals[0], ",", n))
        } else {
            match vals[1].to_display_string(n) {
                Ok(sep) => as_string(join_values(&vals[0], sep.as_str(), n)),
                Err(e) => Err(ExprError::Need(e)),
            }
        }
    } else if is("tojson") {
        match vals[0].to_json(n) {
            Ok(j) => Ok(Value::Str(json_pretty_text(&j))),
            Err(e) => Err(ExprError::Need(e)),
        }
    } else if is("fromjson") {
        match vals[0].to_display_string(n) {
            Ok(s) => match json_read(s.as_str()) {
                Ok(j) => match Value::from_json(j, n) {
                    Ok(v) => Ok(v),
                    Err(e) => Err(ExprError::Need(e)),
                },
                Err(m) => Err(ExprError::BadJson(m)),
            },
            Err(e) => Err(ExprError::Need(e)),
        }
    } else if is("success") {
        Ok(Value::Bool(status == JobStatus::Success))
    } else if is("failure") {
        Ok(Value::Bool(status == JobStatus::Failure))
    } else if is("cancelled") {
        Ok(Value::Bool(status == JobStatus::Cancelled))
    } else if is("always") {
        Ok(Value::Bool(true))
    } else if is("hashfiles") {
        Err(ExprError::HashFiles)
    } else {
        Err(ExprError::UnknownFunction(name.to_owned()))
    }
}

/// Evaluate a call: its arguments first, in order.
fn call(name: &String, args: &Vec<Ast>, ctx: &Context, Ghost(whole): Ghost<Ast>) -> (r: Result<
    Value,
    ExprError,
>)
    requires
        whole == Ast::Call(*name, *args),
    ensures
        got(r) == worth(whole@, ctx@),
    decreases whole, 0int,
{
    let ghost all = asts(args@);
    let mut vals: Vec<Value> = Vec::new();
    let mut i: usize = 0;
    proof {
        lemma_call_view(whole);
        assert(all.skip(0) =~= all);
        assert(values(vals@) =~= Seq::empty());
        match worths(all, ctx@) {
            Ok(t) => {
                assert(Seq::<ValueView>::empty() + t =~= t);
            },
            Err(_) => {},
        }
    }
    while i < args.len()
        invariant
            whole == Ast::Call(*name, *args),
            whole@ == AstView::Call(name@, all),
            all == asts(args@),
            i <= args@.len(),
            worths(all, ctx@) == after_done(values(vals@), worths(all.skip(i as int), ctx@)),
        decreases args@.len() - i,
    {
        let ghost rest = all.skip(i as int);
        let ghost done = values(vals@);
        assert(rest[0] == args@[i as int]@);
        assert(rest.skip(1) =~= all.skip(i + 1));
        assert(decreases_to!(whole => whole->Call_1));
        assert(decreases_to!(args@ => args@[i as int]));
        match eval(&args[i], ctx) {
            Err(e) => {
                return Err(e);
            },
            Ok(v) => {
                vals.push(v);
                proof {
                    assert(values(vals@) =~= done + seq![v@]);
                    match worths(rest.skip(1), ctx@) {
                        Ok(more) => {
                            assert(done + (seq![v@] + more) =~= values(vals@) + more);
                        },
                        Err(_) => {},
                    }
                }
            },
        }
        i += 1;
    }
    assert(values(vals@) + Seq::<ValueView>::empty() =~= values(vals@));
    apply(name.as_str(), &vals, ctx.status, &ctx.numerals)
}

/// Apply an operator other than `&&` and `||`.
pub fn operate(op: BinOp, a: &Value, b: &Value, n: &Numerals) -> (r: Result<Value, ExprError>)
    ensures
        got(r) == operated(op, a@, b@, n@),
{
    match op {
        BinOp::Eq => as_bool(loose_eq(a, b, n)),
        BinOp::Ne => match loose_eq(a, b, n) {
            Ok(x) => Ok(Value::Bool(!x)),
            Err(e) => Err(ExprError::Need(e)),
        },
        _ => as_bool(compare(op, a, b, n)),
    }
}

/// A value, or what it needs.
fn lifted(r: Result<Value, Need>) -> (v: Result<Value, ExprError>)
    ensures
        got(v) == needed(crate::value::value_result(r)),
{
    match r {
        Ok(v) => Ok(v),
        Err(e) => Err(ExprError::Need(e)),
    }
}

/// Evaluate a syntax tree.
pub fn eval(ast: &Ast, ctx: &Context) -> (r: Result<Value, ExprError>)
    ensures
        got(r) == worth(ast@, ctx@),
    decreases *ast, 1int,
{
    match ast {
        Ast::Null => Ok(Value::Null),
        Ast::Bool(b) => Ok(Value::Bool(*b)),
        Ast::Number(d) => Ok(Value::Number(*d)),
        Ast::Str(s) => Ok(Value::Str(s.clone())),
        Ast::Ident(name) => Ok(find_value(&ctx.vars, name.as_str())),
        Ast::Property(x, name) => match eval(x, ctx) {
            Err(e) => Err(e),
            Ok(v) => lifted(access(&v, &Value::Str(name.clone()), &ctx.numerals)),
        },
        Ast::Index(x, y) => match eval(x, ctx) {
            Err(e) => Err(e),
            Ok(v) => match eval(y, ctx) {
                Err(e) => Err(e),
                Ok(k) => lifted(access(&v, &k, &ctx.numerals)),
            },
        },
        Ast::Star(_) => Err(ExprError::Filter),
        Ast::Not(x) => match eval(x, ctx) {
            Err(e) => Err(e),
            Ok(v) => Ok(Value::Bool(!v.is_truthy())),
        },
        Ast::Call(name, args) => call(name, args, ctx, Ghost(*ast)),
        Ast::Binary(op, x, y) => match eval(x, ctx) {
            Err(e) => Err(e),
            Ok(v) => if *op == BinOp::And {
                if v.is_truthy() {
                    eval(y, ctx)
                } else {
                    Ok(v)
                }
            } else if *op == BinOp::Or {
                if v.is_truthy() {
                    Ok(v)
                } else {
                    eval(y, ctx)
                }
            } else {
                match eval(y, ctx) {
                    Err(e) => Err(e),
                    Ok(w) => operate(*op, &v, &w, &ctx.numerals),
                }
            },
        },
    }
}

} // verus!
