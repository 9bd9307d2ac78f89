//! Evaluate `${{ }}` expressions.
//!
//! Text is split into tokens ([`lex`]), tokens are parsed by precedence
//! ([`parse`]) and the tree is evaluated ([`eval`]). [`evaluate`] takes a bare
//! expression, [`interpolate`] a template that mixes literal text with `${{ }}`
//! spans.
//!
//! `&&` and `||` return an operand, equality is loose (whatever the case of
//! strings, never for two aggregates), relational operators compare strings and
//! booleans in kind and coerce anything else to numbers, and a property that is
//! missing is null.

pub mod error;
pub mod eval;
pub mod laws;
pub mod lex;
pub mod parse;
pub mod syntax;

use crate::double::law_small_integers_are_exact;
use crate::expr::error::{ExprError, Fault};
use crate::expr::eval::{
    eval, got, loosely_equal, member, needed, operated, prefixed, related, worth, Context,
    ContextView,
};
use crate::expr::lex::{char_at, lex, tokens};
use crate::expr::parse::{
    asts, lemma_call_view, p_expr, parse, parsed, Ast, AstView, BinOp, MAX_DEPTH,
};
use crate::numeral::{NeedView, Numerals, NumeralsView};

use crate::table::lookup;
use crate::text::{chars_of, has_at, is_at, lowered, slice_text, str_eq, to_lower, Text};
use crate::value::{numeric, shown, truthy, Value, ValueView};
use vstd::prelude::*;

pub use crate::expr::eval::JobStatus;

verus! {

/// The value of an expression.
pub open spec fn evaluated(s: Text, c: ContextView) -> Result<ValueView, Fault> {
    match tokens(s, c.numerals) {
        Err(f) => Err(f),
        Ok(ts) => match parsed(ts) {
            Err(f) => Err(f),
            Ok(a) => worth(a, c),
        },
    }
}

/// The text that an expression stands for in a template.
#[verifier::opaque]
pub open spec fn span_text(s: Text, c: ContextView) -> Result<Text, Fault> {
    match evaluated(s, c) {
        Err(f) => Err(f),
        Ok(v) => needed(shown(v, c.numerals)),
    }
}

/// Where the `}}` that closes a span stands, from `i` on; one inside a string
/// literal does not count.
pub open spec fn close_at(s: Text, i: int, in_str: bool) -> Option<int>
    decreases s.len() - i,
{
    if !(0 <= i < s.len()) {
        None
    } else if in_str {
        if s[i] == '\'' {
            if char_at(s, i + 1) == Some('\'') {
                close_at(s, i + 2, true)
            } else {
                close_at(s, i + 1, false)
            }
        } else {
            close_at(s, i + 1, true)
        }
    } else if s[i] == '\'' {
        close_at(s, i + 1, true)
    } else if s[i] == '}' && char_at(s, i + 1) == Some('}') {
        Some(i)
    } else {
        close_at(s, i + 1, false)
    }
}

/// A span opens at a position.
pub open spec fn opens_at(s: Text, i: int) -> bool {
    has_at(s, "${{"@, i)
}

/// A template from position `i` on, with its spans filled in.
pub open spec fn filled(s: Text, i: int, c: ContextView) -> Result<Text, Fault>
    decreases s.len() - i,
{
    if !(0 <= i < s.len()) {
        Ok(Seq::empty())
    } else if opens_at(s, i) {
        match close_at(s, i + 3, false) {
            None => Err(Fault::Unterminated),
            Some(j) => match span_text(s.subrange(i + 3, j), c) {
                Err(f) => Err(f),
                Ok(t) => if i < j && j + 2 <= s.len() {
                    prefixed(t, filled(s, j + 2, c))
                } else {
                    Ok(t)
                },
            },
        }
    } else {
        prefixed(seq![s[i]], filled(s, i + 1, c))
    }
}

/// A template with its spans filled in.
pub open spec fn interpolated(s: Text, c: ContextView) -> Result<Text, Fault> {
    filled(s, 0, c)
}

/// Where a closing brace pair stands, it stands within the text.
proof fn lemma_close(s: Text, i: int, in_str: bool)
    requires
        0 <= i,
    ensures
        close_at(s, i, in_str) matches Some(j) ==> i <= j && j + 2 <= s.len(),
    decreases s.len() - i,
{
    if i < s.len() {
        lemma_close(s, i + 1, false);
        lemma_close(s, i + 1, true);
        if i + 1 < s.len() {
            lemma_close(s, i + 2, true);
        }
    }
}

/// Evaluate a single expression (the text inside `${{ }}`).
pub fn evaluate(src: &str, ctx: &Context) -> (r: Result<Value, ExprError>)
    ensures
        got(r) == evaluated(src@, ctx@),
{
    match lex(src, &ctx.numerals) {
        Err(e) => Err(e),
        Ok(t) => match parse(&t) {
            Err(e) => Err(e),
            Ok(a) => eval(&a, ctx),
        },
    }
}

/// A text result over views.
pub open spec fn got_text(r: Result<String, ExprError>) -> Result<Text, Fault> {
    match r {
        Ok(t) => Ok(t@),
        Err(e) => Err(e@),
    }
}

/// Evaluate an expression to the text it stands for in a template.
pub fn evaluate_text(src: &str, ctx: &Context) -> (r: Result<String, ExprError>)
    ensures
        got_text(r) == span_text(src@, ctx@),
{
    proof {
        reveal(span_text);
    }
    match evaluate(src, ctx) {
        Err(e) => Err(e),
        Ok(v) => match v.to_display_string(&ctx.numerals) {
            Ok(t) => Ok(t),
            Err(e) => Err(ExprError::Need(e)),
        },
    }
}

/// Find the `}}` that closes a span, skipping any inside a single-quoted string
/// literal.
pub fn find_close(s: &Vec<char>, from: usize) -> (r: Option<usize>)
    requires
        from <= s@.len(),
    ensures
        match r {
            Some(j) => close_at(s@, from as int, false) == Some(j as int) && from <= j && j + 2
                <= s@.len(),
            None => close_at(s@, from as int, false) is None,
        },
{
    let n = s.len();
    let mut i: usize = from;
    let mut in_str = false;
    while i < n
        invariant
            from <= i <= n,
            n == s@.len(),
            close_at(s@, from as int, false) == close_at(s@, i as int, in_str),
        decreases n - i,
    {
        if in_str {
            if s[i] == '\'' {
                if i + 1 < n && s[i + 1] == '\'' {
                    i += 2;
                } else {
                    in_str = false;
                    i += 1;
                }
            } else {
                i += 1;
            }
        } else if s[i] == '\'' {
            in_str = true;
            i += 1;
        } else if s[i] == '}' && i + 1 < n && s[i + 1] == '}' {
            return Some(i);
        } else {
            i += 1;
        }
    }
    None
}

/// Interpolate a template: literal text is kept verbatim, and each `${{ }}` span
/// is evaluated and replaced with its string coercion.
pub fn interpolate(template: &str, ctx: &Context) -> (r: Result<String, ExprError>)
    ensures
        got_text(r) == interpolated(template@, ctx@),
{
    let chars = chars_of(template);
    let open = chars_of("${{");
    let len = chars.len();
    let mut out = String::new();
    let mut i: usize = 0;
    proof {
        reveal_strlit("${{");
        assert(out@ =~= Seq::empty());
        match filled(template@, 0, ctx@) {
            Ok(t) => {
                assert(out@ + t =~= t);
            },
            Err(_) => {},
        }
    }
    while i < len
        invariant
            i <= len,
            len == chars@.len(),
            chars@ == template@,
            open@ == "${{"@,
            open@.len() == 3,
            interpolated(template@, ctx@) == prefixed(
                out@,
                filled(template@, i as int, ctx@),
            ),
        decreases len - i,
    {
        let ghost done = out@;
        if is_at(&chars, &open, i) {
            match find_close(&chars, i + 3) {
                None => {
                    return Err(ExprError::Unterminated);
                },
                Some(j) => {
                    let inner = slice_text(&chars, i + 3, j);
                    match evaluate_text(inner.as_str(), ctx) {
                        Err(e) => {
                            return Err(e);
                        },
                        Ok(t) => {
                            out.append(t.as_str());
                            proof {
                                match filled(template@, j + 2, ctx@) {
                                    Ok(rest) => {
                                        assert(done + (t@ + rest) =~= out@ + rest);
                                    },
                                    Err(_) => {},
                                }
                            }
                            i = j + 2;
                        },
                    }
                },
            }
        } else {
            let c = chars[i];
            out.push(c);
            proof {
                match filled(template@, i + 1, ctx@) {
                    Ok(rest) => {
                        assert(done + (seq![c] + rest) =~= out@ + rest);
                    },
                    Err(_) => {},
                }
            }
            i += 1;
        }
    }
    assert(out@ + Seq::<char>::empty() =~= out@);
    Ok(out)
}

// ---------------------------------------------------------------------------
// Status functions
// ---------------------------------------------------------------------------

/// One of the functions that ask for the job's status.
pub open spec fn status_name(name: Text) -> bool {
    let f = lowered(name);
    f == "success"@ || f == "failure"@ || f == "cancelled"@ || f == "always"@
}

/// A status function is called somewhere in a tree.
pub open spec fn calls_status(a: AstView) -> bool
    decreases a,
{
    match a {
        AstView::Property(x, _) => calls_status(*x),
        AstView::Index(x, y) => calls_status(*x) || calls_status(*y),
        AstView::Star(x) => calls_status(*x),
        AstView::Call(name, args) => status_name(name) || any_calls_status(args),
        AstView::Not(x) => calls_status(*x),
        AstView::Binary(_, x, y) => calls_status(*x) || calls_status(*y),
        _ => false,
    }
}

/// A status function is called somewhere in one of the trees.
pub open spec fn any_calls_status(s: Seq<AstView>) -> bool
    decreases s,
{
    s.len() > 0 && (calls_status(s[0]) || any_calls_status(s.skip(1)))
}

/// Whether an expression refers to a status function.
pub open spec fn asks_status(s: Text, n: NumeralsView) -> Result<bool, Fault> {
    match tokens(s, n) {
        Err(f) => Err(f),
        Ok(ts) => match parsed(ts) {
            Err(f) => Err(f),
            Ok(a) => Ok(calls_status(a)),
        },
    }
}

/// Whether a status function is called somewhere in a tree.
fn has_status_call(a: &Ast) -> (r: bool)
    ensures
        r == calls_status(a@),
    decreases *a,
{
    match a {
        Ast::Property(x, _) => has_status_call(x),
        Ast::Index(x, y) => has_status_call(x) || has_status_call(y),
        Ast::Star(x) => has_status_call(x),
        Ast::Call(name, args) => {
            let f = to_lower(name.as_str());
            proof {
                lemma_call_view(*a);
            }
            if str_eq(f.as_str(), "success") || str_eq(f.as_str(), "failure") || str_eq(
                f.as_str(),
                "cancelled",
            ) || str_eq(f.as_str(), "always") {
                return true;
            }
            let ghost all = asts(args@);
            assert(all.skip(0) =~= all);
            let mut i: usize = 0;
            while i < args.len()
                invariant
                    *a == Ast::Call(*name, *args),
                    all == asts(args@),
                    a@ == AstView::Call(name@, all),
                    !status_name(name@),
                    i <= args@.len(),
                    any_calls_status(all) == any_calls_status(all.skip(i as int)),
                decreases args@.len() - i,
            {
                let ghost rest = all.skip(i as int);
                assert(rest[0] == args@[i as int]@);
                assert(rest.skip(1) =~= all.skip(i + 1));
                assert(decreases_to!(*a => a->Call_1));
                assert(decreases_to!(args@ => args@[i as int]));
                if has_status_call(&args[i]) {
                    return true;
                }
                i += 1;
            }
            false
        },
        Ast::Not(x) => has_status_call(x),
        Ast::Binary(_, x, y) => has_status_call(x) || has_status_call(y),
        _ => false,
    }
}

/// Whether an expression calls `success`, `failure`, `cancelled` or `always`.
/// This looks at calls, not at text: a property or a string of such a name is
/// none.
pub fn references_status_function(src: &str, n: &Numerals) -> (r: Result<bool, ExprError>)
    ensures
        (match r {
            Ok(b) => Ok(b),
            Err(e) => Err(e@),
        }) == asks_status(src@, n@),
{
    match lex(src, n) {
        Err(e) => Err(e),
        Ok(t) => match parse(&t) {
            Err(e) => Err(e),
            Ok(a) => Ok(has_status_call(&a)),
        },
    }
}

// ---------------------------------------------------------------------------
// Laws
// ---------------------------------------------------------------------------

/// `a && b` is `a` where that is false, whatever `b` is; `a || b` is `a` where
/// that is true, whatever `b` is. Both are otherwise `b`.
pub proof fn law_and_or_give_an_operand(a: AstView, b: AstView, c: ContextView)
    requires
        worth(a, c) is Ok,
    ensures
        !truthy(worth(a, c)->Ok_0) ==> worth(
            AstView::Binary(BinOp::And, Box::new(a), Box::new(b)),
            c,
        ) == worth(a, c),
        truthy(worth(a, c)->Ok_0) ==> worth(
            AstView::Binary(BinOp::And, Box::new(a), Box::new(b)),
            c,
        ) == worth(b, c),
        truthy(worth(a, c)->Ok_0) ==> worth(
            AstView::Binary(BinOp::Or, Box::new(a), Box::new(b)),
            c,
        ) == worth(a, c),
        !truthy(worth(a, c)->Ok_0) ==> worth(
            AstView::Binary(BinOp::Or, Box::new(a), Box::new(b)),
            c,
        ) == worth(b, c),
{
}

/// Two lists are never equal, nor are two objects, not even a value and itself.
pub proof fn law_aggregates_are_never_equal(a: ValueView, b: ValueView, n: NumeralsView)
    requires
        (a is Array && b is Array) || (a is Object && b is Object),
    ensures
        loosely_equal(a, b, n) == Ok::<bool, NeedView>(false),
        operated(BinOp::Ne, a, b, n) == Ok::<ValueView, Fault>(ValueView::Bool(true)),
{
}

/// Strings are equal whatever their case.
pub proof fn law_string_equality_ignores_case(x: Text, y: Text, n: NumeralsView)
    ensures
        loosely_equal(ValueView::Str(x), ValueView::Str(y), n) == Ok::<bool, NeedView>(
            lowered(x) == lowered(y),
        ),
        loosely_equal(ValueView::Str(x), ValueView::Str(lowered(x)), n) == Ok::<bool, NeedView>(
            true,
        ),
{
    assert(lowered(lowered(x)) =~= lowered(x));
}

/// Equality does not depend on the side, where both sides have a value.
pub proof fn law_equality_is_symmetric(a: ValueView, b: ValueView, n: NumeralsView)
    requires
        numeric(a, n) is Ok,
        numeric(b, n) is Ok,
    ensures
        loosely_equal(a, b, n) == loosely_equal(b, a, n),
{
}

/// What is not a number equals nothing and stands in no relation.
pub proof fn law_nan_stands_in_no_relation(op: BinOp, a: ValueView, b: ValueView, n: NumeralsView)
    requires
        numeric(a, n) matches Ok(d) && d.is_nan(),
        numeric(b, n) is Ok,
        !(a is Str && b is Str),
        !(a is Array && b is Array),
        !(a is Object && b is Object),
    ensures
        loosely_equal(a, b, n) == Ok::<bool, NeedView>(false),
        related(op, a, b, n) == Ok::<bool, NeedView>(false),
{
    law_small_integers_are_exact(1);
}

/// A key that an object does not hold reads as null, and so does any property of
/// what holds none.
pub proof fn law_missing_members_are_null(m: Seq<(Text, ValueView)>, k: Text, n: NumeralsView)
    requires
        lookup(m, k) is None,
    ensures
        member(ValueView::Object(m), ValueView::Str(k), n) == Ok::<ValueView, NeedView>(
            ValueView::Null,
        ),
        member(ValueView::Null, ValueView::Str(k), n) == Ok::<ValueView, NeedView>(
            ValueView::Null,
        ),
{
}

/// Expressions nested to the limit are an error, whatever follows.
pub proof fn law_depth_is_limited(ts: Seq<crate::expr::lex::TokView>, i: int, d: int)
    requires
        0 <= i <= ts.len(),
        d >= MAX_DEPTH,
    ensures
        p_expr(ts, i, d) == Err::<(AstView, int), Fault>(Fault::TooDeep),
{
}

/// A template without a span is itself.
pub proof fn law_plain_text_is_kept(s: Text, c: ContextView)
    requires
        forall|i: int| 0 <= i < s.len() ==> !opens_at(s, i),
    ensures
        interpolated(s, c) == Ok::<Text, Fault>(s),
{
    lemma_plain(s, 0, c);
    assert(s.skip(0) =~= s);
}

/// A template without a span from `i` on.
proof fn lemma_plain(s: Text, i: int, c: ContextView)
    requires
        0 <= i <= s.len(),
        forall|k: int| i <= k < s.len() ==> !opens_at(s, k),
    ensures
        filled(s, i, c) == Ok::<Text, Fault>(s.skip(i)),
    decreases s.len() - i,
{
    if i < s.len() {
        assert(!opens_at(s, i));
        lemma_plain(s, i + 1, c);
        assert(seq![s[i]] + s.skip(i + 1) =~= s.skip(i));
    } else {
        assert(s.skip(i) =~= Seq::empty());
    }
}

/// Text in front of a template is kept in front of what it makes, where the text
/// holds no dollar sign.
pub proof fn law_literal_prefix_is_kept(p: Text, s: Text, c: ContextView)
    requires
        forall|i: int| 0 <= i < p.len() ==> p[i] != '$',
    ensures
        interpolated(p + s, c) == prefixed(p, interpolated(s, c)),
    decreases p.len(),
{
    lemma_shifted(p, s, 0, c);
    if p.len() > 0 {
        let q = p.skip(1);
        assert(forall|i: int| 0 <= i < q.len() ==> q[i] == p[i + 1]);
        law_literal_prefix_is_kept(q, s, c);
        assert(p + s =~= seq![p[0]] + (q + s));
        lemma_shifted(seq![p[0]], q + s, 0, c);
        reveal_strlit("${{");
        assert(!opens_at(p + s, 0)) by {
            if opens_at(p + s, 0) {
                assert((p + s).subrange(0, 3)[0] == "${{"@[0]);
            }
        }
        match interpolated(s, c) {
            Ok(t) => {
                assert(seq![p[0]] + (q + t) =~= p + t);
            },
            Err(_) => {},
        }
    } else {
        assert(p + s =~= s);
        match interpolated(s, c) {
            Ok(t) => {
                assert(p + t =~= t);
            },
            Err(_) => {},
        }
    }
}

/// What follows a prefix is filled as it would be alone.
proof fn lemma_shifted(p: Text, s: Text, i: int, c: ContextView)
    requires
        0 <= i,
    ensures
        filled(p + s, p.len() + i, c) == filled(s, i, c),
    decreases s.len() - i,
{
    let w = p + s;
    let k = p.len() as int;
    if i < s.len() {
        reveal_strlit("${{");
        assert(opens_at(w, k + i) == opens_at(s, i)) by {
            if i + 3 <= s.len() {
                assert(w.subrange(k + i, k + i + 3) =~= s.subrange(i, i + 3));
            }
        }
        lemma_close_shifted(p, s, i + 3, false);
        lemma_close(s, i + 3, false);
        if opens_at(s, i) {
            match close_at(s, i + 3, false) {
                Some(j) => {
                    assert(w.subrange(k + i + 3, k + j) =~= s.subrange(i + 3, j));
                    lemma_shifted(p, s, j + 2, c);
                },
                None => {},
            }
        } else {
            assert(w[k + i] == s[i]);
            lemma_shifted(p, s, i + 1, c);
        }
    }
}

/// What follows a prefix is closed as it would be alone.
proof fn lemma_close_shifted(p: Text, s: Text, i: int, in_str: bool)
    requires
        0 <= i,
    ensures
        close_at(p + s, p.len() + i, in_str) == (match close_at(s, i, in_str) {
            Some(j) => Some(p.len() + j),
            None => None,
        }),
    decreases s.len() - i,
{
    let w = p + s;
    if i < s.len() {
        assert(w[p.len() + i] == s[i]);
        if i + 1 < s.len() {
            assert(w[p.len() + i + 1] == s[i + 1]);
            lemma_close_shifted(p, s, i + 2, true);
        }
        lemma_close_shifted(p, s, i + 1, true);
        lemma_close_shifted(p, s, i + 1, false);
    }
}

/// A span stands for the text of its expression, and what follows it is filled as
/// it would be alone; an expression that fails is the error of the whole.
pub proof fn law_spans_are_filled(e: Text, rest: Text, c: ContextView)
    requires
        close_at("${{"@ + e + "}}"@ + rest, 3, false) == Some(3 + e.len() as int),
    ensures
        evaluated(e, c) matches Ok(v) ==> (shown(v, c.numerals) matches Ok(t) ==> interpolated(
            "${{"@ + e + "}}"@ + rest,
            c,
        ) == prefixed(t, interpolated(rest, c))),
        evaluated(e, c) matches Err(f) ==> interpolated("${{"@ + e + "}}"@ + rest, c) == Err::<
            Text,
            Fault,
        >(f),
{
    reveal_strlit("${{");
    reveal_strlit("}}");
    reveal(span_text);
    let head = "${{"@ + e + "}}"@;
    let s = head + rest;
    assert(s.subrange(0, 3) =~= "${{"@);
    assert(opens_at(s, 0));
    assert(s.subrange(3, 3 + e.len() as int) =~= e);
    lemma_shifted(head, rest, 0, c);
    assert(head.len() == 5 + e.len());
}

/// A span that is not closed is an error.
pub proof fn law_spans_are_closed(s: Text, c: ContextView)
    requires
        opens_at(s, 0),
        close_at(s, 3, false) is None,
    ensures
        interpolated(s, c) == Err::<Text, Fault>(Fault::Unterminated),
{
    reveal_strlit("${{");
}

/// A span ends at the first two closing braces outside a string.
pub proof fn law_where_a_span_ends(e: Text, rest: Text)
    requires
        !e.contains('\''),
        !e.contains('}'),
    ensures
        close_at(e + seq!['}', '}'] + rest, 0, false) == Some(e.len() as int),
        !rest.contains('}') && !rest.contains('\'') ==> close_at(e + rest, 0, false) is None,
    decreases e.len(),
{
    let s = e + seq!['}', '}'] + rest;
    if e.len() > 0 {
        let t = e.skip(1);
        if t.contains('\'') {
            let i = choose|i: int| 0 <= i < t.len() && t[i] == '\'';
            assert(e[i + 1] == '\'');
        }
        if t.contains('}') {
            let i = choose|i: int| 0 <= i < t.len() && t[i] == '}';
            assert(e[i + 1] == '}');
        }
        law_where_a_span_ends(t, rest);
        let one = seq![e[0]];
        assert(s =~= one + (t + seq!['}', '}'] + rest));
        assert(s[0] == e[0]);
        lemma_close_shifted(one, t + seq!['}', '}'] + rest, 0, false);
        let u = e + rest;
        assert(u =~= one + (t + rest));
        assert(u[0] == e[0]);
        lemma_close_shifted(one, t + rest, 0, false);
    } else {
        assert(s[0] == '}' && s[1] == '}');
        assert(e + rest =~= rest);
        if !rest.contains('}') && !rest.contains('\'') {
            lemma_never_closes(rest, 0);
        }
    }
}

proof fn lemma_never_closes(s: Text, i: int)
    requires
        0 <= i,
        !s.contains('}'),
        !s.contains('\''),
    ensures
        close_at(s, i, false) is None,
    decreases s.len() - i,
{
    if i < s.len() {
        assert(s[i] != '}' && s[i] != '\'');
        lemma_never_closes(s, i + 1);
    }
}

/// Braces in a string do not end a span.
pub proof fn law_strings_hide_braces(q: Text, s: Text)
    requires
        !q.contains('\''),
        !(s.len() > 0 && s[0] == '\''),
    ensures
        close_at(seq!['\''] + q + seq!['\''] + s, 0, false) == (match close_at(s, 0, false) {
            Some(j) => Some(q.len() + 2 + j),
            None => None,
        }),
{
    let head = seq!['\''] + q + seq!['\''];
    let w = head + s;
    assert(w[0] == '\'');
    lemma_in_string(q, s, 0);
    lemma_close_shifted(head, s, 0, false);
}

proof fn lemma_in_string(q: Text, s: Text, i: int)
    requires
        !q.contains('\''),
        !(s.len() > 0 && s[0] == '\''),
        0 <= i <= q.len(),
    ensures
        close_at(seq!['\''] + q + seq!['\''] + s, 1 + i, true) == close_at(
            seq!['\''] + q + seq!['\''] + s,
            q.len() + 2 as int,
            false,
        ),
    decreases q.len() - i,
{
    let w = seq!['\''] + q + seq!['\''] + s;
    if i < q.len() {
        assert(w[1 + i] == q[i]);
        assert(q[i] != '\'');
        lemma_in_string(q, s, i + 1);
    } else {
        assert(w[1 + i] == '\'');
        if s.len() > 0 {
            assert(w[2 + i] == s[0]);
        }
    }
}

/// An expression asks for the status where it calls one of the four functions
/// anywhere, in whatever case.
pub proof fn law_status_calls_are_seen(
    name: Text,
    args: Seq<AstView>,
    x: AstView,
    y: AstView,
    op: BinOp,
    k: int,
)
    ensures
        lowered(name) == "success"@ || lowered(name) == "failure"@ || lowered(name) == "cancelled"@
            || lowered(name) == "always"@ ==> calls_status(AstView::Call(name, args)),
        0 <= k < args.len() && calls_status(args[k]) ==> calls_status(AstView::Call(name, args)),
        calls_status(AstView::Not(Box::new(x))) <==> calls_status(x),
        calls_status(AstView::Property(Box::new(x), name)) <==> calls_status(x),
        calls_status(AstView::Binary(op, Box::new(x), Box::new(y))) <==> calls_status(x)
            || calls_status(y),
        calls_status(AstView::Index(Box::new(x), Box::new(y))) <==> calls_status(x)
            || calls_status(y),
        !calls_status(AstView::Ident(name)),
        !calls_status(AstView::Str(name)),
{
    if 0 <= k < args.len() && calls_status(args[k]) {
        lemma_any_calls(args, k);
    }
}

/// A call of another function asks for the status only through its arguments.
pub proof fn law_other_calls_do_not_ask(name: Text, args: Seq<AstView>)
    requires
        lowered(name) != "success"@,
        lowered(name) != "failure"@,
        lowered(name) != "cancelled"@,
        lowered(name) != "always"@,
        forall|i: int| 0 <= i < args.len() ==> !calls_status(#[trigger] args[i]),
    ensures
        !calls_status(AstView::Call(name, args)),
{
    lemma_none_calls(args);
}

proof fn lemma_any_calls(args: Seq<AstView>, k: int)
    requires
        0 <= k < args.len(),
        calls_status(args[k]),
    ensures
        any_calls_status(args),
    decreases k,
{
    if k > 0 {
        lemma_any_calls(args.skip(1), k - 1);
    }
}

proof fn lemma_none_calls(args: Seq<AstView>)
    requires
        forall|i: int| 0 <= i < args.len() ==> !calls_status(#[trigger] args[i]),
    ensures
        !any_calls_status(args),
    decreases args.len(),
{
    if args.len() > 0 {
        assert(!calls_status(args[0]));
        assert forall|i: int| 0 <= i < args.skip(1).len() implies !calls_status(
            #[trigger] args.skip(1)[i],
        ) by {
            assert(!calls_status(args[i + 1]));
        }
        lemma_none_calls(args.skip(1));
    }
}

} // verus!
