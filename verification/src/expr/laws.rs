//! What the operators and functions of expressions come to.

use crate::double::{law_small_integers_are_exact, Double};
use crate::expr::error::Fault;
use crate::expr::eval::{
    any_equal, applied, formatted, join_text, loosely_equal, operated, shown_all, worth, worths,
    ContextView, JobStatus,
};
use crate::expr::parse::{AstView, BinOp};
use crate::numeral::{run_end, NeedView, NumeralsView};
use crate::numtext::digits_value;
use crate::order::{before, law_before_is_irreflexive, law_before_is_total};
use crate::scan::{holds, index_of, joined, lemma_index_from};
use crate::table::lookup;
use crate::text::{has_at, lowered, Text};
use crate::json::{json_parsed, json_pretty};
use crate::value::{numeric, shown, tree, tree_value, truthy, ValueView};
use vstd::prelude::*;

verus! {

/// What an operator between two expressions comes to, where that is a boolean.
pub open spec fn between(op: BinOp, a: AstView, b: AstView, c: ContextView) -> Option<bool> {
    match worth(AstView::Binary(op, Box::new(a), Box::new(b)), c) {
        Ok(ValueView::Bool(x)) => Some(x),
        _ => None,
    }
}

/// The bits of a number read as a signed magnitude, which order as the numbers do.
pub open spec fn signed_bits(d: Double) -> int {
    if d.bits < 0x8000_0000_0000_0000 {
        d.bits as int
    } else {
        0x8000_0000_0000_0000 - d.bits
    }
}

/// Whether a number is not one.
pub open spec fn not_a_number(d: Double) -> bool {
    signed_bits(d) > 0x7ff0_0000_0000_0000 || signed_bits(d) < -0x7ff0_0000_0000_0000
}

/// The order of numbers is that of their bits.
pub proof fn law_numbers_order_as_their_bits(x: Double, y: Double)
    ensures
        x.is_nan() <==> not_a_number(x),
        x.below(y) <==> !not_a_number(x) && !not_a_number(y) && signed_bits(x) < signed_bits(y),
        x.same(y) <==> !not_a_number(x) && !not_a_number(y) && signed_bits(x) == signed_bits(y),
{
    lemma_rank(x);
    lemma_rank(y);
}

proof fn lemma_rank(x: Double)
    ensures
        x.rank() == signed_bits(x),
        x.is_nan() <==> not_a_number(x),
{
    let b = x.bits as int;
    if b < 0x8000_0000_0000_0000 {
        assert(b % 0x8000_0000_0000_0000 == b) by (nonlinear_arith)
            requires
                0 <= b < 0x8000_0000_0000_0000,
        ;
    } else {
        assert(b % 0x8000_0000_0000_0000 == b - 0x8000_0000_0000_0000) by (nonlinear_arith)
            requires
                0x8000_0000_0000_0000 <= b < 0x1_0000_0000_0000_0000,
        ;
    }
}

proof fn lemma_between(
    op: BinOp,
    a: AstView,
    b: AstView,
    c: ContextView,
    v: ValueView,
    w: ValueView,
)
    requires
        worth(a, c) == Ok::<ValueView, Fault>(v),
        worth(b, c) == Ok::<ValueView, Fault>(w),
        op != BinOp::And,
        op != BinOp::Or,
    ensures
        worth(AstView::Binary(op, Box::new(a), Box::new(b)), c) == operated(op, v, w, c.numerals),
{
}

// ---------------------------------------------------------------------------
// Relations
// ---------------------------------------------------------------------------

/// Two numbers stand in a relation as their values do: `<=` is less or equal,
/// `>=` greater or equal, and so on.
pub proof fn law_numbers_are_compared(
    a: AstView,
    b: AstView,
    c: ContextView,
    x: Double,
    y: Double,
)
    requires
        worth(a, c) == Ok::<ValueView, Fault>(ValueView::Number(x)),
        worth(b, c) == Ok::<ValueView, Fault>(ValueView::Number(y)),
        !not_a_number(x),
        !not_a_number(y),
    ensures
        between(BinOp::Lt, a, b, c) == Some(signed_bits(x) < signed_bits(y)),
        between(BinOp::Le, a, b, c) == Some(
            signed_bits(x) < signed_bits(y) || signed_bits(x) == signed_bits(y),
        ),
        between(BinOp::Gt, a, b, c) == Some(signed_bits(y) < signed_bits(x)),
        between(BinOp::Ge, a, b, c) == Some(
            signed_bits(y) < signed_bits(x) || signed_bits(x) == signed_bits(y),
        ),
        between(BinOp::Eq, a, b, c) == Some(signed_bits(x) == signed_bits(y)),
        between(BinOp::Ne, a, b, c) == Some(signed_bits(x) != signed_bits(y)),
{
    law_numbers_order_as_their_bits(x, y);
    law_numbers_order_as_their_bits(y, x);
    lemma_between(BinOp::Lt, a, b, c, ValueView::Number(x), ValueView::Number(y));
    lemma_between(BinOp::Le, a, b, c, ValueView::Number(x), ValueView::Number(y));
    lemma_between(BinOp::Gt, a, b, c, ValueView::Number(x), ValueView::Number(y));
    lemma_between(BinOp::Ge, a, b, c, ValueView::Number(x), ValueView::Number(y));
    lemma_between(BinOp::Eq, a, b, c, ValueView::Number(x), ValueView::Number(y));
    lemma_between(BinOp::Ne, a, b, c, ValueView::Number(x), ValueView::Number(y));
}

/// Two strings stand in a relation as they do in lower case, character by
/// character.
pub proof fn law_strings_are_compared(a: AstView, b: AstView, c: ContextView, x: Text, y: Text)
    requires
        worth(a, c) == Ok::<ValueView, Fault>(ValueView::Str(x)),
        worth(b, c) == Ok::<ValueView, Fault>(ValueView::Str(y)),
    ensures
        between(BinOp::Lt, a, b, c) == Some(before(lowered(x), lowered(y))),
        between(BinOp::Le, a, b, c) == Some(
            before(lowered(x), lowered(y)) || lowered(x) == lowered(y),
        ),
        between(BinOp::Gt, a, b, c) == Some(before(lowered(y), lowered(x))),
        between(BinOp::Ge, a, b, c) == Some(
            before(lowered(y), lowered(x)) || lowered(x) == lowered(y),
        ),
        between(BinOp::Eq, a, b, c) == Some(lowered(x) == lowered(y)),
        between(BinOp::Ne, a, b, c) == Some(lowered(x) != lowered(y)),
{
    law_before_is_total(lowered(x), lowered(y));
    law_before_is_irreflexive(lowered(x));
}

/// False stands before true.
pub proof fn law_booleans_are_compared(a: AstView, b: AstView, c: ContextView, x: bool, y: bool)
    requires
        worth(a, c) == Ok::<ValueView, Fault>(ValueView::Bool(x)),
        worth(b, c) == Ok::<ValueView, Fault>(ValueView::Bool(y)),
    ensures
        between(BinOp::Lt, a, b, c) == Some(!x && y),
        between(BinOp::Le, a, b, c) == Some((!x && y) || x == y),
        between(BinOp::Gt, a, b, c) == Some(x && !y),
        between(BinOp::Ge, a, b, c) == Some((x && !y) || x == y),
        between(BinOp::Eq, a, b, c) == Some(x == y),
        between(BinOp::Ne, a, b, c) == Some(x != y),
{
}

/// Values of different kinds are compared as the numbers that they stand for.
pub proof fn law_other_values_are_compared_as_numbers(
    a: AstView,
    b: AstView,
    c: ContextView,
    v: ValueView,
    w: ValueView,
    x: Double,
    y: Double,
)
    requires
        worth(a, c) == Ok::<ValueView, Fault>(v),
        worth(b, c) == Ok::<ValueView, Fault>(w),
        numeric(v, c.numerals) == Ok::<Double, NeedView>(x),
        numeric(w, c.numerals) == Ok::<Double, NeedView>(y),
        !(v is Str && w is Str),
        !(v is Bool && w is Bool),
    ensures
        !not_a_number(x) && !not_a_number(y) ==> {
            &&& between(BinOp::Lt, a, b, c) == Some(signed_bits(x) < signed_bits(y))
            &&& between(BinOp::Le, a, b, c) == Some(signed_bits(x) <= signed_bits(y))
            &&& between(BinOp::Gt, a, b, c) == Some(signed_bits(y) < signed_bits(x))
            &&& between(BinOp::Ge, a, b, c) == Some(signed_bits(y) <= signed_bits(x))
            &&& between(BinOp::Eq, a, b, c) == Some(signed_bits(x) == signed_bits(y))
            &&& between(BinOp::Ne, a, b, c) == Some(signed_bits(x) != signed_bits(y))
        },
        not_a_number(x) || not_a_number(y) ==> {
            &&& between(BinOp::Lt, a, b, c) == Some(false)
            &&& between(BinOp::Le, a, b, c) == Some(false)
            &&& between(BinOp::Gt, a, b, c) == Some(false)
            &&& between(BinOp::Ge, a, b, c) == Some(false)
            &&& between(BinOp::Eq, a, b, c) == Some(false)
            &&& between(BinOp::Ne, a, b, c) == Some(true)
        },
{
    law_numbers_order_as_their_bits(x, y);
    law_numbers_order_as_their_bits(y, x);
    lemma_between(BinOp::Lt, a, b, c, v, w);
    lemma_between(BinOp::Le, a, b, c, v, w);
    lemma_between(BinOp::Gt, a, b, c, v, w);
    lemma_between(BinOp::Ge, a, b, c, v, w);
    lemma_between(BinOp::Eq, a, b, c, v, w);
    lemma_between(BinOp::Ne, a, b, c, v, w);
}

/// A relation reads the same from the other side: `x <= y` is `y >= x` and not
/// `x > y`, where both sides are values in order.
pub proof fn law_relations_turn_round(
    a: AstView,
    b: AstView,
    c: ContextView,
    v: ValueView,
    w: ValueView,
)
    requires
        worth(a, c) == Ok::<ValueView, Fault>(v),
        worth(b, c) == Ok::<ValueView, Fault>(w),
        numeric(v, c.numerals) is Ok,
        numeric(w, c.numerals) is Ok,
    ensures
        between(BinOp::Lt, a, b, c) == between(BinOp::Gt, b, a, c),
        between(BinOp::Le, a, b, c) == between(BinOp::Ge, b, a, c),
        between(BinOp::Eq, a, b, c) == between(BinOp::Eq, b, a, c),
        between(BinOp::Ne, a, b, c) == between(BinOp::Ne, b, a, c),
        between(BinOp::Eq, a, b, c) == Some(true) <==> between(BinOp::Ne, a, b, c) == Some(false),
        between(BinOp::Eq, a, b, c) == Some(false) <==> between(BinOp::Ne, a, b, c) == Some(true),
        between(BinOp::Lt, a, b, c) == Some(true) ==> between(BinOp::Le, a, b, c) == Some(true),
        between(BinOp::Lt, a, b, c) == Some(true) ==> between(BinOp::Ge, a, b, c) == Some(false),
        between(BinOp::Gt, a, b, c) == Some(true) ==> between(BinOp::Ge, a, b, c) == Some(true),
        between(BinOp::Gt, a, b, c) == Some(true) ==> between(BinOp::Le, a, b, c) == Some(false),
{
    if v is Number && w is Number {
        law_numbers_order_as_their_bits(v->Number_0, w->Number_0);
        law_numbers_order_as_their_bits(w->Number_0, v->Number_0);
    } else {
        let x = numeric(v, c.numerals)->Ok_0;
        let y = numeric(w, c.numerals)->Ok_0;
        law_numbers_order_as_their_bits(x, y);
        law_numbers_order_as_their_bits(y, x);
    }
    if v is Str && w is Str {
        law_before_is_total(lowered(v->Str_0), lowered(w->Str_0));
        law_before_is_irreflexive(lowered(v->Str_0));
    }
    lemma_between(BinOp::Lt, a, b, c, v, w);
    lemma_between(BinOp::Le, a, b, c, v, w);
    lemma_between(BinOp::Gt, a, b, c, v, w);
    lemma_between(BinOp::Ge, a, b, c, v, w);
    lemma_between(BinOp::Eq, a, b, c, v, w);
    lemma_between(BinOp::Ne, a, b, c, v, w);
    lemma_between(BinOp::Lt, b, a, c, w, v);
    lemma_between(BinOp::Le, b, a, c, w, v);
    lemma_between(BinOp::Gt, b, a, c, w, v);
    lemma_between(BinOp::Ge, b, a, c, w, v);
    lemma_between(BinOp::Eq, b, a, c, w, v);
    lemma_between(BinOp::Ne, b, a, c, w, v);
}

/// The left side is evaluated first: an error there is the error of the whole,
/// and one on the right is where the right side counts.
pub proof fn law_errors_of_operands(op: BinOp, a: AstView, b: AstView, c: ContextView)
    ensures
        worth(a, c) matches Err(f) ==> worth(
            AstView::Binary(op, Box::new(a), Box::new(b)),
            c,
        ) == Err::<ValueView, Fault>(f),
        worth(a, c) is Ok && op != BinOp::And && op != BinOp::Or ==> (worth(b, c) matches Err(f)
            ==> worth(AstView::Binary(op, Box::new(a), Box::new(b)), c) == Err::<ValueView, Fault>(
            f,
        )),
{
}

// ---------------------------------------------------------------------------
// Values
// ---------------------------------------------------------------------------

/// Null, false, zero, what is not a number and the empty string are false, and
/// nothing else is; `!` turns that round.
pub proof fn law_what_is_false(a: AstView, c: ContextView, v: ValueView)
    requires
        worth(a, c) == Ok::<ValueView, Fault>(v),
    ensures
        truthy(v) <==> match v {
            ValueView::Null => false,
            ValueView::Bool(b) => b == true,
            ValueView::Number(d) => signed_bits(d) != 0 && !not_a_number(d),
            ValueView::Str(s) => s != Seq::<char>::empty(),
            ValueView::Array(_) => true,
            ValueView::Object(_) => true,
        },
        worth(AstView::Not(Box::new(a)), c) == Ok::<ValueView, Fault>(ValueView::Bool(!truthy(v))),
        worth(AstView::Not(Box::new(AstView::Not(Box::new(a)))), c) == Ok::<ValueView, Fault>(
            ValueView::Bool(truthy(v)),
        ),
{
    reveal_with_fuel(worth, 3);
    assert(v matches ValueView::Str(s) ==> (s.len() == 0 <==> s =~= Seq::<char>::empty()));
}

/// Null and false stand for zero, true for one, an aggregate for no number, and a
/// number for itself.
pub proof fn law_what_values_count(v: ValueView, n: NumeralsView)
    requires
        !(v is Str),
    ensures
        numeric(v, n) matches Ok(d) && match v {
            ValueView::Null => d.bits == 0,
            ValueView::Bool(b) => d.whole() == Some(
                if b {
                    1int
                } else {
                    0int
                },
            ),
            ValueView::Number(e) => d == e,
            _ => not_a_number(d),
        },
{
    law_small_integers_are_exact(1);
    law_small_integers_are_exact(0);
}

/// A name is what the context holds under it, and null where it holds nothing.
pub proof fn law_names_are_looked_up(name: Text, c: ContextView)
    ensures
        worth(AstView::Ident(name), c) == Ok::<ValueView, Fault>(
            match lookup(c.vars, name) {
                Some(v) => v,
                None => ValueView::Null,
            },
        ),
{
}

/// Literals are what they say.
pub proof fn law_literals_are_themselves(b: bool, d: Double, s: Text, c: ContextView)
    ensures
        worth(AstView::Null, c) == Ok::<ValueView, Fault>(ValueView::Null),
        worth(AstView::Bool(b), c) == Ok::<ValueView, Fault>(ValueView::Bool(b)),
        worth(AstView::Number(d), c) == Ok::<ValueView, Fault>(ValueView::Number(d)),
        worth(AstView::Str(s), c) == Ok::<ValueView, Fault>(ValueView::Str(s)),
{
}

/// `x.name` and `x['name']` are the entry of an object under that name, and null
/// where it has none; of anything that is neither a list nor an object, null.
pub proof fn law_properties_are_entries(a: AstView, name: Text, c: ContextView, v: ValueView)
    requires
        worth(a, c) == Ok::<ValueView, Fault>(v),
    ensures
        v matches ValueView::Object(m) ==> worth(AstView::Property(Box::new(a), name), c) == Ok::<
            ValueView,
            Fault,
        >(
            match lookup(m, name) {
                Some(w) => w,
                None => ValueView::Null,
            },
        ),
        !(v is Object) && !(v is Array) ==> worth(AstView::Property(Box::new(a), name), c) == Ok::<
            ValueView,
            Fault,
        >(ValueView::Null),
        worth(AstView::Property(Box::new(a), name), c) == worth(
            AstView::Index(Box::new(a), Box::new(AstView::Str(name))),
            c,
        ),
        worth(AstView::Star(Box::new(a)), c) == Err::<ValueView, Fault>(Fault::Filter),
{
    reveal_with_fuel(worth, 3);
}

/// `x[i]` is the item of a list at that place, counted from zero, and null
/// outside it.
pub proof fn law_items_are_counted_from_zero(
    a: AstView,
    k: AstView,
    c: ContextView,
    items: Seq<ValueView>,
    i: int,
    d: Double,
)
    requires
        worth(a, c) == Ok::<ValueView, Fault>(ValueView::Array(items)),
        worth(k, c) == Ok::<ValueView, Fault>(ValueView::Number(d)),
        d.whole() == Some(i),
    ensures
        0 <= i < items.len() ==> worth(AstView::Index(Box::new(a), Box::new(k)), c) == Ok::<
            ValueView,
            Fault,
        >(items[i]),
        !(0 <= i < items.len()) ==> worth(AstView::Index(Box::new(a), Box::new(k)), c) == Ok::<
            ValueView,
            Fault,
        >(ValueView::Null),
{
}

// ---------------------------------------------------------------------------
// Functions
// ---------------------------------------------------------------------------

/// A call is worth what its function gives for the worth of its arguments, each
/// in its place.
pub proof fn law_calls_take_their_arguments(
    name: Text,
    args: Seq<AstView>,
    vals: Seq<ValueView>,
    c: ContextView,
)
    requires
        args.len() == vals.len(),
        forall|i: int|
            0 <= i < args.len() ==> worth(#[trigger] args[i], c) == Ok::<ValueView, Fault>(vals[i]),
    ensures
        worth(AstView::Call(name, args), c) == applied(name, vals, c.status, c.numerals),
{
    lemma_worths(args, vals, c);
}

proof fn lemma_worths(args: Seq<AstView>, vals: Seq<ValueView>, c: ContextView)
    requires
        args.len() == vals.len(),
        forall|i: int|
            0 <= i < args.len() ==> worth(#[trigger] args[i], c) == Ok::<ValueView, Fault>(vals[i]),
    ensures
        worths(args, c) == Ok::<Seq<ValueView>, Fault>(vals),
    decreases args.len(),
{
    if args.len() == 0 {
        assert(vals =~= Seq::empty());
    } else {
        assert forall|i: int| 0 <= i < args.skip(1).len() implies worth(
            #[trigger] args.skip(1)[i],
            c,
        ) == Ok::<ValueView, Fault>(vals.skip(1)[i]) by {
            assert(worth(args[i + 1], c) == Ok::<ValueView, Fault>(vals[i + 1]));
        }
        lemma_worths(args.skip(1), vals.skip(1), c);
        assert(worth(args[0], c) == Ok::<ValueView, Fault>(vals[0]));
        assert(seq![vals[0]] + vals.skip(1) =~= vals);
    }
}

/// The first argument that is an error is the error of the call, whatever the
/// function is.
pub proof fn law_first_bad_argument_counts(
    name: Text,
    args: Seq<AstView>,
    k: int,
    f: Fault,
    c: ContextView,
)
    requires
        0 <= k < args.len(),
        worth(args[k], c) == Err::<ValueView, Fault>(f),
        forall|i: int| 0 <= i < k ==> worth(#[trigger] args[i], c) is Ok,
    ensures
        worth(AstView::Call(name, args), c) == Err::<ValueView, Fault>(f),
{
    lemma_bad_worths(args, k, f, c);
}

proof fn lemma_bad_worths(args: Seq<AstView>, k: int, f: Fault, c: ContextView)
    requires
        0 <= k < args.len(),
        worth(args[k], c) == Err::<ValueView, Fault>(f),
        forall|i: int| 0 <= i < k ==> worth(#[trigger] args[i], c) is Ok,
    ensures
        worths(args, c) == Err::<Seq<ValueView>, Fault>(f),
    decreases k,
{
    if k > 0 {
        assert forall|i: int| 0 <= i < k - 1 implies worth(#[trigger] args.skip(1)[i], c) is Ok by {
            assert(worth(args[i + 1], c) is Ok);
        }
        lemma_bad_worths(args.skip(1), k - 1, f, c);
        assert(worth(args[0], c) is Ok);
    }
}

/// The names of functions count whatever their case.
pub proof fn law_function_names_ignore_case(
    f: Text,
    g: Text,
    vals: Seq<ValueView>,
    status: JobStatus,
    n: NumeralsView,
)
    requires
        lowered(f) == lowered(g),
        applied(f, vals, status, n) is Ok,
    ensures
        applied(g, vals, status, n) == applied(f, vals, status, n),
{
}

/// `success()`, `failure()` and `cancelled()` say whether the job stands so, just
/// one of them is true, and `always()` is.
pub proof fn law_status_functions(name: Text, status: JobStatus, n: NumeralsView)
    ensures
        lowered(name) == "success"@ ==> applied(name, Seq::empty(), status, n) == Ok::<
            ValueView,
            Fault,
        >(ValueView::Bool(status != JobStatus::Failure && status != JobStatus::Cancelled)),
        lowered(name) == "failure"@ ==> applied(name, Seq::empty(), status, n) == Ok::<
            ValueView,
            Fault,
        >(ValueView::Bool(status != JobStatus::Success && status != JobStatus::Cancelled)),
        lowered(name) == "cancelled"@ ==> applied(name, Seq::empty(), status, n) == Ok::<
            ValueView,
            Fault,
        >(ValueView::Bool(status != JobStatus::Success && status != JobStatus::Failure)),
        lowered(name) == "always"@ ==> applied(name, Seq::empty(), status, n) == Ok::<
            ValueView,
            Fault,
        >(ValueView::Bool(true)),
{
    lemma_names_differ();
}

/// The names of the functions are told apart.
proof fn lemma_names_differ()
    ensures
        "contains"@.len() == 8 && "contains"@[0] == 'c' && "contains"@[1] == 'o',
        "startswith"@.len() == 10 && "startswith"@[0] == 's',
        "endswith"@.len() == 8 && "endswith"@[0] == 'e',
        "format"@.len() == 6 && "format"@[0] == 'f' && "format"@[1] == 'o',
        "join"@.len() == 4 && "join"@[0] == 'j',
        "tojson"@.len() == 6 && "tojson"@[0] == 't',
        "fromjson"@.len() == 8 && "fromjson"@[0] == 'f',
        "success"@.len() == 7 && "success"@[0] == 's',
        "failure"@.len() == 7 && "failure"@[0] == 'f',
        "cancelled"@.len() == 9 && "cancelled"@[0] == 'c',
        "always"@.len() == 6 && "always"@[0] == 'a',
        "hashfiles"@.len() == 9 && "hashfiles"@[0] == 'h',
{
    reveal_strlit("contains");
    reveal_strlit("startswith");
    reveal_strlit("endswith");
    reveal_strlit("format");
    reveal_strlit("join");
    reveal_strlit("tojson");
    reveal_strlit("fromjson");
    reveal_strlit("success");
    reveal_strlit("failure");
    reveal_strlit("cancelled");
    reveal_strlit("always");
    reveal_strlit("hashfiles");
}

/// Every function takes its own number of arguments, and `hashFiles` and a name
/// that is no function are errors whatever they are given.
pub proof fn law_argument_counts(
    name: Text,
    vals: Seq<ValueView>,
    status: JobStatus,
    n: NumeralsView,
)
    ensures
        lowered(name) == "contains"@ || lowered(name) == "startswith"@ || lowered(name)
            == "endswith"@ ==> (vals.len() != 2 <==> applied(name, vals, status, n) == Err::<
            ValueView,
            Fault,
        >(Fault::ArgCount(name, 2, vals.len()))),
        lowered(name) == "tojson"@ || lowered(name) == "fromjson"@ ==> (vals.len() != 1 <==> applied(
            name,
            vals,
            status,
            n,
        ) == Err::<ValueView, Fault>(Fault::ArgCount(name, 1, vals.len()))),
        lowered(name) == "success"@ || lowered(name) == "failure"@ || lowered(name) == "cancelled"@
            || lowered(name) == "always"@ ==> (vals.len() != 0 <==> applied(name, vals, status, n)
            == Err::<ValueView, Fault>(Fault::ArgCount(name, 0, vals.len()))),
        lowered(name) == "join"@ ==> (vals.len() != 1 && vals.len() != 2 <==> applied(
            name,
            vals,
            status,
            n,
        ) == Err::<ValueView, Fault>(Fault::JoinArgs(vals.len()))),
        lowered(name) == "format"@ && vals.len() == 0 ==> applied(name, vals, status, n) == Err::<
            ValueView,
            Fault,
        >(Fault::FormatArgs),
        lowered(name) == "hashfiles"@ ==> applied(name, vals, status, n) == Err::<ValueView, Fault>(
            Fault::HashFiles,
        ),
        ![
            "contains"@,
            "startswith"@,
            "endswith"@,
            "format"@,
            "join"@,
            "tojson"@,
            "fromjson"@,
            "success"@,
            "failure"@,
            "cancelled"@,
            "always"@,
            "hashfiles"@,
        ]@.contains(lowered(name)) ==> applied(name, vals, status, n) == Err::<ValueView, Fault>(
            Fault::UnknownFunction(name),
        ),
{
    lemma_names_differ();
    let known = [
        "contains"@,
        "startswith"@,
        "endswith"@,
        "format"@,
        "join"@,
        "tojson"@,
        "fromjson"@,
        "success"@,
        "failure"@,
        "cancelled"@,
        "always"@,
        "hashfiles"@,
    ]@;
    assert(known[0] == "contains"@ && known[1] == "startswith"@ && known[2] == "endswith"@
        && known[3] == "format"@ && known[4] == "join"@ && known[5] == "tojson"@ && known[6]
        == "fromjson"@ && known[7] == "success"@ && known[8] == "failure"@ && known[9]
        == "cancelled"@ && known[10] == "always"@ && known[11] == "hashfiles"@);
}

/// `contains` on a text: the needle stands somewhere in it, whatever the case.
pub proof fn law_contains_finds_text(
    name: Text,
    hay: ValueView,
    needle: ValueView,
    h: Text,
    p: Text,
    status: JobStatus,
    n: NumeralsView,
)
    requires
        lowered(name) == "contains"@,
        !(hay is Array),
        shown(hay, n) == Ok::<Text, NeedView>(h),
        shown(needle, n) == Ok::<Text, NeedView>(p),
    ensures
        applied(name, seq![hay, needle], status, n) == Ok::<ValueView, Fault>(
            ValueView::Bool(
                exists|a: Text, b: Text| lowered(h) == #[trigger] (a + lowered(p) + b),
            ),
        ),
{
    let x = lowered(h);
    let y = lowered(p);
    lemma_index_from(x, y, 0);
    assert(seq![hay, needle][0] == hay && seq![hay, needle][1] == needle);
    if holds(x, y) {
        let i = index_of(x, y)->Some_0;
        assert(x =~= x.take(i) + y + x.skip(i + y.len()));
    }
    if exists|a: Text, b: Text| x == #[trigger] (a + y + b) {
        let (a, b) = choose|a: Text, b: Text| x == #[trigger] (a + y + b);
        assert(x.subrange(a.len() as int, a.len() as int + y.len()) =~= y);
        assert(has_at(x, y, a.len() as int));
    }
}

/// `contains` on a list: some item equals what is sought.
pub proof fn law_contains_finds_items(
    name: Text,
    items: Seq<ValueView>,
    needle: ValueView,
    status: JobStatus,
    n: NumeralsView,
)
    requires
        lowered(name) == "contains"@,
        forall|i: int|
            0 <= i < items.len() ==> loosely_equal(#[trigger] items[i], needle, n) is Ok,
    ensures
        applied(name, seq![ValueView::Array(items), needle], status, n) == Ok::<ValueView, Fault>(
            ValueView::Bool(
                exists|i: int|
                    0 <= i < items.len() && loosely_equal(#[trigger] items[i], needle, n) == Ok::<
                        bool,
                        NeedView,
                    >(true),
            ),
        ),
{
    lemma_any_equal(items, needle, n);
    let vals = seq![ValueView::Array(items), needle];
    assert(vals[0] == ValueView::Array(items) && vals[1] == needle);
}

proof fn lemma_any_equal(items: Seq<ValueView>, needle: ValueView, n: NumeralsView)
    requires
        forall|i: int|
            0 <= i < items.len() ==> loosely_equal(#[trigger] items[i], needle, n) is Ok,
    ensures
        any_equal(items, needle, n) == Ok::<bool, NeedView>(
            exists|i: int|
                0 <= i < items.len() && loosely_equal(#[trigger] items[i], needle, n) == Ok::<
                    bool,
                    NeedView,
                >(true),
        ),
    decreases items.len(),
{
    if items.len() > 0 {
        let rest = items.skip(1);
        assert forall|i: int| 0 <= i < rest.len() implies loosely_equal(
            #[trigger] rest[i],
            needle,
            n,
        ) is Ok by {
            assert(rest[i] == items[i + 1]);
        }
        lemma_any_equal(rest, needle, n);
        assert(loosely_equal(items[0], needle, n) is Ok);
        let yes = Ok::<bool, NeedView>(true);
        if any_equal(rest, needle, n) == yes {
            let i = choose|i: int|
                0 <= i < rest.len() && loosely_equal(#[trigger] rest[i], needle, n) == yes;
            assert(items[i + 1] == rest[i]);
        }
        if exists|i: int|
            0 <= i < items.len() && loosely_equal(#[trigger] items[i], needle, n) == yes {
            let i = choose|i: int|
                0 <= i < items.len() && loosely_equal(#[trigger] items[i], needle, n) == yes;
            if i > 0 {
                assert(rest[i - 1] == items[i]);
            }
        }
    }
}

/// `startsWith` and `endsWith` look at the two ends of a text, whatever the case.
pub proof fn law_ends_of_text(
    name: Text,
    whole: ValueView,
    part: ValueView,
    h: Text,
    p: Text,
    status: JobStatus,
    n: NumeralsView,
)
    requires
        shown(whole, n) == Ok::<Text, NeedView>(h),
        shown(part, n) == Ok::<Text, NeedView>(p),
    ensures
        lowered(name) == "startswith"@ ==> applied(name, seq![whole, part], status, n) == Ok::<
            ValueView,
            Fault,
        >(ValueView::Bool(exists|b: Text| lowered(h) == #[trigger] (lowered(p) + b))),
        lowered(name) == "endswith"@ ==> applied(name, seq![whole, part], status, n) == Ok::<
            ValueView,
            Fault,
        >(ValueView::Bool(exists|a: Text| lowered(h) == #[trigger] (a + lowered(p)))),
{
    lemma_names_differ();
    let x = lowered(h);
    let y = lowered(p);
    assert(seq![whole, part][0] == whole && seq![whole, part][1] == part);
    if has_at(x, y, 0) {
        assert(x =~= y + x.skip(y.len() as int));
    }
    if exists|b: Text| x == #[trigger] (y + b) {
        let b = choose|b: Text| x == #[trigger] (y + b);
        assert(x.subrange(0, y.len() as int) =~= y);
    }
    if has_at(x, y, x.len() - y.len()) {
        assert(x =~= x.take(x.len() - y.len()) + y);
    }
    if exists|a: Text| x == #[trigger] (a + y) {
        let a = choose|a: Text| x == #[trigger] (a + y);
        assert(x.subrange(a.len() as int, a.len() as int + y.len()) =~= y);
    }
}

/// `join` puts the separator, a comma by default, between the items of a list as
/// text; anything else it gives as text.
pub proof fn law_join_puts_the_separator_between(
    name: Text,
    items: Seq<ValueView>,
    parts: Seq<Text>,
    by: ValueView,
    sep: Text,
    status: JobStatus,
    n: NumeralsView,
)
    requires
        lowered(name) == "join"@,
        items.len() == parts.len(),
        forall|i: int|
            0 <= i < items.len() ==> shown(#[trigger] items[i], n) == Ok::<Text, NeedView>(
                parts[i],
            ),
        shown(by, n) == Ok::<Text, NeedView>(sep),
    ensures
        applied(name, seq![ValueView::Array(items), by], status, n) == Ok::<ValueView, Fault>(
            ValueView::Str(joined(parts, sep)),
        ),
        applied(name, seq![ValueView::Array(items)], status, n) == Ok::<ValueView, Fault>(
            ValueView::Str(joined(parts, seq![','])),
        ),
        !(by is Array) ==> applied(name, seq![by], status, n) == Ok::<ValueView, Fault>(
            ValueView::Str(sep),
        ),
{
    lemma_names_differ();
    lemma_shown_all(items, parts, n);
    reveal_strlit(",");
    assert(","@ =~= seq![',']);
    let two = seq![ValueView::Array(items), by];
    assert(two[0] == ValueView::Array(items) && two[1] == by);
    let one = seq![ValueView::Array(items)];
    assert(one[0] == ValueView::Array(items));
    assert(seq![by][0] == by);
    assert(join_text(ValueView::Array(items), sep, n) == Ok::<Text, NeedView>(joined(parts, sep)));
}

proof fn lemma_shown_all(items: Seq<ValueView>, parts: Seq<Text>, n: NumeralsView)
    requires
        items.len() == parts.len(),
        forall|i: int|
            0 <= i < items.len() ==> shown(#[trigger] items[i], n) == Ok::<Text, NeedView>(
                parts[i],
            ),
    ensures
        shown_all(items, n) == Ok::<Seq<Text>, NeedView>(parts),
    decreases items.len(),
{
    if items.len() == 0 {
        assert(parts =~= Seq::empty());
    } else {
        assert forall|i: int| 0 <= i < items.skip(1).len() implies shown(
            #[trigger] items.skip(1)[i],
            n,
        ) == Ok::<Text, NeedView>(parts.skip(1)[i]) by {
            assert(items.skip(1)[i] == items[i + 1]);
        }
        lemma_shown_all(items.skip(1), parts.skip(1), n);
        assert(shown(items[0], n) == Ok::<Text, NeedView>(parts[0]));
        assert(seq![parts[0]] + parts.skip(1) =~= parts);
    }
}

// ---------------------------------------------------------------------------
// `format`
// ---------------------------------------------------------------------------

/// Whether a text holds neither of the two braces.
pub open spec fn no_braces(s: Text) -> bool {
    forall|i: int| 0 <= i < s.len() ==> #[trigger] s[i] != '{' && s[i] != '}'
}

/// Whether a text is made of digits, and has some.
pub open spec fn all_digits(s: Text) -> bool {
    s.len() > 0 && forall|i: int| 0 <= i < s.len() ==> '0' <= #[trigger] s[i] <= '9'
}

proof fn lemma_format_plain(f: Text, i: int, j: int, args: Seq<ValueView>, n: NumeralsView)
    requires
        0 <= i <= j <= f.len(),
        forall|k: int| i <= k < j ==> #[trigger] f[k] != '{' && f[k] != '}',
    ensures
        formatted(f, i, args, n) == match formatted(f, j, args, n) {
            Ok(t) => Ok::<Text, Fault>(f.subrange(i, j) + t),
            Err(e) => Err(e),
        },
    decreases j - i,
{
    if i < j {
        lemma_format_plain(f, i + 1, j, args, n);
        assert(f[i] != '{' && f[i] != '}');
        assert(seq![f[i]] + f.subrange(i + 1, j) =~= f.subrange(i, j));
        if let Ok(t) = formatted(f, j, args, n) {
            assert(seq![f[i]] + (f.subrange(i + 1, j) + t) =~= f.subrange(i, j) + t);
        }
    } else {
        assert(f.subrange(i, j) =~= Seq::empty());
        if let Ok(t) = formatted(f, j, args, n) {
            assert(f.subrange(i, j) + t =~= t);
        }
    }
}

proof fn lemma_run(f: Text, i: int, j: int)
    requires
        0 <= i <= j < f.len(),
        forall|k: int| i <= k < j ==> '0' <= #[trigger] f[k] <= '9',
        !('0' <= f[j] <= '9'),
    ensures
        run_end(f, i) == j,
    decreases j - i,
{
    if i < j {
        assert('0' <= f[i] <= '9');
        lemma_run(f, i + 1, j);
    }
}

/// `{k}` stands for the argument of that number after the template, counted from
/// zero; what stands around it is kept.
pub proof fn law_format_fills_places(
    name: Text,
    a: Text,
    d: Text,
    b: Text,
    args: Seq<ValueView>,
    status: JobStatus,
    n: NumeralsView,
)
    requires
        lowered(name) == "format"@,
        no_braces(a),
        no_braces(b),
        all_digits(d),
    ensures
        digits_value(d, 10) matches Some(k) ==> k < args.len() ==> (shown(args[k as int], n) matches Ok(
            t,
        ) ==> applied(
            name,
            seq![ValueView::Str(a + seq!['{'] + d + seq!['}'] + b)] + args,
            status,
            n,
        ) == Ok::<ValueView, Fault>(ValueView::Str(a + t + b))),
        digits_value(d, 10) matches Some(k) ==> k >= args.len() ==> applied(
            name,
            seq![ValueView::Str(a + seq!['{'] + d + seq!['}'] + b)] + args,
            status,
            n,
        ) == Err::<ValueView, Fault>(Fault::FormatMissing(d)),
{
    lemma_names_differ();
    let f = a + seq!['{'] + d + seq!['}'] + b;
    let vals = seq![ValueView::Str(f)] + args;
    let i = a.len() as int;
    let j = i + 1 + d.len();
    assert(vals.skip(1) =~= args);
    assert(vals[0] == ValueView::Str(f));
    assert(f[i] == '{');
    assert(f[j] == '}');
    assert(f[i + 1] == d[0]);
    assert forall|k: int| i + 1 <= k < j implies '0' <= #[trigger] f[k] <= '9' by {
        assert(f[k] == d[k - i - 1]);
    }
    lemma_run(f, i + 1, j);
    assert(f.subrange(i + 1, j) =~= d);
    assert forall|k: int| 0 <= k < i implies #[trigger] f[k] != '{' && f[k] != '}' by {
        assert(f[k] == a[k]);
    }
    lemma_format_plain(f, 0, i, args, n);
    assert forall|k: int| j + 1 <= k < f.len() implies #[trigger] f[k] != '{' && f[k] != '}' by {
        assert(f[k] == b[k - j - 1]);
    }
    lemma_format_plain(f, j + 1, f.len() as int, args, n);
    assert(f.subrange(j + 1, f.len() as int) =~= b);
    assert(f.subrange(0, i) =~= a);
    assert(b + Seq::<char>::empty() =~= b);
    assert(formatted(f, f.len() as int, args, n) == Ok::<Text, Fault>(Seq::empty()));
    assert(formatted(f, j + 1, args, n) == Ok::<Text, Fault>(b));
    if let Some(k) = digits_value(d, 10) {
        if k < args.len() {
            if let Ok(t) = shown(args[k as int], n) {
                assert(formatted(f, i, args, n) == Ok::<Text, Fault>(t + b));
                assert(a + (t + b) =~= a + t + b);
            }
        }
    }
}

/// A doubled brace stands for one, and text without braces for itself.
pub proof fn law_format_keeps_text(
    name: Text,
    a: Text,
    b: Text,
    args: Seq<ValueView>,
    status: JobStatus,
    n: NumeralsView,
)
    requires
        lowered(name) == "format"@,
        no_braces(a),
        no_braces(b),
    ensures
        applied(name, seq![ValueView::Str(a)] + args, status, n) == Ok::<ValueView, Fault>(
            ValueView::Str(a),
        ),
        applied(name, seq![ValueView::Str(a + seq!['{', '{'] + b)] + args, status, n) == Ok::<
            ValueView,
            Fault,
        >(ValueView::Str(a + seq!['{'] + b)),
        applied(name, seq![ValueView::Str(a + seq!['}', '}'] + b)] + args, status, n) == Ok::<
            ValueView,
            Fault,
        >(ValueView::Str(a + seq!['}'] + b)),
        applied(name, seq![ValueView::Str(a + seq!['}'] + b)] + args, status, n) == Err::<
            ValueView,
            Fault,
        >(Fault::FormatBrace(a + seq!['}'] + b)),
{
    lemma_names_differ();
    let v0 = seq![ValueView::Str(a)] + args;
    assert(v0.skip(1) =~= args);
    assert(v0[0] == ValueView::Str(a));
    lemma_format_plain(a, 0, a.len() as int, args, n);
    assert(a.subrange(0, a.len() as int) =~= a);
    assert(a + Seq::<char>::empty() =~= a);
    lemma_format_pair(a, '{', b, args, n);
    lemma_format_pair(a, '}', b, args, n);
    let f1 = a + seq!['{', '{'] + b;
    let f2 = a + seq!['}', '}'] + b;
    let f3 = a + seq!['}'] + b;
    let v1 = seq![ValueView::Str(f1)] + args;
    let v2 = seq![ValueView::Str(f2)] + args;
    let v3 = seq![ValueView::Str(f3)] + args;
    assert(v1.skip(1) =~= args && v1[0] == ValueView::Str(f1));
    assert(v2.skip(1) =~= args && v2[0] == ValueView::Str(f2));
    assert(v3.skip(1) =~= args && v3[0] == ValueView::Str(f3));
    let i = a.len() as int;
    assert forall|k: int| 0 <= k < i implies #[trigger] f3[k] != '{' && f3[k] != '}' by {
        assert(f3[k] == a[k]);
    }
    lemma_format_plain(f3, 0, i, args, n);
    assert(f3[i] == '}');
    if b.len() > 0 {
        assert(f3[i + 1] == b[0]);
    }
}

proof fn lemma_format_pair(a: Text, c: char, b: Text, args: Seq<ValueView>, n: NumeralsView)
    requires
        c == '{' || c == '}',
        no_braces(a),
        no_braces(b),
    ensures
        formatted(a + seq![c, c] + b, 0, args, n) == Ok::<Text, Fault>(a + seq![c] + b),
{
    let f = a + seq![c, c] + b;
    let i = a.len() as int;
    assert(f[i] == c && f[i + 1] == c);
    assert forall|k: int| 0 <= k < i implies #[trigger] f[k] != '{' && f[k] != '}' by {
        assert(f[k] == a[k]);
    }
    lemma_format_plain(f, 0, i, args, n);
    assert forall|k: int| i + 2 <= k < f.len() implies #[trigger] f[k] != '{' && f[k] != '}' by {
        assert(f[k] == b[k - i - 2]);
    }
    lemma_format_plain(f, i + 2, f.len() as int, args, n);
    assert(f.subrange(i + 2, f.len() as int) =~= b);
    assert(f.subrange(0, i) =~= a);
    assert(b + Seq::<char>::empty() =~= b);
    assert(formatted(f, f.len() as int, args, n) == Ok::<Text, Fault>(Seq::empty()));
    assert(formatted(f, i + 2, args, n) == Ok::<Text, Fault>(b));
    assert(formatted(f, i, args, n) == Ok::<Text, Fault>(seq![c] + b));
    assert(a + (seq![c] + b) =~= a + seq![c] + b);
}

/// `x[k]` of an object is the entry under the text of the key; of a list, the item
/// at the number that the key stands for, and null where that is no whole number.
pub proof fn law_keys_are_taken_as_text_or_number(
    a: AstView,
    k: AstView,
    c: ContextView,
    v: ValueView,
    w: ValueView,
)
    requires
        worth(a, c) == Ok::<ValueView, Fault>(v),
        worth(k, c) == Ok::<ValueView, Fault>(w),
    ensures
        v matches ValueView::Object(m) ==> (shown(w, c.numerals) matches Ok(t) ==> worth(
            AstView::Index(Box::new(a), Box::new(k)),
            c,
        ) == Ok::<ValueView, Fault>(
            match lookup(m, t) {
                Some(x) => x,
                None => ValueView::Null,
            },
        )),
        v matches ValueView::Array(items) ==> (numeric(w, c.numerals) matches Ok(d) ==> (
        d.whole() matches Some(i) ==> 0 <= i < items.len() ==> worth(
            AstView::Index(Box::new(a), Box::new(k)),
            c,
        ) == Ok::<ValueView, Fault>(items[i]))),
        v matches ValueView::Array(items) ==> (numeric(w, c.numerals) matches Ok(d) ==> (
        !(d.whole() matches Some(i) && 0 <= i < items.len()) ==> worth(
            AstView::Index(Box::new(a), Box::new(k)),
            c,
        ) == Ok::<ValueView, Fault>(ValueView::Null))),
        !(v is Object) && !(v is Array) ==> worth(AstView::Index(Box::new(a), Box::new(k)), c)
            == Ok::<ValueView, Fault>(ValueView::Null),
{
}

/// An index whose parts fail is their error, the left one first.
pub proof fn law_errors_of_parts(a: AstView, k: AstView, name: Text, c: ContextView)
    ensures
        worth(a, c) matches Err(f) ==> worth(AstView::Index(Box::new(a), Box::new(k)), c) == Err::<
            ValueView,
            Fault,
        >(f),
        worth(a, c) is Ok ==> (worth(k, c) matches Err(f) ==> worth(
            AstView::Index(Box::new(a), Box::new(k)),
            c,
        ) == Err::<ValueView, Fault>(f)),
        worth(a, c) matches Err(f) ==> worth(AstView::Property(Box::new(a), name), c) == Err::<
            ValueView,
            Fault,
        >(f),
        worth(a, c) matches Err(f) ==> worth(AstView::Not(Box::new(a)), c) == Err::<
            ValueView,
            Fault,
        >(f),
{
}

/// `toJSON` writes a value as JSON, and `fromJSON` reads the text of a value as
/// JSON, of which what is wrong is an error.
pub proof fn law_json_functions(
    name: Text,
    v: ValueView,
    status: JobStatus,
    n: NumeralsView,
)
    ensures
        lowered(name) == "tojson"@ ==> (tree(v, n) matches Ok(t) ==> applied(
            name,
            seq![v],
            status,
            n,
        ) == Ok::<ValueView, Fault>(ValueView::Str(json_pretty(t)))),
        lowered(name) == "fromjson"@ ==> (shown(v, n) matches Ok(s) ==> (json_parsed(s) matches Ok(
            t,
        ) ==> (tree_value(t, n) matches Ok(w) ==> applied(name, seq![v], status, n) == Ok::<
            ValueView,
            Fault,
        >(w)))),
        lowered(name) == "fromjson"@ ==> (shown(v, n) matches Ok(s) ==> (json_parsed(s) matches Err(
            m,
        ) ==> applied(name, seq![v], status, n) == Err::<ValueView, Fault>(Fault::BadJson(m)))),
{
    lemma_names_differ();
    assert(seq![v][0] == v);
}

} // verus!
