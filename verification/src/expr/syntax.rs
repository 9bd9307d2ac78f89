//! How expressions are written.

use crate::double::Double;
use crate::expr::error::Fault;
use crate::expr::lex::{
    char_at, digit_at, hex_end, ident_end, literal_end, literal_run, literal_value, quoted_at,
    symbol_at, token_at, tokens, tokens_from, word_token, Sym, TokView,
};
use crate::expr::parse::{
    op_at, p_args, p_chain, p_expr, p_level, p_primary, p_suffix, p_unary, parsed, sym_at, tok_at,
    AstView, BinOp, Parsed, MAX_DEPTH,
};
use crate::numeral::{NeedView, NumeralsView};
use crate::results::ahead;
use crate::text::{is_space, lowered, Text};
use vstd::prelude::*;

verus! {

// ---------------------------------------------------------------------------
// Operators
// ---------------------------------------------------------------------------

/// The operators, from those that bind least: `||`, `&&`, the equalities and the
/// relations.
pub open spec fn binds(s: Sym) -> Option<(int, BinOp)> {
    match s {
        Sym::Or => Some((0, BinOp::Or)),
        Sym::And => Some((1, BinOp::And)),
        Sym::Eq => Some((2, BinOp::Eq)),
        Sym::Ne => Some((2, BinOp::Ne)),
        Sym::Lt => Some((3, BinOp::Lt)),
        Sym::Le => Some((3, BinOp::Le)),
        Sym::Gt => Some((3, BinOp::Gt)),
        Sym::Ge => Some((3, BinOp::Ge)),
        _ => None,
    }
}

/// How closely the operator at a place binds, where there is one.
pub open spec fn bond(ts: Seq<TokView>, i: int) -> int {
    match tok_at(ts, i) {
        Some(TokView::Sym(s)) => match binds(s) {
            Some(b) => b.0,
            None => -1,
        },
        _ => -1,
    }
}

/// An operator with its two sides.
pub open spec fn both(op: BinOp, a: AstView, b: AstView) -> AstView {
    AstView::Binary(op, Box::new(a), Box::new(b))
}

proof fn lemma_op_at(ts: Seq<TokView>, i: int, lv: int)
    requires
        0 <= lv <= 3,
    ensures
        op_at(ts, i, lv) is Some <==> bond(ts, i) == lv,
        op_at(ts, i, lv) matches Some(op) ==> (tok_at(ts, i) matches Some(TokView::Sym(s))
            && binds(s) == Some((lv, op))),
{
}

/// What is read at a level: from the loosest operators down to what no operator
/// takes apart.
pub open spec fn at_level(ts: Seq<TokView>, i: int, d: int, lv: int) -> Parsed {
    if lv <= 3 {
        p_level(ts, i, d, lv)
    } else {
        p_unary(ts, i, d)
    }
}

proof fn lemma_operand(ts: Seq<TokView>, i: int, d: int, lv: int, x: AstView, k: int)
    requires
        0 <= i < k <= ts.len(),
        0 <= lv <= 4,
        p_unary(ts, i, d) == Ok::<(AstView, int), Fault>((x, k)),
        bond(ts, k) < lv,
    ensures
        at_level(ts, i, d, lv) == Ok::<(AstView, int), Fault>((x, k)),
    decreases 4 - lv,
{
    if lv < 4 {
        lemma_operand(ts, i, d, lv + 1, x, k);
        lemma_op_at(ts, k, lv);
        assert(p_chain(ts, k, d, lv, x) == Ok::<(AstView, int), Fault>((x, k)));
    }
}

proof fn lemma_lower(ts: Seq<TokView>, i: int, d: int, from: int, lv: int, x: AstView, k: int)
    requires
        0 <= i < k <= ts.len(),
        0 <= lv <= from <= 4,
        at_level(ts, i, d, from) == Ok::<(AstView, int), Fault>((x, k)),
        bond(ts, k) < lv,
    ensures
        at_level(ts, i, d, lv) == Ok::<(AstView, int), Fault>((x, k)),
    decreases from - lv,
{
    if lv < from {
        lemma_lower(ts, i, d, from, lv + 1, x, k);
        lemma_op_at(ts, k, lv);
        assert(p_chain(ts, k, d, lv, x) == Ok::<(AstView, int), Fault>((x, k)));
    }
}

proof fn lemma_pair(
    ts: Seq<TokView>,
    i: int,
    d: int,
    lv: int,
    x: AstView,
    k: int,
    op: BinOp,
    y: AstView,
    m: int,
)
    requires
        0 <= i < k < m <= ts.len(),
        k + 1 < m,
        0 <= lv <= 3,
        p_unary(ts, i, d) == Ok::<(AstView, int), Fault>((x, k)),
        p_unary(ts, k + 1, d) == Ok::<(AstView, int), Fault>((y, m)),
        lv <= bond(ts, k),
        op_at(ts, k, bond(ts, k)) == Some(op),
        bond(ts, m) < lv,
    ensures
        p_level(ts, i, d, lv) == Ok::<(AstView, int), Fault>((both(op, x, y), m)),
{
    let l = bond(ts, k);
    lemma_operand(ts, i, d, l + 1, x, k);
    lemma_operand(ts, k + 1, d, l + 1, y, m);
    lemma_op_at(ts, m, l);
    reveal_with_fuel(p_chain, 2);
    assert(p_level(ts, i, d, l) == p_chain(ts, k, d, l, x));
    assert(p_chain(ts, m, d, l, both(op, x, y)) == Ok::<(AstView, int), Fault>(
        (both(op, x, y), m),
    ));
    lemma_lower(ts, i, d, l, lv, both(op, x, y), m);
}

/// Between three operands the operator that binds more closely takes the one in
/// the middle; of two that bind alike the first does.
pub proof fn law_operators_group(
    ts: Seq<TokView>,
    i: int,
    d: int,
    x: AstView,
    k: int,
    op: BinOp,
    y: AstView,
    m: int,
    oq: BinOp,
    z: AstView,
    n: int,
)
    requires
        0 <= i < k,
        k + 1 < m,
        m + 1 < n <= ts.len(),
        p_unary(ts, i, d) == Ok::<(AstView, int), Fault>((x, k)),
        p_unary(ts, k + 1, d) == Ok::<(AstView, int), Fault>((y, m)),
        p_unary(ts, m + 1, d) == Ok::<(AstView, int), Fault>((z, n)),
        tok_at(ts, k) matches Some(TokView::Sym(s)) && binds(s) == Some((bond(ts, k), op)),
        tok_at(ts, m) matches Some(TokView::Sym(s)) && binds(s) == Some((bond(ts, m), oq)),
        bond(ts, n) == -1,
    ensures
        p_level(ts, i, d, 0) == Ok::<(AstView, int), Fault>(
            (
                if bond(ts, k) < bond(ts, m) {
                    both(op, x, both(oq, y, z))
                } else {
                    both(oq, both(op, x, y), z)
                },
                n,
            ),
        ),
{
    let a = bond(ts, k);
    let b = bond(ts, m);
    lemma_op_at(ts, k, a);
    lemma_op_at(ts, m, b);
    lemma_operand(ts, i, d, a + 1, x, k);
    lemma_operand(ts, m + 1, d, b + 1, z, n);
    reveal_with_fuel(p_chain, 3);
    if a < b {
        lemma_pair(ts, k + 1, d, a + 1, y, m, oq, z, n);
        lemma_op_at(ts, n, a);
        assert(p_level(ts, i, d, a) == p_chain(ts, k, d, a, x));
        lemma_lower(ts, i, d, a, 0, both(op, x, both(oq, y, z)), n);
    } else if a == b {
        lemma_operand(ts, k + 1, d, a + 1, y, m);
        lemma_op_at(ts, n, a);
        assert(p_level(ts, i, d, a) == p_chain(ts, k, d, a, x));
        assert(p_chain(ts, k, d, a, x) == p_chain(ts, m, d, a, both(op, x, y)));
        lemma_lower(ts, i, d, a, 0, both(oq, both(op, x, y), z), n);
    } else {
        lemma_pair(ts, i, d, b + 1, x, k, op, y, m);
        lemma_op_at(ts, n, b);
        assert(p_level(ts, i, d, b) == p_chain(ts, m, d, b, both(op, x, y)));
        lemma_lower(ts, i, d, b, 0, both(oq, both(op, x, y), z), n);
    }
}

// ---------------------------------------------------------------------------
// Whole expressions
// ---------------------------------------------------------------------------

/// What a token is by itself.
pub open spec fn atom(t: TokView) -> Option<AstView> {
    match t {
        TokView::Number(d) => Some(AstView::Number(d)),
        TokView::Str(s) => Some(AstView::Str(s)),
        TokView::Ident(name) => Some(AstView::Ident(name)),
        TokView::Sym(Sym::True) => Some(AstView::Bool(true)),
        TokView::Sym(Sym::False) => Some(AstView::Bool(false)),
        TokView::Sym(Sym::Null) => Some(AstView::Null),
        _ => None,
    }
}

/// Whether what was read goes on with a property, an index or arguments.
pub open spec fn goes_on(ts: Seq<TokView>, i: int) -> bool {
    sym_at(ts, i, Sym::Dot) || sym_at(ts, i, Sym::LBracket) || sym_at(ts, i, Sym::LParen)
}

proof fn lemma_atom(ts: Seq<TokView>, i: int, d: int, x: AstView)
    requires
        0 <= i < ts.len(),
        atom(ts[i]) == Some(x),
        !goes_on(ts, i + 1),
    ensures
        p_unary(ts, i, d) == Ok::<(AstView, int), Fault>((x, i + 1)),
{
    assert(p_primary(ts, i, d) == Ok::<(AstView, int), Fault>((x, i + 1)));
    assert(p_suffix(ts, i + 1, d, x) == Ok::<(AstView, int), Fault>((x, i + 1)));
}

/// A token that is a value by itself is an expression.
pub proof fn law_values_stand_alone(t: TokView, x: AstView)
    requires
        atom(t) == Some(x),
    ensures
        parsed(seq![t]) == Ok::<AstView, Fault>(x),
{
    let ts = seq![t];
    lemma_atom(ts, 0, 1, x);
    lemma_operand(ts, 0, 1, 0, x, 1);
}

/// Every operator stands between its two sides.
pub proof fn law_operators_stand_between(
    a: TokView,
    s: Sym,
    b: TokView,
    x: AstView,
    y: AstView,
    lv: int,
    op: BinOp,
)
    requires
        atom(a) == Some(x),
        atom(b) == Some(y),
        binds(s) == Some((lv, op)),
    ensures
        parsed(seq![a, TokView::Sym(s), b]) == Ok::<AstView, Fault>(both(op, x, y)),
{
    let ts = seq![a, TokView::Sym(s), b];
    lemma_atom(ts, 0, 1, x);
    lemma_atom(ts, 2, 1, y);
    lemma_op_at(ts, 1, lv);
    lemma_pair(ts, 0, 1, 0, x, 1, op, y, 3);
}

/// Two operators group by how closely they bind, and from the left where they bind
/// alike.
pub proof fn law_precedence(
    a: TokView,
    s: Sym,
    b: TokView,
    t: Sym,
    c: TokView,
    x: AstView,
    y: AstView,
    z: AstView,
    lv: int,
    op: BinOp,
    mv: int,
    oq: BinOp,
)
    requires
        atom(a) == Some(x),
        atom(b) == Some(y),
        atom(c) == Some(z),
        binds(s) == Some((lv, op)),
        binds(t) == Some((mv, oq)),
    ensures
        lv < mv ==> parsed(seq![a, TokView::Sym(s), b, TokView::Sym(t), c]) == Ok::<AstView, Fault>(
            both(op, x, both(oq, y, z)),
        ),
        lv >= mv ==> parsed(seq![a, TokView::Sym(s), b, TokView::Sym(t), c]) == Ok::<
            AstView,
            Fault,
        >(both(oq, both(op, x, y), z)),
{
    let ts = seq![a, TokView::Sym(s), b, TokView::Sym(t), c];
    lemma_atom(ts, 0, 1, x);
    lemma_atom(ts, 2, 1, y);
    lemma_atom(ts, 4, 1, z);
    law_operators_group(ts, 0, 1, x, 1, op, y, 3, oq, z, 5);
}

/// `!` takes the operand behind it before any operator does.
pub proof fn law_not_binds_closest(
    a: TokView,
    s: Sym,
    b: TokView,
    x: AstView,
    y: AstView,
    lv: int,
    op: BinOp,
)
    requires
        atom(a) == Some(x),
        atom(b) == Some(y),
        binds(s) == Some((lv, op)),
    ensures
        parsed(seq![TokView::Sym(Sym::Not), a]) == Ok::<AstView, Fault>(
            AstView::Not(Box::new(x)),
        ),
        parsed(seq![TokView::Sym(Sym::Not), a, TokView::Sym(s), b]) == Ok::<AstView, Fault>(
            both(op, AstView::Not(Box::new(x)), y),
        ),
        parsed(seq![a, TokView::Sym(s), TokView::Sym(Sym::Not), b]) == Ok::<AstView, Fault>(
            both(op, x, AstView::Not(Box::new(y))),
        ),
{
    let n = TokView::Sym(Sym::Not);
    let nx = AstView::Not(Box::new(x));
    let ny = AstView::Not(Box::new(y));
    let t1 = seq![n, a];
    lemma_atom(t1, 1, 2, x);
    assert(p_unary(t1, 0, 1) == Ok::<(AstView, int), Fault>((nx, 2)));
    lemma_operand(t1, 0, 1, 0, nx, 2);
    let t2 = seq![n, a, TokView::Sym(s), b];
    lemma_atom(t2, 1, 2, x);
    assert(p_unary(t2, 0, 1) == Ok::<(AstView, int), Fault>((nx, 2)));
    lemma_atom(t2, 3, 1, y);
    lemma_op_at(t2, 2, lv);
    lemma_pair(t2, 0, 1, 0, nx, 2, op, y, 4);
    let t3 = seq![a, TokView::Sym(s), n, b];
    lemma_atom(t3, 0, 1, x);
    lemma_atom(t3, 3, 2, y);
    assert(p_unary(t3, 2, 1) == Ok::<(AstView, int), Fault>((ny, 4)));
    lemma_op_at(t3, 1, lv);
    lemma_pair(t3, 0, 1, 0, x, 1, op, ny, 4);
}

/// Parentheses group whatever binds more closely outside them.
pub proof fn law_parentheses_group(
    a: TokView,
    s: Sym,
    b: TokView,
    t: Sym,
    c: TokView,
    x: AstView,
    y: AstView,
    z: AstView,
    lv: int,
    op: BinOp,
    mv: int,
    oq: BinOp,
)
    requires
        atom(a) == Some(x),
        atom(b) == Some(y),
        atom(c) == Some(z),
        binds(s) == Some((lv, op)),
        binds(t) == Some((mv, oq)),
    ensures
        parsed(
            seq![
                TokView::Sym(Sym::LParen),
                a,
                TokView::Sym(s),
                b,
                TokView::Sym(Sym::RParen),
                TokView::Sym(t),
                c,
            ],
        ) == Ok::<AstView, Fault>(both(oq, both(op, x, y), z)),
        parsed(
            seq![
                a,
                TokView::Sym(s),
                TokView::Sym(Sym::LParen),
                b,
                TokView::Sym(t),
                c,
                TokView::Sym(Sym::RParen),
            ],
        ) == Ok::<AstView, Fault>(both(op, x, both(oq, y, z))),
{
    let open = TokView::Sym(Sym::LParen);
    let close = TokView::Sym(Sym::RParen);
    let t1 = seq![open, a, TokView::Sym(s), b, close, TokView::Sym(t), c];
    lemma_atom(t1, 1, 2, x);
    lemma_atom(t1, 3, 2, y);
    lemma_op_at(t1, 2, lv);
    lemma_pair(t1, 1, 2, 0, x, 2, op, y, 4);
    lemma_group(t1, 0, 1, both(op, x, y), 4);
    lemma_atom(t1, 6, 1, z);
    lemma_op_at(t1, 5, mv);
    lemma_pair(t1, 0, 1, 0, both(op, x, y), 5, oq, z, 7);
    let t2 = seq![a, TokView::Sym(s), open, b, TokView::Sym(t), c, close];
    lemma_atom(t2, 3, 2, y);
    lemma_atom(t2, 5, 2, z);
    lemma_op_at(t2, 4, mv);
    lemma_pair(t2, 3, 2, 0, y, 4, oq, z, 6);
    lemma_group(t2, 2, 1, both(oq, y, z), 6);
    lemma_atom(t2, 0, 1, x);
    lemma_op_at(t2, 1, lv);
    lemma_pair(t2, 0, 1, 0, x, 1, op, both(oq, y, z), 7);
}

proof fn lemma_group(ts: Seq<TokView>, i: int, d: int, x: AstView, k: int)
    requires
        0 <= i < k < ts.len(),
        d + 1 <= MAX_DEPTH,
        sym_at(ts, i, Sym::LParen),
        sym_at(ts, k, Sym::RParen),
        p_level(ts, i + 1, d + 1, 0) == Ok::<(AstView, int), Fault>((x, k)),
        !goes_on(ts, k + 1),
    ensures
        p_unary(ts, i, d) == Ok::<(AstView, int), Fault>((x, k + 1)),
{
    assert(p_expr(ts, i + 1, d) == Ok::<(AstView, int), Fault>((x, k)));
    assert(p_primary(ts, i, d) == Ok::<(AstView, int), Fault>((x, k + 1)));
    assert(p_suffix(ts, k + 1, d, x) == Ok::<(AstView, int), Fault>((x, k + 1)));
}

/// `a.name` is a property of `a`, `a.*` a filter, `a[b]` an index, and properties
/// follow one another from the left.
#[verifier::rlimit(60)]
#[verifier::spinoff_prover]
pub proof fn law_properties_and_indexes(
    a: TokView,
    name: Text,
    more: Text,
    b: TokView,
    x: AstView,
    y: AstView,
)
    requires
        atom(a) == Some(x),
        atom(b) == Some(y),
    ensures
        parsed(seq![a, TokView::Sym(Sym::Dot), TokView::Ident(name)]) == Ok::<AstView, Fault>(
            AstView::Property(Box::new(x), name),
        ),
        parsed(
            seq![
                a,
                TokView::Sym(Sym::Dot),
                TokView::Ident(name),
                TokView::Sym(Sym::Dot),
                TokView::Ident(more),
            ],
        ) == Ok::<AstView, Fault>(
            AstView::Property(Box::new(AstView::Property(Box::new(x), name)), more),
        ),
        parsed(seq![a, TokView::Sym(Sym::Dot), TokView::Sym(Sym::Star)]) == Ok::<AstView, Fault>(
            AstView::Star(Box::new(x)),
        ),
        parsed(seq![a, TokView::Sym(Sym::LBracket), b, TokView::Sym(Sym::RBracket)]) == Ok::<
            AstView,
            Fault,
        >(AstView::Index(Box::new(x), Box::new(y))),
{
    let dot = TokView::Sym(Sym::Dot);
    let t1 = seq![a, dot, TokView::Ident(name)];
    assert(p_primary(t1, 0, 1) == Ok::<(AstView, int), Fault>((x, 1)));
    let px = AstView::Property(Box::new(x), name);
    assert(p_suffix(t1, 3, 1, px) == Ok::<(AstView, int), Fault>((px, 3)));
    assert(p_suffix(t1, 1, 1, x) == Ok::<(AstView, int), Fault>((px, 3)));
    lemma_operand(t1, 0, 1, 0, px, 3);
    let t2 = seq![a, dot, TokView::Ident(name), dot, TokView::Ident(more)];
    assert(p_primary(t2, 0, 1) == Ok::<(AstView, int), Fault>((x, 1)));
    let py = AstView::Property(Box::new(px), more);
    assert(p_suffix(t2, 5, 1, py) == Ok::<(AstView, int), Fault>((py, 5)));
    assert(p_suffix(t2, 3, 1, px) == Ok::<(AstView, int), Fault>((py, 5)));
    assert(p_suffix(t2, 1, 1, x) == Ok::<(AstView, int), Fault>((py, 5)));
    lemma_operand(t2, 0, 1, 0, py, 5);
    let t3 = seq![a, dot, TokView::Sym(Sym::Star)];
    assert(p_primary(t3, 0, 1) == Ok::<(AstView, int), Fault>((x, 1)));
    let sx = AstView::Star(Box::new(x));
    assert(p_suffix(t3, 3, 1, sx) == Ok::<(AstView, int), Fault>((sx, 3)));
    assert(p_suffix(t3, 1, 1, x) == Ok::<(AstView, int), Fault>((sx, 3)));
    lemma_operand(t3, 0, 1, 0, sx, 3);
    let t4 = seq![a, TokView::Sym(Sym::LBracket), b, TokView::Sym(Sym::RBracket)];
    assert(p_primary(t4, 0, 1) == Ok::<(AstView, int), Fault>((x, 1)));
    lemma_atom(t4, 2, 2, y);
    lemma_operand(t4, 2, 2, 0, y, 3);
    assert(p_expr(t4, 2, 1) == Ok::<(AstView, int), Fault>((y, 3)));
    let ix = AstView::Index(Box::new(x), Box::new(y));
    assert(p_suffix(t4, 4, 1, ix) == Ok::<(AstView, int), Fault>((ix, 4)));
    assert(p_suffix(t4, 1, 1, x) == Ok::<(AstView, int), Fault>((ix, 4)));
    lemma_operand(t4, 0, 1, 0, ix, 4);
}

/// A name in front of parentheses is a call with the arguments between them, in
/// order.
pub proof fn law_calls_have_arguments(
    name: Text,
    a: TokView,
    b: TokView,
    x: AstView,
    y: AstView,
)
    requires
        atom(a) == Some(x),
        atom(b) == Some(y),
    ensures
        parsed(
            seq![TokView::Ident(name), TokView::Sym(Sym::LParen), TokView::Sym(Sym::RParen)],
        ) == Ok::<AstView, Fault>(AstView::Call(name, Seq::empty())),
        parsed(
            seq![TokView::Ident(name), TokView::Sym(Sym::LParen), a, TokView::Sym(Sym::RParen)],
        ) == Ok::<AstView, Fault>(AstView::Call(name, seq![x])),
        parsed(
            seq![
                TokView::Ident(name),
                TokView::Sym(Sym::LParen),
                a,
                TokView::Sym(Sym::Comma),
                b,
                TokView::Sym(Sym::RParen),
            ],
        ) == Ok::<AstView, Fault>(AstView::Call(name, seq![x, y])),
{
    let f = TokView::Ident(name);
    let open = TokView::Sym(Sym::LParen);
    let close = TokView::Sym(Sym::RParen);
    let t0 = seq![f, open, close];
    let c0 = AstView::Call(name, Seq::empty());
    assert(p_primary(t0, 0, 1) == Ok::<(AstView, int), Fault>((c0, 3)));
    assert(p_suffix(t0, 3, 1, c0) == Ok::<(AstView, int), Fault>((c0, 3)));
    lemma_operand(t0, 0, 1, 0, c0, 3);
    let t1 = seq![f, open, a, close];
    let c1 = AstView::Call(name, seq![x]);
    lemma_atom(t1, 2, 2, x);
    lemma_operand(t1, 2, 2, 0, x, 3);
    assert(p_expr(t1, 2, 1) == Ok::<(AstView, int), Fault>((x, 3)));
    assert(p_args(t1, 2, 1) == Ok::<(Seq<AstView>, int), Fault>((seq![x], 4)));
    assert(p_primary(t1, 0, 1) == Ok::<(AstView, int), Fault>((c1, 4)));
    assert(p_suffix(t1, 4, 1, c1) == Ok::<(AstView, int), Fault>((c1, 4)));
    lemma_operand(t1, 0, 1, 0, c1, 4);
    let t2 = seq![f, open, a, TokView::Sym(Sym::Comma), b, close];
    let c2 = AstView::Call(name, seq![x, y]);
    lemma_atom(t2, 2, 2, x);
    lemma_operand(t2, 2, 2, 0, x, 3);
    assert(p_expr(t2, 2, 1) == Ok::<(AstView, int), Fault>((x, 3)));
    lemma_atom(t2, 4, 2, y);
    lemma_operand(t2, 4, 2, 0, y, 5);
    assert(p_expr(t2, 4, 1) == Ok::<(AstView, int), Fault>((y, 5)));
    assert(p_args(t2, 4, 1) == Ok::<(Seq<AstView>, int), Fault>((seq![y], 6)));
    assert(seq![x] + seq![y] =~= seq![x, y]);
    assert(p_args(t2, 2, 1) == Ok::<(Seq<AstView>, int), Fault>((seq![x, y], 6)));
    assert(p_primary(t2, 0, 1) == Ok::<(AstView, int), Fault>((c2, 6)));
    assert(p_suffix(t2, 6, 1, c2) == Ok::<(AstView, int), Fault>((c2, 6)));
    lemma_operand(t2, 0, 1, 0, c2, 6);
}

/// What is left behind an expression is an error, and so is an operator without
/// its right side and a parenthesis or bracket that is not closed.
pub proof fn law_expressions_that_are_wrong(
    a: TokView,
    b: TokView,
    s: Sym,
    x: AstView,
    y: AstView,
    lv: int,
    op: BinOp,
)
    requires
        atom(a) == Some(x),
        atom(b) == Some(y),
        binds(s) == Some((lv, op)),
    ensures
        parsed(Seq::empty()) == Err::<AstView, Fault>(Fault::NoValue(None)),
        parsed(seq![a, b]) == Err::<AstView, Fault>(Fault::Trailing(b)),
        parsed(seq![a, TokView::Sym(s)]) == Err::<AstView, Fault>(Fault::NoValue(None)),
        parsed(seq![TokView::Sym(s), a]) == Err::<AstView, Fault>(
            Fault::NoValue(Some(TokView::Sym(s))),
        ),
        parsed(seq![TokView::Sym(Sym::LParen), a]) == Err::<AstView, Fault>(Fault::NoParen),
        parsed(seq![a, TokView::Sym(Sym::LBracket), b]) == Err::<AstView, Fault>(Fault::NoBracket),
{
    let e = Seq::<TokView>::empty();
    assert(p_primary(e, 0, 1) == Err::<(AstView, int), Fault>(Fault::NoValue(None)));
    assert(p_unary(e, 0, 1) == Err::<(AstView, int), Fault>(Fault::NoValue(None)));
    lemma_bad(e, 0, 1, 0, Fault::NoValue(None));
    let t1 = seq![a, b];
    lemma_atom(t1, 0, 1, x);
    lemma_operand(t1, 0, 1, 0, x, 1);
    let t2 = seq![a, TokView::Sym(s)];
    lemma_atom(t2, 0, 1, x);
    lemma_op_at(t2, 1, lv);
    assert(p_primary(t2, 2, 1) == Err::<(AstView, int), Fault>(Fault::NoValue(None)));
    assert(p_unary(t2, 2, 1) == Err::<(AstView, int), Fault>(Fault::NoValue(None)));
    lemma_bad(t2, 2, 1, lv + 1, Fault::NoValue(None));
    lemma_operand(t2, 0, 1, lv + 1, x, 1);
    assert(p_chain(t2, 1, 1, lv, x) == Err::<(AstView, int), Fault>(Fault::NoValue(None)));
    assert(p_level(t2, 0, 1, lv) == Err::<(AstView, int), Fault>(Fault::NoValue(None)));
    lemma_bad_lower(t2, 0, 1, lv, 0, Fault::NoValue(None));
    let t3 = seq![TokView::Sym(s), a];
    let f3 = Fault::NoValue(Some(TokView::Sym(s)));
    assert(p_primary(t3, 0, 1) == Err::<(AstView, int), Fault>(f3));
    assert(p_unary(t3, 0, 1) == Err::<(AstView, int), Fault>(f3));
    lemma_bad(t3, 0, 1, 0, f3);
    let t4 = seq![TokView::Sym(Sym::LParen), a];
    lemma_atom(t4, 1, 2, x);
    lemma_operand(t4, 1, 2, 0, x, 2);
    assert(p_expr(t4, 1, 1) == Ok::<(AstView, int), Fault>((x, 2)));
    assert(p_primary(t4, 0, 1) == Err::<(AstView, int), Fault>(Fault::NoParen));
    assert(p_unary(t4, 0, 1) == Err::<(AstView, int), Fault>(Fault::NoParen));
    lemma_bad(t4, 0, 1, 0, Fault::NoParen);
    let t5 = seq![a, TokView::Sym(Sym::LBracket), b];
    lemma_atom(t5, 2, 2, y);
    lemma_operand(t5, 2, 2, 0, y, 3);
    assert(p_expr(t5, 2, 1) == Ok::<(AstView, int), Fault>((y, 3)));
    assert(p_primary(t5, 0, 1) == Ok::<(AstView, int), Fault>((x, 1)));
    assert(p_suffix(t5, 1, 1, x) == Err::<(AstView, int), Fault>(Fault::NoBracket));
    assert(p_unary(t5, 0, 1) == Err::<(AstView, int), Fault>(Fault::NoBracket));
    lemma_bad(t5, 0, 1, 0, Fault::NoBracket);
}

proof fn lemma_bad(ts: Seq<TokView>, i: int, d: int, lv: int, f: Fault)
    requires
        0 <= i <= ts.len(),
        0 <= lv <= 4,
        p_unary(ts, i, d) == Err::<(AstView, int), Fault>(f),
    ensures
        at_level(ts, i, d, lv) == Err::<(AstView, int), Fault>(f),
    decreases 4 - lv,
{
    if lv < 4 {
        lemma_bad(ts, i, d, lv + 1, f);
    }
}

proof fn lemma_bad_lower(ts: Seq<TokView>, i: int, d: int, from: int, lv: int, f: Fault)
    requires
        0 <= i <= ts.len(),
        0 <= lv <= from <= 3,
        p_level(ts, i, d, from) == Err::<(AstView, int), Fault>(f),
    ensures
        p_level(ts, i, d, lv) == Err::<(AstView, int), Fault>(f),
    decreases from - lv,
{
    if lv < from {
        lemma_bad_lower(ts, i, d, from, lv + 1, f);
    }
}

// ---------------------------------------------------------------------------
// Tokens
// ---------------------------------------------------------------------------

proof fn lemma_ends_shift(a: Text, s: Text, i: int)
    requires
        0 <= i <= s.len(),
    ensures
        ident_end(a + s, a.len() + i) == a.len() + ident_end(s, i),
        hex_end(a + s, a.len() + i) == a.len() + hex_end(s, i),
        literal_run(a + s, a.len() + i) == a.len() + literal_run(s, i),
        i <= ident_end(s, i) <= s.len(),
        i <= hex_end(s, i) <= s.len(),
        i <= literal_run(s, i) <= s.len(),
    decreases s.len() - i,
{
    if i < s.len() {
        assert((a + s)[a.len() + i] == s[i]);
        lemma_ends_shift(a, s, i + 1);
    }
}

proof fn lemma_quoted_shift(a: Text, s: Text, i: int)
    requires
        0 <= i,
    ensures
        quoted_at(a + s, a.len() + i) == (match quoted_at(s, i) {
            Some(q) => Some((q.0, a.len() + q.1)),
            None => None,
        }),
    decreases s.len() - i,
{
    if i < s.len() {
        let w = a + s;
        assert(w[a.len() + i] == s[i]);
        assert(char_at(w, a.len() + i + 1) == char_at(s, i + 1));
        lemma_quoted_shift(a, s, i + 1);
        if i + 1 < s.len() {
            lemma_quoted_shift(a, s, i + 2);
        }
    }
}

proof fn lemma_token_shift(a: Text, s: Text, i: int, n: NumeralsView)
    requires
        0 <= i < s.len(),
    ensures
        token_at(a + s, a.len() + i, n) == (match token_at(s, i, n) {
            Ok(p) => Ok::<(TokView, int), Fault>((p.0, a.len() + p.1)),
            Err(f) => Err(f),
        }),
{
    let w = a + s;
    let k = a.len() as int;
    assert(w[k + i] == s[i]);
    assert(char_at(w, k + i) == char_at(s, i));
    assert(char_at(w, k + i + 1) == char_at(s, i + 1));
    assert(char_at(w, k + i + 2) == char_at(s, i + 2));
    assert(digit_at(w, k + i + 1) == digit_at(s, i + 1));
    lemma_ends_shift(a, s, i);
    lemma_quoted_shift(a, s, i + 1);
    let j = if char_at(s, i) == Some('-') {
        i + 1
    } else {
        i
    };
    lemma_ends_shift(a, s, j);
    if j + 2 <= s.len() {
        lemma_ends_shift(a, s, j + 2);
    }
    assert(symbol_at(w, k + i) == symbol_at(s, i));
    let e = literal_end(s, i);
    assert(char_at(s, j + 1) is Some ==> j + 2 <= s.len());
    assert(literal_end(w, k + i) == k + e);
    assert(w.subrange(k + i, k + e) =~= s.subrange(i, e));
    let f = ident_end(s, i);
    assert(w.subrange(k + i, k + f) =~= s.subrange(i, f));
}

proof fn lemma_tokens_shift(a: Text, s: Text, i: int, n: NumeralsView)
    requires
        0 <= i <= s.len(),
    ensures
        tokens_from(a + s, a.len() + i, n) == tokens_from(s, i, n),
    decreases s.len() - i,
{
    if i < s.len() {
        let w = a + s;
        let k = a.len() as int;
        assert(w[k + i] == s[i]);
        if is_space(s[i]) {
            lemma_tokens_shift(a, s, i + 1, n);
        } else {
            lemma_token_shift(a, s, i, n);
            if let Ok(p) = token_at(s, i, n) {
                if i < p.1 <= s.len() {
                    lemma_tokens_shift(a, s, p.1, n);
                }
            }
        }
    }
}

proof fn lemma_first_token(t: Text, rest: Text, tok: TokView, n: NumeralsView)
    requires
        t.len() > 0,
        !is_space(t[0]),
        token_at(t + rest, 0, n) == Ok::<(TokView, int), Fault>((tok, t.len() as int)),
    ensures
        tokens(t + rest, n) == ahead(Ok::<TokView, Fault>(tok), tokens(rest, n)),
{
    assert((t + rest)[0] == t[0]);
    lemma_tokens_shift(t, rest, 0, n);
}

/// White space between tokens does not count, and nothing is no token.
pub proof fn law_space_does_not_count(c: char, rest: Text, n: NumeralsView)
    requires
        is_space(c),
    ensures
        tokens(seq![c] + rest, n) == tokens(rest, n),
        tokens(Seq::empty(), n) == Ok::<Seq<TokView>, Fault>(Seq::empty()),
{
    assert((seq![c] + rest)[0] == c);
    lemma_tokens_shift(seq![c], rest, 0, n);
}

/// Whether a text begins with a character.
pub open spec fn leads(s: Text, c: char) -> bool {
    s.len() > 0 && s[0] == c
}

/// The operators of two characters are read whole; `!`, `<` and `>` are operators
/// by themselves where no `=` follows.
pub proof fn law_operators_are_spelled(rest: Text, n: NumeralsView)
    ensures
        tokens(seq!['=', '='] + rest, n) == ahead(
            Ok::<TokView, Fault>(TokView::Sym(Sym::Eq)),
            tokens(rest, n),
        ),
        tokens(seq!['!', '='] + rest, n) == ahead(
            Ok::<TokView, Fault>(TokView::Sym(Sym::Ne)),
            tokens(rest, n),
        ),
        tokens(seq!['<', '='] + rest, n) == ahead(
            Ok::<TokView, Fault>(TokView::Sym(Sym::Le)),
            tokens(rest, n),
        ),
        tokens(seq!['>', '='] + rest, n) == ahead(
            Ok::<TokView, Fault>(TokView::Sym(Sym::Ge)),
            tokens(rest, n),
        ),
        tokens(seq!['&', '&'] + rest, n) == ahead(
            Ok::<TokView, Fault>(TokView::Sym(Sym::And)),
            tokens(rest, n),
        ),
        tokens(seq!['|', '|'] + rest, n) == ahead(
            Ok::<TokView, Fault>(TokView::Sym(Sym::Or)),
            tokens(rest, n),
        ),
        !leads(rest, '=') ==> tokens(seq!['!'] + rest, n) == ahead(
            Ok::<TokView, Fault>(TokView::Sym(Sym::Not)),
            tokens(rest, n),
        ),
        !leads(rest, '=') ==> tokens(seq!['<'] + rest, n) == ahead(
            Ok::<TokView, Fault>(TokView::Sym(Sym::Lt)),
            tokens(rest, n),
        ),
        !leads(rest, '=') ==> tokens(seq!['>'] + rest, n) == ahead(
            Ok::<TokView, Fault>(TokView::Sym(Sym::Gt)),
            tokens(rest, n),
        ),
        !leads(rest, '=') ==> tokens(seq!['='] + rest, n) == Err::<Seq<TokView>, Fault>(
            Fault::UnexpectedChar('='),
        ),
        !leads(rest, '&') ==> tokens(seq!['&'] + rest, n) == Err::<Seq<TokView>, Fault>(
            Fault::UnexpectedChar('&'),
        ),
        !leads(rest, '|') ==> tokens(seq!['|'] + rest, n) == Err::<Seq<TokView>, Fault>(
            Fault::UnexpectedChar('|'),
        ),
{
    lemma_two('=', '=', rest, Sym::Eq, n);
    lemma_two('!', '=', rest, Sym::Ne, n);
    lemma_two('<', '=', rest, Sym::Le, n);
    lemma_two('>', '=', rest, Sym::Ge, n);
    lemma_two('&', '&', rest, Sym::And, n);
    lemma_two('|', '|', rest, Sym::Or, n);
    if !leads(rest, '=') {
        lemma_one('!', rest, Sym::Not, n);
        lemma_one('<', rest, Sym::Lt, n);
        lemma_one('>', rest, Sym::Gt, n);
        lemma_none('=', rest, n);
    }
    if !leads(rest, '&') {
        lemma_none('&', rest, n);
    }
    if !leads(rest, '|') {
        lemma_none('|', rest, n);
    }
}

proof fn lemma_two(c: char, e: char, rest: Text, s: Sym, n: NumeralsView)
    requires
        !is_space(c),
        (c == '=' && e == '=' && s == Sym::Eq) || (c == '!' && e == '=' && s == Sym::Ne) || (c
            == '<' && e == '=' && s == Sym::Le) || (c == '>' && e == '=' && s == Sym::Ge) || (c
            == '&' && e == '&' && s == Sym::And) || (c == '|' && e == '|' && s == Sym::Or),
    ensures
        tokens(seq![c, e] + rest, n) == ahead(
            Ok::<TokView, Fault>(TokView::Sym(s)),
            tokens(rest, n),
        ),
{
    let t = seq![c, e];
    let w = t + rest;
    assert(w[0] == c && w[1] == e);
    assert(char_at(w, 1) == Some(e));
    lemma_first_token(t, rest, TokView::Sym(s), n);
}

proof fn lemma_one(c: char, rest: Text, s: Sym, n: NumeralsView)
    requires
        !is_space(c),
        symbol_at(seq![c] + rest, 0) == Some((s, 1int)) || (!leads(rest, '=') && ((c == '!' && s
            == Sym::Not) || (c == '<' && s == Sym::Lt) || (c == '>' && s == Sym::Gt))),
    ensures
        tokens(seq![c] + rest, n) == ahead(
            Ok::<TokView, Fault>(TokView::Sym(s)),
            tokens(rest, n),
        ),
{
    let t = seq![c];
    let w = t + rest;
    assert(w[0] == c);
    if rest.len() > 0 {
        assert(w[1] == rest[0]);
    }
    lemma_first_token(t, rest, TokView::Sym(s), n);
}

proof fn lemma_none(c: char, rest: Text, n: NumeralsView)
    requires
        c == '=' || c == '&' || c == '|',
        !leads(rest, c),
    ensures
        tokens(seq![c] + rest, n) == Err::<Seq<TokView>, Fault>(Fault::UnexpectedChar(c)),
{
    let w = seq![c] + rest;
    assert(w[0] == c);
    if rest.len() > 0 {
        assert(w[1] == rest[0]);
    }
}

/// Brackets, commas, stars and dots are tokens by themselves; a dot in front of a
/// digit begins a number.
pub proof fn law_marks_are_tokens(rest: Text, n: NumeralsView)
    ensures
        tokens(seq!['('] + rest, n) == ahead(
            Ok::<TokView, Fault>(TokView::Sym(Sym::LParen)),
            tokens(rest, n),
        ),
        tokens(seq![')'] + rest, n) == ahead(
            Ok::<TokView, Fault>(TokView::Sym(Sym::RParen)),
            tokens(rest, n),
        ),
        tokens(seq!['['] + rest, n) == ahead(
            Ok::<TokView, Fault>(TokView::Sym(Sym::LBracket)),
            tokens(rest, n),
        ),
        tokens(seq![']'] + rest, n) == ahead(
            Ok::<TokView, Fault>(TokView::Sym(Sym::RBracket)),
            tokens(rest, n),
        ),
        tokens(seq![','] + rest, n) == ahead(
            Ok::<TokView, Fault>(TokView::Sym(Sym::Comma)),
            tokens(rest, n),
        ),
        tokens(seq!['*'] + rest, n) == ahead(
            Ok::<TokView, Fault>(TokView::Sym(Sym::Star)),
            tokens(rest, n),
        ),
        !(rest.len() > 0 && '0' <= rest[0] <= '9') ==> tokens(seq!['.'] + rest, n) == ahead(
            Ok::<TokView, Fault>(TokView::Sym(Sym::Dot)),
            tokens(rest, n),
        ),
{
    lemma_one('(', rest, Sym::LParen, n);
    lemma_one(')', rest, Sym::RParen, n);
    lemma_one('[', rest, Sym::LBracket, n);
    lemma_one(']', rest, Sym::RBracket, n);
    lemma_one(',', rest, Sym::Comma, n);
    lemma_one('*', rest, Sym::Star, n);
    let w = seq!['.'] + rest;
    if rest.len() > 0 {
        assert(w[1] == rest[0]);
    }
    if !(rest.len() > 0 && '0' <= rest[0] <= '9') {
        assert(w[0] == '.');
        assert(!digit_at(w, 1));
        lemma_one('.', rest, Sym::Dot, n);
    }
}

/// Whether a text is a word: a letter or an underscore, then letters, digits,
/// underscores and hyphens.
pub open spec fn is_word(w: Text) -> bool {
    &&& w.len() > 0
    &&& 'a' <= w[0] <= 'z' || 'A' <= w[0] <= 'Z' || w[0] == '_'
    &&& forall|i: int|
        0 <= i < w.len() ==> 'a' <= #[trigger] w[i] <= 'z' || 'A' <= w[i] <= 'Z' || '0' <= w[i]
            <= '9' || w[i] == '_' || w[i] == '-'
}

/// Whether a text goes on with a character of a word.
pub open spec fn continues_word(s: Text) -> bool {
    s.len() > 0 && ('a' <= s[0] <= 'z' || 'A' <= s[0] <= 'Z' || '0' <= s[0] <= '9' || s[0] == '_'
        || s[0] == '-')
}

/// A word is read whole; `true`, `false` and `null` are literals whatever their
/// case, and any other word is a name.
pub proof fn law_words_are_names_or_literals(w: Text, rest: Text, n: NumeralsView)
    requires
        is_word(w),
        !continues_word(rest),
    ensures
        tokens(w + rest, n) == ahead(
            Ok::<TokView, Fault>(
                if lowered(w) == "true"@ {
                    TokView::Sym(Sym::True)
                } else if lowered(w) == "false"@ {
                    TokView::Sym(Sym::False)
                } else if lowered(w) == "null"@ {
                    TokView::Sym(Sym::Null)
                } else {
                    TokView::Ident(w)
                },
            ),
            tokens(rest, n),
        ),
{
    let s = w + rest;
    assert(s[0] == w[0]);
    lemma_word_end(w, rest, 0);
    assert(s.subrange(0, w.len() as int) =~= w);
    lemma_first_token(w, rest, word_token(w), n);
}

proof fn lemma_word_end(w: Text, rest: Text, i: int)
    requires
        is_word(w),
        !continues_word(rest),
        0 <= i <= w.len(),
    ensures
        ident_end(w + rest, i) == w.len(),
    decreases w.len() - i,
{
    let s = w + rest;
    if i < w.len() {
        assert(s[i] == w[i]);
        lemma_word_end(w, rest, i + 1);
    } else if rest.len() > 0 {
        assert(s[i] == rest[0]);
    }
}

/// A text with each single quote doubled.
pub open spec fn doubled(q: Text) -> Text
    decreases q.len(),
{
    if q.len() == 0 {
        Seq::empty()
    } else if q[0] == '\'' {
        seq!['\'', '\''] + doubled(q.skip(1))
    } else {
        seq![q[0]] + doubled(q.skip(1))
    }
}

/// A string stands in single quotes, with each quote in it doubled, and is read
/// as what stands there.
pub proof fn law_strings_stand_in_quotes(q: Text, rest: Text, n: NumeralsView)
    requires
        !leads(rest, '\''),
    ensures
        tokens(seq!['\''] + doubled(q) + seq!['\''] + rest, n) == ahead(
            Ok::<TokView, Fault>(TokView::Str(q)),
            tokens(rest, n),
        ),
{
    let t = seq!['\''] + doubled(q) + seq!['\''];
    let w = t + rest;
    let tail = doubled(q) + seq!['\''] + rest;
    assert(w =~= seq!['\''] + tail);
    lemma_quoted(q, rest);
    lemma_quoted_shift(seq!['\''], tail, 0);
    assert(w[0] == '\'');
    lemma_first_token(t, rest, TokView::Str(q), n);
}

proof fn lemma_quoted(q: Text, rest: Text)
    requires
        !leads(rest, '\''),
    ensures
        quoted_at(doubled(q) + seq!['\''] + rest, 0) == Some((q, doubled(q).len() + 1 as int)),
    decreases q.len(),
{
    let s = doubled(q) + seq!['\''] + rest;
    if q.len() == 0 {
        assert(s[0] == '\'');
        if rest.len() > 0 {
            assert(s[1] == rest[0]);
        }
        assert(q =~= Seq::empty());
    } else {
        let r = q.skip(1);
        lemma_quoted(r, rest);
        let u = doubled(r) + seq!['\''] + rest;
        assert(seq![q[0]] + r =~= q);
        if q[0] == '\'' {
            let h = seq!['\'', '\''];
            assert(s =~= h + u);
            assert(s[0] == '\'' && s[1] == '\'');
            lemma_quoted_shift(h, u, 0);
        } else {
            let h = seq![q[0]];
            assert(s =~= h + u);
            assert(s[0] == q[0]);
            lemma_quoted_shift(h, u, 0);
        }
    }
}

/// A string that is not closed is an error.
pub proof fn law_strings_are_closed(q: Text, n: NumeralsView)
    requires
        !q.contains('\''),
    ensures
        tokens(seq!['\''] + q, n) == Err::<Seq<TokView>, Fault>(Fault::UnterminatedString),
{
    let w = seq!['\''] + q;
    assert(w[0] == '\'');
    lemma_open(q, 0);
    lemma_quoted_shift(seq!['\''], q, 0);
}

proof fn lemma_open(q: Text, i: int)
    requires
        !q.contains('\''),
        0 <= i,
    ensures
        quoted_at(q, i) is None,
    decreases q.len() - i,
{
    if i < q.len() {
        assert(q[i] != '\'');
        lemma_open(q, i + 1);
    }
}

/// Whether a text goes on with a character of a number.
pub open spec fn continues_number(s: Text) -> bool {
    s.len() > 0 && ('0' <= s[0] <= '9' || s[0] == '.' || s[0] == 'e' || s[0] == 'E' || s[0] == '+'
        || s[0] == '-' || s[0] == 'x' || s[0] == 'X')
}

/// A run of digits is a number, read as a whole; so is one behind a minus sign.
pub proof fn law_digits_are_numbers(ds: Text, rest: Text, n: NumeralsView)
    requires
        ds.len() > 0,
        forall|i: int| 0 <= i < ds.len() ==> '0' <= #[trigger] ds[i] <= '9',
        !continues_number(rest),
    ensures
        literal_value(ds, n) matches Ok(Some(d)) ==> tokens(ds + rest, n) == ahead(
            Ok::<TokView, Fault>(TokView::Number(d)),
            tokens(rest, n),
        ),
        literal_value(seq!['-'] + ds, n) matches Ok(Some(d)) ==> tokens(
            seq!['-'] + ds + rest,
            n,
        ) == ahead(Ok::<TokView, Fault>(TokView::Number(d)), tokens(rest, n)),
        literal_value(ds, n) == Ok::<Option<Double>, NeedView>(None) ==> tokens(ds + rest, n)
            == Err::<Seq<TokView>, Fault>(Fault::BadNumber(ds)),
{
    let s = ds + rest;
    assert(s[0] == ds[0]);
    lemma_digits_end(Seq::empty(), ds, rest, 0);
    assert(Seq::<char>::empty() + ds + rest =~= s);
    if s.len() > 1 {
        if ds.len() > 1 {
            assert(s[1] == ds[1]);
        } else {
            assert(s[1] == rest[0]);
        }
    }
    assert(literal_end(s, 0) == ds.len());
    assert(s.subrange(0, ds.len() as int) =~= ds);
    if let Ok(Some(d)) = literal_value(ds, n) {
        lemma_first_token(ds, rest, TokView::Number(d), n);
    }
    let t = seq!['-'] + ds;
    let w = t + rest;
    assert(w[0] == '-' && w[1] == ds[0]);
    assert(digit_at(w, 1));
    lemma_digits_end(seq!['-'], ds, rest, 0);
    if w.len() > 2 {
        if ds.len() > 1 {
            assert(w[2] == ds[1]);
        } else {
            assert(w[2] == rest[0]);
        }
    }
    assert(literal_end(w, 0) == t.len());
    assert(w.subrange(0, t.len() as int) =~= t);
    if let Ok(Some(d)) = literal_value(t, n) {
        lemma_first_token(t, rest, TokView::Number(d), n);
    }
}

proof fn lemma_digits_end(a: Text, ds: Text, rest: Text, i: int)
    requires
        forall|j: int| 0 <= j < ds.len() ==> '0' <= #[trigger] ds[j] <= '9',
        !continues_number(rest),
        0 <= i <= ds.len(),
    ensures
        literal_run(a + ds + rest, a.len() + i) == a.len() + ds.len(),
    decreases ds.len() - i,
{
    let s = a + ds + rest;
    if i < ds.len() {
        assert(s[a.len() + i] == ds[i]);
        lemma_digits_end(a, ds, rest, i + 1);
    } else if rest.len() > 0 {
        assert(s[a.len() + i] == rest[0]);
    }
}

/// A number that begins with `0x` is hexadecimal.
pub proof fn law_hexadecimal_numbers(h: Text, n: NumeralsView)
    ensures
        literal_value(seq!['0', 'x'] + h, n) == Ok::<Option<Double>, NeedView>(
            match crate::numtext::signed_value(h, 16) {
                Some(i) => Some(crate::double::int_double(i)),
                None => None,
            },
        ),
        literal_value(seq!['0', 'X'] + h, n) == literal_value(seq!['0', 'x'] + h, n),
{
    reveal_strlit("0x");
    reveal_strlit("0X");
    assert("0x"@ =~= seq!['0', 'x']);
    assert("0X"@ =~= seq!['0', 'X']);
    crate::text::law_prefixes_and_suffixes(h, "0x"@);
    crate::text::law_prefixes_and_suffixes(h, "0X"@);
    let w = seq!['0', 'X'] + h;
    if crate::text::begins(w, "0x"@) {
        assert(w.subrange(0, 2)[1] == 'x');
    }
}

} // verus!
