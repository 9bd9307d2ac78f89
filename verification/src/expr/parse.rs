//! From tokens to a syntax tree, by recursive descent.

use crate::double::Double;
use crate::expr::error::{opt_tok, ExprError, Fault};
use crate::expr::lex::{toks, Sym, Tok, TokView};
use crate::text::Text;
use vstd::prelude::*;

verus! {

/// How deep expressions may nest, so that pathological input (deeply nested
/// parentheses or `!` chains) is an error rather than a stack overflow.
pub const MAX_DEPTH: usize = 128;

/// A binary operator.
#[derive(Clone, Copy, Debug, PartialEq, Eq, Structural)]
pub enum BinOp {
    /// `&&`
    And,
    /// `||`
    Or,
    /// `==`
    Eq,
    /// `!=`
    Ne,
    /// `<`
    Lt,
    /// `<=`
    Le,
    /// `>`
    Gt,
    /// `>=`
    Ge,
}

/// A syntax tree.
#[derive(Debug)]
pub enum Ast {
    /// `null`
    Null,
    /// `true` or `false`
    Bool(bool),
    /// A number.
    Number(Double),
    /// A string.
    Str(String),
    /// A context by its name.
    Ident(String),
    /// `a.b`
    Property(Box<Ast>, String),
    /// `a[b]`
    Index(Box<Ast>, Box<Ast>),
    /// `a.*`
    Star(Box<Ast>),
    /// `f(a, b)`
    Call(String, Vec<Ast>),
    /// `!a`
    Not(Box<Ast>),
    /// `a && b` and the like
    Binary(BinOp, Box<Ast>, Box<Ast>),
}

/// A syntax tree over views.
#[verifier::ext_equal]
pub enum AstView {
    /// `null`
    Null,
    /// `true` or `false`
    Bool(bool),
    /// A number.
    Number(Double),
    /// A string.
    Str(Text),
    /// A context by its name.
    Ident(Text),
    /// `a.b`
    Property(Box<AstView>, Text),
    /// `a[b]`
    Index(Box<AstView>, Box<AstView>),
    /// `a.*`
    Star(Box<AstView>),
    /// `f(a, b)`
    Call(Text, Seq<AstView>),
    /// `!a`
    Not(Box<AstView>),
    /// `a && b` and the like
    Binary(BinOp, Box<AstView>, Box<AstView>),
}

/// The view of a syntax tree.
pub open spec fn ast_view(a: Ast) -> AstView
    decreases a,
{
    match a {
        Ast::Null => AstView::Null,
        Ast::Bool(b) => AstView::Bool(b),
        Ast::Number(d) => AstView::Number(d),
        Ast::Str(s) => AstView::Str(s@),
        Ast::Ident(s) => AstView::Ident(s@),
        Ast::Property(x, s) => AstView::Property(Box::new(ast_view(*x)), s@),
        Ast::Index(x, y) => AstView::Index(Box::new(ast_view(*x)), Box::new(ast_view(*y))),
        Ast::Star(x) => AstView::Star(Box::new(ast_view(*x))),
        Ast::Call(s, args) => AstView::Call(
            s@,
            Seq::new(
                args@.len(),
                |i: int|
                    if 0 <= i < args@.len() {
                        ast_view(args@[i])
                    } else {
                        arbitrary()
                    },
            ),
        ),
        Ast::Not(x) => AstView::Not(Box::new(ast_view(*x))),
        Ast::Binary(op, x, y) => AstView::Binary(
            op,
            Box::new(ast_view(*x)),
            Box::new(ast_view(*y)),
        ),
    }
}

impl View for Ast {
    type V = AstView;

    open spec fn view(&self) -> AstView {
        ast_view(*self)
    }
}

/// Syntax trees over views.
pub open spec fn asts(v: Seq<Ast>) -> Seq<AstView> {
    v.map_values(|a: Ast| a@)
}

/// A call's arguments by their views.
pub proof fn lemma_call_view(a: Ast)
    ensures
        a matches Ast::Call(s, args) ==> a@ == AstView::Call(s@, asts(args@)),
{
    match a {
        Ast::Call(s, args) => {
            assert(a@->Call_1 =~= asts(args@));
        },
        _ => {},
    }
}

// ---------------------------------------------------------------------------
// The grammar
// ---------------------------------------------------------------------------

/// What parsing at a position gives: a tree and where it ends, or a fault.
pub type Parsed = Result<(AstView, int), Fault>;

/// The token at a position.
pub open spec fn tok_at(ts: Seq<TokView>, i: int) -> Option<TokView> {
    if 0 <= i < ts.len() {
        Some(ts[i])
    } else {
        None
    }
}

/// A fixed token stands at a position.
pub open spec fn sym_at(ts: Seq<TokView>, i: int, s: Sym) -> bool {
    tok_at(ts, i) == Some(TokView::Sym(s))
}

/// The operator at a position, where it binds at the given level: `||` at 0,
/// `&&` at 1, equality at 2, relations at 3.
pub open spec fn op_at(ts: Seq<TokView>, i: int, lv: int) -> Option<BinOp> {
    match tok_at(ts, i) {
        Some(TokView::Sym(s)) => op_of(s, lv),
        _ => None,
    }
}

/// The operator that a fixed token is at a level.
pub open spec fn op_of(s: Sym, lv: int) -> Option<BinOp> {
    if lv == 0 {
        if s == Sym::Or {
            Some(BinOp::Or)
        } else {
            None
        }
    } else if lv == 1 {
        if s == Sym::And {
            Some(BinOp::And)
        } else {
            None
        }
    } else if lv == 2 {
        match s {
            Sym::Eq => Some(BinOp::Eq),
            Sym::Ne => Some(BinOp::Ne),
            _ => None,
        }
    } else {
        match s {
            Sym::Lt => Some(BinOp::Lt),
            Sym::Le => Some(BinOp::Le),
            Sym::Gt => Some(BinOp::Gt),
            Sym::Ge => Some(BinOp::Ge),
            _ => None,
        }
    }
}

/// An expression at nesting depth `d`.
pub open spec fn p_expr(ts: Seq<TokView>, i: int, d: int) -> Parsed
    decreases ts.len() - i, 20int,
{
    if !(0 <= i <= ts.len()) {
        Err(Fault::NoValue(None))
    } else if d + 1 > MAX_DEPTH {
        Err(Fault::TooDeep)
    } else {
        p_level(ts, i, d + 1, 0)
    }
}

/// Operands of one level of binding, joined by its operators from the left.
pub open spec fn p_level(ts: Seq<TokView>, i: int, d: int, lv: int) -> Parsed
    decreases ts.len() - i, 10 - lv,
{
    if !(0 <= i <= ts.len() && 0 <= lv <= 3) {
        Err(Fault::NoValue(None))
    } else {
        let first = if lv < 3 {
            p_level(ts, i, d, lv + 1)
        } else {
            p_unary(ts, i, d)
        };
        match first {
            Err(f) => Err(f),
            Ok(p) => if i < p.1 <= ts.len() {
                p_chain(ts, p.1, d, lv, p.0)
            } else {
                Ok(p)
            },
        }
    }
}

/// What follows an operand at its level.
pub open spec fn p_chain(ts: Seq<TokView>, i: int, d: int, lv: int, left: AstView) -> Parsed
    decreases ts.len() - i, 0int,
{
    match op_at(ts, i, lv) {
        None => Ok((left, i)),
        Some(op) => {
            let right = if 0 <= lv < 3 {
                p_level(ts, i + 1, d, lv + 1)
            } else {
                p_unary(ts, i + 1, d)
            };
            match right {
                Err(f) => Err(f),
                Ok(p) => if i + 1 < p.1 <= ts.len() {
                    p_chain(ts, p.1, d, lv, AstView::Binary(op, Box::new(left), Box::new(p.0)))
                } else {
                    Ok(p)
                },
            }
        },
    }
}

/// Any number of `!` before a postfix expression.
pub open spec fn p_unary(ts: Seq<TokView>, i: int, d: int) -> Parsed
    decreases ts.len() - i, 5int,
{
    if sym_at(ts, i, Sym::Not) {
        if d + 1 > MAX_DEPTH {
            Err(Fault::TooDeep)
        } else {
            match p_unary(ts, i + 1, d + 1) {
                Err(f) => Err(f),
                Ok(p) => Ok((AstView::Not(Box::new(p.0)), p.1)),
            }
        }
    } else if !(0 <= i <= ts.len()) {
        Err(Fault::NoValue(None))
    } else {
        match p_primary(ts, i, d) {
            Err(f) => Err(f),
            Ok(p) => if i < p.1 <= ts.len() {
                p_suffix(ts, p.1, d, p.0)
            } else {
                Ok(p)
            },
        }
    }
}

/// Properties and indices behind a value.
pub open spec fn p_suffix(ts: Seq<TokView>, i: int, d: int, node: AstView) -> Parsed
    decreases ts.len() - i, 0int,
{
    if sym_at(ts, i, Sym::Dot) {
        match tok_at(ts, i + 1) {
            Some(TokView::Ident(name)) => p_suffix(
                ts,
                i + 2,
                d,
                AstView::Property(Box::new(node), name),
            ),
            Some(TokView::Sym(Sym::Star)) => p_suffix(ts, i + 2, d, AstView::Star(Box::new(node))),
            other => Err(Fault::NoProperty(other)),
        }
    } else if sym_at(ts, i, Sym::LBracket) {
        match p_expr(ts, i + 1, d) {
            Err(f) => Err(f),
            Ok(p) => if !sym_at(ts, p.1, Sym::RBracket) {
                Err(Fault::NoBracket)
            } else if i < p.1 < ts.len() {
                p_suffix(ts, p.1 + 1, d, AstView::Index(Box::new(node), Box::new(p.0)))
            } else {
                Ok(p)
            },
        }
    } else {
        Ok((node, i))
    }
}

/// A literal, a name, a call or a group.
pub open spec fn p_primary(ts: Seq<TokView>, i: int, d: int) -> Parsed
    decreases ts.len() - i, 3int,
{
    match tok_at(ts, i) {
        Some(TokView::Number(n)) => Ok((AstView::Number(n), i + 1)),
        Some(TokView::Str(s)) => Ok((AstView::Str(s), i + 1)),
        Some(TokView::Sym(Sym::True)) => Ok((AstView::Bool(true), i + 1)),
        Some(TokView::Sym(Sym::False)) => Ok((AstView::Bool(false), i + 1)),
        Some(TokView::Sym(Sym::Null)) => Ok((AstView::Null, i + 1)),
        Some(TokView::Sym(Sym::Star)) => Ok((AstView::Ident("*"@), i + 1)),
        Some(TokView::Sym(Sym::LParen)) => match p_expr(ts, i + 1, d) {
            Err(f) => Err(f),
            Ok(p) => if sym_at(ts, p.1, Sym::RParen) {
                Ok((p.0, p.1 + 1))
            } else {
                Err(Fault::NoParen)
            },
        },
        Some(TokView::Ident(name)) => if sym_at(ts, i + 1, Sym::LParen) {
            if sym_at(ts, i + 2, Sym::RParen) {
                Ok((AstView::Call(name, Seq::empty()), i + 3))
            } else {
                match p_args(ts, i + 2, d) {
                    Err(f) => Err(f),
                    Ok(p) => Ok((AstView::Call(name, p.0), p.1)),
                }
            }
        } else {
            Ok((AstView::Ident(name), i + 1))
        },
        other => Err(Fault::NoValue(other)),
    }
}

/// One or more arguments and the parenthesis that closes them.
pub open spec fn p_args(ts: Seq<TokView>, i: int, d: int) -> Result<(Seq<AstView>, int), Fault>
    decreases ts.len() - i, 21int,
{
    if !(0 <= i <= ts.len()) {
        Err(Fault::NoValue(None))
    } else {
        match p_expr(ts, i, d) {
            Err(f) => Err(f),
            Ok(p) => if sym_at(ts, p.1, Sym::RParen) {
                Ok((seq![p.0], p.1 + 1))
            } else if !sym_at(ts, p.1, Sym::Comma) {
                Err(Fault::BadArgs)
            } else if i < p.1 < ts.len() {
                match p_args(ts, p.1 + 1, d) {
                    Err(f) => Err(f),
                    Ok(q) => Ok((seq![p.0] + q.0, q.1)),
                }
            } else {
                Err(Fault::BadArgs)
            },
        }
    }
}

/// The tree of a whole token list.
pub open spec fn parsed(ts: Seq<TokView>) -> Result<AstView, Fault> {
    match p_expr(ts, 0, 0) {
        Err(f) => Err(f),
        Ok(p) => match tok_at(ts, p.1) {
            Some(t) => Err(Fault::Trailing(t)),
            None => Ok(p.0),
        },
    }
}

// ---------------------------------------------------------------------------
// Parsing
// ---------------------------------------------------------------------------

/// A parse result over views.
pub open spec fn outcome(r: Result<(Ast, usize), ExprError>) -> Parsed {
    match r {
        Ok(p) => Ok((p.0@, p.1 as int)),
        Err(e) => Err(e@),
    }
}

/// A parse that succeeds moves on and stays within the tokens.
pub open spec fn moves(r: Result<(Ast, usize), ExprError>, i: int, len: int) -> bool {
    match r {
        Ok(p) => i < p.1 <= len,
        Err(_) => true,
    }
}

/// Whether a fixed token stands at a position.
fn is_sym(t: &Vec<Tok>, i: usize, s: Sym) -> (r: bool)
    ensures
        r == sym_at(toks(t@), i as int, s),
{
    if i < t.len() {
        match &t[i] {
            Tok::Sym(x) => *x == s,
            _ => false,
        }
    } else {
        false
    }
}

/// The operator at a position, where it binds at a level.
fn read_op(t: &Vec<Tok>, i: usize, lv: u8) -> (r: Option<BinOp>)
    ensures
        r == op_at(toks(t@), i as int, lv as int),
        r is Some ==> i < t@.len(),
{
    if i < t.len() {
        match &t[i] {
            Tok::Sym(s) => if lv == 0 {
                if *s == Sym::Or {
                    Some(BinOp::Or)
                } else {
                    None
                }
            } else if lv == 1 {
                if *s == Sym::And {
                    Some(BinOp::And)
                } else {
                    None
                }
            } else if lv == 2 {
                match s {
                    Sym::Eq => Some(BinOp::Eq),
                    Sym::Ne => Some(BinOp::Ne),
                    _ => None,
                }
            } else {
                match s {
                    Sym::Lt => Some(BinOp::Lt),
                    Sym::Le => Some(BinOp::Le),
                    Sym::Gt => Some(BinOp::Gt),
                    Sym::Ge => Some(BinOp::Ge),
                    _ => None,
                }
            },
            _ => None,
        }
    } else {
        None
    }
}

/// A copy of the token at a position.
fn tok_copy(t: &Vec<Tok>, i: usize) -> (r: Option<Tok>)
    ensures
        opt_tok(r) == tok_at(toks(t@), i as int),
{
    if i < t.len() {
        Some(t[i].copy())
    } else {
        None
    }
}

/// Parse an expression.
fn parse_expr(t: &Vec<Tok>, i: usize, d: usize) -> (r: Result<(Ast, usize), ExprError>)
    requires
        i <= t@.len(),
        d <= MAX_DEPTH,
    ensures
        outcome(r) == p_expr(toks(t@), i as int, d as int),
        moves(r, i as int, t@.len() as int),
    decreases t@.len() - i, 20int,
{
    if d + 1 > MAX_DEPTH {
        return Err(ExprError::TooDeep);
    }
    parse_level(t, i, d + 1, 0)
}

/// Parse operands of one level of binding.
fn parse_level(t: &Vec<Tok>, i: usize, d: usize, lv: u8) -> (r: Result<(Ast, usize), ExprError>)
    requires
        i <= t@.len(),
        d <= MAX_DEPTH,
        lv <= 3,
    ensures
        outcome(r) == p_level(toks(t@), i as int, d as int, lv as int),
        moves(r, i as int, t@.len() as int),
    decreases t@.len() - i, 10 - lv,
{
    let ghost ts = toks(t@);
    let total = t.len();
    let first = if lv < 3 {
        parse_level(t, i, d, lv + 1)
    } else {
        parse_unary(t, i, d)
    };
    let (mut left, mut j) = match first {
        Ok(p) => p,
        Err(e) => {
            return Err(e);
        },
    };
    loop
        invariant
            i < j <= t@.len(),
            total == t@.len(),
            d <= MAX_DEPTH,
            lv <= 3,
            ts == toks(t@),
            p_level(ts, i as int, d as int, lv as int) == p_chain(
                ts,
                j as int,
                d as int,
                lv as int,
                left@,
            ),
        decreases t@.len() - j,
    {
        match read_op(t, j, lv) {
            None => {
                return Ok((left, j));
            },
            Some(op) => {
                let right = if lv < 3 {
                    parse_level(t, j + 1, d, lv + 1)
                } else {
                    parse_unary(t, j + 1, d)
                };
                match right {
                    Err(e) => {
                        return Err(e);
                    },
                    Ok(p) => {
                        left = Ast::Binary(op, Box::new(left), Box::new(p.0));
                        j = p.1;
                    },
                }
            },
        }
    }
}

/// Parse any number of `!` before a postfix expression.
fn parse_unary(t: &Vec<Tok>, i: usize, d: usize) -> (r: Result<(Ast, usize), ExprError>)
    requires
        i <= t@.len(),
        d <= MAX_DEPTH,
    ensures
        outcome(r) == p_unary(toks(t@), i as int, d as int),
        moves(r, i as int, t@.len() as int),
    decreases t@.len() - i, 5int,
{
    let total = t.len();
    if i < total && is_sym(t, i, Sym::Not) {
        if d + 1 > MAX_DEPTH {
            return Err(ExprError::TooDeep);
        }
        return match parse_unary(t, i + 1, d + 1) {
            Ok(p) => Ok((Ast::Not(Box::new(p.0)), p.1)),
            Err(e) => Err(e),
        };
    }
    parse_postfix(t, i, d)
}

/// Parse a value with the properties and indices behind it.
fn parse_postfix(t: &Vec<Tok>, i: usize, d: usize) -> (r: Result<(Ast, usize), ExprError>)
    requires
        i <= t@.len(),
        d <= MAX_DEPTH,
        !sym_at(toks(t@), i as int, Sym::Not),
    ensures
        outcome(r) == p_unary(toks(t@), i as int, d as int),
        moves(r, i as int, t@.len() as int),
    decreases t@.len() - i, 4int,
{
    let ghost ts = toks(t@);
    let total = t.len();
    let (mut node, mut j) = match parse_primary(t, i, d) {
        Ok(p) => p,
        Err(e) => {
            return Err(e);
        },
    };
    loop
        invariant
            i < j <= t@.len(),
            total == t@.len(),
            d <= MAX_DEPTH,
            ts == toks(t@),
            p_unary(ts, i as int, d as int) == p_suffix(ts, j as int, d as int, node@),
        decreases t@.len() - j,
    {
        if is_sym(t, j, Sym::Dot) {
            if j + 1 >= total {
                return Err(ExprError::NoProperty(None));
            }
            match &t[j + 1] {
                Tok::Ident(name) => {
                    node = Ast::Property(Box::new(node), name.clone());
                },
                Tok::Sym(Sym::Star) => {
                    node = Ast::Star(Box::new(node));
                },
                _ => {
                    return Err(ExprError::NoProperty(tok_copy(t, j + 1)));
                },
            }
            j = j + 2;
        } else if is_sym(t, j, Sym::LBracket) {
            match parse_expr(t, j + 1, d) {
                Err(e) => {
                    return Err(e);
                },
                Ok(p) => {
                    if !is_sym(t, p.1, Sym::RBracket) {
                        return Err(ExprError::NoBracket);
                    }
                    node = Ast::Index(Box::new(node), Box::new(p.0));
                    j = p.1 + 1;
                },
            }
        } else {
            return Ok((node, j));
        }
    }
}

/// Parse a literal, a name, a call or a group.
fn parse_primary(t: &Vec<Tok>, i: usize, d: usize) -> (r: Result<(Ast, usize), ExprError>)
    requires
        i <= t@.len(),
        d <= MAX_DEPTH,
    ensures
        outcome(r) == p_primary(toks(t@), i as int, d as int),
        moves(r, i as int, t@.len() as int),
    decreases t@.len() - i, 3int,
{
    let total = t.len();
    if i >= total {
        return Err(ExprError::NoValue(None));
    }
    match &t[i] {
        Tok::Number(n) => Ok((Ast::Number(*n), i + 1)),
        Tok::Str(s) => Ok((Ast::Str(s.clone()), i + 1)),
        Tok::Sym(Sym::True) => Ok((Ast::Bool(true), i + 1)),
        Tok::Sym(Sym::False) => Ok((Ast::Bool(false), i + 1)),
        Tok::Sym(Sym::Null) => Ok((Ast::Null, i + 1)),
        Tok::Sym(Sym::Star) => Ok((Ast::Ident("*".to_owned()), i + 1)),
        Tok::Sym(Sym::LParen) => match parse_expr(t, i + 1, d) {
            Err(e) => Err(e),
            Ok(p) => if is_sym(t, p.1, Sym::RParen) {
                Ok((p.0, p.1 + 1))
            } else {
                Err(ExprError::NoParen)
            },
        },
        Tok::Ident(name) => if is_sym(t, i + 1, Sym::LParen) {
            if is_sym(t, i + 2, Sym::RParen) {
                let call = Ast::Call(name.clone(), Vec::new());
                proof {
                    lemma_call_view(call);
                    assert(asts(call->Call_1@) =~= Seq::empty());
                }
                Ok((call, i + 3))
            } else {
                match parse_args(t, i + 2, d) {
                    Err(e) => Err(e),
                    Ok(p) => {
                        let call = Ast::Call(name.clone(), p.0);
                        proof {
                            lemma_call_view(call);
                        }
                        Ok((call, p.1))
                    },
                }
            }
        } else {
            Ok((Ast::Ident(name.clone()), i + 1))
        },
        _ => Err(ExprError::NoValue(tok_copy(t, i))),
    }
}

/// Arguments that are done, put in front of a result.
pub open spec fn more_args(
    done: Seq<AstView>,
    r: Result<(Seq<AstView>, int), Fault>,
) -> Result<(Seq<AstView>, int), Fault> {
    match r {
        Err(f) => Err(f),
        Ok(p) => Ok((done + p.0, p.1)),
    }
}

/// Parse one or more arguments and the parenthesis that closes them.
fn parse_args(t: &Vec<Tok>, i: usize, d: usize) -> (r: Result<(Vec<Ast>, usize), ExprError>)
    requires
        i <= t@.len(),
        d <= MAX_DEPTH,
    ensures
        (match r {
            Ok(p) => Ok((asts(p.0@), p.1 as int)),
            Err(e) => Err(e@),
        }) == p_args(toks(t@), i as int, d as int),
        match r {
            Ok(p) => i < p.1 <= t@.len(),
            Err(_) => true,
        },
    decreases t@.len() - i, 21int,
{
    let ghost ts = toks(t@);
    let total = t.len();
    let mut args: Vec<Ast> = Vec::new();
    let mut j: usize = i;
    proof {
        assert(asts(args@) =~= Seq::empty());
        match p_args(ts, i as int, d as int) {
            Ok(p) => {
                assert(Seq::<AstView>::empty() + p.0 =~= p.0);
            },
            Err(_) => {},
        }
    }
    loop
        invariant
            i <= j <= t@.len(),
            total == t@.len(),
            d <= MAX_DEPTH,
            ts == toks(t@),
            p_args(ts, i as int, d as int) == more_args(
                asts(args@),
                p_args(ts, j as int, d as int),
            ),
        decreases t@.len() - j,
    {
        let ghost before = asts(args@);
        match parse_expr(t, j, d) {
            Err(e) => {
                return Err(e);
            },
            Ok(p) => {
                let ghost a = p.0@;
                args.push(p.0);
                assert(asts(args@) =~= before + seq![a]);
                if is_sym(t, p.1, Sym::RParen) {
                    return Ok((args, p.1 + 1));
                }
                if !is_sym(t, p.1, Sym::Comma) {
                    return Err(ExprError::BadArgs);
                }
                proof {
                    match p_args(ts, p.1 + 1, d as int) {
                        Ok(q) => {
                            assert(before + (seq![a] + q.0) =~= asts(args@) + q.0);
                        },
                        Err(_) => {},
                    }
                }
                j = p.1 + 1;
            },
        }
    }
}

/// Parse a whole token list.
pub fn parse(t: &Vec<Tok>) -> (r: Result<Ast, ExprError>)
    ensures
        (match r {
            Ok(a) => Ok(a@),
            Err(e) => Err(e@),
        }) == parsed(toks(t@)),
{
    match parse_expr(t, 0, 0) {
        Err(e) => Err(e),
        Ok(p) => match tok_copy(t, p.1) {
            Some(x) => Err(ExprError::Trailing(x)),
            None => Ok(p.0),
        },
    }
}

} // verus!
