//! What can go wrong with an expression.

use crate::expr::lex::{Sym, Tok, TokView};
use crate::numeral::{
    format_literal, literal_text, text_result, Need, NeedView, Numerals, NumeralsView,
};
use crate::numtext::{decimal, usize_text};
use crate::text::{concat2, concat3, concat5, Text};
use vstd::prelude::*;

verus! {

/// Why an expression has no value.
#[derive(Debug)]
pub enum ExprError {
    /// A conversion between text and a number is missing; supply it and try
    /// again.
    Need(Need),
    /// No token starts with this character.
    UnexpectedChar(char),
    /// A string literal has no closing quote.
    UnterminatedString,
    /// A number literal is malformed.
    BadNumber(String),
    /// The expression nests deeper than the limit.
    TooDeep,
    /// The expression ends before this token.
    Trailing(Tok),
    /// A property name was expected.
    NoProperty(Option<Tok>),
    /// An index is not closed.
    NoBracket,
    /// A group is not closed.
    NoParen,
    /// A value was expected.
    NoValue(Option<Tok>),
    /// Function arguments are not separated or closed.
    BadArgs,
    /// An object filter.
    Filter,
    /// `join` with this number of arguments.
    JoinArgs(usize),
    /// A function with the wrong number of arguments.
    ArgCount {
        /// The function, as it was written.
        name: String,
        /// How many it takes.
        expected: usize,
        /// How many it was given.
        got: usize,
    },
    /// `fromJSON` on something else.
    BadJson(String),
    /// `hashFiles`.
    HashFiles,
    /// No such function.
    UnknownFunction(String),
    /// `format` without arguments.
    FormatArgs,
    /// `format` with a malformed placeholder.
    FormatMalformed(String),
    /// `format` with a placeholder that no argument fills.
    FormatMissing(String),
    /// `format` with a lone closing brace.
    FormatBrace(String),
    /// A template with an expression that is not closed.
    Unterminated,
}

/// [`ExprError`] over views.
#[verifier::ext_equal]
pub enum Fault {
    /// A conversion between text and a number is missing.
    Need(NeedView),
    /// No token starts with this character.
    UnexpectedChar(char),
    /// A string literal has no closing quote.
    UnterminatedString,
    /// A number literal is malformed.
    BadNumber(Text),
    /// The expression nests deeper than the limit.
    TooDeep,
    /// The expression ends before this token.
    Trailing(TokView),
    /// A property name was expected.
    NoProperty(Option<TokView>),
    /// An index is not closed.
    NoBracket,
    /// A group is not closed.
    NoParen,
    /// A value was expected.
    NoValue(Option<TokView>),
    /// Function arguments are not separated or closed.
    BadArgs,
    /// An object filter.
    Filter,
    /// `join` with this number of arguments.
    JoinArgs(nat),
    /// A function with the wrong number of arguments.
    ArgCount(Text, nat, nat),
    /// `fromJSON` on something else.
    BadJson(Text),
    /// `hashFiles`.
    HashFiles,
    /// No such function.
    UnknownFunction(Text),
    /// `format` without arguments.
    FormatArgs,
    /// `format` with a malformed placeholder.
    FormatMalformed(Text),
    /// `format` with a placeholder that no argument fills.
    FormatMissing(Text),
    /// `format` with a lone closing brace.
    FormatBrace(Text),
    /// A template with an expression that is not closed.
    Unterminated,
}

/// An optional token over views.
pub open spec fn opt_tok(t: Option<Tok>) -> Option<TokView> {
    match t {
        Some(x) => Some(x@),
        None => None,
    }
}

impl View for ExprError {
    type V = Fault;

    open spec fn view(&self) -> Fault {
        match *self {
            ExprError::Need(n) => Fault::Need(n@),
            ExprError::UnexpectedChar(c) => Fault::UnexpectedChar(c),
            ExprError::UnterminatedString => Fault::UnterminatedString,
            ExprError::BadNumber(t) => Fault::BadNumber(t@),
            ExprError::TooDeep => Fault::TooDeep,
            ExprError::Trailing(t) => Fault::Trailing(t@),
            ExprError::NoProperty(t) => Fault::NoProperty(opt_tok(t)),
            ExprError::NoBracket => Fault::NoBracket,
            ExprError::NoParen => Fault::NoParen,
            ExprError::NoValue(t) => Fault::NoValue(opt_tok(t)),
            ExprError::BadArgs => Fault::BadArgs,
            ExprError::Filter => Fault::Filter,
            ExprError::JoinArgs(n) => Fault::JoinArgs(n as nat),
            ExprError::ArgCount { name, expected, got } => Fault::ArgCount(
                name@,
                expected as nat,
                got as nat,
            ),
            ExprError::BadJson(t) => Fault::BadJson(t@),
            ExprError::HashFiles => Fault::HashFiles,
            ExprError::UnknownFunction(t) => Fault::UnknownFunction(t@),
            ExprError::FormatArgs => Fault::FormatArgs,
            ExprError::FormatMalformed(t) => Fault::FormatMalformed(t@),
            ExprError::FormatMissing(t) => Fault::FormatMissing(t@),
            ExprError::FormatBrace(t) => Fault::FormatBrace(t@),
            ExprError::Unterminated => Fault::Unterminated,
        }
    }
}

/// A text between double quotes, with what needs it escaped.
pub uninterp spec fn debug_text(s: Text) -> Text;

/// `std`'s `Debug` form of a string: what it is depends on the string alone.
#[verifier::external_body]
fn quoted(s: &str) -> (r: String)
    ensures
        r@ == debug_text(s@),
{
    format!("{s:?}")
}

/// The name of a fixed token.
pub open spec fn sym_name(s: Sym) -> Text {
    match s {
        Sym::True => "True"@,
        Sym::False => "False"@,
        Sym::Null => "Null"@,
        Sym::Not => "Not"@,
        Sym::And => "And"@,
        Sym::Or => "Or"@,
        Sym::Eq => "Eq"@,
        Sym::Ne => "Ne"@,
        Sym::Lt => "Lt"@,
        Sym::Le => "Le"@,
        Sym::Gt => "Gt"@,
        Sym::Ge => "Ge"@,
        Sym::Dot => "Dot"@,
        Sym::Comma => "Comma"@,
        Sym::Star => "Star"@,
        Sym::LParen => "LParen"@,
        Sym::RParen => "RParen"@,
        Sym::LBracket => "LBracket"@,
        Sym::RBracket => "RBracket"@,
    }
}

/// Something with a name in it.
pub open spec fn around(before: Text, name: Result<Text, NeedView>, after: Text) -> Result<
    Text,
    NeedView,
> {
    match name {
        Ok(t) => Ok(before + t + after),
        Err(e) => Err(e),
    }
}

/// A token as an error names it, or the conversion that is missing for that.
pub open spec fn tok_name(t: TokView, n: NumeralsView) -> Result<Text, NeedView> {
    match t {
        TokView::Number(d) => around("Number("@, literal_text(d, n), ")"@),
        TokView::Str(s) => Ok("Str("@ + debug_text(s) + ")"@),
        TokView::Ident(s) => Ok("Ident("@ + debug_text(s) + ")"@),
        TokView::Sym(s) => Ok(sym_name(s)),
    }
}

/// A token, or its absence, as an error names it.
pub open spec fn opt_tok_name(t: Option<TokView>, n: NumeralsView) -> Result<Text, NeedView> {
    match t {
        Some(x) => around("Some("@, tok_name(x, n), ")"@),
        None => Ok("None"@),
    }
}

/// The message of an error, or the conversion that is missing for it: a number in
/// it is named as a floating-point literal.
pub open spec fn fault_message(f: Fault, n: NumeralsView) -> Result<Text, NeedView> {
    match f {
        Fault::Trailing(t) => around(
            "unexpected trailing tokens in expression (near "@,
            tok_name(t, n),
            ")"@,
        ),
        Fault::NoProperty(t) => around(
            "expected a property name after `.`, found "@,
            opt_tok_name(t, n),
            Seq::empty(),
        ),
        Fault::NoValue(t) => around(
            "expected a value in expression, found "@,
            opt_tok_name(t, n),
            Seq::empty(),
        ),
        _ => Ok(plain_message(f)),
    }
}

/// The message of an error that names no token.
pub open spec fn plain_message(f: Fault) -> Text {
    match f {
        Fault::Need(NeedView::Reading(t)) => "the value of the number `"@ + t + "` is not known"@,
        Fault::Need(NeedView::Showing(_)) => "the decimal form of a number is not known"@,
        Fault::UnexpectedChar(c) => "unexpected character `"@ + seq![c] + "` in expression"@,
        Fault::UnterminatedString => "unterminated string literal in expression"@,
        Fault::BadNumber(t) => "invalid number literal `"@ + t + "` in expression"@,
        Fault::TooDeep => "expression nested too deeply (limit 128)"@,
        Fault::NoBracket => "expected `]` to close an index expression"@,
        Fault::NoParen => "expected `)` to close a grouped expression"@,
        Fault::BadArgs => "expected `,` or `)` in function arguments"@,
        Fault::Filter => "object filter expressions (`.*`) are not supported yet"@,
        Fault::JoinArgs(n) => "join expects 1 or 2 arguments, got "@ + decimal(n),
        Fault::ArgCount(name, expected, got) => name + " expects "@ + decimal(expected)
            + " argument(s), got "@ + decimal(got),
        Fault::BadJson(t) => "fromJSON: invalid JSON: "@ + t,
        Fault::HashFiles => "hashFiles() is not supported yet (arrives with the executor)"@,
        Fault::UnknownFunction(t) => "unknown function `"@ + t + "`"@,
        Fault::FormatArgs => "format expects at least 1 argument"@,
        Fault::FormatMalformed(t) => "format: malformed placeholder in `"@ + t + "`"@,
        Fault::FormatMissing(t) => "format: argument {"@ + t + "} was not supplied"@,
        Fault::FormatBrace(t) => "format: unescaped `}` in `"@ + t + "` (use `}}`)"@,
        Fault::Unterminated => "unterminated `${{` expression"@,
        _ => Seq::empty(),
    }
}

/// The name of a fixed token.
fn sym_text(s: Sym) -> (r: String)
    ensures
        r@ == sym_name(s),
{
    let t = match s {
        Sym::True => "True",
        Sym::False => "False",
        Sym::Null => "Null",
        Sym::Not => "Not",
        Sym::And => "And",
        Sym::Or => "Or",
        Sym::Eq => "Eq",
        Sym::Ne => "Ne",
        Sym::Lt => "Lt",
        Sym::Le => "Le",
        Sym::Gt => "Gt",
        Sym::Ge => "Ge",
        Sym::Dot => "Dot",
        Sym::Comma => "Comma",
        Sym::Star => "Star",
        Sym::LParen => "LParen",
        Sym::RParen => "RParen",
        Sym::LBracket => "LBracket",
        Sym::RBracket => "RBracket",
    };
    t.to_owned()
}

/// Put a name into a text.
fn put_around(before: &str, name: Result<String, Need>, after: &str) -> (r: Result<String, Need>)
    ensures
        text_result(r) == around(before@, text_result(name), after@),
{
    match name {
        Ok(t) => Ok(concat3(before, t.as_str(), after)),
        Err(e) => Err(e),
    }
}

/// A token as an error names it.
fn tok_text(t: &Tok, n: &Numerals) -> (r: Result<String, Need>)
    ensures
        text_result(r) == tok_name(t@, n@),
{
    match t {
        Tok::Number(d) => put_around("Number(", format_literal(*d, n), ")"),
        Tok::Str(s) => Ok(concat3("Str(", quoted(s.as_str()).as_str(), ")")),
        Tok::Ident(s) => Ok(concat3("Ident(", quoted(s.as_str()).as_str(), ")")),
        Tok::Sym(s) => Ok(sym_text(*s)),
    }
}

/// A token, or its absence, as an error names it.
fn opt_tok_text(t: &Option<Tok>, n: &Numerals) -> (r: Result<String, Need>)
    ensures
        text_result(r) == opt_tok_name(opt_tok(*t), n@),
{
    match t {
        Some(x) => put_around("Some(", tok_text(x, n), ")"),
        None => Ok("None".to_owned()),
    }
}

impl ExprError {
    /// The message of the error.
    pub fn message(&self, n: &Numerals) -> (r: Result<String, Need>)
        ensures
            text_result(r) == fault_message(self@, n@),
    {
        proof {
            assert(""@ =~= Seq::empty()) by {
                reveal_strlit("");
            }
        }
        match self {
            ExprError::Trailing(t) => put_around(
                "unexpected trailing tokens in expression (near ",
                tok_text(t, n),
                ")",
            ),
            ExprError::NoProperty(t) => put_around(
                "expected a property name after `.`, found ",
                opt_tok_text(t, n),
                "",
            ),
            ExprError::NoValue(t) => put_around(
                "expected a value in expression, found ",
                opt_tok_text(t, n),
                "",
            ),
            _ => Ok(self.plain()),
        }
    }

    /// The message of an error that names no token.
    fn plain(&self) -> (r: String)
        requires
            !(self is Trailing || self is NoProperty || self is NoValue),
        ensures
            r@ == plain_message(self@),
    {
        match self {
            ExprError::Need(Need::Reading(t)) => concat3(
                "the value of the number `",
                t.as_str(),
                "` is not known",
            ),
            ExprError::Need(Need::Showing(_)) => {
                "the decimal form of a number is not known".to_owned()
            },
            ExprError::UnexpectedChar(c) => {
                let mut m = "unexpected character `".to_owned();
                m.push(*c);
                m.append("` in expression");
                assert(m@ =~= "unexpected character `"@ + seq![*c] + "` in expression"@);
                m
            },
            ExprError::UnterminatedString => "unterminated string literal in expression".to_owned(),
            ExprError::BadNumber(t) => concat3(
                "invalid number literal `",
                t.as_str(),
                "` in expression",
            ),
            ExprError::TooDeep => "expression nested too deeply (limit 128)".to_owned(),
            ExprError::NoBracket => "expected `]` to close an index expression".to_owned(),
            ExprError::NoParen => "expected `)` to close a grouped expression".to_owned(),
            ExprError::BadArgs => "expected `,` or `)` in function arguments".to_owned(),
            ExprError::Filter => {
                "object filter expressions (`.*`) are not supported yet".to_owned()
            },
            ExprError::JoinArgs(n) => concat2(
                "join expects 1 or 2 arguments, got ",
                usize_text(*n).as_str(),
            ),
            ExprError::ArgCount { name, expected, got } => concat5(
                name.as_str(),
                " expects ",
                usize_text(*expected).as_str(),
                " argument(s), got ",
                usize_text(*got).as_str(),
            ),
            ExprError::BadJson(t) => concat2("fromJSON: invalid JSON: ", t.as_str()),
            ExprError::HashFiles => {
                "hashFiles() is not supported yet (arrives with the executor)".to_owned()
            },
            ExprError::UnknownFunction(t) => concat3("unknown function `", t.as_str(), "`"),
            ExprError::FormatArgs => "format expects at least 1 argument".to_owned(),
            ExprError::FormatMalformed(t) => concat3(
                "format: malformed placeholder in `",
                t.as_str(),
                "`",
            ),
            ExprError::FormatMissing(t) => concat3(
                "format: argument {",
                t.as_str(),
                "} was not supplied",
            ),
            ExprError::FormatBrace(t) => concat3(
                "format: unescaped `}` in `",
                t.as_str(),
                "` (use `}}`)",
            ),
            ExprError::Unterminated => "unterminated `${{` expression".to_owned(),
            _ => {
                let e = String::new();
                assert(e@ =~= Seq::empty());
                e
            },
        }
    }
}

/// What each fault of an expression says, with what it is about.
pub proof fn law_what_faults_say(
    t: TokView,
    c: char,
    s: Text,
    want: nat,
    got: nat,
    n: NumeralsView,
)
    ensures
        tok_name(t, n) matches Ok(x) ==> fault_message(Fault::Trailing(t), n) == Ok::<
            Text,
            NeedView,
        >("unexpected trailing tokens in expression (near "@ + x + ")"@),
        tok_name(t, n) matches Ok(x) ==> fault_message(Fault::NoValue(Some(t)), n) == Ok::<
            Text,
            NeedView,
        >("expected a value in expression, found "@ + ("Some("@ + x + ")"@)),
        tok_name(t, n) matches Ok(x) ==> fault_message(Fault::NoProperty(Some(t)), n) == Ok::<
            Text,
            NeedView,
        >("expected a property name after `.`, found "@ + ("Some("@ + x + ")"@)),
        fault_message(Fault::NoValue(None), n) == Ok::<Text, NeedView>(
            "expected a value in expression, found "@ + "None"@,
        ),
        fault_message(Fault::NoProperty(None), n) == Ok::<Text, NeedView>(
            "expected a property name after `.`, found "@ + "None"@,
        ),
        fault_message(Fault::UnexpectedChar(c), n) == Ok::<Text, NeedView>(
            "unexpected character `"@ + seq![c] + "` in expression"@,
        ),
        fault_message(Fault::UnterminatedString, n) == Ok::<Text, NeedView>(
            "unterminated string literal in expression"@,
        ),
        fault_message(Fault::BadNumber(s), n) == Ok::<Text, NeedView>(
            "invalid number literal `"@ + s + "` in expression"@,
        ),
        fault_message(Fault::TooDeep, n) == Ok::<Text, NeedView>(
            "expression nested too deeply (limit 128)"@,
        ),
        fault_message(Fault::NoBracket, n) == Ok::<Text, NeedView>(
            "expected `]` to close an index expression"@,
        ),
        fault_message(Fault::NoParen, n) == Ok::<Text, NeedView>(
            "expected `)` to close a grouped expression"@,
        ),
        fault_message(Fault::BadArgs, n) == Ok::<Text, NeedView>(
            "expected `,` or `)` in function arguments"@,
        ),
        fault_message(Fault::JoinArgs(got), n) == Ok::<Text, NeedView>(
            "join expects 1 or 2 arguments, got "@ + decimal(got),
        ),
        fault_message(Fault::ArgCount(s, want, got), n) == Ok::<Text, NeedView>(
            s + " expects "@ + decimal(want) + " argument(s), got "@ + decimal(got),
        ),
        fault_message(Fault::BadJson(s), n) == Ok::<Text, NeedView>(
            "fromJSON: invalid JSON: "@ + s,
        ),
        fault_message(Fault::UnknownFunction(s), n) == Ok::<Text, NeedView>(
            "unknown function `"@ + s + "`"@,
        ),
        fault_message(Fault::FormatArgs, n) == Ok::<Text, NeedView>(
            "format expects at least 1 argument"@,
        ),
        fault_message(Fault::FormatMalformed(s), n) == Ok::<Text, NeedView>(
            "format: malformed placeholder in `"@ + s + "`"@,
        ),
        fault_message(Fault::FormatMissing(s), n) == Ok::<Text, NeedView>(
            "format: argument {"@ + s + "} was not supplied"@,
        ),
        fault_message(Fault::FormatBrace(s), n) == Ok::<Text, NeedView>(
            "format: unescaped `}` in `"@ + s + "` (use `}}`)"@,
        ),
        fault_message(Fault::Unterminated, n) == Ok::<Text, NeedView>(
            "unterminated `${{` expression"@,
        ),
        fault_message(Fault::Filter, n) == Ok::<Text, NeedView>(
            "object filter expressions (`.*`) are not supported yet"@,
        ),
        fault_message(Fault::HashFiles, n) == Ok::<Text, NeedView>(
            "hashFiles() is not supported yet (arrives with the executor)"@,
        ),
{
    let e = Seq::<char>::empty();
    let v = "expected a value in expression, found "@;
    let p = "expected a property name after `.`, found "@;
    assert(v + "None"@ + e =~= v + "None"@);
    assert(p + "None"@ + e =~= p + "None"@);
    if let Ok(x) = tok_name(t, n) {
        let w = "Some("@ + x + ")"@;
        assert(v + w + e =~= v + w);
        assert(p + w + e =~= p + w);
    }
}

/// What each token is called.
pub proof fn law_what_tokens_are_called(s: Text, d: crate::double::Double, n: NumeralsView)
    ensures
        tok_name(TokView::Str(s), n) == Ok::<Text, NeedView>("Str("@ + debug_text(s) + ")"@),
        tok_name(TokView::Ident(s), n) == Ok::<Text, NeedView>("Ident("@ + debug_text(s) + ")"@),
        literal_text(d, n) matches Ok(x) ==> tok_name(TokView::Number(d), n) == Ok::<
            Text,
            NeedView,
        >("Number("@ + x + ")"@),
        tok_name(TokView::Sym(Sym::True), n) == Ok::<Text, NeedView>("True"@),
        tok_name(TokView::Sym(Sym::False), n) == Ok::<Text, NeedView>("False"@),
        tok_name(TokView::Sym(Sym::Null), n) == Ok::<Text, NeedView>("Null"@),
        tok_name(TokView::Sym(Sym::Not), n) == Ok::<Text, NeedView>("Not"@),
        tok_name(TokView::Sym(Sym::And), n) == Ok::<Text, NeedView>("And"@),
        tok_name(TokView::Sym(Sym::Or), n) == Ok::<Text, NeedView>("Or"@),
        tok_name(TokView::Sym(Sym::Eq), n) == Ok::<Text, NeedView>("Eq"@),
        tok_name(TokView::Sym(Sym::Ne), n) == Ok::<Text, NeedView>("Ne"@),
        tok_name(TokView::Sym(Sym::Lt), n) == Ok::<Text, NeedView>("Lt"@),
        tok_name(TokView::Sym(Sym::Le), n) == Ok::<Text, NeedView>("Le"@),
        tok_name(TokView::Sym(Sym::Gt), n) == Ok::<Text, NeedView>("Gt"@),
        tok_name(TokView::Sym(Sym::Ge), n) == Ok::<Text, NeedView>("Ge"@),
        tok_name(TokView::Sym(Sym::Dot), n) == Ok::<Text, NeedView>("Dot"@),
        tok_name(TokView::Sym(Sym::Comma), n) == Ok::<Text, NeedView>("Comma"@),
        tok_name(TokView::Sym(Sym::Star), n) == Ok::<Text, NeedView>("Star"@),
        tok_name(TokView::Sym(Sym::LParen), n) == Ok::<Text, NeedView>("LParen"@),
        tok_name(TokView::Sym(Sym::RParen), n) == Ok::<Text, NeedView>("RParen"@),
        tok_name(TokView::Sym(Sym::LBracket), n) == Ok::<Text, NeedView>("LBracket"@),
        tok_name(TokView::Sym(Sym::RBracket), n) == Ok::<Text, NeedView>("RBracket"@),
{
}

} // verus!
