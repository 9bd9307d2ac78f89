//! From expression text to tokens.

use crate::double::{from_int, int_double, Double};
use crate::expr::error::{ExprError, Fault};
use crate::numeral::{read_number, reading, NeedView, Numerals, NumeralsView};
use crate::numtext::{read_signed, signed_value};
use crate::results::{after_done, ahead};
use crate::text::{
    chars_of, is_alpha, is_ascii_alphabetic, is_ascii_digit, is_digit, is_space, is_whitespace,
    lowered, slice_text, str_eq, to_lower, Text,
};
use crate::value::{after_either, strip_either};
use vstd::prelude::*;

verus! {

/// A token that is always written alike.
#[derive(Clone, Copy, Debug, PartialEq, Eq, Structural)]
pub enum Sym {
    /// `true`
    True,
    /// `false`
    False,
    /// `null`
    Null,
    /// `!`
    Not,
    /// `&&`
    And,
    /// `||`
    Or,
    /// `==`
    Eq,
    /// `!=`
    Ne,
    /// `<`
    Lt,
    /// `<=`
    Le,
    /// `>`
    Gt,
    /// `>=`
    Ge,
    /// `.`
    Dot,
    /// `,`
    Comma,
    /// `*`
    Star,
    /// `(`
    LParen,
    /// `)`
    RParen,
    /// `[`
    LBracket,
    /// `]`
    RBracket,
}

/// A token.
#[derive(Debug)]
pub enum Tok {
    /// A number.
    Number(Double),
    /// A string, its quotes taken off.
    Str(String),
    /// A name.
    Ident(String),
    /// A fixed token.
    Sym(Sym),
}

/// A token over views.
#[verifier::ext_equal]
pub enum TokView {
    /// A number.
    Number(Double),
    /// A string.
    Str(Text),
    /// A name.
    Ident(Text),
    /// A fixed token.
    Sym(Sym),
}

impl View for Tok {
    type V = TokView;

    open spec fn view(&self) -> TokView {
        match *self {
            Tok::Number(d) => TokView::Number(d),
            Tok::Str(t) => TokView::Str(t@),
            Tok::Ident(t) => TokView::Ident(t@),
            Tok::Sym(s) => TokView::Sym(s),
        }
    }
}

/// Tokens over views.
pub open spec fn toks(v: Seq<Tok>) -> Seq<TokView> {
    v.map_values(|t: Tok| t@)
}

impl Tok {
    /// A copy.
    pub fn copy(&self) -> (r: Tok)
        ensures
            r@ == self@,
    {
        match self {
            Tok::Number(d) => Tok::Number(*d),
            Tok::Str(t) => Tok::Str(t.clone()),
            Tok::Ident(t) => Tok::Ident(t.clone()),
            Tok::Sym(s) => Tok::Sym(*s),
        }
    }
}

// ---------------------------------------------------------------------------
// What a token is
// ---------------------------------------------------------------------------

/// The character at a position.
pub open spec fn char_at(s: Text, i: int) -> Option<char> {
    if 0 <= i < s.len() {
        Some(s[i])
    } else {
        None
    }
}

/// A digit stands at a position.
pub open spec fn digit_at(s: Text, i: int) -> bool {
    0 <= i < s.len() && is_digit(s[i])
}

/// Where a name can start.
pub open spec fn ident_start(c: char) -> bool {
    is_alpha(c) || c == '_'
}

/// How a name can go on.
pub open spec fn ident_part(c: char) -> bool {
    is_alpha(c) || is_digit(c) || c == '_' || c == '-'
}

/// A hexadecimal digit.
pub open spec fn hex_digit(c: char) -> bool {
    is_digit(c) || 'a' <= c <= 'f' || 'A' <= c <= 'F'
}

/// What a decimal literal can hold.
pub open spec fn literal_part(c: char) -> bool {
    is_digit(c) || c == '.' || c == 'e' || c == 'E' || c == '+' || c == '-'
}

/// Where the longest run of name characters from `i` ends.
pub open spec fn ident_end(s: Text, i: int) -> int
    decreases s.len() - i,
{
    if 0 <= i < s.len() && ident_part(s[i]) {
        ident_end(s, i + 1)
    } else {
        i
    }
}

/// Where the longest run of hexadecimal digits from `i` ends.
pub open spec fn hex_end(s: Text, i: int) -> int
    decreases s.len() - i,
{
    if 0 <= i < s.len() && hex_digit(s[i]) {
        hex_end(s, i + 1)
    } else {
        i
    }
}

/// Where the longest run of literal characters from `i` ends.
pub open spec fn literal_run(s: Text, i: int) -> int
    decreases s.len() - i,
{
    if 0 <= i < s.len() && literal_part(s[i]) {
        literal_run(s, i + 1)
    } else {
        i
    }
}

/// Where the number literal at `i` ends.
pub open spec fn literal_end(s: Text, i: int) -> int {
    let j = if char_at(s, i) == Some('-') {
        i + 1
    } else {
        i
    };
    if char_at(s, j) == Some('0') && (char_at(s, j + 1) == Some('x') || char_at(s, j + 1) == Some(
        'X',
    )) {
        hex_end(s, j + 2)
    } else {
        literal_run(s, j)
    }
}

/// The value of a number literal, where it is one.
pub open spec fn literal_value(t: Text, n: NumeralsView) -> Result<Option<Double>, NeedView> {
    match after_either(t, "0x"@, "0X"@) {
        Some(hex) => Ok(
            match signed_value(hex, 16) {
                Some(i) => Some(int_double(i)),
                None => None,
            },
        ),
        None => reading(t, n),
    }
}

/// The string literal whose inside starts at `i`: its text, with `''` for a
/// quote, and where it ends.
pub open spec fn quoted_at(s: Text, i: int) -> Option<(Text, int)>
    decreases s.len() - i,
{
    if !(0 <= i < s.len()) {
        None
    } else if s[i] == '\'' {
        if char_at(s, i + 1) == Some('\'') {
            match quoted_at(s, i + 2) {
                Some(r) => Some((seq!['\''] + r.0, r.1)),
                None => None,
            }
        } else {
            Some((Seq::empty(), i + 1))
        }
    } else {
        match quoted_at(s, i + 1) {
            Some(r) => Some((seq![s[i]] + r.0, r.1)),
            None => None,
        }
    }
}

/// The fixed token that starts at `i` and its length.
pub open spec fn symbol_at(s: Text, i: int) -> Option<(Sym, int)> {
    let c = s[i];
    let next = char_at(s, i + 1);
    if c == '(' {
        Some((Sym::LParen, 1))
    } else if c == ')' {
        Some((Sym::RParen, 1))
    } else if c == '[' {
        Some((Sym::LBracket, 1))
    } else if c == ']' {
        Some((Sym::RBracket, 1))
    } else if c == '.' && !digit_at(s, i + 1) {
        Some((Sym::Dot, 1))
    } else if c == ',' {
        Some((Sym::Comma, 1))
    } else if c == '*' {
        Some((Sym::Star, 1))
    } else if c == '!' {
        if next == Some('=') {
            Some((Sym::Ne, 2))
        } else {
            Some((Sym::Not, 1))
        }
    } else if c == '=' && next == Some('=') {
        Some((Sym::Eq, 2))
    } else if c == '<' {
        if next == Some('=') {
            Some((Sym::Le, 2))
        } else {
            Some((Sym::Lt, 1))
        }
    } else if c == '>' {
        if next == Some('=') {
            Some((Sym::Ge, 2))
        } else {
            Some((Sym::Gt, 1))
        }
    } else if c == '&' && next == Some('&') {
        Some((Sym::And, 2))
    } else if c == '|' && next == Some('|') {
        Some((Sym::Or, 2))
    } else {
        None
    }
}

/// The token that a word makes: the three constants in any case, else a name.
pub open spec fn word_token(w: Text) -> TokView {
    if lowered(w) == "true"@ {
        TokView::Sym(Sym::True)
    } else if lowered(w) == "false"@ {
        TokView::Sym(Sym::False)
    } else if lowered(w) == "null"@ {
        TokView::Sym(Sym::Null)
    } else {
        TokView::Ident(w)
    }
}

/// The token that starts at `i`, where no space stands, and where it ends.
pub open spec fn token_at(s: Text, i: int, n: NumeralsView) -> Result<(TokView, int), Fault> {
    let c = s[i];
    match symbol_at(s, i) {
        Some(p) => Ok((TokView::Sym(p.0), i + p.1)),
        None => if c == '\'' {
            match quoted_at(s, i + 1) {
                Some(q) => Ok((TokView::Str(q.0), q.1)),
                None => Err(Fault::UnterminatedString),
            }
        } else if is_digit(c) || (c == '-' && digit_at(s, i + 1)) || c == '.' {
            let t = s.subrange(i, literal_end(s, i));
            match literal_value(t, n) {
                Err(e) => Err(Fault::Need(e)),
                Ok(None) => Err(Fault::BadNumber(t)),
                Ok(Some(d)) => Ok((TokView::Number(d), literal_end(s, i))),
            }
        } else if ident_start(c) {
            Ok((word_token(s.subrange(i, ident_end(s, i))), ident_end(s, i)))
        } else {
            Err(Fault::UnexpectedChar(c))
        },
    }
}

/// The tokens from `i` on.
pub open spec fn tokens_from(s: Text, i: int, n: NumeralsView) -> Result<Seq<TokView>, Fault>
    decreases s.len() - i,
{
    if !(0 <= i < s.len()) {
        Ok(Seq::empty())
    } else if is_space(s[i]) {
        tokens_from(s, i + 1, n)
    } else {
        match token_at(s, i, n) {
            Err(f) => Err(f),
            Ok(p) => if i < p.1 <= s.len() {
                ahead(Ok(p.0), tokens_from(s, p.1, n))
            } else {
                Ok(Seq::empty())
            },
        }
    }
}

/// The tokens of an expression.
pub open spec fn tokens(s: Text, n: NumeralsView) -> Result<Seq<TokView>, Fault> {
    tokens_from(s, 0, n)
}

// ---------------------------------------------------------------------------
// Lexing
// ---------------------------------------------------------------------------

/// Whether a digit follows a position.
pub fn next_is_digit(chars: &Vec<char>, i: usize) -> (r: bool)
    requires
        i < chars@.len(),
    ensures
        r == digit_at(chars@, i + 1),
{
    let n = chars.len();
    i + 1 < n && is_ascii_digit(chars[i + 1])
}

/// Whether a name can start with a character.
pub fn is_ident_start(c: char) -> (r: bool)
    ensures
        r == ident_start(c),
{
    is_ascii_alphabetic(c) || c == '_'
}

/// Whether a name can go on with a character.
pub fn is_ident_part(c: char) -> (r: bool)
    ensures
        r == ident_part(c),
{
    is_ascii_alphabetic(c) || is_ascii_digit(c) || c == '_' || c == '-'
}

/// Whether a character is a hexadecimal digit.
fn is_hex_digit(c: char) -> (r: bool)
    ensures
        r == hex_digit(c),
{
    is_ascii_digit(c) || ('a' <= c && c <= 'f') || ('A' <= c && c <= 'F')
}

/// Whether a decimal literal can hold a character.
fn is_literal_part(c: char) -> (r: bool)
    ensures
        r == literal_part(c),
{
    is_ascii_digit(c) || c == '.' || c == 'e' || c == 'E' || c == '+' || c == '-'
}

/// The fixed token at a position and its length.
fn lex_symbol(chars: &Vec<char>, i: usize) -> (r: Option<(Sym, usize)>)
    requires
        i < chars@.len(),
    ensures
        match r {
            Some(p) => symbol_at(chars@, i as int) == Some((p.0, p.1 as int)) && 1 <= p.1 && i
                + p.1 <= chars@.len(),
            None => symbol_at(chars@, i as int) is None,
        },
{
    let c = chars[i];
    let n = chars.len();
    let next: Option<char> = if i + 1 < n {
        Some(chars[i + 1])
    } else {
        None
    };
    let twin = |d: char| -> (b: bool)
        ensures
            b == (next == Some(d)),
        {
            match next {
                Some(x) => x == d,
                None => false,
            }
        };
    if c == '(' {
        Some((Sym::LParen, 1))
    } else if c == ')' {
        Some((Sym::RParen, 1))
    } else if c == '[' {
        Some((Sym::LBracket, 1))
    } else if c == ']' {
        Some((Sym::RBracket, 1))
    } else if c == '.' && !next_is_digit(chars, i) {
        Some((Sym::Dot, 1))
    } else if c == ',' {
        Some((Sym::Comma, 1))
    } else if c == '*' {
        Some((Sym::Star, 1))
    } else if c == '!' {
        if twin('=') {
            Some((Sym::Ne, 2))
        } else {
            Some((Sym::Not, 1))
        }
    } else if c == '=' && twin('=') {
        Some((Sym::Eq, 2))
    } else if c == '<' {
        if twin('=') {
            Some((Sym::Le, 2))
        } else {
            Some((Sym::Lt, 1))
        }
    } else if c == '>' {
        if twin('=') {
            Some((Sym::Ge, 2))
        } else {
            Some((Sym::Gt, 1))
        }
    } else if c == '&' && twin('&') {
        Some((Sym::And, 2))
    } else if c == '|' && twin('|') {
        Some((Sym::Or, 2))
    } else {
        None
    }
}

/// A string literal, from behind its opening quote.
fn lex_string(chars: &Vec<char>, from: usize) -> (r: Option<(String, usize)>)
    requires
        from <= chars@.len(),
    ensures
        match r {
            Some(p) => quoted_at(chars@, from as int) == Some((p.0@, p.1 as int)) && from < p.1
                <= chars@.len(),
            None => quoted_at(chars@, from as int) is None,
        },
{
    let n = chars.len();
    let mut i: usize = from;
    let mut text = String::new();
    proof {
        assert(text@ =~= Seq::empty());
        match quoted_at(chars@, from as int) {
            Some(q) => {
                assert(text@ + q.0 =~= q.0);
            },
            None => {},
        }
    }
    while i < n
        invariant
            from <= i <= n,
            n == chars@.len(),
            match quoted_at(chars@, i as int) {
                Some(q) => quoted_at(chars@, from as int) == Some((text@ + q.0, q.1)),
                None => quoted_at(chars@, from as int) is None,
            },
        decreases n - i,
    {
        let ghost before = text@;
        if chars[i] == '\'' {
            if i + 1 < n && chars[i + 1] == '\'' {
                text.push('\'');
                proof {
                    match quoted_at(chars@, i + 2) {
                        Some(q) => {
                            assert(before + (seq!['\''] + q.0) =~= text@ + q.0);
                        },
                        None => {},
                    }
                }
                i += 2;
            } else {
                assert(before + Seq::<char>::empty() =~= before);
                return Some((text, i + 1));
            }
        } else {
            let c = chars[i];
            text.push(c);
            proof {
                match quoted_at(chars@, i + 1) {
                    Some(q) => {
                        assert(before + (seq![c] + q.0) =~= text@ + q.0);
                    },
                    None => {},
                }
            }
            i += 1;
        }
    }
    None
}

/// Where the number literal at a position ends.
fn lex_literal(chars: &Vec<char>, i: usize) -> (r: usize)
    requires
        i < chars@.len(),
        is_digit(chars@[i as int]) || (chars@[i as int] == '-' && digit_at(chars@, i + 1))
            || chars@[i as int] == '.',
    ensures
        r == literal_end(chars@, i as int),
        i < r <= chars@.len(),
{
    let n = chars.len();
    let j: usize = if chars[i] == '-' {
        i + 1
    } else {
        i
    };
    if j + 1 < n && chars[j] == '0' && (chars[j + 1] == 'x' || chars[j + 1] == 'X') {
        let mut k: usize = j + 2;
        while k < n && is_hex_digit(chars[k])
            invariant
                j + 2 <= k <= n,
                n == chars@.len(),
                hex_end(chars@, j + 2) == hex_end(chars@, k as int),
            decreases n - k,
        {
            k += 1;
        }
        k
    } else {
        let mut k: usize = j;
        while k < n && is_literal_part(chars[k])
            invariant
                j <= k <= n,
                n == chars@.len(),
                literal_run(chars@, j as int) == literal_run(chars@, k as int),
            decreases n - k,
        {
            k += 1;
        }
        assert(literal_part(chars@[j as int]));
        assert(literal_run(chars@, j as int) == literal_run(chars@, j + 1));
        proof {
            lemma_literal_run(chars@, j + 1);
        }
        k
    }
}

/// A run of literal characters goes forward.
proof fn lemma_literal_run(s: Text, i: int)
    requires
        0 <= i <= s.len(),
    ensures
        i <= literal_run(s, i) <= s.len(),
    decreases s.len() - i,
{
    if i < s.len() && literal_part(s[i]) {
        lemma_literal_run(s, i + 1);
    }
}

/// The value of a number literal.
pub fn parse_number_literal(text: &str, n: &Numerals) -> (r: Result<
    Option<Double>,
    crate::numeral::Need,
>)
    ensures
        (match r {
            Ok(o) => Ok(o),
            Err(e) => Err(e@),
        }) == literal_value(text@, n@),
{
    match strip_either(text, "0x", "0X") {
        Some(hex) => Ok(
            match read_signed(hex.as_str(), 16) {
                Some(i) => Some(from_int(i)),
                None => None,
            },
        ),
        None => read_number(text, n),
    }
}

/// The token that a word makes.
fn lex_word(word: String) -> (r: Tok)
    ensures
        r@ == word_token(word@),
{
    let low = to_lower(word.as_str());
    if str_eq(low.as_str(), "true") {
        Tok::Sym(Sym::True)
    } else if str_eq(low.as_str(), "false") {
        Tok::Sym(Sym::False)
    } else if str_eq(low.as_str(), "null") {
        Tok::Sym(Sym::Null)
    } else {
        Tok::Ident(word)
    }
}

/// The end of a name.
fn lex_ident(chars: &Vec<char>, i: usize) -> (r: usize)
    requires
        i < chars@.len(),
        ident_start(chars@[i as int]),
    ensures
        r == ident_end(chars@, i as int),
        i < r <= chars@.len(),
{
    let n = chars.len();
    let mut k: usize = i + 1;
    while k < n && is_ident_part(chars[k])
        invariant
            i < k <= n,
            n == chars@.len(),
            ident_end(chars@, i as int) == ident_end(chars@, k as int),
        decreases n - k,
    {
        k += 1;
    }
    k
}

/// The token at a position where no space stands, and where it ends.
fn lex_token(chars: &Vec<char>, i: usize, n: &Numerals) -> (r: Result<(Tok, usize), ExprError>)
    requires
        i < chars@.len(),
    ensures
        match r {
            Ok(p) => token_at(chars@, i as int, n@) == Ok::<(TokView, int), Fault>(
                (p.0@, p.1 as int),
            ) && i < p.1 <= chars@.len(),
            Err(e) => token_at(chars@, i as int, n@) == Err::<(TokView, int), Fault>(e@),
        },
{
    let c = chars[i];
    let total = chars.len();
    assert(i < total);
    match lex_symbol(chars, i) {
        Some(p) => {
            return Ok((Tok::Sym(p.0), i + p.1));
        },
        None => {},
    }
    if c == '\'' {
        match lex_string(chars, i + 1) {
            Some(q) => Ok((Tok::Str(q.0), q.1)),
            None => Err(ExprError::UnterminatedString),
        }
    } else if is_ascii_digit(c) || (c == '-' && next_is_digit(chars, i)) || c == '.' {
        let j = lex_literal(chars, i);
        let t = slice_text(chars, i, j);
        match parse_number_literal(t.as_str(), n) {
            Err(e) => Err(ExprError::Need(e)),
            Ok(None) => Err(ExprError::BadNumber(t)),
            Ok(Some(d)) => Ok((Tok::Number(d), j)),
        }
    } else if is_ident_start(c) {
        let j = lex_ident(chars, i);
        Ok((lex_word(slice_text(chars, i, j)), j))
    } else {
        Err(ExprError::UnexpectedChar(c))
    }
}

/// Split an expression into tokens.
pub fn lex(src: &str, n: &Numerals) -> (r: Result<Vec<Tok>, ExprError>)
    ensures
        (match r {
            Ok(v) => Ok(toks(v@)),
            Err(e) => Err(e@),
        }) == tokens(src@, n@),
{
    let chars = chars_of(src);
    let len = chars.len();
    let mut out: Vec<Tok> = Vec::new();
    let mut i: usize = 0;
    proof {
        assert(toks(out@) =~= Seq::empty());
        match tokens(src@, n@) {
            Ok(t) => {
                assert(Seq::<TokView>::empty() + t =~= t);
            },
            Err(_) => {},
        }
    }
    while i < len
        invariant
            i <= len,
            len == chars@.len(),
            chars@ == src@,
            tokens(src@, n@) == after_done(toks(out@), tokens_from(src@, i as int, n@)),
        decreases len - i,
    {
        if is_whitespace(chars[i]) {
            i += 1;
        } else {
            match lex_token(&chars, i, n) {
                Ok(p) => {
                    let ghost before = toks(out@);
                    let ghost t = p.0@;
                    out.push(p.0);
                    proof {
                        assert(toks(out@) =~= before + seq![t]);
                        match tokens_from(src@, p.1 as int, n@) {
                            Ok(rest) => {
                                assert(before + (seq![t] + rest) =~= toks(out@) + rest);
                            },
                            Err(_) => {},
                        }
                    }
                    i = p.1;
                },
                Err(e) => {
                    return Err(e);
                },
            }
        }
    }
    assert(toks(out@) + Seq::<TokView>::empty() =~= toks(out@));
    Ok(out)
}

} // verus!
