//! The tokens of DynSRV specifications, and the function that splits a text
//! into them.
//!
//! Whitespace separates tokens and is otherwise ignored. Identifiers are
//! maximal runs of letters, digits and `_` that do not start with a digit;
//! `in`, `out`, `aux`, `if`, `then`, `else`, `true` and `false` are keywords.
//! Numbers are maximal runs of digits, optionally followed by `.` and more
//! digits; strings are enclosed in `"` and cannot contain `"`.
use vstd::prelude::*;

use crate::ast::{BoolBinOp, CompBinOp, NumericalBinOp, SBinOp, StrBinOp, spec_symbol_op};
use crate::text::{char_code, string_from_chars};

verus! {

/// A token.
#[derive(Debug, PartialEq)]
pub enum Token {
    Ident(String),
    Int(i64),
    Float(String),
    Str(String),
    In,
    Out,
    Aux,
    If,
    Then,
    Else,
    True,
    False,
    Colon,
    Assign,
    Not,
    LParen,
    RParen,
    LBracket,
    RBracket,
    Op(SBinOp),
}

/// The mathematical content of a [`Token`].
pub ghost enum TokenV {
    Ident(Seq<char>),
    Int(int),
    Float(Seq<char>),
    Str(Seq<char>),
    In,
    Out,
    Aux,
    If,
    Then,
    Else,
    True,
    False,
    Colon,
    Assign,
    Not,
    LParen,
    RParen,
    LBracket,
    RBracket,
    Op(SBinOp),
}

impl View for Token {
    type V = TokenV;

    open spec fn view(&self) -> TokenV {
        match self {
            Token::Ident(s) => TokenV::Ident(s@),
            Token::Int(n) => TokenV::Int(*n as int),
            Token::Float(s) => TokenV::Float(s@),
            Token::Str(s) => TokenV::Str(s@),
            Token::In => TokenV::In,
            Token::Out => TokenV::Out,
            Token::Aux => TokenV::Aux,
            Token::If => TokenV::If,
            Token::Then => TokenV::Then,
            Token::Else => TokenV::Else,
            Token::True => TokenV::True,
            Token::False => TokenV::False,
            Token::Colon => TokenV::Colon,
            Token::Assign => TokenV::Assign,
            Token::Not => TokenV::Not,
            Token::LParen => TokenV::LParen,
            Token::RParen => TokenV::RParen,
            Token::LBracket => TokenV::LBracket,
            Token::RBracket => TokenV::RBracket,
            Token::Op(op) => TokenV::Op(*op),
        }
    }
}

/// The contents of a sequence of tokens.
pub open spec fn tokens_view(ts: Seq<Token>) -> Seq<TokenV> {
    ts.map_values(|t: Token| t@)
}

/// Space, tab, newline and carriage return.
pub open spec fn is_space(c: char) -> bool {
    c == ' ' || c == '\t' || c == '\n' || c == '\r'
}

/// `0` to `9`.
pub open spec fn is_digit(c: char) -> bool {
    48 <= c as int <= 57
}

/// A letter or `_`.
pub open spec fn is_ident_start(c: char) -> bool {
    (65 <= c as int <= 90) || (97 <= c as int <= 122) || c == '_'
}

/// A letter, a digit or `_`.
pub open spec fn is_ident_char(c: char) -> bool {
    is_ident_start(c) || is_digit(c)
}

/// The length of the longest prefix of `s` made of identifier characters.
pub open spec fn ident_run(s: Seq<char>) -> nat
    decreases s.len(),
{
    if s.len() > 0 && is_ident_char(s[0]) {
        1 + ident_run(s.drop_first())
    } else {
        0
    }
}

/// The length of the longest prefix of `s` made of digits.
pub open spec fn digit_run(s: Seq<char>) -> nat
    decreases s.len(),
{
    if s.len() > 0 && is_digit(s[0]) {
        1 + digit_run(s.drop_first())
    } else {
        0
    }
}

/// The length of the longest prefix of `s` without `"`.
pub open spec fn unquoted_run(s: Seq<char>) -> nat
    decreases s.len(),
{
    if s.len() > 0 && s[0] != '"' {
        1 + unquoted_run(s.drop_first())
    } else {
        0
    }
}

/// The number written in decimal by the digits `s`.
pub open spec fn digits_value(s: Seq<char>) -> nat
    decreases s.len(),
{
    if s.len() == 0 {
        0
    } else {
        digits_value(s.drop_last()) * 10 + (s.last() as int - 48) as nat
    }
}

/// The token for the word `w`: a keyword or an identifier.
pub open spec fn word_token(w: Seq<char>) -> TokenV {
    if w == seq!['i', 'n'] {
        TokenV::In
    } else if w == seq!['o', 'u', 't'] {
        TokenV::Out
    } else if w == seq!['a', 'u', 'x'] {
        TokenV::Aux
    } else if w == seq!['i', 'f'] {
        TokenV::If
    } else if w == seq!['t', 'h', 'e', 'n'] {
        TokenV::Then
    } else if w == seq!['e', 'l', 's', 'e'] {
        TokenV::Else
    } else if w == seq!['t', 'r', 'u', 'e'] {
        TokenV::True
    } else if w == seq!['f', 'a', 'l', 's', 'e'] {
        TokenV::False
    } else {
        TokenV::Ident(w)
    }
}

/// The two-character operator starting `s`, if any.
pub open spec fn two_char_op(a: char, b: char) -> Option<SBinOp> {
    if a == '+' && b == '+' {
        Some(SBinOp::SOp(StrBinOp::Concat))
    } else if a == '=' && b == '=' {
        Some(SBinOp::COp(CompBinOp::Eq))
    } else if a == '<' && b == '=' {
        Some(SBinOp::COp(CompBinOp::Le))
    } else if a == '>' && b == '=' {
        Some(SBinOp::COp(CompBinOp::Ge))
    } else if a == '&' && b == '&' {
        Some(SBinOp::BOp(BoolBinOp::And))
    } else if a == '|' && b == '|' {
        Some(SBinOp::BOp(BoolBinOp::Or))
    } else {
        None
    }
}

/// The one-character token `c`, if any.
pub open spec fn one_char_token(c: char) -> Option<TokenV> {
    if c == '+' {
        Some(TokenV::Op(SBinOp::NOp(NumericalBinOp::Add)))
    } else if c == '-' {
        Some(TokenV::Op(SBinOp::NOp(NumericalBinOp::Sub)))
    } else if c == '*' {
        Some(TokenV::Op(SBinOp::NOp(NumericalBinOp::Mul)))
    } else if c == '/' {
        Some(TokenV::Op(SBinOp::NOp(NumericalBinOp::Div)))
    } else if c == '%' {
        Some(TokenV::Op(SBinOp::NOp(NumericalBinOp::Mod)))
    } else if c == '<' {
        Some(TokenV::Op(SBinOp::COp(CompBinOp::Lt)))
    } else if c == '>' {
        Some(TokenV::Op(SBinOp::COp(CompBinOp::Gt)))
    } else if c == '!' {
        Some(TokenV::Not)
    } else if c == '=' {
        Some(TokenV::Assign)
    } else if c == ':' {
        Some(TokenV::Colon)
    } else if c == '(' {
        Some(TokenV::LParen)
    } else if c == ')' {
        Some(TokenV::RParen)
    } else if c == '[' {
        Some(TokenV::LBracket)
    } else if c == ']' {
        Some(TokenV::RBracket)
    } else {
        None
    }
}

/// The token at the start of `s` (which does not start with whitespace) and
/// the number of characters it takes.
pub open spec fn first_token(s: Seq<char>) -> Option<(TokenV, nat)> {
    if s.len() == 0 {
        None
    } else if is_ident_start(s[0]) {
        let n = ident_run(s);
        Some((word_token(s.subrange(0, n as int)), n))
    } else if is_digit(s[0]) {
        let n = digit_run(s) as int;
        if n + 1 < s.len() && s[n] == '.' && is_digit(s[n + 1]) {
            let m = digit_run(s.subrange(n + 1, s.len() as int)) as int;
            Some((TokenV::Float(s.subrange(0, n + 1 + m)), (n + 1 + m) as nat))
        } else if digits_value(s.subrange(0, n)) <= i64::MAX {
            Some((TokenV::Int(digits_value(s.subrange(0, n)) as int), n as nat))
        } else {
            None
        }
    } else if s[0] == '"' {
        let n = unquoted_run(s.drop_first()) as int;
        if n + 1 < s.len() {
            Some((TokenV::Str(s.subrange(1, n + 1)), (n + 2) as nat))
        } else {
            None
        }
    } else if s.len() >= 2 && two_char_op(s[0], s[1]) is Some {
        Some((TokenV::Op(two_char_op(s[0], s[1])->0), 2))
    } else {
        match one_char_token(s[0]) {
            Some(t) => Some((t, 1)),
            None => None,
        }
    }
}

/// The tokens of `s`, or `None` if some part of `s` is not a token.
pub open spec fn lex(s: Seq<char>) -> Option<Seq<TokenV>>
    decreases s.len(),
{
    if s.len() == 0 {
        Some(Seq::empty())
    } else if is_space(s[0]) {
        lex(s.drop_first())
    } else {
        match first_token(s) {
            Some((t, n)) => if 0 < n <= s.len() {
                match lex(s.subrange(n as int, s.len() as int)) {
                    Some(rest) => Some(seq![t] + rest),
                    None => None,
                }
            } else {
                None
            },
            None => None,
        }
    }
}

/// Every integer token is non-negative.
pub open spec fn ints_nonneg(t: Seq<TokenV>) -> bool {
    forall|i: int| 0 <= i < t.len() && (#[trigger] t[i]) is Int ==> t[i]->Int_0 >= 0
}

/// The lexer only produces non-negative integer tokens.
pub proof fn lemma_lex_ints_nonneg(s: Seq<char>)
    ensures
        lex(s) matches Some(t) ==> ints_nonneg(t),
    decreases s.len(),
{
    if s.len() > 0 {
        if is_space(s[0]) {
            lemma_lex_ints_nonneg(s.drop_first());
        } else {
            match first_token(s) {
                Some((t, n)) => if 0 < n <= s.len() {
                    lemma_lex_ints_nonneg(s.subrange(n as int, s.len() as int));
                    match lex(s.subrange(n as int, s.len() as int)) {
                        Some(rest) => {
                            let all = seq![t] + rest;
                            assert forall|i: int| 0 <= i < all.len() && (#[trigger] all[i]) is Int
                                implies all[i]->Int_0 >= 0 by {
                                if i > 0 {
                                    assert(all[i] == rest[i - 1]);
                                }
                            }
                        },
                        None => {},
                    }
                },
                None => {},
            }
        }
    }
}

/// `prefix` followed by the tokens of `rest`, if it has any.
pub open spec fn prepend(prefix: Seq<TokenV>, rest: Option<Seq<TokenV>>) -> Option<Seq<TokenV>> {
    match rest {
        Some(r) => Some(prefix + r),
        None => None,
    }
}

fn is_space_exec(c: char) -> (r: bool)
    ensures
        r == is_space(c),
{
    c == ' ' || c == '\t' || c == '\n' || c == '\r'
}

fn is_digit_exec(c: char) -> (r: bool)
    ensures
        r == is_digit(c),
{
    let k = char_code(c);
    48 <= k && k <= 57
}

fn is_ident_start_exec(c: char) -> (r: bool)
    ensures
        r == is_ident_start(c),
{
    let k = char_code(c);
    (65 <= k && k <= 90) || (97 <= k && k <= 122) || c == '_'
}

fn is_ident_char_exec(c: char) -> (r: bool)
    ensures
        r == is_ident_char(c),
{
    is_ident_start_exec(c) || is_digit_exec(c)
}

/// The end of the run of identifier characters starting at `pos`.
fn ident_end(cs: &Vec<char>, pos: usize) -> (r: usize)
    requires
        pos <= cs.len(),
    ensures
        r == pos + ident_run(cs@.subrange(pos as int, cs.len() as int)),
        r <= cs.len(),
{
    let mut j = pos;
    while j < cs.len() && is_ident_char_exec(cs[j])
        invariant
            pos <= j <= cs.len(),
            ident_run(cs@.subrange(pos as int, cs.len() as int)) == (j - pos) + ident_run(
                cs@.subrange(j as int, cs.len() as int),
            ),
        decreases cs.len() - j,
    {
        assert(cs@.subrange(j as int, cs.len() as int).drop_first() =~= cs@.subrange(
            j + 1,
            cs.len() as int,
        ));
        j = j + 1;
    }
    j
}

/// The end of the run of digits starting at `pos`.
fn digit_end(cs: &Vec<char>, pos: usize) -> (r: usize)
    requires
        pos <= cs.len(),
    ensures
        r == pos + digit_run(cs@.subrange(pos as int, cs.len() as int)),
        r <= cs.len(),
{
    let mut j = pos;
    while j < cs.len() && is_digit_exec(cs[j])
        invariant
            pos <= j <= cs.len(),
            digit_run(cs@.subrange(pos as int, cs.len() as int)) == (j - pos) + digit_run(
                cs@.subrange(j as int, cs.len() as int),
            ),
        decreases cs.len() - j,
    {
        assert(cs@.subrange(j as int, cs.len() as int).drop_first() =~= cs@.subrange(
            j + 1,
            cs.len() as int,
        ));
        j = j + 1;
    }
    j
}

/// The end of the run of characters other than `"` starting at `pos`.
fn unquoted_end(cs: &Vec<char>, pos: usize) -> (r: usize)
    requires
        pos <= cs.len(),
    ensures
        r == pos + unquoted_run(cs@.subrange(pos as int, cs.len() as int)),
        r <= cs.len(),
{
    let mut j = pos;
    while j < cs.len() && cs[j] != '"'
        invariant
            pos <= j <= cs.len(),
            unquoted_run(cs@.subrange(pos as int, cs.len() as int)) == (j - pos) + unquoted_run(
                cs@.subrange(j as int, cs.len() as int),
            ),
        decreases cs.len() - j,
    {
        assert(cs@.subrange(j as int, cs.len() as int).drop_first() =~= cs@.subrange(
            j + 1,
            cs.len() as int,
        ));
        j = j + 1;
    }
    j
}

/// A prefix of digits denotes a number no larger than the whole run.
proof fn lemma_digits_value_prefix(s: Seq<char>, k: int)
    requires
        0 <= k <= s.len(),
        forall|i: int| 0 <= i < s.len() ==> is_digit(#[trigger] s[i]),
    ensures
        digits_value(s.subrange(0, k)) <= digits_value(s),
    decreases s.len(),
{
    if k < s.len() {
        let init = s.drop_last();
        assert(init.subrange(0, k) =~= s.subrange(0, k));
        lemma_digits_value_prefix(init, k);
    } else {
        assert(s.subrange(0, k) =~= s);
    }
}

/// The number written by the digits `cs[lo..hi]`, if it fits in an `i64`.
fn digits_to_i64(cs: &Vec<char>, lo: usize, hi: usize) -> (r: Option<i64>)
    requires
        lo <= hi <= cs.len(),
        forall|i: int| lo <= i < hi ==> is_digit(#[trigger] cs@[i]),
    ensures
        r matches Some(v) ==> v as int == digits_value(cs@.subrange(lo as int, hi as int)),
        r is None ==> digits_value(cs@.subrange(lo as int, hi as int)) > i64::MAX,
{
    let mut acc: i64 = 0;
    let mut j = lo;
    while j < hi
        invariant
            lo <= j <= hi <= cs.len(),
            forall|i: int| lo <= i < hi ==> is_digit(#[trigger] cs@[i]),
            acc as int == digits_value(cs@.subrange(lo as int, j as int)),
            acc >= 0,
        decreases hi - j,
    {
        let d = (char_code(cs[j]) - 48) as i64;
        proof {
            assert(is_digit(cs@[j as int]));
            assert(cs@.subrange(lo as int, j + 1).drop_last() =~= cs@.subrange(lo as int, j as int));
        }
        if acc > (i64::MAX - d) / 10 {
            proof {
                assert(acc * 10 + d > i64::MAX) by (nonlinear_arith)
                    requires
                        acc > (i64::MAX - d) / 10,
                        0 <= d <= 9,
                ;
                let full = cs@.subrange(lo as int, hi as int);
                assert forall|i: int| 0 <= i < full.len() implies is_digit(#[trigger] full[i]) by {
                    assert(full[i] == cs@[lo + i]);
                }
                lemma_digits_value_prefix(full, j + 1 - lo);
                assert(full.subrange(0, j + 1 - lo) =~= cs@.subrange(lo as int, j + 1));
            }
            return None;
        }
        proof {
            assert(acc * 10 + d <= i64::MAX) by (nonlinear_arith)
                requires
                    acc <= (i64::MAX - d) / 10,
                    0 <= d <= 9,
                    acc >= 0,
            ;
        }
        acc = acc * 10 + d;
        j = j + 1;
    }
    Some(acc)
}

/// The keyword or identifier token for the word `cs[lo..hi]`.
fn word_token_exec(cs: &Vec<char>, lo: usize, hi: usize) -> (r: Token)
    requires
        lo < hi <= cs.len(),
    ensures
        r@ == word_token(cs@.subrange(lo as int, hi as int)),
{
    let w = string_from_chars(cs, lo, hi);
    let ghost ws = cs@.subrange(lo as int, hi as int);
    let n = hi - lo;
    let c0 = cs[lo];
    if n == 2 && c0 == 'i' && cs[lo + 1] == 'n' {
        assert(ws =~= seq!['i', 'n']);
        return Token::In;
    }
    if n == 3 && c0 == 'o' && cs[lo + 1] == 'u' && cs[lo + 2] == 't' {
        assert(ws =~= seq!['o', 'u', 't']);
        return Token::Out;
    }
    if n == 3 && c0 == 'a' && cs[lo + 1] == 'u' && cs[lo + 2] == 'x' {
        assert(ws =~= seq!['a', 'u', 'x']);
        return Token::Aux;
    }
    if n == 2 && c0 == 'i' && cs[lo + 1] == 'f' {
        assert(ws =~= seq!['i', 'f']);
        return Token::If;
    }
    if n == 4 && c0 == 't' && cs[lo + 1] == 'h' && cs[lo + 2] == 'e' && cs[lo + 3] == 'n' {
        assert(ws =~= seq!['t', 'h', 'e', 'n']);
        return Token::Then;
    }
    if n == 4 && c0 == 'e' && cs[lo + 1] == 'l' && cs[lo + 2] == 's' && cs[lo + 3] == 'e' {
        assert(ws =~= seq!['e', 'l', 's', 'e']);
        return Token::Else;
    }
    if n == 4 && c0 == 't' && cs[lo + 1] == 'r' && cs[lo + 2] == 'u' && cs[lo + 3] == 'e' {
        assert(ws =~= seq!['t', 'r', 'u', 'e']);
        return Token::True;
    }
    if n == 5 && c0 == 'f' && cs[lo + 1] == 'a' && cs[lo + 2] == 'l' && cs[lo + 3] == 's'
        && cs[lo + 4] == 'e' {
        assert(ws =~= seq!['f', 'a', 'l', 's', 'e']);
        return Token::False;
    }
    proof {
        assert(ws.len() == n);
        if ws.len() == 2 {
            assert(ws[0] == c0 && ws[1] == cs@[lo + 1]);
        }
        if ws.len() == 3 {
            assert(ws[0] == c0 && ws[1] == cs@[lo + 1] && ws[2] == cs@[lo + 2]);
        }
        if ws.len() == 4 {
            assert(ws[0] == c0 && ws[1] == cs@[lo + 1] && ws[2] == cs@[lo + 2] && ws[3]
                == cs@[lo + 3]);
        }
        if ws.len() == 5 {
            assert(ws[0] == c0 && ws[1] == cs@[lo + 1] && ws[2] == cs@[lo + 2] && ws[3]
                == cs@[lo + 3] && ws[4] == cs@[lo + 4]);
        }
    }
    Token::Ident(w)
}

fn two_char_op_exec(a: char, b: char) -> (r: Option<SBinOp>)
    ensures
        r == two_char_op(a, b),
{
    if a == '+' && b == '+' {
        Some(SBinOp::SOp(StrBinOp::Concat))
    } else if a == '=' && b == '=' {
        Some(SBinOp::COp(CompBinOp::Eq))
    } else if a == '<' && b == '=' {
        Some(SBinOp::COp(CompBinOp::Le))
    } else if a == '>' && b == '=' {
        Some(SBinOp::COp(CompBinOp::Ge))
    } else if a == '&' && b == '&' {
        Some(SBinOp::BOp(BoolBinOp::And))
    } else if a == '|' && b == '|' {
        Some(SBinOp::BOp(BoolBinOp::Or))
    } else {
        None
    }
}

fn one_char_token_exec(c: char) -> (r: Option<Token>)
    ensures
        r matches Some(t) ==> one_char_token(c) == Some(t@),
        r is None ==> one_char_token(c) is None,
{
    if c == '+' {
        Some(Token::Op(SBinOp::NOp(NumericalBinOp::Add)))
    } else if c == '-' {
        Some(Token::Op(SBinOp::NOp(NumericalBinOp::Sub)))
    } else if c == '*' {
        Some(Token::Op(SBinOp::NOp(NumericalBinOp::Mul)))
    } else if c == '/' {
        Some(Token::Op(SBinOp::NOp(NumericalBinOp::Div)))
    } else if c == '%' {
        Some(Token::Op(SBinOp::NOp(NumericalBinOp::Mod)))
    } else if c == '<' {
        Some(Token::Op(SBinOp::COp(CompBinOp::Lt)))
    } else if c == '>' {
        Some(Token::Op(SBinOp::COp(CompBinOp::Gt)))
    } else if c == '!' {
        Some(Token::Not)
    } else if c == '=' {
        Some(Token::Assign)
    } else if c == ':' {
        Some(Token::Colon)
    } else if c == '(' {
        Some(Token::LParen)
    } else if c == ')' {
        Some(Token::RParen)
    } else if c == '[' {
        Some(Token::LBracket)
    } else if c == ']' {
        Some(Token::RBracket)
    } else {
        None
    }
}

/// The token starting at `pos` and the position just after it.
fn scan_token(cs: &Vec<char>, pos: usize) -> (r: Option<(Token, usize)>)
    requires
        pos < cs.len(),
    ensures
        ({
            let s = cs@.subrange(pos as int, cs.len() as int);
            match r {
                Some((t, end)) => pos < end <= cs.len() && first_token(s) == Some(
                    (t@, (end - pos) as nat),
                ),
                None => first_token(s) is None,
            }
        }),
{
    let ghost s = cs@.subrange(pos as int, cs.len() as int);
    let n = cs.len();
    let c = cs[pos];
    assert(s[0] == c);
    if is_ident_start_exec(c) {
        let end = ident_end(cs, pos);
        proof {
            assert(ident_run(s) > 0) by {
                assert(s.len() > 0 && is_ident_char(s[0]));
            }
            assert(s.subrange(0, (end - pos) as int) =~= cs@.subrange(pos as int, end as int));
        }
        let t = word_token_exec(cs, pos, end);
        return Some((t, end));
    }
    if is_digit_exec(c) {
        let end = digit_end(cs, pos);
        let ghost k = (end - pos) as int;
        proof {
            assert(digit_run(s) > 0) by {
                assert(s.len() > 0 && is_digit(s[0]));
            }
            assert(k == digit_run(s) as int);
        }
        if end < n - 1 && cs[end] == '.' && is_digit_exec(cs[end + 1]) {
            let fend = digit_end(cs, end + 1);
            let text = string_from_chars(cs, pos, fend);
            proof {
                assert(s[k] == cs@[end as int]);
                assert(s[k + 1] == cs@[end + 1]);
                assert(s.subrange(k + 1, s.len() as int) =~= cs@.subrange(
                    end + 1,
                    cs.len() as int,
                ));
                assert(s.subrange(0, (fend - pos) as int) =~= cs@.subrange(
                    pos as int,
                    fend as int,
                ));
            }
            return Some((Token::Float(text), fend));
        }
        proof {
            if k + 1 < s.len() {
                assert(s[k] == cs@[end as int]);
                assert(s[k + 1] == cs@[end + 1]);
            }
            assert(s.subrange(0, k) =~= cs@.subrange(pos as int, end as int));
            assert forall|i: int| pos <= i < end implies is_digit(#[trigger] cs@[i]) by {
                lemma_run_digits(s, i - pos);
                assert(s[i - pos] == cs@[i]);
            }
        }
        match digits_to_i64(cs, pos, end) {
            Some(v) => {
                return Some((Token::Int(v), end));
            },
            None => {
                return None;
            },
        }
    }
    if c == '"' {
        let end = unquoted_end(cs, pos + 1);
        proof {
            assert(s.drop_first() =~= cs@.subrange(pos + 1, cs.len() as int));
        }
        if end < n {
            let text = string_from_chars(cs, pos + 1, end);
            proof {
                assert(s.subrange(1, (end - pos) as int) =~= cs@.subrange(
                    pos + 1,
                    end as int,
                ));
            }
            return Some((Token::Str(text), end + 1));
        }
        return None;
    }
    if pos + 1 < n {
        let d = cs[pos + 1];
        assert(s[1] == d);
        match two_char_op_exec(c, d) {
            Some(op) => {
                return Some((Token::Op(op), pos + 2));
            },
            None => {},
        }
    }
    match one_char_token_exec(c) {
        Some(t) => Some((t, pos + 1)),
        None => None,
    }
}

/// Every character inside a run of digits is a digit.
proof fn lemma_run_digits(s: Seq<char>, i: int)
    requires
        0 <= i < digit_run(s),
    ensures
        i < s.len(),
        is_digit(s[i]),
    decreases s.len(),
{
    assert(s.len() > 0 && is_digit(s[0]));
    if i > 0 {
        lemma_run_digits(s.drop_first(), i - 1);
        assert(s.drop_first()[i - 1] == s[i]);
    }
}

/// The tokens of `input`, or `None` if some part of it is not a token.
pub fn tokenize(input: &str) -> (r: Option<Vec<Token>>)
    ensures
        r matches Some(ts) ==> lex(input@) == Some(tokens_view(ts@)),
        r is None ==> lex(input@) is None,
{
    let cs = crate::text::str_chars(input);
    let n = cs.len();
    let mut out: Vec<Token> = Vec::new();
    let mut pos: usize = 0;
    assert(cs@.subrange(0, n as int) =~= cs@);
    while pos < n
        invariant
            n == cs.len(),
            cs@ == input@,
            pos <= n,
            lex(input@) == prepend(
                tokens_view(out@),
                lex(cs@.subrange(pos as int, n as int)),
            ),
        decreases n - pos,
    {
        let ghost s = cs@.subrange(pos as int, n as int);
        assert(s[0] == cs@[pos as int]);
        if is_space_exec(cs[pos]) {
            assert(s.drop_first() =~= cs@.subrange(pos + 1, n as int));
            pos = pos + 1;
        } else {
            match scan_token(&cs, pos) {
                Some((t, end)) => {
                    let ghost tv = t@;
                    let ghost before = out@;
                    out.push(t);
                    proof {
                        assert(s.subrange((end - pos) as int, s.len() as int) =~= cs@.subrange(
                            end as int,
                            n as int,
                        ));
                        assert(tokens_view(out@) =~= tokens_view(before) + seq![tv]);
                        match lex(cs@.subrange(end as int, n as int)) {
                            Some(rest) => {
                                assert(tokens_view(before) + (seq![tv] + rest) =~= tokens_view(
                                    out@,
                                ) + rest);
                            },
                            None => {},
                        }
                    }
                    pos = end;
                },
                None => {
                    return None;
                },
            }
        }
    }
    assert(cs@.subrange(n as int, n as int) =~= Seq::<char>::empty());
    assert(tokens_view(out@) + Seq::<TokenV>::empty() =~= tokens_view(out@));
    Some(out)
}

/// The lexer reads two characters as the operator that the operator table
/// gives for that two-character symbol, and as no operator when the table has
/// none.
pub proof fn lemma_two_char_op_agrees_with_symbols(a: char, b: char)
    ensures
        two_char_op(a, b) == spec_symbol_op(seq![a, b]),
{
    let s = seq![a, b];
    assert(s.len() == 2 && s[0] == a && s[1] == b);
    assert forall|c: char| #[trigger] seq![c].len() == 1 implies s != seq![c] by {}
    assert forall|c: char, d: char| s == #[trigger] seq![c, d] implies a == c && b == d by {
        assert(seq![c, d][0] == c && seq![c, d][1] == d);
    }
    assert((a == '|' && b == '|') ==> s =~= seq!['|', '|']);
    assert((a == '&' && b == '&') ==> s =~= seq!['&', '&']);
    assert((a == '+' && b == '+') ==> s =~= seq!['+', '+']);
    assert((a == '=' && b == '=') ==> s =~= seq!['=', '=']);
    assert((a == '<' && b == '=') ==> s =~= seq!['<', '=']);
    assert((a == '>' && b == '=') ==> s =~= seq!['>', '=']);
}

/// A text that is one operator symbol lexes to that operator alone, the one
/// the operator table gives for the symbol.
pub proof fn lemma_lex_operator_symbol(s: Seq<char>)
    requires
        spec_symbol_op(s) is Some,
    ensures
        lex(s) == Some(seq![TokenV::Op(spec_symbol_op(s)->0)]),
{
    let op = spec_symbol_op(s)->0;
    if s.len() == 2 {
        lemma_two_char_op_agrees_with_symbols(s[0], s[1]);
        assert(s =~= seq![s[0], s[1]]);
    }
    assert(first_token(s) == Some((TokenV::Op(op), s.len())));
    assert(s.subrange(s.len() as int, s.len() as int) =~= Seq::<char>::empty());
    assert(lex(s.subrange(s.len() as int, s.len() as int)) == Some(Seq::<TokenV>::empty()));
    assert(seq![TokenV::Op(op)] + Seq::<TokenV>::empty() =~= seq![TokenV::Op(op)]);
}

} // verus!
