//! The grammar of DynSRV specifications and its parser.
//!
//! ```text
//! stmts   := stmt*
//! stmt    := ("in" | "out" | "aux") IDENT (":" TYPE)? | IDENT "=" expr
//! TYPE    := "Int" | "Float" | "Str" | "Bool" | "Unit"
//! expr    := level 0
//! level k := level k+1 (op_k level k+1)*        (left associative, k < 5)
//!            op_0: ||   op_1: &&   op_2: == < <= > >=   op_3: + - ++   op_4: * / %
//! level 5 := "!" level 5 | atom ("[" "-"? INT "]")*
//! atom    := INT | FLOAT | STRING | "true" | "false" | "-" INT | IDENT
//!          | "(" expr ")" | "if" expr "then" expr "else" expr
//! ```
//! A text parses only if the whole of it is consumed.
use vstd::prelude::*;

use crate::ast::{
    BoolBinOp, LOLASpecification, NumericalBinOp, SBinOp, SExpr, SExprV, SStmt, SStmtV, SpecV,
    stmts_view,
};
use crate::lexer::{Token, TokenV, ints_nonneg, lemma_lex_ints_nonneg, lex, tokenize, tokens_view};
use crate::text::{string_concat, string_from_str};
use crate::values::{Decimal, StreamType, Value, ValueV};
use crate::variables::{VarName, var_views};
use crate::varmap::{Duplicate, VarMap};

verus! {

/// Why a text is not a specification.
#[derive(Debug, Clone, Copy, PartialEq, Eq, Structural)]
pub enum ParseError {
    /// Some part of the text is not a token.
    Lexical,
    /// The tokens do not follow the grammar.
    Syntax,
}

/// The precedence level of a binary operator: lower levels bind looser.
pub open spec fn op_level(op: SBinOp) -> int {
    match op {
        SBinOp::BOp(BoolBinOp::Or) => 0,
        SBinOp::BOp(BoolBinOp::And) => 1,
        SBinOp::COp(_) => 2,
        SBinOp::NOp(NumericalBinOp::Add) => 3,
        SBinOp::NOp(NumericalBinOp::Sub) => 3,
        SBinOp::SOp(_) => 3,
        SBinOp::NOp(_) => 4,
    }
}

fn op_level_exec(op: SBinOp) -> (r: usize)
    ensures
        r as int == op_level(op),
{
    match op {
        SBinOp::BOp(BoolBinOp::Or) => 0,
        SBinOp::BOp(BoolBinOp::And) => 1,
        SBinOp::COp(_) => 2,
        SBinOp::NOp(NumericalBinOp::Add) => 3,
        SBinOp::NOp(NumericalBinOp::Sub) => 3,
        SBinOp::SOp(_) => 3,
        SBinOp::NOp(_) => 4,
    }
}

/// An expression of level `lvl` starting at token `pos`, and the position
/// after it.
pub open spec fn p_bin(t: Seq<TokenV>, pos: int, lvl: int) -> Option<(SExprV, int)>
    decreases t.len() - pos, 8 - lvl, 2int,
{
    if lvl < 0 || lvl > 5 || pos < 0 || pos > t.len() {
        None
    } else if lvl == 5 {
        p_unary(t, pos)
    } else {
        match p_bin(t, pos, lvl + 1) {
            Some((lhs, p1)) => if pos < p1 <= t.len() {
                p_bin_rest(t, p1, lvl, lhs)
            } else {
                None
            },
            None => None,
        }
    }
}

/// The operators of level `lvl` and their right operands following `lhs`.
pub open spec fn p_bin_rest(t: Seq<TokenV>, pos: int, lvl: int, lhs: SExprV) -> Option<
    (SExprV, int),
>
    decreases t.len() - pos, 8 - lvl, 1int,
{
    if lvl < 0 || lvl > 4 || pos < 0 || pos > t.len() {
        None
    } else if pos < t.len() {
        match t[pos] {
            TokenV::Op(op) => if op_level(op) == lvl {
                match p_bin(t, pos + 1, lvl + 1) {
                    Some((rhs, p2)) => if pos + 1 < p2 <= t.len() {
                        p_bin_rest(t, p2, lvl, SExprV::BinOp(Box::new(lhs), Box::new(rhs), op))
                    } else {
                        None
                    },
                    None => None,
                }
            } else {
                Some((lhs, pos))
            },
            _ => Some((lhs, pos)),
        }
    } else {
        Some((lhs, pos))
    }
}

/// A negation or an indexed atom starting at `pos`.
pub open spec fn p_unary(t: Seq<TokenV>, pos: int) -> Option<(SExprV, int)>
    decreases t.len() - pos, 2int, 2int,
{
    if pos < 0 || pos >= t.len() {
        None
    } else if t[pos] == TokenV::Not {
        match p_unary(t, pos + 1) {
            Some((e, p)) => Some((SExprV::Not(Box::new(e)), p)),
            None => None,
        }
    } else {
        match p_atom(t, pos) {
            Some((e, p1)) => if pos < p1 <= t.len() {
                p_postfix(t, p1, e)
            } else {
                None
            },
            None => None,
        }
    }
}

/// The indexing suffixes `[k]` or `[-k]` following `e`.
pub open spec fn p_postfix(t: Seq<TokenV>, pos: int, e: SExprV) -> Option<(SExprV, int)>
    decreases t.len() - pos, 1int, 0int,
{
    if pos < 0 || pos > t.len() {
        None
    } else if pos + 2 < t.len() && t[pos] == TokenV::LBracket && t[pos + 1] is Int && t[pos
        + 2] == TokenV::RBracket {
        p_postfix(t, pos + 3, SExprV::SIndex(Box::new(e), t[pos + 1]->Int_0))
    } else if pos + 3 < t.len() && t[pos] == TokenV::LBracket && t[pos + 1] == TokenV::Op(
        SBinOp::NOp(NumericalBinOp::Sub),
    ) && t[pos + 2] is Int && t[pos + 3] == TokenV::RBracket {
        p_postfix(t, pos + 4, SExprV::SIndex(Box::new(e), -(t[pos + 2]->Int_0)))
    } else {
        Some((e, pos))
    }
}

/// An atom starting at `pos`.
pub open spec fn p_atom(t: Seq<TokenV>, pos: int) -> Option<(SExprV, int)>
    decreases t.len() - pos, 1int, 1int,
{
    if pos < 0 || pos >= t.len() {
        None
    } else {
        match t[pos] {
            TokenV::Int(n) => Some((SExprV::Val(ValueV::Int(n)), pos + 1)),
            TokenV::Float(s) => Some((SExprV::Val(ValueV::Float(s)), pos + 1)),
            TokenV::Str(s) => Some((SExprV::Val(ValueV::Str(s)), pos + 1)),
            TokenV::True => Some((SExprV::Val(ValueV::Bool(true)), pos + 1)),
            TokenV::False => Some((SExprV::Val(ValueV::Bool(false)), pos + 1)),
            TokenV::Ident(x) => Some((SExprV::Var(x), pos + 1)),
            TokenV::Op(SBinOp::NOp(NumericalBinOp::Sub)) => if pos + 1 < t.len() && t[pos
                + 1] is Int {
                Some((SExprV::Val(ValueV::Int(-(t[pos + 1]->Int_0))), pos + 2))
            } else {
                None
            },
            TokenV::LParen => match p_bin(t, pos + 1, 0) {
                Some((e, p1)) => if pos + 1 < p1 < t.len() && t[p1] == TokenV::RParen {
                    Some((e, p1 + 1))
                } else {
                    None
                },
                None => None,
            },
            TokenV::If => match p_bin(t, pos + 1, 0) {
                Some((c, p1)) => if pos + 1 < p1 < t.len() && t[p1] == TokenV::Then {
                    match p_bin(t, p1 + 1, 0) {
                        Some((a, p2)) => if p1 + 1 < p2 < t.len() && t[p2] == TokenV::Else {
                            match p_bin(t, p2 + 1, 0) {
                                Some((b, p3)) => Some(
                                    (SExprV::If(Box::new(c), Box::new(a), Box::new(b)), p3),
                                ),
                                None => None,
                            }
                        } else {
                            None
                        },
                        None => None,
                    }
                } else {
                    None
                },
                None => None,
            },
            _ => None,
        }
    }
}

/// The stream type named by a token.
pub open spec fn stream_type_named(t: TokenV) -> Option<StreamType> {
    match t {
        TokenV::Ident(w) => if w == seq!['I', 'n', 't'] {
            Some(StreamType::Int)
        } else if w == seq!['F', 'l', 'o', 'a', 't'] {
            Some(StreamType::Float)
        } else if w == seq!['S', 't', 'r'] {
            Some(StreamType::Str)
        } else if w == seq!['B', 'o', 'o', 'l'] {
            Some(StreamType::Bool)
        } else if w == seq!['U', 'n', 'i', 't'] {
            Some(StreamType::Unit)
        } else {
            None
        },
        _ => None,
    }
}

/// The optional `: TYPE` after a declared variable.
pub open spec fn p_annotation(t: Seq<TokenV>, pos: int) -> Option<(Option<StreamType>, int)> {
    if 0 <= pos && pos + 1 < t.len() && t[pos] == TokenV::Colon {
        match stream_type_named(t[pos + 1]) {
            Some(ty) => Some((Some(ty), pos + 2)),
            None => None,
        }
    } else if 0 <= pos < t.len() && t[pos] == TokenV::Colon {
        None
    } else {
        Some((None, pos))
    }
}

/// A statement starting at `pos`.
pub open spec fn p_stmt(t: Seq<TokenV>, pos: int) -> Option<(SStmtV, int)> {
    if pos < 0 || pos + 1 >= t.len() {
        None
    } else {
        match (t[pos], t[pos + 1]) {
            (TokenV::In, TokenV::Ident(x)) => match p_annotation(t, pos + 2) {
                Some((ty, p)) => Some((SStmtV::Input(x, ty), p)),
                None => None,
            },
            (TokenV::Out, TokenV::Ident(x)) => match p_annotation(t, pos + 2) {
                Some((ty, p)) => Some((SStmtV::Output(x, ty), p)),
                None => None,
            },
            (TokenV::Aux, TokenV::Ident(x)) => match p_annotation(t, pos + 2) {
                Some((ty, p)) => Some((SStmtV::Aux(x, ty), p)),
                None => None,
            },
            (TokenV::Ident(x), TokenV::Assign) => match p_bin(t, pos + 2, 0) {
                Some((e, p)) => Some((SStmtV::Assignment(x, e), p)),
                None => None,
            },
            _ => None,
        }
    }
}

/// The statements from `pos` to the end of the tokens.
pub open spec fn p_stmts(t: Seq<TokenV>, pos: int) -> Option<Seq<SStmtV>>
    decreases t.len() - pos,
{
    if pos < 0 || pos > t.len() {
        None
    } else if pos == t.len() {
        Some(Seq::empty())
    } else {
        match p_stmt(t, pos) {
            Some((s, p1)) => if pos < p1 <= t.len() {
                match p_stmts(t, p1) {
                    Some(rest) => Some(seq![s] + rest),
                    None => None,
                }
            } else {
                None
            },
            None => None,
        }
    }
}

/// The expression written by `input`, if it is one.
pub open spec fn spec_parse_sexpr(input: Seq<char>) -> Option<SExprV> {
    match lex(input) {
        Some(t) => match p_bin(t, 0, 0) {
            Some((e, p)) => if p == t.len() {
                Some(e)
            } else {
                None
            },
            None => None,
        },
        None => None,
    }
}

/// The statement written by `input`, if it is one.
pub open spec fn spec_parse_sstmt(input: Seq<char>) -> Option<SStmtV> {
    match lex(input) {
        Some(t) => match p_stmt(t, 0) {
            Some((s, p)) => if p == t.len() {
                Some(s)
            } else {
                None
            },
            None => None,
        },
        None => None,
    }
}

/// The statements written by `input`, if it is a sequence of them.
pub open spec fn spec_parse_sstmts(input: Seq<char>) -> Option<Seq<SStmtV>> {
    match lex(input) {
        Some(t) => p_stmts(t, 0),
        None => None,
    }
}

/// `m` with `x` given type `t`, if there is one.
pub open spec fn annotate(m: Map<Seq<char>, StreamType>, x: Seq<char>, t: Option<StreamType>) -> Map<
    Seq<char>,
    StreamType,
> {
    match t {
        Some(ty) => m.insert(x, ty),
        None => m,
    }
}

/// The specification declared by a sequence of statements: inputs and
/// outputs in declaration order (auxiliary streams are outputs too), the
/// last assignment and the last type given to each variable.
pub open spec fn spec_create(stmts: Seq<SStmtV>) -> SpecV
    decreases stmts.len(),
{
    if stmts.len() == 0 {
        SpecV {
            input_vars: Seq::empty(),
            output_vars: Seq::empty(),
            exprs: Map::empty(),
            type_annotations: Map::empty(),
            aux_info: Seq::empty(),
        }
    } else {
        let prev = spec_create(stmts.drop_last());
        match stmts.last() {
            SStmtV::Input(x, t) => SpecV {
                input_vars: prev.input_vars.push(x),
                output_vars: prev.output_vars,
                exprs: prev.exprs,
                type_annotations: annotate(prev.type_annotations, x, t),
                aux_info: prev.aux_info,
            },
            SStmtV::Output(x, t) => SpecV {
                input_vars: prev.input_vars,
                output_vars: prev.output_vars.push(x),
                exprs: prev.exprs,
                type_annotations: annotate(prev.type_annotations, x, t),
                aux_info: prev.aux_info,
            },
            SStmtV::Aux(x, t) => SpecV {
                input_vars: prev.input_vars,
                output_vars: prev.output_vars.push(x),
                exprs: prev.exprs,
                type_annotations: annotate(prev.type_annotations, x, t),
                aux_info: prev.aux_info.push(x),
            },
            SStmtV::Assignment(x, e) => SpecV {
                input_vars: prev.input_vars,
                output_vars: prev.output_vars,
                exprs: prev.exprs.insert(x, e),
                type_annotations: prev.type_annotations,
                aux_info: prev.aux_info,
            },
        }
    }
}

/// The specification written by `input`, if it is one.
pub open spec fn spec_parse_str(input: Seq<char>) -> Option<SpecV> {
    match spec_parse_sstmts(input) {
        Some(stmts) => Some(spec_create(stmts)),
        None => None,
    }
}

proof fn lemma_token_at(ts: Seq<Token>, i: int)
    requires
        0 <= i < ts.len(),
    ensures
        tokens_view(ts)[i] == ts[i]@,
        tokens_view(ts).len() == ts.len(),
{
}

/// Parse an expression of level `lvl` at token `pos`.
fn parse_bin(ts: &Vec<Token>, pos: usize, lvl: usize) -> (r: Option<(SExpr, usize)>)
    requires
        ints_nonneg(tokens_view(ts@)),
        pos <= ts.len(),
        lvl <= 5,
    ensures
        match r {
            Some((e, p)) => p_bin(tokens_view(ts@), pos as int, lvl as int) == Some(
                (e@, p as int),
            ),
            None => p_bin(tokens_view(ts@), pos as int, lvl as int) is None,
        },
    decreases ts.len() - pos, 8 - lvl, 2int,
{
    let ghost t = tokens_view(ts@);
    assert(t.len() == ts.len());
    if lvl == 5 {
        return parse_unary(ts, pos);
    }
    match parse_bin(ts, pos, lvl + 1) {
        Some((lhs, p1)) => {
            if pos < p1 && p1 <= ts.len() {
                parse_bin_rest(ts, p1, lvl, lhs)
            } else {
                None
            }
        },
        None => None,
    }
}

/// Parse the operators of level `lvl`, with their right operands, after `lhs`.
fn parse_bin_rest(ts: &Vec<Token>, pos: usize, lvl: usize, lhs: SExpr) -> (r: Option<
    (SExpr, usize),
>)
    requires
        ints_nonneg(tokens_view(ts@)),
        pos <= ts.len(),
        lvl <= 4,
    ensures
        match r {
            Some((e, p)) => p_bin_rest(tokens_view(ts@), pos as int, lvl as int, lhs@) == Some(
                (e@, p as int),
            ),
            None => p_bin_rest(tokens_view(ts@), pos as int, lvl as int, lhs@) is None,
        },
    decreases ts.len() - pos, 8 - lvl, 1int,
{
    let ghost t = tokens_view(ts@);
    assert(t.len() == ts.len());
    if pos < ts.len() {
        proof {
            lemma_token_at(ts@, pos as int);
        }
        match &ts[pos] {
            Token::Op(op) => {
                let op = *op;
                if op_level_exec(op) == lvl {
                    match parse_bin(ts, pos + 1, lvl + 1) {
                        Some((rhs, p2)) => {
                            if pos + 1 < p2 && p2 <= ts.len() {
                                let e = SExpr::BinOp(Box::new(lhs), Box::new(rhs), op);
                                parse_bin_rest(ts, p2, lvl, e)
                            } else {
                                None
                            }
                        },
                        None => None,
                    }
                } else {
                    Some((lhs, pos))
                }
            },
            _ => Some((lhs, pos)),
        }
    } else {
        Some((lhs, pos))
    }
}

/// Parse a negation or an indexed atom at `pos`.
fn parse_unary(ts: &Vec<Token>, pos: usize) -> (r: Option<(SExpr, usize)>)
    requires
        ints_nonneg(tokens_view(ts@)),
        pos <= ts.len(),
    ensures
        match r {
            Some((e, p)) => p_unary(tokens_view(ts@), pos as int) == Some((e@, p as int)),
            None => p_unary(tokens_view(ts@), pos as int) is None,
        },
    decreases ts.len() - pos, 2int, 2int,
{
    let ghost t = tokens_view(ts@);
    assert(t.len() == ts.len());
    if pos >= ts.len() {
        return None;
    }
    proof {
        lemma_token_at(ts@, pos as int);
    }
    let is_not = match &ts[pos] {
        Token::Not => true,
        _ => false,
    };
    if is_not {
        match parse_unary(ts, pos + 1) {
            Some((e, p)) => Some((SExpr::Not(Box::new(e)), p)),
            None => None,
        }
    } else {
        match parse_atom(ts, pos) {
            Some((e, p1)) => {
                if pos < p1 && p1 <= ts.len() {
                    parse_postfix(ts, p1, e)
                } else {
                    None
                }
            },
            None => None,
        }
    }
}

/// Whether token `i` is `tok` (a token without contents).
fn token_is(ts: &Vec<Token>, i: usize, tok: Token) -> (r: bool)
    requires
        i < ts.len(),
        !(tok is Ident) && !(tok is Int) && !(tok is Float) && !(tok is Str),
    ensures
        r == (tokens_view(ts@)[i as int] == tok@),
{
    proof {
        lemma_token_at(ts@, i as int);
    }
    match (&ts[i], tok) {
        (Token::In, Token::In) => true,
        (Token::Out, Token::Out) => true,
        (Token::Aux, Token::Aux) => true,
        (Token::If, Token::If) => true,
        (Token::Then, Token::Then) => true,
        (Token::Else, Token::Else) => true,
        (Token::True, Token::True) => true,
        (Token::False, Token::False) => true,
        (Token::Colon, Token::Colon) => true,
        (Token::Assign, Token::Assign) => true,
        (Token::Not, Token::Not) => true,
        (Token::LParen, Token::LParen) => true,
        (Token::RParen, Token::RParen) => true,
        (Token::LBracket, Token::LBracket) => true,
        (Token::RBracket, Token::RBracket) => true,
        (Token::Op(a), Token::Op(b)) => *a == b,
        _ => false,
    }
}

/// The integer of token `i`, if it is an integer token.
fn token_int(ts: &Vec<Token>, i: usize) -> (r: Option<i64>)
    requires
        i < ts.len(),
    ensures
        r matches Some(n) ==> tokens_view(ts@)[i as int] == TokenV::Int(n as int),
        ints_nonneg(tokens_view(ts@)) ==> (r matches Some(n) ==> n >= 0),
        r is None ==> !(tokens_view(ts@)[i as int] is Int),
{
    proof {
        lemma_token_at(ts@, i as int);
    }
    match &ts[i] {
        Token::Int(n) => Some(*n),
        _ => None,
    }
}

/// Parse the indexing suffixes following `e` at `pos`.
fn parse_postfix(ts: &Vec<Token>, pos: usize, e: SExpr) -> (r: Option<(SExpr, usize)>)
    requires
        ints_nonneg(tokens_view(ts@)),
        pos <= ts.len(),
    ensures
        match r {
            Some((x, p)) => p_postfix(tokens_view(ts@), pos as int, e@) == Some((x@, p as int)),
            None => p_postfix(tokens_view(ts@), pos as int, e@) is None,
        },
    decreases ts.len() - pos, 1int, 0int,
{
    let ghost t = tokens_view(ts@);
    assert(t.len() == ts.len());
    let n = ts.len();
    if n >= 3 && pos < n - 2 && token_is(ts, pos, Token::LBracket) && token_int(
        ts,
        pos + 1,
    ).is_some() && token_is(ts, pos + 2, Token::RBracket) {
        let k = token_int(ts, pos + 1).unwrap();
        return parse_postfix(ts, pos + 3, SExpr::SIndex(Box::new(e), k));
    }
    if n >= 4 && pos < n - 3 && token_is(ts, pos, Token::LBracket) && token_is(
        ts,
        pos + 1,
        Token::Op(SBinOp::NOp(NumericalBinOp::Sub)),
    ) && token_int(ts, pos + 2).is_some() && token_is(ts, pos + 3, Token::RBracket) {
        let k = token_int(ts, pos + 2).unwrap();
        proof {
            assert(t[pos + 2] == TokenV::Int(k as int));
        }
        return parse_postfix(ts, pos + 4, SExpr::SIndex(Box::new(e), -k));
    }
    Some((e, pos))
}

/// Parse an atom at `pos`.
fn parse_atom(ts: &Vec<Token>, pos: usize) -> (r: Option<(SExpr, usize)>)
    requires
        ints_nonneg(tokens_view(ts@)),
        pos <= ts.len(),
    ensures
        match r {
            Some((e, p)) => p_atom(tokens_view(ts@), pos as int) == Some((e@, p as int)),
            None => p_atom(tokens_view(ts@), pos as int) is None,
        },
    decreases ts.len() - pos, 1int, 1int,
{
    let ghost t = tokens_view(ts@);
    assert(t.len() == ts.len());
    let n = ts.len();
    if pos >= n {
        return None;
    }
    proof {
        lemma_token_at(ts@, pos as int);
    }
    match &ts[pos] {
        Token::Int(k) => Some((SExpr::Val(Value::Int(*k)), pos + 1)),
        Token::Float(s) => Some(
            (SExpr::Val(Value::Float(Decimal::from_text(s.clone()))), pos + 1),
        ),
        Token::Str(s) => Some((SExpr::Val(Value::Str(s.clone())), pos + 1)),
        Token::True => Some((SExpr::Val(Value::Bool(true)), pos + 1)),
        Token::False => Some((SExpr::Val(Value::Bool(false)), pos + 1)),
        Token::Ident(x) => Some((SExpr::Var(VarName::from_string(x.clone())), pos + 1)),
        Token::Op(SBinOp::NOp(NumericalBinOp::Sub)) => {
            if pos + 1 < n {
                match token_int(ts, pos + 1) {
                    Some(k) => Some((SExpr::Val(Value::Int(-k)), pos + 2)),
                    None => None,
                }
            } else {
                None
            }
        },
        Token::LParen => {
            match parse_bin(ts, pos + 1, 0) {
                Some((e, p1)) => {
                    if pos + 1 < p1 && p1 < n && token_is(ts, p1, Token::RParen) {
                        Some((e, p1 + 1))
                    } else {
                        None
                    }
                },
                None => None,
            }
        },
        Token::If => {
            match parse_bin(ts, pos + 1, 0) {
                Some((c, p1)) => {
                    if pos + 1 < p1 && p1 < n && token_is(ts, p1, Token::Then) {
                        match parse_bin(ts, p1 + 1, 0) {
                            Some((a, p2)) => {
                                if p1 + 1 < p2 && p2 < n && token_is(ts, p2, Token::Else) {
                                    match parse_bin(ts, p2 + 1, 0) {
                                        Some((b, p3)) => Some(
                                            (
                                                SExpr::If(Box::new(c), Box::new(a), Box::new(b)),
                                                p3,
                                            ),
                                        ),
                                        None => None,
                                    }
                                } else {
                                    None
                                }
                            },
                            None => None,
                        }
                    } else {
                        None
                    }
                },
                None => None,
            }
        },
        _ => None,
    }
}

/// The stream type named by token `i`.
fn parse_type_name(ts: &Vec<Token>, i: usize) -> (r: Option<StreamType>)
    requires
        i < ts.len(),
    ensures
        r == stream_type_named(tokens_view(ts@)[i as int]),
{
    proof {
        lemma_token_at(ts@, i as int);
    }
    match &ts[i] {
        Token::Ident(w) => {
            let cs = crate::text::str_chars(w.as_str());
            let ghost ws = w@;
            let n = cs.len();
            if n == 3 && cs[0] == 'I' && cs[1] == 'n' && cs[2] == 't' {
                assert(ws =~= seq!['I', 'n', 't']);
                Some(StreamType::Int)
            } else if n == 5 && cs[0] == 'F' && cs[1] == 'l' && cs[2] == 'o' && cs[3] == 'a'
                && cs[4] == 't' {
                assert(ws =~= seq!['F', 'l', 'o', 'a', 't']);
                Some(StreamType::Float)
            } else if n == 3 && cs[0] == 'S' && cs[1] == 't' && cs[2] == 'r' {
                assert(ws =~= seq!['S', 't', 'r']);
                Some(StreamType::Str)
            } else if n == 4 && cs[0] == 'B' && cs[1] == 'o' && cs[2] == 'o' && cs[3] == 'l' {
                assert(ws =~= seq!['B', 'o', 'o', 'l']);
                Some(StreamType::Bool)
            } else if n == 4 && cs[0] == 'U' && cs[1] == 'n' && cs[2] == 'i' && cs[3] == 't' {
                assert(ws =~= seq!['U', 'n', 'i', 't']);
                Some(StreamType::Unit)
            } else {
                proof {
                    if n == 3 {
                        assert(ws[0] == cs@[0] && ws[1] == cs@[1] && ws[2] == cs@[2]);
                    }
                    if n == 4 {
                        assert(ws[0] == cs@[0] && ws[1] == cs@[1] && ws[2] == cs@[2] && ws[3]
                            == cs@[3]);
                    }
                    if n == 5 {
                        assert(ws[0] == cs@[0] && ws[1] == cs@[1] && ws[2] == cs@[2] && ws[3]
                            == cs@[3] && ws[4] == cs@[4]);
                    }
                }
                None
            }
        },
        _ => None,
    }
}

/// Parse the optional `: TYPE` at `pos`.
fn parse_annotation(ts: &Vec<Token>, pos: usize) -> (r: Option<(Option<StreamType>, usize)>)
    requires
        pos <= ts.len(),
    ensures
        match r {
            Some((ty, p)) => p_annotation(tokens_view(ts@), pos as int) == Some((ty, p as int)),
            None => p_annotation(tokens_view(ts@), pos as int) is None,
        },
{
    let ghost t = tokens_view(ts@);
    assert(t.len() == ts.len());
    let n = ts.len();
    if pos < n && token_is(ts, pos, Token::Colon) {
        if pos + 1 < n {
            match parse_type_name(ts, pos + 1) {
                Some(ty) => Some((Some(ty), pos + 2)),
                None => None,
            }
        } else {
            None
        }
    } else {
        Some((None, pos))
    }
}

/// Parse a statement at `pos`.
fn parse_stmt_at(ts: &Vec<Token>, pos: usize) -> (r: Option<(SStmt, usize)>)
    requires
        ints_nonneg(tokens_view(ts@)),
        pos <= ts.len(),
    ensures
        match r {
            Some((s, p)) => p_stmt(tokens_view(ts@), pos as int) == Some((s@, p as int)),
            None => p_stmt(tokens_view(ts@), pos as int) is None,
        },
{
    let ghost t = tokens_view(ts@);
    assert(t.len() == ts.len());
    let n = ts.len();
    if n < 2 || pos >= n - 1 {
        return None;
    }
    proof {
        lemma_token_at(ts@, pos as int);
        lemma_token_at(ts@, pos + 1);
    }
    match (&ts[pos], &ts[pos + 1]) {
        (Token::In, Token::Ident(x)) => {
            match parse_annotation(ts, pos + 2) {
                Some((ty, p)) => Some((SStmt::Input(VarName::from_string(x.clone()), ty), p)),
                None => None,
            }
        },
        (Token::Out, Token::Ident(x)) => {
            match parse_annotation(ts, pos + 2) {
                Some((ty, p)) => Some((SStmt::Output(VarName::from_string(x.clone()), ty), p)),
                None => None,
            }
        },
        (Token::Aux, Token::Ident(x)) => {
            match parse_annotation(ts, pos + 2) {
                Some((ty, p)) => Some((SStmt::Aux(VarName::from_string(x.clone()), ty), p)),
                None => None,
            }
        },
        (Token::Ident(x), Token::Assign) => {
            match parse_bin(ts, pos + 2, 0) {
                Some((e, p)) => Some((SStmt::Assignment(VarName::from_string(x.clone()), e), p)),
                None => None,
            }
        },
        _ => None,
    }
}

/// Parse the statements from `pos` to the end.
fn parse_stmts_from(ts: &Vec<Token>, pos: usize) -> (r: Option<Vec<SStmt>>)
    requires
        ints_nonneg(tokens_view(ts@)),
        pos <= ts.len(),
    ensures
        match r {
            Some(ss) => p_stmts(tokens_view(ts@), pos as int) == Some(stmts_view(ss@)),
            None => p_stmts(tokens_view(ts@), pos as int) is None,
        },
{
    let ghost t = tokens_view(ts@);
    assert(t.len() == ts.len());
    let mut out: Vec<SStmt> = Vec::new();
    let mut p = pos;
    while p < ts.len()
        invariant
            pos <= p <= ts.len(),
            t == tokens_view(ts@),
            t.len() == ts.len(),
            ints_nonneg(t),
            p_stmts(t, pos as int) == match p_stmts(t, p as int) {
                Some(rest) => Some(stmts_view(out@) + rest),
                None => None::<Seq<SStmtV>>,
            },
        decreases ts.len() - p,
    {
        match parse_stmt_at(ts, p) {
            Some((s, p1)) => {
                if p < p1 && p1 <= ts.len() {
                    let ghost sv = s@;
                    let ghost before = out@;
                    out.push(s);
                    proof {
                        assert(stmts_view(out@) =~= stmts_view(before) + seq![sv]);
                        match p_stmts(t, p1 as int) {
                            Some(rest) => {
                                assert(stmts_view(before) + (seq![sv] + rest) =~= stmts_view(
                                    out@,
                                ) + rest);
                            },
                            None => {},
                        }
                    }
                    p = p1;
                } else {
                    return None;
                }
            },
            None => {
                return None;
            },
        }
    }
    assert(stmts_view(out@) + Seq::<SStmtV>::empty() =~= stmts_view(out@));
    Some(out)
}

/// Parse a single expression, such as `1 + (x)[-1]`.
pub fn parse_sexpr(input: &str) -> (r: Result<SExpr, ParseError>)
    ensures
        r matches Ok(e) ==> spec_parse_sexpr(input@) == Some(e@),
        r is Err ==> spec_parse_sexpr(input@) is None,
        r == Err::<SExpr, ParseError>(ParseError::Lexical) <==> lex(input@) is None,
{
    proof {
        lemma_lex_ints_nonneg(input@);
    }
    match tokenize(input) {
        Some(ts) => {
            match parse_bin(&ts, 0, 0) {
                Some((e, p)) => {
                    if p == ts.len() {
                        Ok(e)
                    } else {
                        Err(ParseError::Syntax)
                    }
                },
                None => Err(ParseError::Syntax),
            }
        },
        None => Err(ParseError::Lexical),
    }
}

/// Parse a single statement, such as `in x: Int` or `z = x + y`.
pub fn parse_sstmt(input: &str) -> (r: Result<SStmt, ParseError>)
    ensures
        r matches Ok(s) ==> spec_parse_sstmt(input@) == Some(s@),
        r is Err ==> spec_parse_sstmt(input@) is None,
        r == Err::<SStmt, ParseError>(ParseError::Lexical) <==> lex(input@) is None,
{
    proof {
        lemma_lex_ints_nonneg(input@);
    }
    match tokenize(input) {
        Some(ts) => {
            match parse_stmt_at(&ts, 0) {
                Some((s, p)) => {
                    if p == ts.len() {
                        Ok(s)
                    } else {
                        Err(ParseError::Syntax)
                    }
                },
                None => Err(ParseError::Syntax),
            }
        },
        None => Err(ParseError::Lexical),
    }
}

/// Parse a sequence of statements.
pub fn parse_sstmts(input: &str) -> (r: Result<Vec<SStmt>, ParseError>)
    ensures
        r matches Ok(ss) ==> spec_parse_sstmts(input@) == Some(stmts_view(ss@)),
        r is Err ==> spec_parse_sstmts(input@) is None,
        r == Err::<Vec<SStmt>, ParseError>(ParseError::Lexical) <==> lex(input@) is None,
{
    proof {
        lemma_lex_ints_nonneg(input@);
    }
    match tokenize(input) {
        Some(ts) => {
            match parse_stmts_from(&ts, 0) {
                Some(ss) => Ok(ss),
                None => Err(ParseError::Syntax),
            }
        },
        None => Err(ParseError::Lexical),
    }
}

/// The specification declared by `stmts`.
pub fn create_lola_spec(stmts: &Vec<SStmt>) -> (r: LOLASpecification)
    ensures
        r@ == spec_create(stmts_view(stmts@)),
{
    let mut inputs: Vec<VarName> = Vec::new();
    let mut outputs: Vec<VarName> = Vec::new();
    let mut aux_info: Vec<VarName> = Vec::new();
    let mut exprs: VarMap<SExpr> = VarMap::new();
    let mut types: VarMap<StreamType> = VarMap::new();
    let mut i: usize = 0;
    while i < stmts.len()
        invariant
            i <= stmts.len(),
            ({
                let sv = spec_create(stmts_view(stmts@).subrange(0, i as int));
                &&& var_views(inputs@) == sv.input_vars
                &&& var_views(outputs@) == sv.output_vars
                &&& var_views(aux_info@) == sv.aux_info
                &&& exprs@ == sv.exprs
                &&& types@ == sv.type_annotations
            }),
        decreases stmts.len() - i,
    {
        let ghost prefix = stmts_view(stmts@).subrange(0, i + 1);
        proof {
            assert(prefix.drop_last() =~= stmts_view(stmts@).subrange(0, i as int));
            assert(prefix.last() == stmts@[i as int]@);
        }
        let ghost in0 = inputs@;
        let ghost out0 = outputs@;
        let ghost aux0 = aux_info@;
        match &stmts[i] {
            SStmt::Input(x, t) => {
                inputs.push(x.duplicate());
                if let Some(ty) = t {
                    types.insert(x.duplicate(), *ty);
                }
                assert(var_views(inputs@) =~= var_views(in0).push(x@));
            },
            SStmt::Output(x, t) => {
                outputs.push(x.duplicate());
                if let Some(ty) = t {
                    types.insert(x.duplicate(), *ty);
                }
                assert(var_views(outputs@) =~= var_views(out0).push(x@));
            },
            SStmt::Aux(x, t) => {
                outputs.push(x.duplicate());
                aux_info.push(x.duplicate());
                if let Some(ty) = t {
                    types.insert(x.duplicate(), *ty);
                }
                assert(var_views(outputs@) =~= var_views(out0).push(x@));
                assert(var_views(aux_info@) =~= var_views(aux0).push(x@));
            },
            SStmt::Assignment(x, e) => {
                exprs.insert(x.duplicate(), e.duplicate());
            },
        }
        i = i + 1;
    }
    assert(stmts_view(stmts@).subrange(0, stmts.len() as int) =~= stmts_view(stmts@));
    LOLASpecification {
        input_vars: inputs,
        output_vars: outputs,
        exprs,
        type_annotations: types,
        aux_info,
    }
}

/// Why a specification text could not be parsed, with the text itself.
#[derive(Debug, Clone, PartialEq, Eq)]
pub struct SpecParseError {
    /// What went wrong.
    pub cause: ParseError,
    /// The text that was being parsed.
    pub input: String,
}

impl SpecParseError {
    /// The error as a message naming the text.
    pub fn message(&self) -> (r: String)
        ensures
            r@ == "Failed to parse input "@ + self.input@,
    {
        let prefix = string_from_str("Failed to parse input ");
        string_concat(&prefix, &self.input)
    }
}

/// Parse a whole specification text; an error keeps the text that failed.
pub fn parse_str(input: &str) -> (r: Result<LOLASpecification, SpecParseError>)
    ensures
        r matches Ok(s) ==> spec_parse_str(input@) == Some(s@),
        r is Err ==> spec_parse_str(input@) is None && r->Err_0.input@ == input@,
        (r is Err && r->Err_0.cause == ParseError::Lexical) <==> lex(input@) is None,
{
    match parse_sstmts(input) {
        Ok(stmts) => Ok(create_lola_spec(&stmts)),
        Err(e) => Err(SpecParseError { cause: e, input: string_from_str(input) }),
    }
}

} // verus!
