//! Abstract syntax of DynSRV/LOLA specifications.
use vstd::prelude::*;

use crate::interfaces::Specification;

use crate::values::{StreamType, Value, ValueV};
use crate::variables::{VarName, copy_vars, var_views};
use crate::varmap::{Duplicate, VarMap};

verus! {

/// Arithmetic operators.
#[derive(Debug, Clone, Copy, PartialEq, Eq, Structural)]
pub enum NumericalBinOp {
    Add,
    Sub,
    Mul,
    Div,
    Mod,
}

/// Boolean connectives.
#[derive(Debug, Clone, Copy, PartialEq, Eq, Structural)]
pub enum BoolBinOp {
    Or,
    And,
}

/// String operators.
#[derive(Debug, Clone, Copy, PartialEq, Eq, Structural)]
pub enum StrBinOp {
    Concat,
}

/// Comparisons.
#[derive(Debug, Clone, Copy, PartialEq, Eq, Structural)]
pub enum CompBinOp {
    Eq,
    Le,
    Lt,
    Ge,
    Gt,
}

/// A binary operator of stream expressions.
#[derive(Debug, Clone, Copy, PartialEq, Eq, Structural)]
pub enum SBinOp {
    NOp(NumericalBinOp),
    BOp(BoolBinOp),
    SOp(StrBinOp),
    COp(CompBinOp),
}

/// The operator written as `symbol`.
pub open spec fn spec_symbol_op(symbol: Seq<char>) -> Option<SBinOp> {
    if symbol == seq!['+'] {
        Some(SBinOp::NOp(NumericalBinOp::Add))
    } else if symbol == seq!['-'] {
        Some(SBinOp::NOp(NumericalBinOp::Sub))
    } else if symbol == seq!['*'] {
        Some(SBinOp::NOp(NumericalBinOp::Mul))
    } else if symbol == seq!['/'] {
        Some(SBinOp::NOp(NumericalBinOp::Div))
    } else if symbol == seq!['%'] {
        Some(SBinOp::NOp(NumericalBinOp::Mod))
    } else if symbol == seq!['|', '|'] {
        Some(SBinOp::BOp(BoolBinOp::Or))
    } else if symbol == seq!['&', '&'] {
        Some(SBinOp::BOp(BoolBinOp::And))
    } else if symbol == seq!['+', '+'] {
        Some(SBinOp::SOp(StrBinOp::Concat))
    } else if symbol == seq!['=', '='] {
        Some(SBinOp::COp(CompBinOp::Eq))
    } else if symbol == seq!['<', '='] {
        Some(SBinOp::COp(CompBinOp::Le))
    } else if symbol == seq!['<'] {
        Some(SBinOp::COp(CompBinOp::Lt))
    } else if symbol == seq!['>', '='] {
        Some(SBinOp::COp(CompBinOp::Ge))
    } else if symbol == seq!['>'] {
        Some(SBinOp::COp(CompBinOp::Gt))
    } else {
        None
    }
}

impl SBinOp {
    /// The operator written as `symbol` (such as `+` or `&&`), if there is one.
    pub fn from_symbol(symbol: &str) -> (r: Option<SBinOp>)
        ensures
            r == spec_symbol_op(symbol@),
    {
        let cs = crate::text::str_chars(symbol);
        let n = cs.len();
        if n == 1 {
            let c = cs[0];
            proof {
                assert(symbol@ =~= seq![c]);
            }
            if c == '+' {
                Some(SBinOp::NOp(NumericalBinOp::Add))
            } else if c == '-' {
                Some(SBinOp::NOp(NumericalBinOp::Sub))
            } else if c == '*' {
                Some(SBinOp::NOp(NumericalBinOp::Mul))
            } else if c == '/' {
                Some(SBinOp::NOp(NumericalBinOp::Div))
            } else if c == '%' {
                Some(SBinOp::NOp(NumericalBinOp::Mod))
            } else if c == '<' {
                Some(SBinOp::COp(CompBinOp::Lt))
            } else if c == '>' {
                Some(SBinOp::COp(CompBinOp::Gt))
            } else {
                None
            }
        } else if n == 2 {
            let c = cs[0];
            let d = cs[1];
            proof {
                assert(symbol@ =~= seq![c, d]);
            }
            if c == '|' && d == '|' {
                Some(SBinOp::BOp(BoolBinOp::Or))
            } else if c == '&' && d == '&' {
                Some(SBinOp::BOp(BoolBinOp::And))
            } else if c == '+' && d == '+' {
                Some(SBinOp::SOp(StrBinOp::Concat))
            } else if c == '=' && d == '=' {
                Some(SBinOp::COp(CompBinOp::Eq))
            } else if c == '<' && d == '=' {
                Some(SBinOp::COp(CompBinOp::Le))
            } else if c == '>' && d == '=' {
                Some(SBinOp::COp(CompBinOp::Ge))
            } else {
                None
            }
        } else {
            proof {
                assert(symbol@.len() != 1 && symbol@.len() != 2);
                assert(symbol@ != seq!['+']);
                assert(symbol@ != seq!['|', '|']);
            }
            None
        }
    }
}

/// A stream expression.
#[derive(Debug, PartialEq)]
pub enum SExpr {
    /// A constant.
    Val(Value),
    /// A stream variable.
    Var(VarName),
    /// A binary operation.
    BinOp(Box<SExpr>, Box<SExpr>, SBinOp),
    /// A conditional.
    If(Box<SExpr>, Box<SExpr>, Box<SExpr>),
    /// The stream shifted by a number of steps.
    SIndex(Box<SExpr>, i64),
    /// Boolean negation.
    Not(Box<SExpr>),
}

/// The mathematical content of an [`SExpr`].
pub ghost enum SExprV {
    Val(ValueV),
    Var(Seq<char>),
    BinOp(Box<SExprV>, Box<SExprV>, SBinOp),
    If(Box<SExprV>, Box<SExprV>, Box<SExprV>),
    SIndex(Box<SExprV>, int),
    Not(Box<SExprV>),
}

/// The content of an expression.
pub open spec fn expr_view(e: &SExpr) -> SExprV
    decreases e,
{
    match e {
        SExpr::Val(v) => SExprV::Val(v@),
        SExpr::Var(x) => SExprV::Var(x@),
        SExpr::BinOp(a, b, op) => SExprV::BinOp(
            Box::new(expr_view(a)),
            Box::new(expr_view(b)),
            *op,
        ),
        SExpr::If(c, t, f) => SExprV::If(
            Box::new(expr_view(c)),
            Box::new(expr_view(t)),
            Box::new(expr_view(f)),
        ),
        SExpr::SIndex(a, k) => SExprV::SIndex(Box::new(expr_view(a)), *k as int),
        SExpr::Not(a) => SExprV::Not(Box::new(expr_view(a))),
    }
}

impl View for SExpr {
    type V = SExprV;

    open spec fn view(&self) -> SExprV {
        expr_view(self)
    }
}

/// The variables an expression reads, from left to right, with repetitions.
pub open spec fn expr_inputs(e: SExprV) -> Seq<Seq<char>>
    decreases e,
{
    match e {
        SExprV::Val(_) => Seq::empty(),
        SExprV::Var(x) => seq![x],
        SExprV::BinOp(a, b, _) => expr_inputs(*a) + expr_inputs(*b),
        SExprV::If(c, t, f) => expr_inputs(*c) + expr_inputs(*t) + expr_inputs(*f),
        SExprV::SIndex(a, _) => expr_inputs(*a),
        SExprV::Not(a) => expr_inputs(*a),
    }
}

impl Duplicate for SExpr {
    fn duplicate(&self) -> (r: SExpr)
        decreases self,
    {
        match self {
            SExpr::Val(v) => SExpr::Val(v.duplicate()),
            SExpr::Var(x) => SExpr::Var(x.duplicate()),
            SExpr::BinOp(a, b, op) => SExpr::BinOp(
                Box::new(a.duplicate()),
                Box::new(b.duplicate()),
                *op,
            ),
            SExpr::If(c, t, f) => SExpr::If(
                Box::new(c.duplicate()),
                Box::new(t.duplicate()),
                Box::new(f.duplicate()),
            ),
            SExpr::SIndex(a, k) => SExpr::SIndex(Box::new(a.duplicate()), *k),
            SExpr::Not(a) => SExpr::Not(Box::new(a.duplicate())),
        }
    }
}

impl SExpr {
    /// The variables this expression reads, from left to right, with repetitions.
    pub fn inputs(&self) -> (r: Vec<VarName>)
        ensures
            var_views(r@) == expr_inputs(self@),
    {
        let mut out: Vec<VarName> = Vec::new();
        self.collect_inputs(&mut out);
        assert(var_views(out@) =~= expr_inputs(self@));
        out
    }

    /// Append the variables this expression reads to `out`.
    fn collect_inputs(&self, out: &mut Vec<VarName>)
        ensures
            var_views(final(out)@) == var_views(old(out)@) + expr_inputs(self@),
        decreases self,
    {
        match self {
            SExpr::Val(_) => {
                assert(var_views(out@) =~= var_views(out@) + expr_inputs(self@));
            },
            SExpr::Var(x) => {
                let ghost before = out@;
                out.push(x.duplicate());
                assert(var_views(out@) =~= var_views(before) + expr_inputs(self@));
            },
            SExpr::BinOp(a, b, _) => {
                let ghost before = out@;
                a.collect_inputs(out);
                b.collect_inputs(out);
                assert(var_views(out@) =~= var_views(before) + expr_inputs(self@));
            },
            SExpr::If(c, t, f) => {
                let ghost before = out@;
                c.collect_inputs(out);
                t.collect_inputs(out);
                f.collect_inputs(out);
                assert(var_views(out@) =~= var_views(before) + expr_inputs(self@));
            },
            SExpr::SIndex(a, _) => {
                a.collect_inputs(out);
            },
            SExpr::Not(a) => {
                a.collect_inputs(out);
            },
        }
    }
}

/// A statement of a specification.
#[derive(Debug, PartialEq)]
pub enum SStmt {
    /// `in x` or `in x: T`.
    Input(VarName, Option<StreamType>),
    /// `out x` or `out x: T`.
    Output(VarName, Option<StreamType>),
    /// `aux x` or `aux x: T`.
    Aux(VarName, Option<StreamType>),
    /// `x = e`.
    Assignment(VarName, SExpr),
}

/// The mathematical content of an [`SStmt`].
pub ghost enum SStmtV {
    Input(Seq<char>, Option<StreamType>),
    Output(Seq<char>, Option<StreamType>),
    Aux(Seq<char>, Option<StreamType>),
    Assignment(Seq<char>, SExprV),
}

impl View for SStmt {
    type V = SStmtV;

    open spec fn view(&self) -> SStmtV {
        match self {
            SStmt::Input(x, t) => SStmtV::Input(x@, *t),
            SStmt::Output(x, t) => SStmtV::Output(x@, *t),
            SStmt::Aux(x, t) => SStmtV::Aux(x@, *t),
            SStmt::Assignment(x, e) => SStmtV::Assignment(x@, e@),
        }
    }
}

/// The contents of a sequence of statements.
pub open spec fn stmts_view(s: Seq<SStmt>) -> Seq<SStmtV> {
    s.map_values(|st: SStmt| st@)
}

/// A specification: its input and output streams, the expression defining
/// each output, the declared stream types, and which outputs are auxiliary.
#[derive(Debug, PartialEq)]
pub struct LOLASpecification {
    pub input_vars: Vec<VarName>,
    pub output_vars: Vec<VarName>,
    pub exprs: VarMap<SExpr>,
    pub type_annotations: VarMap<StreamType>,
    pub aux_info: Vec<VarName>,
}

/// The mathematical content of a [`LOLASpecification`].
pub ghost struct SpecV {
    pub input_vars: Seq<Seq<char>>,
    pub output_vars: Seq<Seq<char>>,
    pub exprs: Map<Seq<char>, SExprV>,
    pub type_annotations: Map<Seq<char>, StreamType>,
    pub aux_info: Seq<Seq<char>>,
}

impl View for LOLASpecification {
    type V = SpecV;

    open spec fn view(&self) -> SpecV {
        SpecV {
            input_vars: var_views(self.input_vars@),
            output_vars: var_views(self.output_vars@),
            exprs: self.exprs@,
            type_annotations: self.type_annotations@,
            aux_info: var_views(self.aux_info@),
        }
    }
}

impl LOLASpecification {
    /// The specification made of the given parts.
    pub fn new(
        input_vars: Vec<VarName>,
        output_vars: Vec<VarName>,
        exprs: VarMap<SExpr>,
        type_annotations: VarMap<StreamType>,
        aux_info: Vec<VarName>,
    ) -> (r: LOLASpecification)
        ensures
            r.input_vars@ == input_vars@,
            r.output_vars@ == output_vars@,
            r.exprs == exprs,
            r.type_annotations == type_annotations,
            r.aux_info@ == aux_info@,
    {
        LOLASpecification { input_vars, output_vars, exprs, type_annotations, aux_info }
    }
}

impl Specification for LOLASpecification {
    type Expr = SExpr;

    open spec fn spec_input_vars(&self) -> Seq<Seq<char>> {
        self@.input_vars
    }

    open spec fn spec_output_vars(&self) -> Seq<Seq<char>> {
        self@.output_vars
    }

    /// The input variables, in declaration order.
    fn input_vars(&self) -> (r: Vec<VarName>) {
        copy_vars(&self.input_vars)
    }

    /// The output variables, in declaration order.
    fn output_vars(&self) -> (r: Vec<VarName>) {
        copy_vars(&self.output_vars)
    }

    /// The expression defining `var`, if it has one.
    fn var_expr(&self, var: &VarName) -> (r: Option<SExpr>)
        ensures
            r matches Some(e) ==> self@.exprs.contains_key(var@) && e@ == self@.exprs[var@],
            r is None ==> !self@.exprs.contains_key(var@),
    {
        match self.exprs.get(var) {
            Some(e) => Some(e.duplicate()),
            None => None,
        }
    }
}

} // verus!
