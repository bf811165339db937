//! The interfaces shared by specifications, monitors and their runtimes.
use vstd::prelude::*;

use crate::variables::{VarName, var_views};

verus! {

/// The semantics with which a specification is evaluated.
#[derive(Debug, Clone, Copy, PartialEq, Eq, Structural, PartialOrd, Ord)]
pub enum Semantics {
    Untimed,
    TypedUntimed,
}

/// The runtime that runs a monitor.
#[derive(Debug, Clone, Copy, PartialEq, Eq, Structural, PartialOrd, Ord)]
pub enum Runtime {
    Async,
    Constraints,
    Distributed,
    ReconfigurableAsync,
}

/// Values that can flow along streams.
pub trait StreamData {
}

/// A specification: its input and output variables and the expression that
/// defines each output.
pub trait Specification: Sized {
    /// The expressions of the specification.
    type Expr;

    /// The input variables, in order.
    spec fn spec_input_vars(&self) -> Seq<Seq<char>>;

    /// The output variables, in order.
    spec fn spec_output_vars(&self) -> Seq<Seq<char>>;

    /// The input variables, in order.
    fn input_vars(&self) -> (r: Vec<VarName>)
        ensures
            var_views(r@) == self.spec_input_vars(),
    ;

    /// The output variables, in order.
    fn output_vars(&self) -> (r: Vec<VarName>)
        ensures
            var_views(r@) == self.spec_output_vars(),
    ;

    /// The input variables followed by the output variables.
    fn var_names(&self) -> (r: Vec<VarName>)
        ensures
            var_views(r@) == self.spec_input_vars() + self.spec_output_vars(),
    {
        let mut r = self.input_vars();
        let mut outs = self.output_vars();
        let ghost a = r@;
        let ghost b = outs@;
        r.append(&mut outs);
        assert(var_views(r@) =~= var_views(a) + var_views(b));
        r
    }

    /// The expression that defines `var`, if it has one.
    fn var_expr(&self, var: &VarName) -> Option<Self::Expr>;
}

/// A monitor for a specification of type `M` over values of type `V`.
pub trait Monitor<M, V: StreamData> {
    /// The specification monitored.
    fn spec(&self) -> &M;
}

} // verus!
