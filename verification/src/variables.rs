//! Variable names of specifications.
//!
//! A variable name behaves exactly like the string it was made from: two
//! names are equal when their strings are, and the string can always be
//! read back.
use vstd::prelude::*;

use crate::text::{string_eq, string_from_str};

verus! {

/// The name of a stream variable.
#[derive(Debug, Hash, PartialOrd, Ord)]
pub struct VarName {
    name: String,
}

impl View for VarName {
    type V = Seq<char>;

    closed spec fn view(&self) -> Seq<char> {
        self.name@
    }
}

impl VarName {
    /// The variable called `name`.
    pub fn new(name: &str) -> (r: VarName)
        ensures
            r@ == name@,
    {
        VarName { name: string_from_str(name) }
    }

    /// The variable called `name`, taking ownership of the string.
    pub fn from_string(name: String) -> (r: VarName)
        ensures
            r@ == name@,
    {
        VarName { name }
    }

    /// The string this variable stands for.
    pub fn name(&self) -> (r: String)
        ensures
            r@ == self@,
    {
        self.name.clone()
    }

    /// A borrowed view of the string this variable stands for.
    pub fn as_string(&self) -> (r: &String)
        ensures
            r@ == self@,
    {
        &self.name
    }

    /// Another variable with the same name.
    pub fn duplicate(&self) -> (r: VarName)
        ensures
            r@ == self@,
    {
        VarName { name: self.name.clone() }
    }

    /// Whether both variables have the same name.
    pub fn same_as(&self, other: &VarName) -> (r: bool)
        ensures
            r == (self@ == other@),
    {
        string_eq(&self.name, &other.name)
    }
}

impl Clone for VarName {
    fn clone(&self) -> (r: Self)
        ensures
            r@ == self@,
    {
        self.duplicate()
    }
}

impl PartialEq for VarName {
    fn eq(&self, other: &Self) -> (r: bool) {
        self.same_as(other)
    }
}

impl vstd::std_specs::cmp::PartialEqSpecImpl for VarName {
    open spec fn obeys_eq_spec() -> bool {
        true
    }

    open spec fn eq_spec(&self, other: &Self) -> bool {
        self@ == other@
    }
}

impl Eq for VarName {
}

/// Whether `v` names one of the variables in `vs`.
pub fn contains_var(vs: &Vec<VarName>, v: &VarName) -> (r: bool)
    ensures
        r == var_views(vs@).contains(v@),
{
    let mut i: usize = 0;
    while i < vs.len()
        invariant
            i <= vs.len(),
            forall|j: int| 0 <= j < i ==> vs@[j]@ != v@,
        decreases vs.len() - i,
    {
        if vs[i].same_as(v) {
            assert(var_views(vs@)[i as int] == v@);
            return true;
        }
        i = i + 1;
    }
    assert forall|j: int| 0 <= j < var_views(vs@).len() implies var_views(vs@)[j] != v@ by {}
    false
}

/// The names, as strings, of a sequence of variables.
pub open spec fn var_views(vs: Seq<VarName>) -> Seq<Seq<char>> {
    vs.map_values(|v: VarName| v@)
}

/// A copy of a list of variables.
pub fn copy_vars(vs: &Vec<VarName>) -> (r: Vec<VarName>)
    ensures
        var_views(r@) == var_views(vs@),
{
    let mut r: Vec<VarName> = Vec::new();
    let mut i: usize = 0;
    while i < vs.len()
        invariant
            i <= vs.len(),
            r@.len() == i,
            forall|j: int| 0 <= j < i ==> #[trigger] r@[j]@ == vs@[j]@,
        decreases vs.len() - i,
    {
        r.push(vs[i].duplicate());
        i = i + 1;
    }
    assert(var_views(r@) =~= var_views(vs@));
    r
}

} // verus!
