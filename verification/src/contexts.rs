//! What the distributed stream combinators compute from each labelled graph.
use vstd::prelude::*;

use crate::distribution_graphs::{
    LabelledDistributionGraph, NodeName, TaggedVarOrNodeName, first_node, has_node,
    labelled_with, tagged_view,
};
use crate::text::string_eq;
use crate::variables::{VarName, contains_var, var_views};

verus! {

/// What a name stands for: a location when some location has that name, else
/// a variable when some variable has it, else nothing.
pub open spec fn spec_disambiguate(
    node_names: Seq<Seq<char>>,
    var_names: Seq<Seq<char>>,
    name: Seq<char>,
) -> Option<(bool, Seq<char>)> {
    if node_names.contains(name) {
        Some((true, name))
    } else if var_names.contains(name) {
        Some((false, name))
    } else {
        None
    }
}

/// Tells whether `name` is one of the locations (checked first) or one of
/// the variables.
pub fn disambiguate_name(node_names: &Vec<NodeName>, var_names: &Vec<VarName>, name: &String) -> (r:
    Option<TaggedVarOrNodeName>)
    ensures
        r matches Some(t) ==> spec_disambiguate(
            node_views_of(node_names@),
            var_views(var_names@),
            name@,
        ) == Some(tagged_view(t)),
        r is None ==> spec_disambiguate(node_views_of(node_names@), var_views(var_names@), name@) is None,
{
    let mut i: usize = 0;
    while i < node_names.len()
        invariant
            i <= node_names@.len(),
            forall|j: int| 0 <= j < i ==> node_names@[j]@ != name@,
        decreases node_names@.len() - i,
    {
        if string_eq(&node_names[i].name(), name) {
            assert(node_views_of(node_names@)[i as int] == name@);
            return Some(TaggedVarOrNodeName::NodeName(NodeName::from_string(name.clone())));
        }
        i = i + 1;
    }
    assert(!node_views_of(node_names@).contains(name@)) by {
        if node_views_of(node_names@).contains(name@) {
            let j = choose|j: int| 0 <= j < node_names@.len() && node_views_of(node_names@)[j] == name@;
            assert(node_names@[j]@ == name@);
        }
    }
    let v = VarName::from_string(name.clone());
    if contains_var(var_names, &v) {
        Some(TaggedVarOrNodeName::VarName(v))
    } else {
        None
    }
}

/// The names of a sequence of locations.
pub open spec fn node_views_of(ns: Seq<NodeName>) -> Seq<Seq<char>> {
    ns.map_values(|n: NodeName| n@)
}

/// Whether `var_name` is monitored at the first location called `node_name`,
/// which must be a node of the graph.
pub fn monitored_at(graph: &LabelledDistributionGraph, var_name: &VarName, node_name: &NodeName) -> (r:
    bool)
    requires
        has_node(graph.nodes(), node_name@),
    ensures
        r == labelled_with(graph.node_labels@, first_node(graph.nodes(), node_name@), var_name@),
{
    let i = graph.node_index(node_name);
    match graph.monitors_at_node(i) {
        Some(l) => contains_var(l, var_name),
        None => false,
    }
}

/// The distance between two tagged names as a stream value: the distance
/// when there is a path, `i64::MAX` when there is none. The locations among
/// the names must be nodes of the graph, and a distance found must fit an
/// `i64`.
pub fn dist(graph: &LabelledDistributionGraph, u: &TaggedVarOrNodeName, v: &TaggedVarOrNodeName) -> (r:
    i64)
    requires
        graph.tagged_names_known(tagged_view(*u), tagged_view(*v)),
        graph.dist_graph.weights_bounded(),
        graph.spec_dist_tagged(tagged_view(*u), tagged_view(*v)) matches Some(c) ==> c <= i64::MAX,
    ensures
        r == match graph.spec_dist_tagged(tagged_view(*u), tagged_view(*v)) {
            Some(c) => c,
            None => i64::MAX as int,
        },
{
    match graph.dist_tagged(u, v) {
        Some(c) => c as i64,
        None => i64::MAX,
    }
}

} // verus!
