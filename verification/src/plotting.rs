//! A labelled distribution graph as a graph of printable node labels.
use vstd::prelude::*;

use petgraph::graph::NodeIndex;

use crate::distribution_graphs::LabelledDistributionGraph;
use crate::graph::{LocationGraph, graph_edges, graph_node_count, graph_node_weight, graph_nodes};
use crate::text::{string_concat, string_from_str};
use crate::variables::{VarName, var_views};

verus! {

/// A graph whose nodes are printable labels, with distances on its edges.
pub type PlotGraph = petgraph::graph::Graph<String, u64, petgraph::Directed, u32>;

/// The labels of the nodes of `g`, by node index.
pub uninterp spec fn plot_nodes(g: PlotGraph) -> Seq<Seq<char>>;

/// The edges of `g` as (source, target, weight), by edge index.
pub uninterp spec fn plot_edges(g: PlotGraph) -> Seq<(nat, nat, u64)>;

/// `Graph::map` from petgraph: a graph with the same edges in the same
/// order, whose node `i` carries `labels[i]`.
#[verifier::external_body]
fn graph_with_labels(g: &LocationGraph, labels: &Vec<String>) -> (r: PlotGraph)
    requires
        labels.len() == graph_nodes(*g).len(),
    ensures
        plot_nodes(r) == labels@.map_values(|s: String| s@),
        plot_edges(r) == graph_edges(*g),
{
    g.map(|i: NodeIndex<u32>, _| label_at(labels, i.index()), |_, w| *w)
}

/// The label of node `i` (empty past the last label).
pub fn label_at(labels: &Vec<String>, i: usize) -> (r: String)
    ensures
        i < labels@.len() ==> r@ == labels@[i as int]@,
{
    if i < labels.len() {
        labels[i].clone()
    } else {
        String::new()
    }
}

/// The names joined with ", ", skipping the separator while nothing but
/// empty names has been written.
pub open spec fn join_names(vs: Seq<Seq<char>>) -> Seq<char>
    decreases vs.len(),
{
    if vs.len() == 0 {
        Seq::empty()
    } else {
        let acc = join_names(vs.drop_last());
        if acc.len() == 0 {
            vs.last()
        } else {
            acc + ", "@ + vs.last()
        }
    }
}

/// The label of a node: its name, then its variables in braces.
pub open spec fn plot_label(name: Seq<char>, vars: Seq<Seq<char>>) -> Seq<char> {
    name + " {"@ + join_names(vars) + "}"@
}

/// The variables joined with ", ".
fn join_vars(vs: &Vec<VarName>) -> (r: String)
    ensures
        r@ == join_names(var_views(vs@)),
{
    let ghost views = var_views(vs@);
    let sep = string_from_str(", ");
    let mut acc = String::new();
    let mut i: usize = 0;
    while i < vs.len()
        invariant
            i <= vs.len(),
            views == var_views(vs@),
            sep@ == ", "@,
            acc@ == join_names(views.subrange(0, i as int)),
        decreases vs.len() - i,
    {
        proof {
            assert(views.subrange(0, i + 1).drop_last() =~= views.subrange(0, i as int));
            assert(views.subrange(0, i + 1).last() == vs@[i as int]@);
        }
        let name = vs[i].name();
        if acc.unicode_len() == 0 {
            acc = name;
        } else {
            let with_sep = string_concat(&acc, &sep);
            acc = string_concat(&with_sep, &name);
        }
        i = i + 1;
    }
    assert(views.subrange(0, vs.len() as int) =~= views);
    acc
}

/// The label of node `i`: its name and the variables monitored there.
fn node_label(g: &LabelledDistributionGraph, i: usize) -> (r: String)
    requires
        i < g.nodes().len(),
        g.node_labels@.contains_key(i),
    ensures
        r@ == plot_label(g.nodes()[i as int], var_views(g.node_labels@[i]@)),
{
    let name = graph_node_weight(&g.dist_graph.graph, i).unwrap().name();
    let vars = g.monitors_at_node(i).unwrap();
    let joined = join_vars(vars);
    let open = string_from_str(" {");
    let close = string_from_str("}");
    let a = string_concat(&name, &open);
    let b = string_concat(&a, &joined);
    string_concat(&b, &close)
}

/// The graph with each node labelled by its name and the variables
/// monitored there, and the same edges; every node must be labelled.
pub fn plottable_graph(input: &LabelledDistributionGraph) -> (r: PlotGraph)
    requires
        forall|i: usize| i < input.nodes().len() ==> #[trigger] input.node_labels@.contains_key(i),
    ensures
        plot_nodes(r).len() == input.nodes().len(),
        forall|i: int|
            0 <= i < input.nodes().len() ==> #[trigger] plot_nodes(r)[i] == plot_label(
                input.nodes()[i],
                var_views(input.node_labels@[i as usize]@),
            ),
        plot_edges(r) == input.edges(),
{
    let n = graph_node_count(&input.dist_graph.graph);
    let mut labels: Vec<String> = Vec::new();
    let mut i: usize = 0;
    while i < n
        invariant
            i <= n == input.nodes().len(),
            forall|i: usize| i < input.nodes().len() ==> #[trigger] input.node_labels@.contains_key(i),
            labels@.len() == i,
            forall|k: int|
                0 <= k < i ==> #[trigger] labels@[k]@ == plot_label(
                    input.nodes()[k],
                    var_views(input.node_labels@[k as usize]@),
                ),
        decreases n - i,
    {
        let l = node_label(input, i);
        labels.push(l);
        i = i + 1;
    }
    graph_with_labels(&input.dist_graph.graph, &labels)
}

} // verus!
