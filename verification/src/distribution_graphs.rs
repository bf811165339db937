//! Distribution graphs: the locations where monitors can run, the distances
//! between them, and which variables are monitored where.
use vstd::prelude::*;

use std::collections::BTreeMap;
use std::rc::Rc;

use crate::graph::{
    LocationGraph, graph_edge_count, graph_edge_endpoints, graph_edge_weight, graph_edges,
    graph_node_count, graph_node_weight, graph_nodes,
    graph_shortest_cost, is_walk, lemma_shortest_is, lemma_shortest_none, lemma_walk_cost_nonneg,
    lemma_shortest_symmetric, reaches_at_cost, shortest, symmetric, total_weight, walk_cost,
};
use crate::localisation::LocalitySpec;
use crate::text::{string_eq, string_from_str};
use vstd::arithmetic::power::pow;
use crate::variables::{VarName, contains_var, copy_vars, var_views};

verus! {

/// The name of a location.
#[derive(Debug, PartialOrd, Ord, Default)]
pub struct NodeName {
    name: String,
}

impl View for NodeName {
    type V = Seq<char>;

    closed spec fn view(&self) -> Seq<char> {
        self.name@
    }
}

impl NodeName {
    /// The location called `name`.
    pub fn new(name: &str) -> (r: NodeName)
        ensures
            r@ == name@,
    {
        NodeName { name: string_from_str(name) }
    }

    /// The location called `name`, taking ownership of the string.
    pub fn from_string(name: String) -> (r: NodeName)
        ensures
            r@ == name@,
    {
        NodeName { name }
    }

    /// The name as a string.
    pub fn name(&self) -> (r: String)
        ensures
            r@ == self@,
    {
        self.name.clone()
    }

    /// The same location.
    pub fn duplicate(&self) -> (r: NodeName)
        ensures
            r@ == self@,
    {
        NodeName { name: self.name.clone() }
    }

    /// Whether both names are the same.
    pub fn same_as(&self, other: &NodeName) -> (r: bool)
        ensures
            r == (self@ == other@),
    {
        string_eq(&self.name, &other.name)
    }
}

impl Clone for NodeName {
    fn clone(&self) -> (r: Self)
        ensures
            r@ == self@,
    {
        self.duplicate()
    }
}

impl PartialEq for NodeName {
    fn eq(&self, other: &Self) -> (r: bool) {
        self.same_as(other)
    }
}

impl vstd::std_specs::cmp::PartialEqSpecImpl for NodeName {
    open spec fn obeys_eq_spec() -> bool {
        true
    }

    open spec fn eq_spec(&self, other: &Self) -> bool {
        self@ == other@
    }
}

impl Eq for NodeName {
}

/// A graph of locations with the node where the central monitor runs.
#[derive(Debug)]
pub struct DistributionGraph {
    pub central_monitor: usize,
    pub graph: LocationGraph,
}

impl DistributionGraph {
    /// The names of the nodes, by index.
    pub open spec fn nodes(&self) -> Seq<Seq<char>> {
        graph_nodes(self.graph)
    }

    /// The edges (source, target, distance), by index.
    pub open spec fn edges(&self) -> Seq<(nat, nat, u64)> {
        graph_edges(self.graph)
    }

    /// The index of the first node called `name`, if there is one.
    pub fn get_node_index_by_name(&self, name: &NodeName) -> (r: Option<usize>)
        ensures
            r matches Some(i) ==> i < self.nodes().len() && self.nodes()[i as int] == name@
                && forall|j: int| 0 <= j < i ==> self.nodes()[j] != name@,
            r is None ==> forall|j: int| 0 <= j < self.nodes().len() ==> self.nodes()[j] != name@,
    {
        let n = graph_node_count(&self.graph);
        let mut i: usize = 0;
        while i < n
            invariant
                n == self.nodes().len(),
                i <= n,
                forall|j: int| 0 <= j < i ==> self.nodes()[j] != name@,
            decreases n - i,
        {
            let w = graph_node_weight(&self.graph, i).unwrap();
            if w.same_as(name) {
                return Some(i);
            }
            i = i + 1;
        }
        None
    }

    /// The names of all nodes, by index.
    pub fn locations(&self) -> (r: Vec<NodeName>)
        ensures
            node_views(r@) == self.nodes(),
    {
        let n = graph_node_count(&self.graph);
        let mut r: Vec<NodeName> = Vec::new();
        let mut i: usize = 0;
        while i < n
            invariant
                n == self.nodes().len(),
                i <= n,
                r@.len() == i,
                forall|j: int| 0 <= j < i ==> #[trigger] r@[j]@ == self.nodes()[j],
            decreases n - i,
        {
            let w = graph_node_weight(&self.graph, i).unwrap();
            r.push(w.duplicate());
            i = i + 1;
        }
        assert(node_views(r@) =~= self.nodes());
        r
    }

    /// Whether both graphs have the same central monitor, the same nodes and
    /// the same edges, in the same order.
    pub fn same_graph(&self, other: &DistributionGraph) -> (r: bool)
        ensures
            r == (self.central_monitor == other.central_monitor && self.nodes() == other.nodes()
                && self.edges() == other.edges()),
    {
        if self.central_monitor != other.central_monitor {
            return false;
        }
        let n = graph_node_count(&self.graph);
        if n != graph_node_count(&other.graph) {
            return false;
        }
        let mut i: usize = 0;
        while i < n
            invariant
                n == self.nodes().len(),
                n == other.nodes().len(),
                i <= n,
                forall|j: int| 0 <= j < i ==> self.nodes()[j] == other.nodes()[j],
            decreases n - i,
        {
            let a = graph_node_weight(&self.graph, i).unwrap();
            let b = graph_node_weight(&other.graph, i).unwrap();
            if !a.same_as(b) {
                return false;
            }
            i = i + 1;
        }
        assert(self.nodes() =~= other.nodes());
        let m = graph_edge_count(&self.graph);
        if m != graph_edge_count(&other.graph) {
            return false;
        }
        let mut e: usize = 0;
        while e < m
            invariant
                m == self.edges().len(),
                m == other.edges().len(),
                e <= m,
                forall|j: int| 0 <= j < e ==> self.edges()[j] == other.edges()[j],
            decreases m - e,
        {
            let (s1, t1) = graph_edge_endpoints(&self.graph, e).unwrap();
            let (s2, t2) = graph_edge_endpoints(&other.graph, e).unwrap();
            let w1 = graph_edge_weight(&self.graph, e).unwrap();
            let w2 = graph_edge_weight(&other.graph, e).unwrap();
            if s1 != s2 || t1 != t2 || w1 != w2 {
                return false;
            }
            e = e + 1;
        }
        assert(self.edges() =~= other.edges());
        true
    }
}


impl DistributionGraph {
    /// The total distance over all edges is small enough that no sum of
    /// distances along walks can overflow a `u64`.
    pub open spec fn weights_bounded(&self) -> bool {
        2 * total_weight(self.edges()) <= u64::MAX
    }

    /// The cheapest distance from node `n` to node `m`.
    pub fn dist_nodes(&self, n: usize, m: usize) -> (r: Option<u64>)
        requires
            n < self.nodes().len(),
            self.weights_bounded(),
        ensures
            r matches Some(c) ==> shortest(self.edges(), n as int, node_goal(self.nodes().len(), m as int)) == Some(c as int),
            r is None ==> shortest(self.edges(), n as int, node_goal(self.nodes().len(), m as int)) is None,
    {
        let len = graph_node_count(&self.graph);
        let mut goals: Vec<bool> = Vec::new();
        let mut i: usize = 0;
        while i < len
            invariant
                len == self.nodes().len(),
                i <= len,
                goals@ == node_goal(len as nat, m as int).subrange(0, i as int),
            decreases len - i,
        {
            goals.push(i == m);
            i = i + 1;
            assert(goals@ =~= node_goal(len as nat, m as int).subrange(0, i as int));
        }
        assert(goals@ =~= node_goal(len as nat, m as int));
        let r = graph_shortest_cost(&self.graph, n, &goals);
        proof {
            match r {
                Some(c) => lemma_shortest_is(self.edges(), n as int, goals@, c as int),
                None => lemma_shortest_none(self.edges(), n as int, goals@),
            }
        }
        r
    }
}

/// The nodes of a graph with `len` nodes that are node `m`.
pub open spec fn node_goal(len: nat, m: int) -> Seq<bool> {
    Seq::new(len, |i: int| i == m)
}

/// A location or a variable, told apart.
#[derive(Debug, Clone, PartialEq)]
pub enum TaggedVarOrNodeName {
    NodeName(NodeName),
    VarName(VarName),
}

/// A distribution graph with the variables monitored at each node.
#[derive(Debug)]
pub struct LabelledDistributionGraph {
    pub dist_graph: Rc<DistributionGraph>,
    pub var_names: Vec<VarName>,
    pub node_labels: BTreeMap<usize, Vec<VarName>>,
}

/// The variables monitored at each labelled node.
pub open spec fn labels_view(m: Map<usize, Vec<VarName>>) -> Map<int, Seq<Seq<char>>> {
    Map::new(|i: int| 0 <= i <= usize::MAX && m.contains_key(i as usize), |i: int| var_views(m[i as usize]@))
}

/// Whether node `i` is labelled with variable `v`.
pub open spec fn labelled_with(m: Map<usize, Vec<VarName>>, i: int, v: Seq<char>) -> bool {
    0 <= i <= usize::MAX && m.contains_key(i as usize) && var_views(m[i as usize]@).contains(v)
}

/// The nodes of a graph with `len` nodes that are labelled with `v`.
pub open spec fn label_goal(m: Map<usize, Vec<VarName>>, len: nat, v: Seq<char>) -> Seq<bool> {
    Seq::new(len, |i: int| labelled_with(m, i, v))
}

/// The smaller of two optional distances, where `None` means unreachable.
pub open spec fn min_dist(a: Option<int>, b: Option<int>) -> Option<int> {
    match (a, b) {
        (Some(x), Some(y)) => Some(if x <= y { x } else { y }),
        (Some(x), None) => Some(x),
        (None, y) => y,
    }
}

/// The cheapest distance to `goals` from any of the first `k` nodes
/// labelled with `v`.
pub open spec fn min_from_labelled(
    edges: Seq<(nat, nat, u64)>,
    m: Map<usize, Vec<VarName>>,
    v: Seq<char>,
    goals: Seq<bool>,
    k: int,
) -> Option<int>
    decreases k,
{
    if k <= 0 {
        None
    } else {
        let prev = min_from_labelled(edges, m, v, goals, k - 1);
        if labelled_with(m, k - 1, v) {
            min_dist(prev, shortest(edges, k - 1, goals))
        } else {
            prev
        }
    }
}

impl LabelledDistributionGraph {
    /// The names of the nodes, by index.
    pub open spec fn nodes(&self) -> Seq<Seq<char>> {
        self.dist_graph.nodes()
    }

    /// The edges, by index.
    pub open spec fn edges(&self) -> Seq<(nat, nat, u64)> {
        self.dist_graph.edges()
    }

    /// The variables monitored at `node`, if it is labelled.
    pub fn monitors_at_node(&self, node: usize) -> (r: Option<&Vec<VarName>>)
        ensures
            r matches Some(l) ==> self.node_labels@.contains_key(node) && *l == self.node_labels@[node],
            r is None ==> !self.node_labels@.contains_key(node),
    {
        self.node_labels.get(&node)
    }

    /// The index of the first node called `name`, if there is one.
    pub fn get_node_index_by_name(&self, name: &NodeName) -> (r: Option<usize>)
        ensures
            r matches Some(i) ==> i < self.nodes().len() && self.nodes()[i as int] == name@
                && forall|j: int| 0 <= j < i ==> self.nodes()[j] != name@,
            r is None ==> forall|j: int| 0 <= j < self.nodes().len() ==> self.nodes()[j] != name@,
    {
        self.dist_graph.get_node_index_by_name(name)
    }

    /// Whether node `i` is labelled with `v`.
    fn is_labelled_with(&self, i: usize, v: &VarName) -> (r: bool)
        ensures
            r == labelled_with(self.node_labels@, i as int, v@),
    {
        match self.node_labels.get(&i) {
            Some(l) => contains_var(l, v),
            None => false,
        }
    }

    /// Which nodes are labelled with `v`.
    fn label_goals(&self, v: &VarName) -> (r: Vec<bool>)
        ensures
            r@ == label_goal(self.node_labels@, self.nodes().len(), v@),
    {
        let len = graph_node_count(&self.dist_graph.graph);
        let mut goals: Vec<bool> = Vec::new();
        let mut i: usize = 0;
        while i < len
            invariant
                len == self.nodes().len(),
                i <= len,
                goals@ == label_goal(self.node_labels@, len as nat, v@).subrange(0, i as int),
            decreases len - i,
        {
            let b = self.is_labelled_with(i, v);
            goals.push(b);
            i = i + 1;
            assert(goals@ =~= label_goal(self.node_labels@, len as nat, v@).subrange(0, i as int));
        }
        assert(goals@ =~= label_goal(self.node_labels@, len as nat, v@));
        goals
    }

    /// The cheapest distance from node `n` to node `m`.
    pub fn dist_nodes(&self, n: usize, m: usize) -> (r: Option<u64>)
        requires
            n < self.nodes().len(),
            self.dist_graph.weights_bounded(),
        ensures
            r matches Some(c) ==> shortest(self.edges(), n as int, node_goal(self.nodes().len(), m as int)) == Some(c as int),
            r is None ==> shortest(self.edges(), n as int, node_goal(self.nodes().len(), m as int)) is None,
    {
        self.dist_graph.dist_nodes(n, m)
    }

    /// The cheapest distance from node `n` to a node monitoring `v`.
    pub fn dist_node_var(&self, n: usize, v: &VarName) -> (r: Option<u64>)
        requires
            n < self.nodes().len(),
            self.dist_graph.weights_bounded(),
        ensures
            r matches Some(c) ==> shortest(self.edges(), n as int, label_goal(self.node_labels@, self.nodes().len(), v@)) == Some(c as int),
            r is None ==> shortest(self.edges(), n as int, label_goal(self.node_labels@, self.nodes().len(), v@)) is None,
    {
        let goals = self.label_goals(v);
        let r = graph_shortest_cost(&self.dist_graph.graph, n, &goals);
        proof {
            match r {
                Some(c) => lemma_shortest_is(self.edges(), n as int, goals@, c as int),
                None => lemma_shortest_none(self.edges(), n as int, goals@),
            }
        }
        r
    }

    /// The cheapest distance to `goals` from any node monitoring `v`.
    fn dist_from_var(&self, v: &VarName, goals: &Vec<bool>) -> (r: Option<u64>)
        requires
            goals.len() == self.nodes().len(),
            self.dist_graph.weights_bounded(),
        ensures
            r matches Some(c) ==> min_from_labelled(self.edges(), self.node_labels@, v@, goals@, self.nodes().len() as int) == Some(c as int),
            r is None ==> min_from_labelled(self.edges(), self.node_labels@, v@, goals@, self.nodes().len() as int) is None,
    {
        let len = graph_node_count(&self.dist_graph.graph);
        let mut acc: Option<u64> = None;
        let mut i: usize = 0;
        while i < len
            invariant
                len == self.nodes().len(),
                goals.len() == len,
                i <= len,
                self.dist_graph.weights_bounded(),
                acc matches Some(c) ==> min_from_labelled(self.edges(), self.node_labels@, v@, goals@, i as int) == Some(c as int),
                acc is None ==> min_from_labelled(self.edges(), self.node_labels@, v@, goals@, i as int) is None,
            decreases len - i,
        {
            if self.is_labelled_with(i, v) {
                let d = graph_shortest_cost(&self.dist_graph.graph, i, goals);
                proof {
                    match d {
                        Some(c) => lemma_shortest_is(self.edges(), i as int, goals@, c as int),
                        None => lemma_shortest_none(self.edges(), i as int, goals@),
                    }
                }
                acc = match (acc, d) {
                    (Some(a), Some(b)) => Some(if a <= b { a } else { b }),
                    (Some(a), None) => Some(a),
                    (None, b) => b,
                };
            }
            i = i + 1;
        }
        acc
    }

    /// The cheapest distance from a node monitoring `v` to node `m`.
    pub fn dist_var_node(&self, v: &VarName, m: usize) -> (r: Option<u64>)
        requires
            self.dist_graph.weights_bounded(),
        ensures
            r matches Some(c) ==> min_from_labelled(self.edges(), self.node_labels@, v@, node_goal(self.nodes().len(), m as int), self.nodes().len() as int) == Some(c as int),
            r is None ==> min_from_labelled(self.edges(), self.node_labels@, v@, node_goal(self.nodes().len(), m as int), self.nodes().len() as int) is None,
    {
        let len = graph_node_count(&self.dist_graph.graph);
        let mut goals: Vec<bool> = Vec::new();
        let mut i: usize = 0;
        while i < len
            invariant
                len == self.nodes().len(),
                i <= len,
                goals@ == node_goal(len as nat, m as int).subrange(0, i as int),
            decreases len - i,
        {
            goals.push(i == m);
            i = i + 1;
            assert(goals@ =~= node_goal(len as nat, m as int).subrange(0, i as int));
        }
        assert(goals@ =~= node_goal(len as nat, m as int));
        self.dist_from_var(v, &goals)
    }

    /// The cheapest distance from a node monitoring `v` to a node monitoring `w`.
    pub fn dist_vars(&self, v: &VarName, w: &VarName) -> (r: Option<u64>)
        requires
            self.dist_graph.weights_bounded(),
        ensures
            r matches Some(c) ==> min_from_labelled(self.edges(), self.node_labels@, v@, label_goal(self.node_labels@, self.nodes().len(), w@), self.nodes().len() as int) == Some(c as int),
            r is None ==> min_from_labelled(self.edges(), self.node_labels@, v@, label_goal(self.node_labels@, self.nodes().len(), w@), self.nodes().len() as int) is None,
    {
        let goals = self.label_goals(w);
        self.dist_from_var(v, &goals)
    }
}

/// The index of the first node called `name` (meaningful when one is).
pub open spec fn first_node(nodes: Seq<Seq<char>>, name: Seq<char>) -> int {
    choose|i: int|
        0 <= i < nodes.len() && nodes[i] == name && forall|j: int| 0 <= j < i ==> nodes[j] != name
}

/// Whether some node is called `name`.
pub open spec fn has_node(nodes: Seq<Seq<char>>, name: Seq<char>) -> bool {
    exists|i: int| 0 <= i < nodes.len() && nodes[i] == name
}

/// The first node found by a scan is the one `first_node` names.
proof fn lemma_first_node(nodes: Seq<Seq<char>>, name: Seq<char>, i: int)
    requires
        0 <= i < nodes.len(),
        nodes[i] == name,
        forall|j: int| 0 <= j < i ==> nodes[j] != name,
    ensures
        first_node(nodes, name) == i,
{
    let k = first_node(nodes, name);
    assert(0 <= k < nodes.len() && nodes[k] == name && forall|j: int| 0 <= j < k ==> nodes[j]
        != name);
    if k < i {
        assert(nodes[k] != name);
    }
    if i < k {
        assert(nodes[i] != name);
    }
}

/// A variable or a location, as a plain name with its tag.
pub open spec fn tagged_view(t: TaggedVarOrNodeName) -> (bool, Seq<char>) {
    match t {
        TaggedVarOrNodeName::NodeName(n) => (true, n@),
        TaggedVarOrNodeName::VarName(v) => (false, v@),
    }
}

impl LabelledDistributionGraph {
    /// The cheapest distance from node `n` to node `m`, as the function
    /// `dist_nodes` states it.
    pub open spec fn spec_dist_nodes(&self, n: int, m: int) -> Option<int> {
        shortest(self.edges(), n, node_goal(self.nodes().len(), m))
    }

    /// The cheapest distance from node `n` to a node monitoring `v`.
    pub open spec fn spec_dist_node_var(&self, n: int, v: Seq<char>) -> Option<int> {
        shortest(self.edges(), n, label_goal(self.node_labels@, self.nodes().len(), v))
    }

    /// The cheapest distance from a node monitoring `v` to node `m`.
    pub open spec fn spec_dist_var_node(&self, v: Seq<char>, m: int) -> Option<int> {
        min_from_labelled(
            self.edges(),
            self.node_labels@,
            v,
            node_goal(self.nodes().len(), m),
            self.nodes().len() as int,
        )
    }

    /// The cheapest distance from a node monitoring `v` to one monitoring `w`.
    pub open spec fn spec_dist_vars(&self, v: Seq<char>, w: Seq<char>) -> Option<int> {
        min_from_labelled(
            self.edges(),
            self.node_labels@,
            v,
            label_goal(self.node_labels@, self.nodes().len(), w),
            self.nodes().len() as int,
        )
    }

    /// The distance between two names, each a location (its first node of
    /// that name) or a variable (the nodes that monitor it).
    pub open spec fn spec_dist_tagged(&self, a: (bool, Seq<char>), b: (bool, Seq<char>)) -> Option<
        int,
    > {
        let an = first_node(self.nodes(), a.1);
        let bn = first_node(self.nodes(), b.1);
        if a.0 && b.0 {
            self.spec_dist_nodes(an, bn)
        } else if a.0 {
            self.spec_dist_node_var(an, b.1)
        } else if b.0 {
            self.spec_dist_var_node(a.1, bn)
        } else {
            self.spec_dist_vars(a.1, b.1)
        }
    }

    /// The names that a tagged distance query must find among the nodes.
    pub open spec fn tagged_names_known(&self, a: (bool, Seq<char>), b: (bool, Seq<char>)) -> bool {
        &&& a.0 ==> has_node(self.nodes(), a.1)
        &&& b.0 ==> has_node(self.nodes(), b.1)
    }

    /// The index of the first node called `name`, which must exist.
    pub(crate) fn node_index(&self, name: &NodeName) -> (r: usize)
        requires
            has_node(self.nodes(), name@),
        ensures
            r == first_node(self.nodes(), name@),
            r < self.nodes().len(),
    {
        match self.get_node_index_by_name(name) {
            Some(i) => {
                proof {
                    lemma_first_node(self.nodes(), name@, i as int);
                }
                i
            },
            None => {
                proof {
                    let k = choose|k: int| 0 <= k < self.nodes().len() && self.nodes()[k] == name@;
                    assert(self.nodes()[k] != name@);
                }
                0
            },
        }
    }

    /// The cheapest distance between two locations given by name (the first
    /// node of each name); both must be nodes of the graph.
    pub fn dist_names(&self, n: &NodeName, m: &NodeName) -> (r: Option<u64>)
        requires
            has_node(self.nodes(), n@),
            has_node(self.nodes(), m@),
            self.dist_graph.weights_bounded(),
        ensures
            r matches Some(c) ==> self.spec_dist_tagged((true, n@), (true, m@)) == Some(c as int),
            r is None ==> self.spec_dist_tagged((true, n@), (true, m@)) is None,
    {
        let a = self.node_index(n);
        let b = self.node_index(m);
        self.dist_nodes(a, b)
    }

    /// The cheapest distance from the location called `n` to a node
    /// monitoring `v`; the location must be a node of the graph.
    pub fn dist_name_var(&self, n: &NodeName, v: &VarName) -> (r: Option<u64>)
        requires
            has_node(self.nodes(), n@),
            self.dist_graph.weights_bounded(),
        ensures
            r matches Some(c) ==> self.spec_dist_tagged((true, n@), (false, v@)) == Some(c as int),
            r is None ==> self.spec_dist_tagged((true, n@), (false, v@)) is None,
    {
        let a = self.node_index(n);
        self.dist_node_var(a, v)
    }

    /// The cheapest distance from a node monitoring `v` to the location
    /// called `m`; the location must be a node of the graph.
    pub fn dist_var_name(&self, v: &VarName, m: &NodeName) -> (r: Option<u64>)
        requires
            has_node(self.nodes(), m@),
            self.dist_graph.weights_bounded(),
        ensures
            r matches Some(c) ==> self.spec_dist_tagged((false, v@), (true, m@)) == Some(c as int),
            r is None ==> self.spec_dist_tagged((false, v@), (true, m@)) is None,
    {
        let b = self.node_index(m);
        self.dist_var_node(v, b)
    }

    /// The distance between two tagged names; the locations among them must
    /// be nodes of the graph.
    pub fn dist_tagged(&self, n: &TaggedVarOrNodeName, m: &TaggedVarOrNodeName) -> (r: Option<u64>)
        requires
            self.tagged_names_known(tagged_view(*n), tagged_view(*m)),
            self.dist_graph.weights_bounded(),
        ensures
            r matches Some(c) ==> self.spec_dist_tagged(tagged_view(*n), tagged_view(*m)) == Some(
                c as int,
            ),
            r is None ==> self.spec_dist_tagged(tagged_view(*n), tagged_view(*m)) is None,
    {
        match (n, m) {
            (TaggedVarOrNodeName::NodeName(a), TaggedVarOrNodeName::NodeName(b)) => self.dist_names(a, b),
            (TaggedVarOrNodeName::NodeName(a), TaggedVarOrNodeName::VarName(b)) => self.dist_name_var(a, b),
            (TaggedVarOrNodeName::VarName(a), TaggedVarOrNodeName::NodeName(b)) => self.dist_var_name(a, b),
            (TaggedVarOrNodeName::VarName(a), TaggedVarOrNodeName::VarName(b)) => self.dist_vars(a, b),
        }
    }
}

/// When every edge has its reverse at the same distance, as in a graph built
/// from the distances between locations, the distance between two nodes is
/// the same both ways.
pub proof fn lemma_dist_nodes_symmetric(g: &LabelledDistributionGraph, a: int, b: int)
    requires
        symmetric(g.edges()),
        0 <= a < g.nodes().len(),
        0 <= b < g.nodes().len(),
    ensures
        g.spec_dist_nodes(a, b) == g.spec_dist_nodes(b, a),
{
    lemma_shortest_symmetric(g.edges(), g.nodes().len(), a, b);
    assert(node_goal(g.nodes().len(), b) == Seq::new(g.nodes().len(), |i: int| i == b));
    assert(node_goal(g.nodes().len(), a) == Seq::new(g.nodes().len(), |i: int| i == a));
}

/// Every node is at distance 0 from itself.
pub proof fn lemma_dist_node_self(g: &LabelledDistributionGraph, n: int)
    requires
        0 <= n < g.nodes().len(),
    ensures
        g.spec_dist_nodes(n, n) == Some(0int),
{
    lemma_reach_self(g.edges(), n, node_goal(g.nodes().len(), n));
}

/// A walk that stays at a goal node costs nothing, and none is cheaper.
proof fn lemma_reach_self(edges: Seq<(nat, nat, u64)>, n: int, goals: Seq<bool>)
    requires
        0 <= n < goals.len(),
        goals[n],
    ensures
        shortest(edges, n, goals) == Some(0int),
{
    let w = Seq::<int>::empty();
    assert(is_walk(edges, w, n, n));
    assert(walk_cost(edges, w) == 0);
    assert(reaches_at_cost(edges, n, goals, 0));
    assert forall|w2: Seq<int>, t: int|
        is_walk(edges, w2, n, t) && 0 <= t < goals.len() && goals[t] implies 0 <= walk_cost(
        edges,
        w2,
    ) by {
        lemma_walk_cost_nonneg(edges, w2);
    }
    lemma_shortest_is(edges, n, goals, 0);
}

/// Among the first `k` nodes, the cheapest distance from a node monitoring
/// `v` to a node monitoring `v` is 0 once one of them monitors `v`, and there
/// is none before.
proof fn lemma_min_from_labelled_self(
    edges: Seq<(nat, nat, u64)>,
    m: Map<usize, Vec<VarName>>,
    v: Seq<char>,
    len: nat,
    k: int,
)
    requires
        0 <= k <= len,
    ensures
        (exists|i: int| 0 <= i < k && labelled_with(m, i, v)) ==> min_from_labelled(
            edges,
            m,
            v,
            label_goal(m, len, v),
            k,
        ) == Some(0int),
        (forall|i: int| 0 <= i < k ==> !labelled_with(m, i, v)) ==> min_from_labelled(
            edges,
            m,
            v,
            label_goal(m, len, v),
            k,
        ) is None,
    decreases k,
{
    if k > 0 {
        lemma_min_from_labelled_self(edges, m, v, len, k - 1);
        if labelled_with(m, k - 1, v) {
            lemma_reach_self(edges, k - 1, label_goal(m, len, v));
        }
        if exists|i: int| 0 <= i < k && labelled_with(m, i, v) {
            let i = choose|i: int| 0 <= i < k && labelled_with(m, i, v);
            if i < k - 1 {
                assert(exists|i: int| 0 <= i < k - 1 && labelled_with(m, i, v));
            }
        }
        if forall|i: int| 0 <= i < k ==> !labelled_with(m, i, v) {
            assert(!labelled_with(m, k - 1, v));
        }
    }
}

/// A variable monitored at some node is at distance 0 from itself.
pub proof fn lemma_dist_var_self(g: &LabelledDistributionGraph, v: Seq<char>, i: int)
    requires
        0 <= i < g.nodes().len(),
        labelled_with(g.node_labels@, i, v),
    ensures
        g.spec_dist_vars(v, v) == Some(0int),
{
    lemma_min_from_labelled_self(g.edges(), g.node_labels@, v, g.nodes().len(), g.nodes().len() as int);
}

/// Where `digits` places variable `v`: at the node given for the first
/// variable of that name.
pub open spec fn placed_at(vars: Seq<Seq<char>>, digits: Seq<int>, v: Seq<char>) -> int {
    digits[first_node(vars, v)]
}

/// The variables (in order, repeats kept) placed at a node with the same
/// name as node `j`.
pub open spec fn vars_placed_at(
    nodes: Seq<Seq<char>>,
    vars: Seq<Seq<char>>,
    digits: Seq<int>,
    j: int,
) -> Seq<Seq<char>> {
    vars.filter(|v: Seq<char>| nodes[placed_at(vars, digits, v)] == nodes[j])
}

/// Whether node `j` is the first node of its name.
pub open spec fn first_of_name(nodes: Seq<Seq<char>>, j: int) -> bool {
    0 <= j < nodes.len() && first_node(nodes, nodes[j]) == j
}

/// The labels of the graph in which `digits` places the variables: the first
/// node of each name monitors the variables placed at that name, and the
/// central monitor monitors `central_vars` as well, after those.
pub open spec fn labelling(
    nodes: Seq<Seq<char>>,
    vars: Seq<Seq<char>>,
    digits: Seq<int>,
    central: int,
    central_vars: Seq<Seq<char>>,
) -> Map<int, Seq<Seq<char>>> {
    Map::new(
        |j: int| j == central || first_of_name(nodes, j),
        |j: int|
            (if first_of_name(nodes, j) {
                vars_placed_at(nodes, vars, digits, j)
            } else {
                Seq::empty()
            }) + (if j == central {
                central_vars
            } else {
                Seq::empty()
            }),
    )
}

/// The next placement after `d`, counting with `d[0]` as the lowest digit
/// in base `base`, and whether the count wrapped around.
pub open spec fn next_digits(d: Seq<int>, base: int) -> (Seq<int>, bool)
    decreases d.len(),
{
    if d.len() == 0 {
        (d, true)
    } else if d[0] + 1 < base {
        (d.update(0, d[0] + 1), false)
    } else {
        let (rest, carry) = next_digits(d.drop_first(), base);
        (seq![0int] + rest, carry)
    }
}

/// The number written by the digits `d` in base `base`, lowest digit first.
pub open spec fn digits_value(d: Seq<int>, base: int) -> int
    decreases d.len(),
{
    if d.len() == 0 {
        0
    } else {
        d[0] + base * digits_value(d.drop_first(), base)
    }
}

/// All digits are between 0 and `base`.
pub open spec fn digits_valid(d: Seq<int>, base: int) -> bool {
    forall|j: int| 0 <= j < d.len() ==> 0 <= #[trigger] d[j] < base
}

/// `n` zero digits.
pub open spec fn zero_digits(n: nat) -> Seq<int> {
    Seq::new(n, |j: int| 0int)
}

/// When the first `i` digits are at their largest and digit `i` is not,
/// counting on zeroes the first `i` and raises digit `i`; when all are at
/// their largest, it zeroes all and wraps.
proof fn lemma_next_digits_shape(d: Seq<int>, base: int, i: int)
    requires
        0 <= i <= d.len(),
        forall|j: int| 0 <= j < i ==> #[trigger] d[j] + 1 >= base,
        i < d.len() ==> d[i] + 1 < base,
    ensures
        i < d.len() ==> next_digits(d, base) == (zero_digits(i as nat) + seq![d[i] + 1] + d.skip(
            i + 1,
        ), false),
        i == d.len() ==> next_digits(d, base) == (zero_digits(d.len()), true),
    decreases i,
{
    if i == 0 {
        if d.len() == 0 {
            assert(zero_digits(0) =~= d);
        } else {
            assert(d.update(0, d[0] + 1) =~= zero_digits(0) + seq![d[0] + 1] + d.skip(1));
        }
    } else {
        let r = d.drop_first();
        assert forall|j: int| 0 <= j < i - 1 implies #[trigger] r[j] + 1 >= base by {
            assert(d[j + 1] + 1 >= base);
        }
        lemma_next_digits_shape(r, base, i - 1);
        if i < d.len() {
            assert(seq![0int] + (zero_digits((i - 1) as nat) + seq![r[i - 1] + 1] + r.skip(i))
                =~= zero_digits(i as nat) + seq![d[i] + 1] + d.skip(i + 1));
        } else {
            assert(seq![0int] + zero_digits((d.len() - 1) as nat) =~= zero_digits(d.len()));
        }
    }
}

/// Zero digits write zero.
pub proof fn lemma_zero_digits_value(n: nat, base: int)
    ensures
        digits_value(zero_digits(n), base) == 0,
    decreases n,
{
    if n > 0 {
        assert(zero_digits(n).drop_first() =~= zero_digits((n - 1) as nat));
        lemma_zero_digits_value((n - 1) as nat, base);
    }
}

/// Counting on from valid digits adds one to the number they write, and
/// wraps around exactly when that number is the last of the `base^n` ones.
pub proof fn lemma_next_digits_counts(d: Seq<int>, base: int)
    requires
        digits_valid(d, base),
    ensures
        !next_digits(d, base).1 ==> digits_value(next_digits(d, base).0, base) == digits_value(d, base) + 1
            && digits_valid(next_digits(d, base).0, base),
        next_digits(d, base).1 ==> digits_value(d, base) + 1 == pow(base, d.len()),
        next_digits(d, base).0.len() == d.len(),
    decreases d.len(),
{
    reveal(pow);
    if d.len() > 0 {
        let r = d.drop_first();
        assert(digits_valid(r, base)) by {
            assert forall|j: int| 0 <= j < r.len() implies 0 <= #[trigger] r[j] < base by {
                assert(d[j + 1] == r[j]);
            }
        }
        lemma_next_digits_counts(r, base);
        if d[0] + 1 < base {
            let e = d.update(0, d[0] + 1);
            assert(e.drop_first() =~= r);
        } else {
            let (rest, carry) = next_digits(r, base);
            let e = seq![0int] + rest;
            assert(e.drop_first() =~= rest);
            let vr = digits_value(r, base);
            assert(d[0] == base - 1);
            if !carry {
                assert(base * (vr + 1) == base * vr + base) by (nonlinear_arith);
            } else {
                assert(base * (vr + 1) == base * vr + base) by (nonlinear_arith);
                assert(pow(base, d.len()) == base * pow(base, (d.len() - 1) as nat));
            }
        }
    }
}

/// A sequence filtered by `pred` holds `x` exactly when the sequence holds
/// it and `pred` accepts it.
pub proof fn lemma_filter_has(s: Seq<Seq<char>>, pred: spec_fn(Seq<char>) -> bool, x: Seq<char>)
    requires
        s.contains(x),
    ensures
        s.filter(pred).contains(x) <==> pred(x),
{
    broadcast use vstd::seq_lib::group_filter_ensures;

    let k = choose|k: int| 0 <= k < s.len() && s[k] == x;
    if pred(x) {
        s.lemma_filter_contains(pred, k);
    }
    if s.filter(pred).contains(x) {
        let i = choose|i: int| 0 <= i < s.filter(pred).len() && s.filter(pred)[i] == x;
        assert(pred(s.filter(pred)[i]));
    }
}

/// In every labelling given out, a variable is monitored at the first node
/// of a name exactly when it was placed at that name, or that node is the
/// central monitor and the variable is one of the central monitor's own.
pub proof fn lemma_labelling_places_each_variable(
    nodes: Seq<Seq<char>>,
    vars: Seq<Seq<char>>,
    digits: Seq<int>,
    central: int,
    central_vars: Seq<Seq<char>>,
    v: Seq<char>,
    j: int,
)
    requires
        vars.contains(v),
        first_of_name(nodes, j),
    ensures
        labelling(nodes, vars, digits, central, central_vars).contains_key(j),
        labelling(nodes, vars, digits, central, central_vars)[j].contains(v) <==> (nodes[placed_at(
            vars,
            digits,
            v,
        )] == nodes[j] || (j == central && central_vars.contains(v))),
{
    let placed = vars_placed_at(nodes, vars, digits, j);
    let own: Seq<Seq<char>> = if j == central {
        central_vars
    } else {
        Seq::empty()
    };
    lemma_filter_has(vars, |w: Seq<char>| nodes[placed_at(vars, digits, w)] == nodes[j], v);
    let all = placed + own;
    assert(labelling(nodes, vars, digits, central, central_vars)[j] == all);
    if all.contains(v) {
        let i = choose|i: int| 0 <= i < all.len() && all[i] == v;
        if i >= placed.len() {
            assert(own[i - placed.len()] == v);
        }
    }
    if placed.contains(v) {
        let i = choose|i: int| 0 <= i < placed.len() && placed[i] == v;
        assert(all[i] == v);
    }
    if own.contains(v) {
        let i = choose|i: int| 0 <= i < own.len() && own[i] == v;
        assert(all[i + placed.len()] == v);
    }
}

/// All ways of placing each variable at one of the locations of a graph,
/// each giving a labelled graph in which the central monitor also monitors
/// its own variables.
pub struct PossibleLabelledDistGraphs {
    base_graph: Rc<DistributionGraph>,
    central_var_names: Vec<VarName>,
    var_names: Vec<VarName>,
    locations: Vec<NodeName>,
    digits: Vec<usize>,
    finished: bool,
}

impl PossibleLabelledDistGraphs {
    #[verifier::type_invariant]
    spec fn inv(&self) -> bool {
        &&& node_views(self.locations@) == self.base_graph.nodes()
        &&& self.digits@.len() == self.var_names@.len()
        &&& !self.finished ==> digits_valid(self.digits(), self.locations@.len() as int)
    }

    /// The graph whose labellings are enumerated.
    pub closed spec fn base(&self) -> Rc<DistributionGraph> {
        self.base_graph
    }

    /// The variables placed at the locations.
    pub closed spec fn vars(&self) -> Seq<Seq<char>> {
        var_views(self.var_names@)
    }

    /// The variables of the central monitor.
    pub closed spec fn central_vars(&self) -> Seq<Seq<char>> {
        var_views(self.central_var_names@)
    }

    /// The placement that comes next: the node index of each variable.
    pub closed spec fn digits(&self) -> Seq<int> {
        self.digits@.map_values(|d: usize| d as int)
    }

    /// Whether every placement has been given out.
    pub closed spec fn finished(&self) -> bool {
        self.finished
    }

    /// Starts with every variable at the first location; there is nothing to
    /// give out when there are variables but no locations.
    pub fn new(
        base_graph: Rc<DistributionGraph>,
        central_var_names: Vec<VarName>,
        var_names: Vec<VarName>,
    ) -> (r: Self)
        ensures
            r.base() == base_graph,
            r.vars() == var_views(var_names@),
            r.central_vars() == var_views(central_var_names@),
            r.digits() == zero_digits(var_names@.len()),
            r.finished() == (base_graph.nodes().len() == 0 && var_names@.len() > 0),
    {
        let locations = base_graph.locations();
        let n = var_names.len();
        let mut digits: Vec<usize> = Vec::new();
        let mut i: usize = 0;
        while i < n
            invariant
                i <= n,
                digits@.len() == i,
                forall|j: int| 0 <= j < i ==> digits@[j] == 0,
            decreases n - i,
        {
            digits.push(0);
            i = i + 1;
        }
        let finished = locations.len() == 0 && n > 0;
        let r = PossibleLabelledDistGraphs {
            base_graph,
            central_var_names,
            var_names,
            locations,
            digits,
            finished,
        };
        assert(r.digits() =~= zero_digits(n as nat));
        r
    }

    /// The index of the first variable with the same name as variable `p`.
    fn first_var(&self, p: usize) -> (r: usize)
        requires
            p < self.var_names@.len(),
        ensures
            r == first_node(var_views(self.var_names@), self.var_names@[p as int]@),
            r <= p,
    {
        let ghost vars = var_views(self.var_names@);
        let mut q: usize = 0;
        while q < p
            invariant
                q <= p < self.var_names@.len(),
                vars == var_views(self.var_names@),
                forall|j: int| 0 <= j < q ==> vars[j] != vars[p as int],
            decreases p - q,
        {
            if self.var_names[q].same_as(&self.var_names[p]) {
                proof {
                    lemma_first_node(vars, vars[p as int], q as int);
                }
                return q;
            }
            q = q + 1;
        }
        proof {
            lemma_first_node(vars, vars[p as int], p as int);
        }
        p
    }

    /// The variables placed at a location with the same name as location
    /// `j`.
    #[verifier::rlimit(40)]
    fn vars_at(&self, j: usize) -> (r: Vec<VarName>)
        requires
            j < self.locations@.len(),
            !self.finished,
        ensures
            var_views(r@) == vars_placed_at(self.base_graph.nodes(), self.vars(), self.digits(), j as int),
    {
        proof {
            use_type_invariant(self);
        }
        let ghost nodes = self.base_graph.nodes();
        let ghost vars = self.vars();
        let ghost digits = self.digits();
        let ghost pred = |v: Seq<char>| nodes[placed_at(vars, digits, v)] == nodes[j as int];
        let mut r: Vec<VarName> = Vec::new();
        let mut p: usize = 0;
        while p < self.var_names.len()
            invariant
                p <= self.var_names@.len(),
                j < self.locations@.len(),
                !self.finished,
                node_views(self.locations@) == nodes,
                self.digits@.len() == self.var_names@.len(),
                digits_valid(digits, self.locations@.len() as int),
                nodes == self.base_graph.nodes(),
                vars == self.vars(),
                digits == self.digits(),
                pred == (|v: Seq<char>| nodes[placed_at(vars, digits, v)] == nodes[j as int]),
                var_views(r@) == vars.subrange(0, p as int).filter(pred),
            decreases self.var_names@.len() - p,
        {
            let ghost before = r@;
            proof {
                assert(vars.subrange(0, p + 1).drop_last() =~= vars.subrange(0, p as int));
                assert(vars.subrange(0, p + 1).last() == vars[p as int]);
                reveal_with_fuel(Seq::<Seq<char>>::filter, 1);
            }
            let q = self.first_var(p);
            let loc = self.digits[q];
            assert(digits[q as int] == loc as int);
            assert(0 <= digits[q as int] < self.locations@.len());
            assert(node_views(self.locations@)[loc as int] == self.locations@[loc as int]@);
            assert(node_views(self.locations@)[j as int] == self.locations@[j as int]@);
            if self.locations[loc].same_as(&self.locations[j]) {
                r.push(self.var_names[p].duplicate());
                assert(var_views(r@) =~= var_views(before).push(vars[p as int]));
            }
            p = p + 1;
        }
        assert(vars.subrange(0, self.var_names@.len() as int) =~= vars);
        r
    }

    /// The variables placed at each name, under the first node of the name.
    #[verifier::rlimit(40)]
    fn placed_labels(&self) -> (labels: BTreeMap<usize, Vec<VarName>>)
        requires
            !self.finished(),
        ensures
            self.base().nodes().len() <= usize::MAX,
            forall|k: usize| #[trigger] labels@.contains_key(k) <==> first_of_name(self.base().nodes(), k as int),
            forall|k: usize|
                #[trigger] labels@.contains_key(k) ==> var_views(labels@[k]@) == vars_placed_at(
                    self.base().nodes(),
                    self.vars(),
                    self.digits(),
                    k as int,
                ),
    {
        proof {
            use_type_invariant(self);
        }
        let ghost nodes = self.base_graph.nodes();
        let ghost vars = self.vars();
        let ghost digits = self.digits();
        let ghost central = self.base_graph.central_monitor as int;
        let ghost cvars = self.central_vars();
        let n_locs = self.locations.len();
        let mut labels: BTreeMap<usize, Vec<VarName>> = BTreeMap::new();
        let mut i: usize = 0;
        while i < n_locs
            invariant
                i <= n_locs == self.locations@.len() == nodes.len(),
                !self.finished,
                nodes == self.base_graph.nodes(),
                vars == self.vars(),
                digits == self.digits(),
                node_views(self.locations@) == nodes,
                forall|k: usize| #[trigger] labels@.contains_key(k) <==> exists|j: int|
                    0 <= j < i && k == first_node(nodes, nodes[j]),
                forall|k: usize| #[trigger] labels@.contains_key(k) ==> var_views(labels@[k]@)
                    == vars_placed_at(nodes, vars, digits, k as int) && k < nodes.len()
                    && first_node(nodes, nodes[k as int]) == k,
            decreases n_locs - i,
        {
            proof {
                use_type_invariant(&*self);
            }
            assert(node_views(self.locations@)[i as int] == self.locations@[i as int]@);
            let key = self.base_graph.get_node_index_by_name(&self.locations[i]).unwrap();
            proof {
                lemma_first_node(nodes, nodes[i as int], key as int);
                assert(nodes[key as int] == nodes[i as int]);
            }
            let vs = self.vars_at(i);
            proof {
                assert(vars_placed_at(nodes, vars, digits, i as int) =~= vars_placed_at(
                    nodes,
                    vars,
                    digits,
                    key as int,
                ));
            }
            let ghost before = labels@;
            labels.insert(key, vs);
            proof {
                assert forall|k: usize| #[trigger] labels@.contains_key(k) <==> exists|j: int|
                    0 <= j < i + 1 && k == first_node(nodes, nodes[j]) by {
                    if labels@.contains_key(k) && k != key {
                        assert(before.contains_key(k));
                    }
                    if exists|j: int| 0 <= j < i + 1 && k == first_node(nodes, nodes[j]) {
                        let j = choose|j: int| 0 <= j < i + 1 && k == first_node(nodes, nodes[j]);
                        if j < i {
                            assert(before.contains_key(k));
                        }
                    }
                }
            }
            i = i + 1;
        }
        proof {
            assert forall|k: usize| #[trigger] labels@.contains_key(k) <==> first_of_name(nodes, k as int) by {
                if first_of_name(nodes, k as int) {
                    assert(k == first_node(nodes, nodes[k as int]));
                }
            }
        }
        labels
    }

    /// The labels of the current placement.
    #[verifier::rlimit(40)]
    fn current_labels(&self) -> (labels: BTreeMap<usize, Vec<VarName>>)
        requires
            !self.finished(),
        ensures
            labels_view(labels@) == labelling(
                self.base().nodes(),
                self.vars(),
                self.digits(),
                self.base().central_monitor as int,
                self.central_vars(),
            ),
    {
        let ghost nodes = self.base_graph.nodes();
        let ghost vars = self.vars();
        let ghost digits = self.digits();
        let ghost central = self.base_graph.central_monitor as int;
        let ghost cvars = self.central_vars();
        let mut labels = self.placed_labels();
        let central_key = self.base_graph.central_monitor;
        let ghost before = labels@;
        let combined = match labels.get(&central_key) {
            Some(placed) => {
                let mut c = copy_vars(placed);
                let mut cv = copy_vars(&self.central_var_names);
                let ghost a = c@;
                let ghost b = cv@;
                c.append(&mut cv);
                assert(var_views(c@) =~= var_views(a) + var_views(b));
                c
            },
            None => copy_vars(&self.central_var_names),
        };
        labels.insert(central_key, combined);
        proof {
            assert(before.contains_key(central_key) <==> first_of_name(nodes, central));
            if !before.contains_key(central_key) {
                assert(var_views(labels@[central_key]@) =~= Seq::<Seq<char>>::empty() + cvars);
            }
            assert forall|j: int| #[trigger] labels_view(labels@).contains_key(j) == labelling(
                nodes,
                vars,
                digits,
                central,
                cvars,
            ).contains_key(j) by {
                if first_of_name(nodes, j) && j != central {
                    assert(before.contains_key(j as usize));
                }
            }
            assert forall|j: int| #[trigger] labels_view(labels@).contains_key(j) implies labels_view(
                labels@,
            )[j] == labelling(nodes, vars, digits, central, cvars)[j] by {
                if j != central {
                    assert(before.contains_key(j as usize));
                    assert(first_of_name(nodes, j));
                    assert(vars_placed_at(nodes, vars, digits, j) + Seq::<Seq<char>>::empty()
                        =~= vars_placed_at(nodes, vars, digits, j));
                }
            }
            assert(labels_view(labels@) =~= labelling(nodes, vars, digits, central, cvars));
        }
        labels
    }

    /// The labelled graph for the current placement, and the next
    /// placement; `None` once every placement has been given out.
    #[verifier::rlimit(40)]
    pub fn next(&mut self) -> (r: Option<LabelledDistributionGraph>)
        ensures
            final(self).base() == old(self).base(),
            final(self).vars() == old(self).vars(),
            final(self).central_vars() == old(self).central_vars(),
            old(self).finished() ==> r is None && final(self).finished() && final(self).digits()
                == old(self).digits(),
            !old(self).finished() ==> {
                &&& r is Some
                &&& r.unwrap().dist_graph == old(self).base()
                &&& var_views(r.unwrap().var_names@) == old(self).vars()
                &&& labels_view(r.unwrap().node_labels@) == labelling(
                    old(self).base().nodes(),
                    old(self).vars(),
                    old(self).digits(),
                    old(self).base().central_monitor as int,
                    old(self).central_vars(),
                )
                &&& final(self).digits() == next_digits(
                    old(self).digits(),
                    old(self).base().nodes().len() as int,
                ).0
                &&& final(self).finished() == next_digits(
                    old(self).digits(),
                    old(self).base().nodes().len() as int,
                ).1
            },
    {
        proof {
            use_type_invariant(&*self);
        }
        if self.finished {
            return None;
        }
        let labels = self.current_labels();
        let ghost nodes = self.base_graph.nodes();
        let ghost digits = self.digits();
        let n_locs = self.locations.len();
        let g = LabelledDistributionGraph {
            dist_graph: self.base_graph.clone(),
            var_names: copy_vars(&self.var_names),
            node_labels: labels,
        };
        // Count on to the next placement.
        let mut new_digits: Vec<usize> = Vec::new();
        let n = self.digits.len();
        let mut carry = true;
        let mut q: usize = 0;
        while q < n && carry
            invariant
                q <= n == self.digits@.len() == digits.len(),
                digits == self.digits(),
                digits_valid(digits, n_locs as int),
                n_locs == nodes.len(),
                carry ==> new_digits@.len() == q,
                carry ==> forall|j: int| 0 <= j < q ==> #[trigger] new_digits@[j] == 0,
                carry ==> forall|j: int| 0 <= j < q ==> #[trigger] digits[j] + 1 >= n_locs,
                !carry ==> q >= 1 && new_digits@.len() == n,
                !carry ==> forall|j: int| 0 <= j < q - 1 ==> #[trigger] new_digits@[j] == 0,
                !carry ==> forall|j: int| 0 <= j < q - 1 ==> #[trigger] digits[j] + 1 >= n_locs,
                !carry ==> digits[q - 1] + 1 < n_locs && new_digits@[q - 1] == digits[q - 1] + 1
                    && forall|j: int| q <= j < n ==> new_digits@[j] == digits[j],
            decreases n - q,
        {
            let d = self.digits[q];
            assert(digits[q as int] == d as int);
            let ghost prev = new_digits@;
            if d + 1 < n_locs {
                new_digits.push(d + 1);
                assert(forall|j: int| 0 <= j < q ==> new_digits@[j] == prev[j]);
                let mut t: usize = q + 1;
                while t < n
                    invariant
                        q + 1 <= t <= n == self.digits@.len() == digits.len(),
                        digits == self.digits(),
                        new_digits@.len() == t,
                        forall|j: int| q < j < t ==> new_digits@[j] == digits[j],
                        new_digits@[q as int] == d + 1,
                        forall|j: int| 0 <= j < q ==> #[trigger] new_digits@[j] == 0,
                        forall|j: int| 0 <= j < q ==> #[trigger] digits[j] + 1 >= n_locs,
                    decreases n - t,
                {
                    new_digits.push(self.digits[t]);
                    t = t + 1;
                }
                carry = false;
            } else {
                new_digits.push(0);
                assert(forall|j: int| 0 <= j < q ==> new_digits@[j] == prev[j]);
            }
            q = q + 1;
        }
        proof {
            let nd = new_digits@.map_values(|d: usize| d as int);
            if carry {
                assert forall|j: int| 0 <= j < n implies #[trigger] digits[j] + 1 >= n_locs by {
                    assert(digits[j] + 1 >= n_locs);
                }
                lemma_next_digits_shape(digits, n_locs as int, n as int);
                assert(nd =~= zero_digits(n as nat));
            } else {
                assert forall|j: int| 0 <= j < q - 1 implies #[trigger] digits[j] + 1 >= n_locs by {
                    assert(digits[j] + 1 >= n_locs);
                }
                lemma_next_digits_shape(digits, n_locs as int, q - 1);
                assert(nd =~= zero_digits((q - 1) as nat) + seq![digits[q - 1] + 1] + digits.skip(q as int));
            }
            lemma_next_digits_counts(digits, n_locs as int);
        }
        self.finished = carry;
        self.digits = new_digits;
        Some(g)
    }
}

/// All labellings of `base_graph` that place each of `var_names` at one of
/// its locations, the central monitor keeping `central_var_names`.
pub fn possible_labelled_dist_graphs(
    base_graph: Rc<DistributionGraph>,
    central_var_names: Vec<VarName>,
    var_names: Vec<VarName>,
) -> (r: PossibleLabelledDistGraphs)
    ensures
        r.base() == base_graph,
        r.vars() == var_views(var_names@),
        r.central_vars() == var_views(central_var_names@),
        r.digits() == zero_digits(var_names@.len()),
        r.finished() == (base_graph.nodes().len() == 0 && var_names@.len() > 0),
{
    PossibleLabelledDistGraphs::new(base_graph, central_var_names, var_names)
}

impl<'a> LocalitySpec for (NodeName, &'a LabelledDistributionGraph) {
    /// The variables monitored at the first node of that name.
    open spec fn spec_local_vars(&self) -> Seq<Seq<char>> {
        var_views(self.1.node_labels@[first_node(self.1.nodes(), self.0@) as usize]@)
    }

    /// The node exists and is labelled.
    open spec fn has_local_vars(&self) -> bool {
        &&& has_node(self.1.nodes(), self.0@)
        &&& self.1.node_labels@.contains_key(first_node(self.1.nodes(), self.0@) as usize)
    }

    fn local_vars(&self) -> (r: Vec<VarName>) {
        let i = self.1.node_index(&self.0);
        match self.1.monitors_at_node(i) {
            Some(l) => copy_vars(l),
            None => Vec::new(),
        }
    }
}

impl LocalitySpec for (NodeName, LabelledDistributionGraph) {
    /// The variables monitored at the first node of that name.
    open spec fn spec_local_vars(&self) -> Seq<Seq<char>> {
        var_views(self.1.node_labels@[first_node(self.1.nodes(), self.0@) as usize]@)
    }

    /// The node exists and is labelled.
    open spec fn has_local_vars(&self) -> bool {
        &&& has_node(self.1.nodes(), self.0@)
        &&& self.1.node_labels@.contains_key(first_node(self.1.nodes(), self.0@) as usize)
    }

    fn local_vars(&self) -> (r: Vec<VarName>) {
        let i = self.1.node_index(&self.0);
        match self.1.monitors_at_node(i) {
            Some(l) => copy_vars(l),
            None => Vec::new(),
        }
    }
}

/// The names of a sequence of locations.
pub open spec fn node_views(ns: Seq<NodeName>) -> Seq<Seq<char>> {
    ns.map_values(|n: NodeName| n@)
}

} // verus!
