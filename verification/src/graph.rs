//! The directed graphs of locations, kept in a `petgraph` graph, and what the
//! library relies on from `petgraph`.
//!
//! Nodes are numbered from 0 in the order they were added; each edge has a
//! source, a target and a non-negative weight, and edges are numbered in the
//! order they were added.
use vstd::prelude::*;

use petgraph::graph::{EdgeIndex, NodeIndex};

use crate::distribution_graphs::NodeName;

verus! {

#[verifier::external_type_specification]
#[verifier::external_body]
#[verifier::reject_recursive_types(N)]
#[verifier::reject_recursive_types(E)]
#[verifier::reject_recursive_types(Ty)]
#[verifier::reject_recursive_types(Ix)]
pub struct ExGraph<N, E, Ty, Ix>(petgraph::graph::Graph<N, E, Ty, Ix>);

#[verifier::external_type_specification]
#[verifier::external_body]
pub struct ExDirected(petgraph::Directed);

/// A graph of named locations with distances on its directed edges.
pub type LocationGraph = petgraph::graph::Graph<NodeName, u64, petgraph::Directed, u32>;

/// The names of the nodes of `g`, by node index.
pub uninterp spec fn graph_nodes(g: LocationGraph) -> Seq<Seq<char>>;

/// The edges of `g` as (source, target, weight), by edge index.
pub uninterp spec fn graph_edges(g: LocationGraph) -> Seq<(nat, nat, u64)>;

/// `Graph::new` from petgraph: a graph without nodes or edges.
#[verifier::external_body]
pub(crate) fn graph_new() -> (g: LocationGraph)
    ensures
        graph_nodes(g) == Seq::<Seq<char>>::empty(),
        graph_edges(g) == Seq::<(nat, nat, u64)>::empty(),
{
    petgraph::graph::Graph::new()
}

/// `Graph::add_node` from petgraph: appends a node and returns its index.
/// It panics when the graph already has `u32::MAX` nodes.
#[verifier::external_body]
pub(crate) fn graph_add_node(g: &mut LocationGraph, name: NodeName) -> (r: usize)
    requires
        graph_nodes(*old(g)).len() < u32::MAX,
    ensures
        graph_nodes(*final(g)) == graph_nodes(*old(g)).push(name@),
        graph_edges(*final(g)) == graph_edges(*old(g)),
        r == graph_nodes(*old(g)).len(),
{
    g.add_node(name).index()
}

/// `Graph::add_edge` from petgraph: appends an edge. It panics when an
/// endpoint is not a node or the graph already has `u32::MAX` edges.
#[verifier::external_body]
pub(crate) fn graph_add_edge(g: &mut LocationGraph, a: usize, b: usize, w: u64)
    requires
        a < graph_nodes(*old(g)).len(),
        b < graph_nodes(*old(g)).len(),
        graph_edges(*old(g)).len() < u32::MAX,
    ensures
        graph_nodes(*final(g)) == graph_nodes(*old(g)),
        graph_edges(*final(g)) == graph_edges(*old(g)).push((a as nat, b as nat, w)),
{
    g.add_edge(NodeIndex::new(a), NodeIndex::new(b), w);
}

/// `Graph::node_count` from petgraph: the number of nodes.
#[verifier::external_body]
pub(crate) fn graph_node_count(g: &LocationGraph) -> (r: usize)
    ensures
        r == graph_nodes(*g).len(),
{
    g.node_count()
}

/// `Graph::edge_count` from petgraph: the number of edges.
#[verifier::external_body]
pub(crate) fn graph_edge_count(g: &LocationGraph) -> (r: usize)
    ensures
        r == graph_edges(*g).len(),
{
    g.edge_count()
}

/// `Graph::node_weight` from petgraph: the name of node `i`, for a node of
/// the graph.
#[verifier::external_body]
pub(crate) fn graph_node_weight(g: &LocationGraph, i: usize) -> (r: Option<&NodeName>)
    requires
        i < graph_nodes(*g).len(),
    ensures
        r is Some && r.unwrap()@ == graph_nodes(*g)[i as int],
{
    g.node_weight(NodeIndex::new(i))
}

/// `Graph::edge_endpoints` from petgraph: the source and target of edge `e`,
/// for an edge of the graph.
#[verifier::external_body]
pub(crate) fn graph_edge_endpoints(g: &LocationGraph, e: usize) -> (r: Option<(usize, usize)>)
    requires
        e < graph_edges(*g).len(),
    ensures
        r is Some && r.unwrap().0 as nat == graph_edges(*g)[e as int].0 && r.unwrap().1 as nat
            == graph_edges(*g)[e as int].1,
{
    g.edge_endpoints(EdgeIndex::new(e)).map(|(a, b)| (a.index(), b.index()))
}

/// `Graph::edge_weight` from petgraph: the weight of edge `e`, for an edge of
/// the graph.
#[verifier::external_body]
pub(crate) fn graph_edge_weight(g: &LocationGraph, e: usize) -> (r: Option<u64>)
    requires
        e < graph_edges(*g).len(),
    ensures
        r == Some(graph_edges(*g)[e as int].2),
{
    g.edge_weight(EdgeIndex::new(e)).copied()
}

/// `w` is a walk along `edges` (a sequence of edge indices, each edge
/// starting where the previous one ended) from node `from` to node `to`.
pub open spec fn is_walk(edges: Seq<(nat, nat, u64)>, w: Seq<int>, from: int, to: int) -> bool
    decreases w.len(),
{
    if w.len() == 0 {
        from == to
    } else {
        &&& 0 <= w[0] < edges.len()
        &&& edges[w[0]].0 == from
        &&& is_walk(edges, w.drop_first(), edges[w[0]].1 as int, to)
    }
}

/// The total weight of the edges of walk `w`.
pub open spec fn walk_cost(edges: Seq<(nat, nat, u64)>, w: Seq<int>) -> int
    decreases w.len(),
{
    if w.len() == 0 {
        0
    } else {
        edges[w[0]].2 + walk_cost(edges, w.drop_first())
    }
}

/// The sum of all edge weights.
pub open spec fn total_weight(edges: Seq<(nat, nat, u64)>) -> int
    decreases edges.len(),
{
    if edges.len() == 0 {
        0
    } else {
        total_weight(edges.drop_last()) + edges.last().2
    }
}

/// Some walk from `from` reaches a node marked in `goals`, at cost `c`.
pub open spec fn reaches_at_cost(
    edges: Seq<(nat, nat, u64)>,
    from: int,
    goals: Seq<bool>,
    c: int,
) -> bool {
    exists|w: Seq<int>, t: int|
        #![trigger is_walk(edges, w, from, t), walk_cost(edges, w)]
        is_walk(edges, w, from, t) && 0 <= t < goals.len() && goals[t] && walk_cost(edges, w) == c
}

/// No walk from `from` to a node marked in `goals` costs less than `c`.
pub open spec fn no_cheaper_walk(
    edges: Seq<(nat, nat, u64)>,
    from: int,
    goals: Seq<bool>,
    c: int,
) -> bool {
    forall|w: Seq<int>, t: int|
        #![trigger is_walk(edges, w, from, t), walk_cost(edges, w)]
        is_walk(edges, w, from, t) && 0 <= t < goals.len() && goals[t] ==> c <= walk_cost(
            edges,
            w,
        )
}

/// The cost of the cheapest walk from `from` to a node marked in `goals`, if
/// any node marked there can be reached.
pub open spec fn shortest(edges: Seq<(nat, nat, u64)>, from: int, goals: Seq<bool>) -> Option<
    int,
> {
    if exists|c: int| reaches_at_cost(edges, from, goals, c) && no_cheaper_walk(edges, from, goals, c) {
        Some(
            choose|c: int|
                reaches_at_cost(edges, from, goals, c) && no_cheaper_walk(edges, from, goals, c),
        )
    } else {
        None
    }
}

/// Whether node `i` is marked in `goals`.
pub fn goal_at(goals: &Vec<bool>, i: usize) -> (r: bool)
    ensures
        r == (i < goals.len() && goals@[i as int]),
{
    i < goals.len() && goals[i]
}

/// The estimate of the remaining cost from any node: none, which makes the
/// search a plain cheapest-path search.
pub fn no_estimate(node: usize) -> (r: u64)
    ensures
        r == 0,
{
    0
}

/// `petgraph::algo::astar` with a zero estimate, which makes it Dijkstra's
/// algorithm: the cost of a cheapest walk from `start` to a node marked in
/// `goals`, or `None` when no marked node can be reached. Edge weights are
/// summed in `u64`; the bound on the total weight keeps every partial sum in
/// range.
#[verifier::external_body]
pub(crate) fn graph_shortest_cost(g: &LocationGraph, start: usize, goals: &Vec<bool>) -> (r: Option<
    u64,
>)
    requires
        start < graph_nodes(*g).len(),
        goals.len() == graph_nodes(*g).len(),
        2 * total_weight(graph_edges(*g)) <= u64::MAX,
    ensures
        r matches Some(c) ==> reaches_at_cost(graph_edges(*g), start as int, goals@, c as int)
            && no_cheaper_walk(graph_edges(*g), start as int, goals@, c as int),
        r is None ==> forall|c: int| !reaches_at_cost(graph_edges(*g), start as int, goals@, c),
{
    petgraph::algo::astar(
        g,
        NodeIndex::new(start),
        |n: NodeIndex<u32>| goal_at(goals, n.index()),
        |e| *e.weight(),
        |n: NodeIndex<u32>| no_estimate(n.index()),
    ).map(|(cost, _)| cost)
}

/// The cost of a walk is never negative.
pub proof fn lemma_walk_cost_nonneg(edges: Seq<(nat, nat, u64)>, w: Seq<int>)
    ensures
        walk_cost(edges, w) >= 0,
    decreases w.len(),
{
    if w.len() > 0 {
        lemma_walk_cost_nonneg(edges, w.drop_first());
    }
}

/// When the costs found are as stated, they are the cheapest.
pub proof fn lemma_shortest_is(edges: Seq<(nat, nat, u64)>, from: int, goals: Seq<bool>, c: int)
    requires
        reaches_at_cost(edges, from, goals, c),
        no_cheaper_walk(edges, from, goals, c),
    ensures
        shortest(edges, from, goals) == Some(c),
{
    let d = choose|d: int| reaches_at_cost(edges, from, goals, d) && no_cheaper_walk(edges, from, goals, d);
    let (w1, t1) = choose|w: Seq<int>, t: int|
        #![trigger is_walk(edges, w, from, t), walk_cost(edges, w)]
        is_walk(edges, w, from, t) && 0 <= t < goals.len() && goals[t] && walk_cost(edges, w) == c;
    let (w2, t2) = choose|w: Seq<int>, t: int|
        #![trigger is_walk(edges, w, from, t), walk_cost(edges, w)]
        is_walk(edges, w, from, t) && 0 <= t < goals.len() && goals[t] && walk_cost(edges, w) == d;
    assert(d <= walk_cost(edges, w1));
    assert(c <= walk_cost(edges, w2));
}

/// When no cost is reachable, there is no cheapest walk.
pub proof fn lemma_shortest_none(edges: Seq<(nat, nat, u64)>, from: int, goals: Seq<bool>)
    requires
        forall|c: int| !reaches_at_cost(edges, from, goals, c),
    ensures
        shortest(edges, from, goals) is None,
{
}


/// Edge `k` has a reverse edge with the same weight.
pub open spec fn has_reverse(edges: Seq<(nat, nat, u64)>, k: int) -> bool {
    exists|l: int| 0 <= l < edges.len() && #[trigger] edges[l] == (edges[k].1, edges[k].0, edges[k].2)
}

/// Every edge has a reverse edge with the same weight.
pub open spec fn symmetric(edges: Seq<(nat, nat, u64)>) -> bool {
    forall|k: int| 0 <= k < edges.len() ==> #[trigger] has_reverse(edges, k)
}

/// Joining two sequences of edges that each have their reverses keeps that.
pub proof fn lemma_symmetric_concat(a: Seq<(nat, nat, u64)>, b: Seq<(nat, nat, u64)>)
    requires
        symmetric(a),
        symmetric(b),
    ensures
        symmetric(a + b),
{
    let s = a + b;
    assert forall|k: int| 0 <= k < s.len() implies #[trigger] has_reverse(s, k) by {
        if k < a.len() {
            assert(s[k] == a[k]);
            assert(has_reverse(a, k));
            let l = choose|l: int| 0 <= l < a.len() && #[trigger] a[l] == (a[k].1, a[k].0, a[k].2);
            assert(s[l] == a[l]);
        } else {
            let kb = k - a.len();
            assert(s[k] == b[kb]);
            assert(has_reverse(b, kb));
            let l = choose|l: int| 0 <= l < b.len() && #[trigger] b[l] == (b[kb].1, b[kb].0, b[kb].2);
            assert(s[l + a.len()] == b[l]);
        }
    }
}

/// An edge and its reverse.
pub proof fn lemma_symmetric_pair(x: nat, y: nat, w: u64)
    ensures
        symmetric(seq![(x, y, w), (y, x, w)]),
{
    let s = seq![(x, y, w), (y, x, w)];
    assert forall|k: int| 0 <= k < s.len() implies #[trigger] has_reverse(s, k) by {
        if k == 0 {
            assert(s[1] == (s[0].1, s[0].0, s[0].2));
        } else {
            assert(s[0] == (s[1].1, s[1].0, s[1].2));
        }
    }
}

/// A walk followed by another one that starts where the first ends.
pub proof fn lemma_walk_concat(edges: Seq<(nat, nat, u64)>, w1: Seq<int>, w2: Seq<int>, a: int, m: int, b: int)
    requires
        is_walk(edges, w1, a, m),
        is_walk(edges, w2, m, b),
    ensures
        is_walk(edges, w1 + w2, a, b),
        walk_cost(edges, w1 + w2) == walk_cost(edges, w1) + walk_cost(edges, w2),
    decreases w1.len(),
{
    if w1.len() == 0 {
        assert(w1 + w2 =~= w2);
    } else {
        lemma_walk_concat(edges, w1.drop_first(), w2, edges[w1[0]].1 as int, m, b);
        assert((w1 + w2).drop_first() =~= w1.drop_first() + w2);
        assert((w1 + w2)[0] == w1[0]);
    }
}

/// The index of the reverse of edge `e`.
pub open spec fn reverse_edge(edges: Seq<(nat, nat, u64)>, e: int) -> int {
    choose|l: int| 0 <= l < edges.len() && edges[l] == (edges[e].1, edges[e].0, edges[e].2)
}

/// The walk back along the reverse edges.
pub open spec fn reverse_walk(edges: Seq<(nat, nat, u64)>, w: Seq<int>) -> Seq<int>
    decreases w.len(),
{
    if w.len() == 0 {
        Seq::empty()
    } else {
        reverse_walk(edges, w.drop_first()) + seq![reverse_edge(edges, w[0])]
    }
}

/// With every edge's reverse at hand, a walk can be taken back at the same
/// cost.
pub proof fn lemma_reverse_walk(edges: Seq<(nat, nat, u64)>, w: Seq<int>, a: int, b: int)
    requires
        symmetric(edges),
        is_walk(edges, w, a, b),
    ensures
        is_walk(edges, reverse_walk(edges, w), b, a),
        walk_cost(edges, reverse_walk(edges, w)) == walk_cost(edges, w),
    decreases w.len(),
{
    if w.len() > 0 {
        let e = w[0];
        let m = edges[e].1 as int;
        lemma_reverse_walk(edges, w.drop_first(), m, b);
        let r = reverse_edge(edges, e);
        assert(has_reverse(edges, e));
        assert(0 <= r < edges.len() && edges[r] == (edges[e].1, edges[e].0, edges[e].2));
        let single = seq![r];
        assert(edges[e].0 == a);
        assert(single[0] == r);
        assert(single.drop_first() =~= Seq::<int>::empty());
        assert(is_walk(edges, single.drop_first(), edges[r].1 as int, a));
        assert(walk_cost(edges, single.drop_first()) == 0);
        assert(is_walk(edges, single, m, a));
        assert(walk_cost(edges, single) == edges[r].2);
        lemma_walk_concat(edges, reverse_walk(edges, w.drop_first()), single, b, m, a);
    }
}

/// With every edge's reverse at hand, the cheapest distance from `a` to `b`
/// is the cheapest distance from `b` to `a`.
pub proof fn lemma_shortest_symmetric(edges: Seq<(nat, nat, u64)>, n: nat, a: int, b: int)
    requires
        symmetric(edges),
        0 <= a < n,
        0 <= b < n,
    ensures
        shortest(edges, a, Seq::new(n, |i: int| i == b)) == shortest(edges, b, Seq::new(n, |i: int| i == a)),
{
    let ga = Seq::new(n, |i: int| i == a);
    let gb = Seq::new(n, |i: int| i == b);
    if shortest(edges, a, gb) is Some {
        lemma_shortest_reverse(edges, n, a, b);
    } else if shortest(edges, b, ga) is Some {
        lemma_shortest_reverse(edges, n, b, a);
    }
}

/// A cheapest distance one way is the cheapest distance the other way.
proof fn lemma_shortest_reverse(edges: Seq<(nat, nat, u64)>, n: nat, a: int, b: int)
    requires
        symmetric(edges),
        0 <= a < n,
        0 <= b < n,
        shortest(edges, a, Seq::new(n, |i: int| i == b)) is Some,
    ensures
        shortest(edges, b, Seq::new(n, |i: int| i == a)) == shortest(edges, a, Seq::new(n, |i: int| i == b)),
{
    let ga = Seq::new(n, |i: int| i == a);
    let gb = Seq::new(n, |i: int| i == b);
    let c = choose|c: int| reaches_at_cost(edges, a, gb, c) && no_cheaper_walk(edges, a, gb, c);
    let (w, t) = choose|w: Seq<int>, t: int|
        #![trigger is_walk(edges, w, a, t), walk_cost(edges, w)]
        is_walk(edges, w, a, t) && 0 <= t < gb.len() && gb[t] && walk_cost(edges, w) == c;
    assert(t == b);
    lemma_reverse_walk(edges, w, a, b);
    let rw = reverse_walk(edges, w);
    assert(is_walk(edges, rw, b, a) && 0 <= a < ga.len() && ga[a] && walk_cost(edges, rw) == c);
    assert(reaches_at_cost(edges, b, ga, c));
    assert forall|w2: Seq<int>, t2: int|
        is_walk(edges, w2, b, t2) && 0 <= t2 < ga.len() && ga[t2] implies c <= walk_cost(edges, w2) by {
        assert(t2 == a);
        lemma_reverse_walk(edges, w2, b, a);
        let r2 = reverse_walk(edges, w2);
        assert(is_walk(edges, r2, a, b) && 0 <= b < gb.len() && gb[b]);
        assert(c <= walk_cost(edges, r2));
    }
    assert(no_cheaper_walk(edges, b, ga, c));
    lemma_shortest_is(edges, b, ga, c);
    lemma_shortest_is(edges, a, gb, c);
}

} // verus!
