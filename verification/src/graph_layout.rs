//! Building a distribution graph from the distances between locations.
use vstd::prelude::*;

use crate::distribution_graphs::{DistributionGraph, NodeName, has_node, node_views};
use crate::graph::{
    LocationGraph, graph_add_edge, graph_add_node, graph_edges, graph_new, graph_nodes,
    lemma_symmetric_concat, lemma_symmetric_pair, symmetric,
};
use crate::text::{lemma_seq_lt_irreflexive, lemma_seq_lt_total, lemma_seq_lt_transitive, seq_lt, string_lt};

verus! {

/// The index of the last node called `name` (meaningful when one is).
pub open spec fn last_node(nodes: Seq<Seq<char>>, name: Seq<char>) -> int {
    choose|i: int|
        0 <= i < nodes.len() && nodes[i] == name && forall|j: int| i < j < nodes.len() ==> nodes[j]
            != name
}

/// A scan that finds no later node of that name has found `last_node`.
pub proof fn lemma_last_node(nodes: Seq<Seq<char>>, name: Seq<char>, i: int)
    requires
        0 <= i < nodes.len(),
        nodes[i] == name,
        forall|j: int| i < j < nodes.len() ==> nodes[j] != name,
    ensures
        last_node(nodes, name) == i,
{
    let k = last_node(nodes, name);
    assert(0 <= k < nodes.len() && nodes[k] == name && forall|j: int| k < j < nodes.len()
        ==> nodes[j] != name);
    if k < i {
        assert(nodes[i] != name);
    }
    if i < k {
        assert(nodes[k] != name);
    }
}

/// The edges, in both directions, between location `i` and each location
/// from `i + 1` up to `j - 1`, each pair joining the last nodes of the two
/// names at the distance given for the pair.
pub open spec fn pair_row(nodes: Seq<Seq<char>>, d: Seq<Seq<u64>>, i: int, j: int) -> Seq<
    (nat, nat, u64),
>
    decreases j - i,
{
    if j <= i + 1 {
        Seq::empty()
    } else {
        let k = j - 1;
        let a = last_node(nodes, nodes[i]) as nat;
        let b = last_node(nodes, nodes[k]) as nat;
        pair_row(nodes, d, i, k) + seq![(a, b, d[i][k]), (b, a, d[i][k])]
    }
}

/// The rows of edges for locations `0` to `i - 1`.
pub open spec fn pair_rows(nodes: Seq<Seq<char>>, d: Seq<Seq<u64>>, i: int) -> Seq<
    (nat, nat, u64),
>
    decreases i,
{
    if i <= 0 {
        Seq::empty()
    } else {
        pair_rows(nodes, d, i - 1) + pair_row(nodes, d, i - 1, nodes.len() as int)
    }
}

/// Edges of weight 0 from and to node `c` for each node of `order`, in turn.
pub open spec fn central_edges(order: Seq<int>, c: int) -> Seq<(nat, nat, u64)>
    decreases order.len(),
{
    if order.len() == 0 {
        Seq::empty()
    } else {
        central_edges(order.drop_last(), c) + seq![
            (order.last() as nat, c as nat, 0u64),
            (c as nat, order.last() as nat, 0u64),
        ]
    }
}

/// `order` lists the last node of each name exactly once, by ascending name.
pub open spec fn sorted_last_nodes(nodes: Seq<Seq<char>>, order: Seq<int>) -> bool {
    &&& forall|k: int|
        0 <= k < order.len() ==> 0 <= #[trigger] order[k] < nodes.len() && last_node(
            nodes,
            nodes[order[k]],
        ) == order[k]
    &&& forall|k: int, l: int|
        0 <= k < l < order.len() ==> seq_lt(nodes[#[trigger] order[k]], nodes[#[trigger] order[l]])
    &&& forall|i: int|
        0 <= i < nodes.len() && last_node(nodes, nodes[i]) == i ==> #[trigger] order.contains(i)
}

/// The distances between the first `n` locations are given: `d[i][j]` for
/// `i, j < n`.
pub open spec fn distances_given(d: Seq<Seq<u64>>, n: int) -> bool {
    &&& n <= d.len()
    &&& forall|i: int| 0 <= i < n ==> n <= #[trigger] d[i].len()
}

/// The index of the last location with the same name as location `i`.
fn last_index(locations: &Vec<NodeName>, i: usize) -> (r: usize)
    requires
        i < locations.len(),
    ensures
        r == last_node(node_views(locations@), locations@[i as int]@),
        i <= r < locations.len(),
{
    let ghost nodes = node_views(locations@);
    let n = locations.len();
    let mut k: usize = n - 1;
    while k > i
        invariant
            i <= k < n == locations@.len(),
            nodes == node_views(locations@),
            forall|j: int| k < j < n ==> nodes[j] != nodes[i as int],
        decreases k,
    {
        if locations[k].same_as(&locations[i]) {
            proof {
                lemma_last_node(nodes, nodes[i as int], k as int);
            }
            return k;
        }
        k = k - 1;
    }
    proof {
        lemma_last_node(nodes, nodes[i as int], i as int);
    }
    i
}

/// The kept nodes `r` are last nodes of their names, below `i`, by strictly
/// ascending name.
pub open spec fn sorted_below(nodes: Seq<Seq<char>>, r: Seq<usize>, i: int) -> bool {
    &&& forall|k: int|
        0 <= k < r.len() ==> #[trigger] r[k] < i && last_node(nodes, nodes[r[k] as int]) == r[k]
    &&& forall|k: int, l: int|
        0 <= k < l < r.len() ==> seq_lt(nodes[#[trigger] r[k] as int], nodes[#[trigger] r[l] as int])
}

/// Puts node `i`, the last of its name, into its place by name among `r`.
fn insert_by_name(locations: &Vec<NodeName>, r: &mut Vec<usize>, i: usize)
    requires
        i < locations@.len(),
        last_node(node_views(locations@), node_views(locations@)[i as int]) == i,
        sorted_below(node_views(locations@), old(r)@, i as int),
    ensures
        sorted_below(node_views(locations@), final(r)@, i + 1),
        final(r)@.contains(i),
        forall|x: usize| old(r)@.contains(x) ==> #[trigger] final(r)@.contains(x),
{
    let ghost nodes = node_views(locations@);
    let mut p: usize = 0;
    while p < r.len() && !string_lt(&locations[i].name(), &locations[r[p]].name())
        invariant
            p <= r@.len(),
            i < locations@.len(),
            nodes == node_views(locations@),
            sorted_below(nodes, r@, i as int),
            forall|k: int| 0 <= k < p ==> !seq_lt(nodes[i as int], nodes[#[trigger] r@[k] as int]),
        decreases r@.len() - p,
    {
        assert(nodes[i as int] == locations@[i as int]@);
        assert(nodes[r@[p as int] as int] == locations@[r@[p as int] as int]@);
        p = p + 1;
    }
    proof {
        if p < r@.len() {
            assert(nodes[i as int] == locations@[i as int]@);
            assert(nodes[r@[p as int] as int] == locations@[r@[p as int] as int]@);
        }
        assert forall|k: int| 0 <= k < p implies seq_lt(nodes[#[trigger] r@[k] as int], nodes[i as int]) by {
            let x = r@[k] as int;
            assert(last_node(nodes, nodes[x]) == x);
            if nodes[x] == nodes[i as int] {
                assert(x < i);
            }
            lemma_seq_lt_total(nodes[x], nodes[i as int]);
        }
        if p < r@.len() {
            assert forall|k: int| p <= k < r@.len() implies seq_lt(nodes[i as int], nodes[#[trigger] r@[k] as int]) by {
                if k > p {
                    lemma_seq_lt_transitive(nodes[i as int], nodes[r@[p as int] as int], nodes[r@[k] as int]);
                }
            }
        }
    }
    let ghost before = r@;
    r.insert(p, i);
    proof {
        lemma_insert_sorted(nodes, before, p as int, i);
        before.insert_ensures(p as int, i);
        assert(r@[p as int] == i);
        assert forall|x: usize| before.contains(x) implies #[trigger] r@.contains(x) by {
            let k = choose|k: int| 0 <= k < before.len() && before[k] == x;
            if k < p {
                assert(r@[k] == x);
            } else {
                assert(r@[k + 1] == x);
            }
        }
    }
}

/// Putting node `i` between the names below it and those above it keeps the
/// list sorted.
proof fn lemma_insert_sorted(nodes: Seq<Seq<char>>, before: Seq<usize>, p: int, i: usize)
    requires
        sorted_below(nodes, before, i as int),
        0 <= p <= before.len(),
        last_node(nodes, nodes[i as int]) == i,
        forall|k: int| 0 <= k < p ==> seq_lt(nodes[#[trigger] before[k] as int], nodes[i as int]),
        forall|k: int| p <= k < before.len() ==> seq_lt(nodes[i as int], nodes[#[trigger] before[k] as int]),
    ensures
        sorted_below(nodes, before.insert(p, i), i + 1),
{
    let r = before.insert(p, i);
    before.insert_ensures(p, i);
    assert forall|k: int, l: int|
        0 <= k < l < r.len() implies seq_lt(nodes[#[trigger] r[k] as int], nodes[#[trigger] r[l] as int]) by {
        if k < p && l < p {
            assert(r[k] == before[k] && r[l] == before[l]);
        } else if k < p && l == p {
            assert(r[k] == before[k]);
        } else if k < p && l > p {
            assert(r[k] == before[k] && r[l] == before[l - 1]);
            lemma_seq_lt_transitive(nodes[before[k] as int], nodes[i as int], nodes[before[l - 1] as int]);
        } else if k == p {
            assert(r[l] == before[l - 1]);
        } else {
            assert(r[k] == before[k - 1] && r[l] == before[l - 1]);
        }
    }
    assert forall|k: int| 0 <= k < r.len() implies #[trigger] r[k] < i + 1 && last_node(nodes, nodes[r[k] as int])
        == r[k] by {
        if k < p {
            assert(r[k] == before[k]);
        } else if k > p {
            assert(r[k] == before[k - 1]);
        }
    }
}

/// The last node of each name, by ascending name.
#[verifier::rlimit(50)]
fn sorted_last_indices(locations: &Vec<NodeName>) -> (r: Vec<usize>)
    ensures
        sorted_last_nodes(node_views(locations@), r@.map_values(|x: usize| x as int)),
{
    let ghost nodes = node_views(locations@);
    let n = locations.len();
    let mut r: Vec<usize> = Vec::new();
    let mut i: usize = 0;
    while i < n
        invariant
            i <= n == locations@.len(),
            nodes == node_views(locations@),
            sorted_below(nodes, r@, i as int),
            forall|x: int| 0 <= x < i && last_node(nodes, nodes[x]) == x ==> #[trigger] r@.contains(x as usize),
        decreases n - i,
    {
        let li = last_index(locations, i);
        let ghost before = r@;
        if li == i {
            insert_by_name(locations, &mut r, i);
            proof {
                assert forall|x: int| 0 <= x < i + 1 && last_node(nodes, nodes[x]) == x implies #[trigger] r@.contains(
                    x as usize,
                ) by {
                    if x < i {
                        assert(before.contains(x as usize));
                    }
                }
            }
        } else {
            proof {
                assert forall|x: int| 0 <= x < i + 1 && last_node(nodes, nodes[x]) == x implies #[trigger] r@.contains(
                    x as usize,
                ) by {
                    if x == i {
                        assert(last_node(nodes, nodes[i as int]) == li);
                    }
                }
            }
        }
        i = i + 1;
    }
    proof {
        let order = r@.map_values(|x: usize| x as int);
        assert forall|x: int| 0 <= x < nodes.len() && last_node(nodes, nodes[x]) == x implies #[trigger] order.contains(x) by {
            assert(r@.contains(x as usize));
            let k = choose|k: int| 0 <= k < r@.len() && r@[k] == x as usize;
            assert(order[k] == x);
        }
        assert forall|k: int, l: int|
            0 <= k < l < order.len() implies seq_lt(nodes[#[trigger] order[k]], nodes[#[trigger] order[l]]) by {
            assert(seq_lt(nodes[r@[k] as int], nodes[r@[l] as int]));
        }
    }
    r
}

/// Each row holds every edge together with its reverse.
proof fn lemma_pair_row_symmetric(nodes: Seq<Seq<char>>, d: Seq<Seq<u64>>, i: int, j: int)
    ensures
        symmetric(pair_row(nodes, d, i, j)),
    decreases j - i,
{
    if j > i + 1 {
        let k = j - 1;
        let a = last_node(nodes, nodes[i]) as nat;
        let b = last_node(nodes, nodes[k]) as nat;
        lemma_pair_row_symmetric(nodes, d, i, k);
        lemma_symmetric_pair(a, b, d[i][k]);
        lemma_symmetric_concat(pair_row(nodes, d, i, k), seq![(a, b, d[i][k]), (b, a, d[i][k])]);
    } else {
        assert(pair_row(nodes, d, i, j) =~= Seq::<(nat, nat, u64)>::empty());
    }
}

/// All rows together hold every edge with its reverse.
proof fn lemma_pair_rows_symmetric(nodes: Seq<Seq<char>>, d: Seq<Seq<u64>>, i: int)
    ensures
        symmetric(pair_rows(nodes, d, i)),
    decreases i,
{
    if i > 0 {
        lemma_pair_rows_symmetric(nodes, d, i - 1);
        lemma_pair_row_symmetric(nodes, d, i - 1, nodes.len() as int);
        lemma_symmetric_concat(pair_rows(nodes, d, i - 1), pair_row(nodes, d, i - 1, nodes.len() as int));
    }
}

/// The edges of a central monitor hold every edge with its reverse.
proof fn lemma_central_edges_symmetric(order: Seq<int>, c: int)
    ensures
        symmetric(central_edges(order, c)),
    decreases order.len(),
{
    if order.len() > 0 {
        lemma_central_edges_symmetric(order.drop_last(), c);
        lemma_symmetric_pair(order.last() as nat, c as nat, 0u64);
        lemma_symmetric_concat(
            central_edges(order.drop_last(), c),
            seq![(order.last() as nat, c as nat, 0u64), (c as nat, order.last() as nat, 0u64)],
        );
    }
}

/// A row `i` holds two edges for each later location.
proof fn lemma_pair_row_len(nodes: Seq<Seq<char>>, d: Seq<Seq<u64>>, i: int, j: int)
    requires
        i + 1 <= j,
    ensures
        pair_row(nodes, d, i, j).len() == 2 * (j - i - 1),
    decreases j - i,
{
    if j > i + 1 {
        lemma_pair_row_len(nodes, d, i, j - 1);
    }
}

/// The first `i` rows of `n` locations hold `i * (2n - i - 1)` edges.
proof fn lemma_pair_rows_len(nodes: Seq<Seq<char>>, d: Seq<Seq<u64>>, i: int)
    requires
        0 <= i <= nodes.len(),
    ensures
        pair_rows(nodes, d, i).len() == i * (2 * nodes.len() - i - 1),
    decreases i,
{
    let n = nodes.len() as int;
    if i == 0 {
        assert(pair_rows(nodes, d, 0).len() == 0);
        assert(0 * (2 * n - 0 - 1) == 0);
    } else {
        lemma_pair_rows_len(nodes, d, i - 1);
        lemma_pair_row_len(nodes, d, i - 1, n);
        assert(pair_rows(nodes, d, i) == pair_rows(nodes, d, i - 1) + pair_row(nodes, d, i - 1, n));
        assert(pair_rows(nodes, d, i).len() == pair_rows(nodes, d, i - 1).len() + pair_row(nodes, d, i - 1, n).len());
        assert(pair_rows(nodes, d, i - 1).len() == (i - 1) * (2 * n - (i - 1) - 1));
        assert(pair_row(nodes, d, i - 1, n).len() == 2 * (n - (i - 1) - 1));
        assert((i - 1) * (2 * n - (i - 1) - 1) + 2 * (n - (i - 1) - 1) == i * (2 * n - i - 1))
            by (nonlinear_arith);
    }
}

/// While row `i` is being added, two more edges stay within `u32` range.
proof fn lemma_row_edge_bound(n: int, i: int, j: int)
    requires
        0 <= i < j < n,
        n * n + n + 2 < u32::MAX,
    ensures
        i * (2 * n - i - 1) + 2 * (j - i - 1) + 2 < u32::MAX,
{
    assert(i * (2 * n - i - 1) + 2 * (n - i - 1) == (i + 1) * (2 * n - i - 2)) by (nonlinear_arith);
    assert(n * (n - 1) - (i + 1) * (2 * n - i - 2) == (n - i - 1) * (n - i - 2)) by (nonlinear_arith);
    assert((n - i - 1) * (n - i - 2) >= 0) by (nonlinear_arith)
        requires
            n - i - 1 >= 1,
    ;
    assert(n * (n - 1) + n == n * n) by (nonlinear_arith);
}

/// Adding the two edges between locations `i` and `j` extends row `i` to
/// `j + 1`.
proof fn lemma_pair_row_step(
    nodes: Seq<Seq<char>>,
    d: Seq<Seq<u64>>,
    i: int,
    j: int,
    prev: Seq<(nat, nat, u64)>,
    rows: Seq<(nat, nat, u64)>,
    now: Seq<(nat, nat, u64)>,
)
    requires
        i < j,
        prev == rows + pair_row(nodes, d, i, j),
        now == prev.push((last_node(nodes, nodes[i]) as nat, last_node(nodes, nodes[j]) as nat, d[i][j])).push(
            (last_node(nodes, nodes[j]) as nat, last_node(nodes, nodes[i]) as nat, d[i][j]),
        ),
    ensures
        now == rows + pair_row(nodes, d, i, j + 1),
{
    assert(now =~= rows + pair_row(nodes, d, i, j + 1));
}

/// The distance given between locations `i` and `j`.
fn distance_at(distances: &Vec<Vec<u64>>, i: usize, j: usize, Ghost(n): Ghost<int>) -> (r: u64)
    requires
        distances_given(distances@.map_values(|row: Vec<u64>| row@), n),
        i < n,
        j < n,
    ensures
        r == distances@.map_values(|row: Vec<u64>| row@)[i as int][j as int],
{
    let ghost d = distances@.map_values(|row: Vec<u64>| row@);
    assert(d[i as int] == distances@[i as int]@);
    assert(j < d[i as int].len());
    distances[i][j]
}

/// A graph with a node for each location, in order, and no edges.
fn location_nodes(locations: &Vec<NodeName>) -> (g: LocationGraph)
    requires
        locations@.len() < u32::MAX,
    ensures
        graph_nodes(g) == node_views(locations@),
        graph_edges(g) == Seq::<(nat, nat, u64)>::empty(),
{
    let ghost nodes = node_views(locations@);
    let n = locations.len();
    let mut graph = graph_new();
    let mut i: usize = 0;
    while i < n
        invariant
            i <= n == locations@.len() < u32::MAX,
            nodes == node_views(locations@),
            graph_nodes(graph) == nodes.subrange(0, i as int),
            graph_edges(graph) == Seq::<(nat, nat, u64)>::empty(),
        decreases n - i,
    {
        graph_add_node(&mut graph, locations[i].duplicate());
        assert(nodes.subrange(0, i + 1) =~= nodes.subrange(0, i as int).push(locations@[i as int]@));
        i = i + 1;
    }
    assert(nodes.subrange(0, n as int) =~= nodes);
    graph
}

/// Adds row `i`: the edges between location `i` and each later one.
#[verifier::rlimit(50)]
fn add_pair_row(
    graph: &mut LocationGraph,
    locations: &Vec<NodeName>,
    distances: &Vec<Vec<u64>>,
    i: usize,
)
    requires
        i < locations@.len(),
        distances_given(distances@.map_values(|row: Vec<u64>| row@), locations@.len() as int),
        locations@.len() * locations@.len() + locations@.len() + 2 < u32::MAX,
        graph_nodes(*old(graph)) == node_views(locations@),
        graph_edges(*old(graph)) == pair_rows(
            node_views(locations@),
            distances@.map_values(|row: Vec<u64>| row@),
            i as int,
        ),
    ensures
        graph_nodes(*final(graph)) == node_views(locations@),
        graph_edges(*final(graph)) == pair_rows(
            node_views(locations@),
            distances@.map_values(|row: Vec<u64>| row@),
            i + 1,
        ),
{
    let ghost nodes = node_views(locations@);
    let ghost d = distances@.map_values(|row: Vec<u64>| row@);
    let n = locations.len();
    let a = last_index(locations, i);
    proof {
        lemma_pair_rows_len(nodes, d, i as int);
    }
    let mut j: usize = i + 1;
    while j < n
        invariant
            i < n == locations@.len(),
            i + 1 <= j <= n,
            a == last_node(nodes, nodes[i as int]),
            a < n,
            nodes == node_views(locations@),
            d == distances@.map_values(|row: Vec<u64>| row@),
            distances_given(d, n as int),
            n * n + n + 2 < u32::MAX,
            graph_nodes(*graph) == nodes,
            graph_edges(*graph) == pair_rows(nodes, d, i as int) + pair_row(nodes, d, i as int, j as int),
            pair_rows(nodes, d, i as int).len() == i * (2 * n - i - 1),
        decreases n - j,
    {
        let b = last_index(locations, j);
        let w = distance_at(distances, i, j, Ghost(n as int));
        proof {
            lemma_pair_row_len(nodes, d, i as int, j as int);
            lemma_row_edge_bound(n as int, i as int, j as int);
        }
        let ghost prev = graph_edges(*graph);
        graph_add_edge(graph, a, b, w);
        graph_add_edge(graph, b, a, w);
        proof {
            lemma_pair_row_step(nodes, d, i as int, j as int, prev, pair_rows(nodes, d, i as int), graph_edges(*graph));
        }
        j = j + 1;
    }
}

/// Adds the edges of weight 0 from and to node `c` for each node of `order`.
fn add_central_edges(graph: &mut LocationGraph, order: &Vec<usize>, c: usize)
    requires
        c < graph_nodes(*old(graph)).len(),
        forall|k: int| 0 <= k < order@.len() ==> #[trigger] order@[k] < graph_nodes(*old(graph)).len(),
        graph_edges(*old(graph)).len() + 2 * order@.len() < u32::MAX,
    ensures
        graph_nodes(*final(graph)) == graph_nodes(*old(graph)),
        graph_edges(*final(graph)) == graph_edges(*old(graph)) + central_edges(
            order@.map_values(|x: usize| x as int),
            c as int,
        ),
{
    let ghost ord = order@.map_values(|x: usize| x as int);
    let ghost start = graph_edges(*graph);
    let mut k: usize = 0;
    while k < order.len()
        invariant
            k <= order@.len() == ord.len(),
            ord == order@.map_values(|x: usize| x as int),
            c < graph_nodes(*graph).len(),
            graph_nodes(*graph) == graph_nodes(*old(graph)),
            forall|k: int| 0 <= k < order@.len() ==> #[trigger] order@[k] < graph_nodes(*old(graph)).len(),
            start.len() + 2 * order@.len() < u32::MAX,
            graph_edges(*graph) == start + central_edges(ord.take(k as int), c as int),
            graph_edges(*graph).len() == start.len() + 2 * k,
        decreases order@.len() - k,
    {
        let v = order[k];
        graph_add_edge(graph, v, c, 0);
        graph_add_edge(graph, c, v, 0);
        assert(ord.take(k + 1).drop_last() =~= ord.take(k as int));
        assert(ord.take(k + 1).last() == v as int);
        assert(graph_edges(*graph) =~= start + central_edges(ord.take(k + 1), c as int));
        k = k + 1;
    }
    assert(ord.take(order@.len() as int) =~= ord);
}

/// The graph of `locations`, each pair joined in both directions at the
/// distance `distances[i][j]` given for locations `i < j`. A name that occurs
/// more than once gets a node each time, and its edges join its last node.
/// The central monitor is the last node of its name; when no location has
/// that name, it is added as a last node joined both ways at distance 0 to
/// the last node of every name, by ascending name.
pub fn dist_graph_from_distances(
    central_monitor: NodeName,
    locations: Vec<NodeName>,
    distances: &Vec<Vec<u64>>,
) -> (r: DistributionGraph)
    requires
        distances_given(distances@.map_values(|row: Vec<u64>| row@), locations@.len() as int),
        locations@.len() * locations@.len() + locations@.len() + 2 < u32::MAX,
    ensures
        ({
            let nodes = node_views(locations@);
            let n = nodes.len() as int;
            let d = distances@.map_values(|row: Vec<u64>| row@);
            &&& symmetric(r.edges())
            &&& if has_node(nodes, central_monitor@) {
                &&& r.nodes() == nodes
                &&& r.central_monitor == last_node(nodes, central_monitor@)
                &&& r.edges() == pair_rows(nodes, d, n)
            } else {
                &&& r.nodes() == nodes.push(central_monitor@)
                &&& r.central_monitor == n
                &&& exists|order: Seq<int>|
                    sorted_last_nodes(nodes, order) && r.edges() == pair_rows(nodes, d, n)
                        + central_edges(order, n)
            }
        }),
{
    let ghost nodes = node_views(locations@);
    let ghost d = distances@.map_values(|row: Vec<u64>| row@);
    let n = locations.len();
    assert(n <= n * n) by (nonlinear_arith)
        requires
            n >= 0,
    {
        if n > 0 {
            assert(n * 1 <= n * n);
        }
    }
    let mut graph = location_nodes(&locations);
    let mut i: usize = 0;
    while i < n
        invariant
            i <= n == locations@.len(),
            nodes == node_views(locations@),
            d == distances@.map_values(|row: Vec<u64>| row@),
            distances_given(d, n as int),
            n * n + n + 2 < u32::MAX,
            graph_nodes(graph) == nodes,
            graph_edges(graph) == pair_rows(nodes, d, i as int),
        decreases n - i,
    {
        add_pair_row(&mut graph, &locations, distances, i);
        i = i + 1;
    }
    proof {
        lemma_pair_rows_symmetric(nodes, d, n as int);
    }
    match last_index_by_name(&locations, &central_monitor) {
        Some(c) => DistributionGraph { central_monitor: c, graph },
        None => {
            let order = sorted_last_indices(&locations);
            let ghost ord = order@.map_values(|x: usize| x as int);
            proof {
                lemma_order_len(nodes, ord);
                lemma_pair_rows_len(nodes, d, n as int);
                assert(n * (2 * n - n - 1) + 2 * n + 2 < u32::MAX) by (nonlinear_arith)
                    requires
                        n * n + n + 2 < u32::MAX,
                ;
                assert forall|k: int| 0 <= k < order@.len() implies #[trigger] order@[k] < n + 1 by {
                    assert(ord[k] == order@[k] as int);
                }
            }
            let c = graph_add_node(&mut graph, central_monitor);
            add_central_edges(&mut graph, &order, c);
            let r = DistributionGraph { central_monitor: c, graph };
            assert(sorted_last_nodes(nodes, ord) && r.edges() == pair_rows(nodes, d, n as int)
                + central_edges(ord, n as int));
            proof {
                lemma_central_edges_symmetric(ord, n as int);
                lemma_symmetric_concat(pair_rows(nodes, d, n as int), central_edges(ord, n as int));
            }
            r
        },
    }
}

/// A list of distinct nodes, each a node index, is no longer than the nodes.
proof fn lemma_order_len(nodes: Seq<Seq<char>>, order: Seq<int>)
    requires
        sorted_last_nodes(nodes, order),
    ensures
        order.len() <= nodes.len(),
{
    let s = order.to_set();
    assert forall|k: int, l: int| 0 <= k < l < order.len() implies order[k] != order[l] by {
        lemma_seq_lt_irreflexive(nodes[order[k]]);
    }
    order.unique_seq_to_set();
    let full = Set::new(|x: int| 0 <= x < nodes.len());
    assert(s.subset_of(full));
    vstd::set_lib::lemma_int_range(0, nodes.len() as int);
    assert(full =~= vstd::set_lib::set_int_range(0, nodes.len() as int));
    vstd::set_lib::lemma_len_subset(s, full);
}

/// The last location called `name`, if there is one.
fn last_index_by_name(locations: &Vec<NodeName>, name: &NodeName) -> (r: Option<usize>)
    ensures
        r matches Some(i) ==> has_node(node_views(locations@), name@) && i == last_node(
            node_views(locations@),
            name@,
        ),
        r is None ==> !has_node(node_views(locations@), name@),
{
    let ghost nodes = node_views(locations@);
    let n = locations.len();
    let mut k: usize = n;
    while k > 0
        invariant
            k <= n == locations@.len(),
            nodes == node_views(locations@),
            forall|j: int| k <= j < n ==> nodes[j] != name@,
        decreases k,
    {
        if locations[k - 1].same_as(name) {
            proof {
                lemma_last_node(nodes, name@, k - 1);
            }
            return Some(k - 1);
        }
        k = k - 1;
    }
    None
}

} // verus!
