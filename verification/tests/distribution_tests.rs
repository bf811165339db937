use std::collections::BTreeMap;
use std::rc::Rc;

use petgraph::graph::DiGraph;
use trustworthiness_checker::contexts::{disambiguate_name, dist, monitored_at};
use trustworthiness_checker::distribution_graphs::{
    DistributionGraph, LabelledDistributionGraph, NodeName, TaggedVarOrNodeName,
    possible_labelled_dist_graphs,
};
use trustworthiness_checker::graph_layout::dist_graph_from_distances;
use trustworthiness_checker::localisation::LocalitySpec;
use trustworthiness_checker::plotting::plottable_graph;
use trustworthiness_checker::variables::VarName;

fn v(s: &str) -> VarName {
    VarName::new(s)
}

fn position_distance(x: &(f64, f64, f64), y: &(f64, f64, f64)) -> f64 {
    ((x.0 - y.0).powi(2) + (x.1 - y.1).powi(2) + (x.2 - y.2).powi(2)).sqrt()
}

fn distance_table(positions: &[(f64, f64, f64)]) -> Vec<Vec<u64>> {
    positions
        .iter()
        .map(|p| positions.iter().map(|q| position_distance(p, q) as u64).collect())
        .collect()
}

fn three_nodes(names: [&str; 3], w1: u64, w2: u64) -> DistributionGraph {
    let mut graph = DiGraph::new();
    let a = graph.add_node(NodeName::new(names[0]));
    let b = graph.add_node(NodeName::new(names[1]));
    let c = graph.add_node(NodeName::new(names[2]));
    graph.add_edge(a, b, w1);
    graph.add_edge(b, c, w2);
    DistributionGraph { central_monitor: a.index(), graph }
}

#[test]
fn test_graph_from_locations() {
    let central_monitor = NodeName::new("A");
    let locations = vec![NodeName::new("A"), NodeName::new("B")];
    let positions = vec![(0.0, 0.0, 0.0), (2.0, 2.0, 0.0)];
    let mut graph = DiGraph::new();
    graph.add_node(NodeName::new("A"));
    graph.add_node(NodeName::new("B"));
    graph.add_edge(0.into(), 1.into(), 2);
    graph.add_edge(1.into(), 0.into(), 2);
    let dist_graph_expected = Rc::new(DistributionGraph { central_monitor: 0, graph });
    let dist_graph =
        dist_graph_from_distances(central_monitor.clone(), locations.clone(), &distance_table(&positions));
    assert_eq!(dist_graph.central_monitor, dist_graph_expected.central_monitor);
    assert!(dist_graph.same_graph(&dist_graph_expected));
}

#[test]
fn test_monitors_at_node() {
    let dist_graph = Rc::new(three_nodes(["A", "B", "B"], 0, 1));
    let labelled_dist_graph = LabelledDistributionGraph {
        dist_graph,
        var_names: vec![v("a"), v("b"), v("c")],
        node_labels: [(2, vec![v("a"), v("b")])].into_iter().collect(),
    };
    assert_eq!(
        labelled_dist_graph.monitors_at_node(2),
        Some(&vec![v("a"), v("b")])
    );
    assert_eq!(labelled_dist_graph.monitors_at_node(1), None);
}

#[test]
fn test_possible_labellings() {
    let dist_graph = Rc::new(three_nodes(["A", "B", "B"], 0, 1));
    let var_names = vec![v("x"), v("y")];
    let mut graphs = possible_labelled_dist_graphs(dist_graph.clone(), vec![], var_names);
    let mut possible = Vec::new();
    while let Some(g) = graphs.next() {
        possible.push(g);
    }
    assert_eq!(possible.len(), 9);
}

#[test]
fn possible_labellings_move_the_first_variable_fastest() {
    let dist_graph = Rc::new(three_nodes(["A", "B", "C"], 1, 1));
    let mut graphs = possible_labelled_dist_graphs(dist_graph, vec![v("c")], vec![v("x"), v("y")]);
    let first = graphs.next().unwrap();
    // The central monitor (A) monitors what is placed there and its own variables.
    assert_eq!(first.node_labels.get(&0), Some(&vec![v("x"), v("y"), v("c")]));
    assert_eq!(first.node_labels.get(&1), Some(&vec![]));
    let second = graphs.next().unwrap();
    assert_eq!(second.node_labels.get(&0), Some(&vec![v("y"), v("c")]));
    assert_eq!(second.node_labels.get(&1), Some(&vec![v("x")]));
    assert_eq!(second.node_labels.get(&2), Some(&vec![]));
    let third = graphs.next().unwrap();
    assert_eq!(third.node_labels.get(&2), Some(&vec![v("x")]));
    let fourth = graphs.next().unwrap();
    assert_eq!(fourth.node_labels.get(&1), Some(&vec![v("y")]));
}

#[test]
fn possible_labellings_without_locations_give_nothing() {
    let dist_graph = Rc::new(DistributionGraph { central_monitor: 0, graph: DiGraph::new() });
    let mut graphs = possible_labelled_dist_graphs(dist_graph.clone(), vec![], vec![v("x")]);
    assert!(graphs.next().is_none());
    let mut none_placed = possible_labelled_dist_graphs(dist_graph, vec![], vec![]);
    assert!(none_placed.next().is_some());
    assert!(none_placed.next().is_none());
}

fn labelled_chain() -> LabelledDistributionGraph {
    LabelledDistributionGraph {
        dist_graph: Rc::new(three_nodes(["A", "B", "C"], 3, 4)),
        var_names: vec![v("x"), v("y"), v("z")],
        node_labels: BTreeMap::from([
            (0, vec![]),
            (1, vec![v("x")]),
            (2, vec![v("y"), v("z")]),
        ]),
    }
}

#[test]
fn distances_follow_the_cheapest_walk() {
    let g = labelled_chain();
    assert_eq!(g.dist_nodes(0, 2), Some(7));
    assert_eq!(g.dist_nodes(0, 0), Some(0));
    assert_eq!(g.dist_nodes(2, 0), None);
    assert_eq!(g.dist_node_var(0, &v("y")), Some(7));
    assert_eq!(g.dist_var_node(&v("x"), 2), Some(4));
    assert_eq!(g.dist_vars(&v("x"), &v("z")), Some(4));
    assert_eq!(g.dist_vars(&v("y"), &v("y")), Some(0));
    assert_eq!(g.dist_vars(&v("z"), &v("x")), None);
    assert_eq!(g.dist_names(&NodeName::new("A"), &NodeName::new("B")), Some(3));
    assert_eq!(g.dist_name_var(&NodeName::new("B"), &v("z")), Some(4));
    assert_eq!(g.dist_var_name(&v("x"), &NodeName::new("C")), Some(4));
}

#[test]
fn distances_as_stream_values() {
    let g = labelled_chain();
    let a = TaggedVarOrNodeName::NodeName(NodeName::new("A"));
    let y = TaggedVarOrNodeName::VarName(v("y"));
    assert_eq!(dist(&g, &a, &y), 7);
    assert_eq!(dist(&g, &y, &a), i64::MAX);
    assert!(monitored_at(&g, &v("x"), &NodeName::new("B")));
    assert!(!monitored_at(&g, &v("x"), &NodeName::new("C")));
}

#[test]
fn names_are_locations_before_variables() {
    let nodes = vec![NodeName::new("A"), NodeName::new("x")];
    let vars = vec![v("x"), v("y")];
    assert_eq!(
        disambiguate_name(&nodes, &vars, &"x".to_string()),
        Some(TaggedVarOrNodeName::NodeName(NodeName::new("x")))
    );
    assert_eq!(
        disambiguate_name(&nodes, &vars, &"y".to_string()),
        Some(TaggedVarOrNodeName::VarName(v("y")))
    );
    assert_eq!(disambiguate_name(&nodes, &vars, &"q".to_string()), None);
}

#[test]
fn graph_from_distances_adds_a_missing_central_monitor() {
    let locations = vec![NodeName::new("B"), NodeName::new("A")];
    let table = vec![vec![0, 5], vec![5, 0]];
    let g = dist_graph_from_distances(NodeName::new("C"), locations, &table);
    assert_eq!(g.central_monitor, 2);
    let names: Vec<String> = g.locations().iter().map(|n| n.name()).collect();
    assert_eq!(names, vec!["B", "A", "C"]);
    let edges: Vec<(usize, usize, u64)> = g
        .graph
        .raw_edges()
        .iter()
        .map(|e| (e.source().index(), e.target().index(), e.weight))
        .collect();
    // The pair first, then the central monitor joined to "A" before "B".
    assert_eq!(edges, vec![(0, 1, 5), (1, 0, 5), (1, 2, 0), (2, 1, 0), (0, 2, 0), (2, 0, 0)]);
}

#[test]
fn plotted_nodes_show_their_variables() {
    let g = labelled_chain();
    let p = plottable_graph(&g);
    let labels: Vec<String> = p.node_weights().cloned().collect();
    assert_eq!(labels, vec!["A {}", "B {x}", "C {y, z}"]);
    assert_eq!(p.edge_count(), 2);
}

#[test]
fn a_node_in_a_graph_names_its_local_variables() {
    let g = labelled_chain();
    let spec = (NodeName::new("C"), &g);
    assert_eq!(spec.local_vars(), vec![v("y"), v("z")]);
}

#[test]
fn distances_in_a_graph_from_positions_are_the_same_both_ways() {
    let locations = vec![NodeName::new("A"), NodeName::new("B"), NodeName::new("C")];
    let positions = vec![(0.0, 0.0, 0.0), (3.0, 4.0, 0.0), (0.0, 0.0, 12.0)];
    let g = dist_graph_from_distances(NodeName::new("A"), locations, &distance_table(&positions));
    let labelled = LabelledDistributionGraph {
        dist_graph: Rc::new(g),
        var_names: vec![],
        node_labels: BTreeMap::new(),
    };
    assert_eq!(labelled.dist_nodes(1, 2), Some(13));
    assert_eq!(labelled.dist_nodes(2, 1), Some(13));
    assert_eq!(labelled.dist_nodes(0, 1), labelled.dist_nodes(1, 0));
}

#[test]
fn a_variable_placed_at_the_central_monitor_is_monitored_there() {
    let mut graph = DiGraph::new();
    graph.add_node(NodeName::new("A"));
    let dist_graph = Rc::new(DistributionGraph { central_monitor: 0, graph });
    let mut graphs = possible_labelled_dist_graphs(dist_graph, vec![], vec![v("x")]);
    let only = graphs.next().unwrap();
    assert_eq!(only.node_labels.get(&0), Some(&vec![v("x")]));
    assert!(graphs.next().is_none());
}
