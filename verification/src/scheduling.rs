//! Deciding where variables are monitored, when to replan, and what work
//! each location is sent.
use vstd::prelude::*;

use std::collections::BTreeMap;
use std::rc::Rc;

use crate::distribution_graphs::{
    DistributionGraph, LabelledDistributionGraph, NodeName, labels_view, lemma_filter_has,
};
use crate::graph::{graph_node_count, graph_node_weight};
use crate::graph_layout::{last_node, lemma_last_node};
use crate::text::{string_concat, string_from_str};
use crate::localisation::filter_vars;
use crate::variables::{VarName, copy_vars, var_views};

verus! {

/// When the scheduler computes a new plan.
#[derive(Debug, Clone, PartialEq, Eq, Structural)]
pub enum ReplanningCondition {
    /// Whenever the distribution constraints do not hold.
    ConstraintsFail,
    /// On every new distribution graph.
    Always,
    /// Only once, to have a first plan.
    Never,
}

/// Whether the scheduler plans in this round: on failed constraints, always,
/// or only when no plan has been made yet.
pub fn should_plan(condition: &ReplanningCondition, constraints_hold: bool, planned_before: bool) -> (r: bool)
    ensures
        r == match condition {
            ReplanningCondition::ConstraintsFail => !constraints_hold,
            ReplanningCondition::Always => true,
            ReplanningCondition::Never => !planned_before,
        },
{
    match condition {
        ReplanningCondition::ConstraintsFail => !constraints_hold,
        ReplanningCondition::Always => true,
        ReplanningCondition::Never => !planned_before,
    }
}

/// Whether all constraints hold: unknown (`None`) as soon as one of them is
/// unknown, else whether every one is true.
pub open spec fn spec_all_constraints_hold(vs: Seq<Option<bool>>) -> Option<bool> {
    if exists|i: int| 0 <= i < vs.len() && vs[i] is None {
        None
    } else {
        Some(forall|i: int| 0 <= i < vs.len() ==> vs[i] == Some(true))
    }
}

/// Combines the latest value of every distribution constraint.
pub fn all_constraints_hold(vec: Vec<Option<bool>>) -> (r: Option<bool>)
    ensures
        r == spec_all_constraints_hold(vec@),
{
    let mut acc = true;
    let mut i: usize = 0;
    while i < vec.len()
        invariant
            i <= vec.len(),
            forall|j: int| 0 <= j < i ==> vec@[j] is Some,
            acc == forall|j: int| 0 <= j < i ==> vec@[j] == Some(true),
        decreases vec.len() - i,
    {
        match vec[i] {
            None => {
                assert(vec@[i as int] is None);
                return None;
            },
            Some(b) => {
                acc = acc && b;
            },
        }
        i = i + 1;
    }
    Some(acc)
}

/// Something that chooses where each variable is monitored on a given graph.
pub trait SchedulerPlanner {
    /// Whether this planner can work on `graph`.
    spec fn plan_possible(&self, graph: DistributionGraph) -> bool;

    /// A labelling of `graph`, if one can be found.
    fn plan(&self, graph: Rc<DistributionGraph>) -> Option<Rc<LabelledDistributionGraph>>
        requires
            self.plan_possible(*graph),
    ;
}

/// Always answers with the same labelled graph.
pub struct StaticFixedSchedulerPlanner {
    pub fixed_graph: Rc<LabelledDistributionGraph>,
}

impl SchedulerPlanner for StaticFixedSchedulerPlanner {
    open spec fn plan_possible(&self, graph: DistributionGraph) -> bool {
        true
    }

    fn plan(&self, graph: Rc<DistributionGraph>) -> (r: Option<Rc<LabelledDistributionGraph>>)
        ensures
            r == Some(self.fixed_graph),
    {
        Some(self.fixed_graph.clone())
    }
}

/// The labels of a graph in which every node called `central` monitors
/// `vars` and every other node monitors nothing.
pub open spec fn centralised_labels(
    nodes: Seq<Seq<char>>,
    central: Seq<char>,
    vars: Seq<Seq<char>>,
) -> Map<int, Seq<Seq<char>>> {
    Map::new(
        |i: int| 0 <= i < nodes.len(),
        |i: int|
            if nodes[i] == central {
                vars
            } else {
                Seq::empty()
            },
    )
}

/// Monitors every variable at the nodes called `central_node`.
pub struct CentralisedSchedulerPlanner {
    pub var_names: Vec<VarName>,
    pub central_node: NodeName,
}

impl CentralisedSchedulerPlanner {
    /// The labelling that puts every variable at the central node.
    pub fn centralised_labelling(&self, graph: Rc<DistributionGraph>) -> (r: LabelledDistributionGraph)
        ensures
            r.dist_graph == graph,
            var_views(r.var_names@) == var_views(self.var_names@),
            labels_view(r.node_labels@) == centralised_labels(
                graph.nodes(),
                self.central_node@,
                var_views(self.var_names@),
            ),
    {
        let n = graph_node_count(&graph.graph);
        let mut labels: BTreeMap<usize, Vec<VarName>> = BTreeMap::new();
        let mut i: usize = 0;
        while i < n
            invariant
                i <= n == graph.nodes().len(),
                forall|k: usize| #[trigger] labels@.contains_key(k) <==> k < i,
                forall|k: usize|
                    #[trigger] labels@.contains_key(k) ==> var_views(labels@[k]@) == (if graph.nodes()[k as int]
                        == self.central_node@ {
                        var_views(self.var_names@)
                    } else {
                        Seq::empty()
                    }),
            decreases n - i,
        {
            let name = graph_node_weight(&graph.graph, i).unwrap();
            let vs = if name.same_as(&self.central_node) {
                copy_vars(&self.var_names)
            } else {
                Vec::new()
            };
            proof {
                if !(name@ == self.central_node@) {
                    assert(var_views(vs@) =~= Seq::<Seq<char>>::empty());
                }
            }
            labels.insert(i, vs);
            i = i + 1;
        }
        proof {
            assert(labels_view(labels@) =~= centralised_labels(
                graph.nodes(),
                self.central_node@,
                var_views(self.var_names@),
            ));
        }
        LabelledDistributionGraph {
            dist_graph: graph,
            var_names: copy_vars(&self.var_names),
            node_labels: labels,
        }
    }
}

impl SchedulerPlanner for CentralisedSchedulerPlanner {
    open spec fn plan_possible(&self, graph: DistributionGraph) -> bool {
        true
    }

    fn plan(&self, graph: Rc<DistributionGraph>) -> (r: Option<Rc<LabelledDistributionGraph>>)
        ensures
            r is Some,
            r.unwrap().dist_graph == graph,
            var_views(r.unwrap().var_names@) == var_views(self.var_names@),
            labels_view(r.unwrap().node_labels@) == centralised_labels(
                graph.nodes(),
                self.central_node@,
                var_views(self.var_names@),
            ),
    {
        Some(Rc::new(self.centralised_labelling(graph)))
    }
}

/// The labels of a graph in which each variable is monitored at the node
/// chosen for its last occurrence in `vars`.
pub open spec fn chosen_labels(nodes_len: nat, vars: Seq<Seq<char>>, choices: Seq<int>) -> Map<
    int,
    Seq<Seq<char>>,
> {
    Map::new(|i: int| 0 <= i < nodes_len, |i: int| chosen_at(vars, choices, i))
}

/// The variables whose last occurrence in `vars` is placed at node `i`.
pub open spec fn chosen_at(vars: Seq<Seq<char>>, choices: Seq<int>, i: int) -> Seq<Seq<char>> {
    vars.filter(chosen_for(vars, choices, i))
}

/// Whether the last occurrence of a variable in `vars` is placed at node `i`.
pub open spec fn chosen_for(vars: Seq<Seq<char>>, choices: Seq<int>, i: int) -> spec_fn(Seq<char>) -> bool {
    |v: Seq<char>| choices[last_node(vars, v)] == i
}

/// `choices` picks a node of a graph with `n` nodes for each of `len`
/// variables.
pub open spec fn choices_valid(choices: Seq<int>, len: nat, n: nat) -> bool {
    &&& choices.len() == len
    &&& forall|k: int| 0 <= k < len ==> 0 <= #[trigger] choices[k] < n
}

/// Places the variables at random nodes.
pub struct RandomSchedulerPlanner {
    pub var_names: Vec<VarName>,
}

/// `rand::random_range` over `0..n`: some index below `n`, drawn from the
/// thread's random number generator. It panics on an empty range.
#[verifier::external_body]
fn random_index(n: usize) -> (r: usize)
    requires
        n > 0,
    ensures
        r < n,
{
    rand::random_range(0..n)
}

impl RandomSchedulerPlanner {
    /// The variables monitored at node `i` when `choices` places each
    /// variable (its last occurrence deciding).
    fn vars_chosen_for(&self, choices: &Vec<usize>, i: usize) -> (r: Vec<VarName>)
        requires
            choices@.len() == self.var_names@.len(),
        ensures
            var_views(r@) == chosen_at(
                var_views(self.var_names@),
                choices@.map_values(|c: usize| c as int),
                i as int,
            ),
    {
        let ghost vars = var_views(self.var_names@);
        let ghost ch = choices@.map_values(|c: usize| c as int);
        let ghost pred = chosen_for(vars, ch, i as int);
        let mut r: Vec<VarName> = Vec::new();
        let mut p: usize = 0;
        while p < self.var_names.len()
            invariant
                p <= self.var_names@.len() == choices@.len(),
                vars == var_views(self.var_names@),
                ch == choices@.map_values(|c: usize| c as int),
                pred == chosen_for(vars, ch, i as int),
                var_views(r@) == vars.subrange(0, p as int).filter(pred),
            decreases self.var_names@.len() - p,
        {
            let ghost before = r@;
            proof {
                assert(vars.subrange(0, p + 1).drop_last() =~= vars.subrange(0, p as int));
                assert(vars.subrange(0, p + 1).last() == vars[p as int]);
                reveal_with_fuel(Seq::<Seq<char>>::filter, 1);
            }
            let q = last_var_index(&self.var_names, p);
            assert(ch[q as int] == choices@[q as int] as int);
            if choices[q] == i {
                r.push(self.var_names[p].duplicate());
                assert(var_views(r@) =~= var_views(before).push(vars[p as int]));
            }
            p = p + 1;
        }
        assert(vars.subrange(0, self.var_names@.len() as int) =~= vars);
        r
    }

    /// The labelled graph in which `choices[k]` is the node of the `k`-th
    /// variable, the last occurrence of a name deciding.
    pub fn labelling_from_choices(&self, graph: Rc<DistributionGraph>, choices: &Vec<usize>) -> (r:
        LabelledDistributionGraph)
        requires
            choices_valid(
                choices@.map_values(|c: usize| c as int),
                self.var_names@.len(),
                graph.nodes().len(),
            ),
        ensures
            r.dist_graph == graph,
            var_views(r.var_names@) == var_views(self.var_names@),
            labels_view(r.node_labels@) == chosen_labels(
                graph.nodes().len(),
                var_views(self.var_names@),
                choices@.map_values(|c: usize| c as int),
            ),
    {
        let ghost vars = var_views(self.var_names@);
        let ghost ch = choices@.map_values(|c: usize| c as int);
        let n = graph_node_count(&graph.graph);
        let mut labels: BTreeMap<usize, Vec<VarName>> = BTreeMap::new();
        let mut i: usize = 0;
        while i < n
            invariant
                i <= n == graph.nodes().len(),
                choices@.len() == self.var_names@.len(),
                vars == var_views(self.var_names@),
                ch == choices@.map_values(|c: usize| c as int),
                forall|k: usize| #[trigger] labels@.contains_key(k) <==> k < i,
                forall|k: usize|
                    #[trigger] labels@.contains_key(k) ==> var_views(labels@[k]@) == chosen_at(vars, ch, k as int),
            decreases n - i,
        {
            let vs = self.vars_chosen_for(choices, i);
            labels.insert(i, vs);
            i = i + 1;
        }
        proof {
            assert(labels_view(labels@) =~= chosen_labels(n as nat, vars, ch));
        }
        LabelledDistributionGraph {
            dist_graph: graph,
            var_names: copy_vars(&self.var_names),
            node_labels: labels,
        }
    }
}

impl SchedulerPlanner for RandomSchedulerPlanner {
    /// A node must exist for the variables to go to.
    open spec fn plan_possible(&self, graph: DistributionGraph) -> bool {
        self.var_names@.len() > 0 ==> graph.nodes().len() > 0
    }

    fn plan(&self, graph: Rc<DistributionGraph>) -> (r: Option<Rc<LabelledDistributionGraph>>)
        ensures
            r is Some,
            r.unwrap().dist_graph == graph,
            var_views(r.unwrap().var_names@) == var_views(self.var_names@),
            exists|choices: Seq<int>|
                choices_valid(choices, self.var_names@.len(), graph.nodes().len())
                    && labels_view(r.unwrap().node_labels@) == chosen_labels(
                    graph.nodes().len(),
                    var_views(self.var_names@),
                    choices,
                ),
    {
        let n = graph_node_count(&graph.graph);
        let mut choices: Vec<usize> = Vec::new();
        let mut k: usize = 0;
        while k < self.var_names.len()
            invariant
                k <= self.var_names@.len(),
                n == graph.nodes().len(),
                self.var_names@.len() > 0 ==> n > 0,
                choices@.len() == k,
                forall|j: int| 0 <= j < k ==> #[trigger] choices@[j] < n,
            decreases self.var_names@.len() - k,
        {
            let c = random_index(n);
            choices.push(c);
            k = k + 1;
        }
        let ghost ch = choices@.map_values(|c: usize| c as int);
        assert(choices_valid(ch, self.var_names@.len(), n as nat)) by {
            assert forall|j: int| 0 <= j < self.var_names@.len() implies 0 <= #[trigger] ch[j] < n by {
                assert(ch[j] == choices@[j] as int);
            }
        }
        let g = self.labelling_from_choices(graph, &choices);
        Some(Rc::new(g))
    }
}

/// The index of the last variable with the same name as variable `p`.
fn last_var_index(vars: &Vec<VarName>, p: usize) -> (r: usize)
    requires
        p < vars@.len(),
    ensures
        r == last_node(var_views(vars@), vars@[p as int]@),
        p <= r < vars@.len(),
{
    let ghost vs = var_views(vars@);
    let n = vars.len();
    let mut k: usize = n - 1;
    while k > p
        invariant
            p <= k < n == vars@.len(),
            vs == var_views(vars@),
            forall|j: int| k < j < n ==> vs[j] != vs[p as int],
        decreases k,
    {
        if vars[k].same_as(&vars[p]) {
            proof {
                lemma_last_node(vs, vs[p as int], k as int);
            }
            return k;
        }
        k = k - 1;
    }
    proof {
        lemma_last_node(vs, vs[p as int], p as int);
    }
    p
}

/// The work sent to each node, by node index: its name and the variables
/// it monitors. Every node must be labelled.
pub fn scheduled_work(dist_graph: &LabelledDistributionGraph) -> (r: Vec<(NodeName, Vec<VarName>)>)
    requires
        forall|i: usize| i < dist_graph.nodes().len() ==> #[trigger] dist_graph.node_labels@.contains_key(i),
    ensures
        r@.len() == dist_graph.nodes().len(),
        forall|i: int|
            0 <= i < r@.len() ==> #[trigger] r@[i].0@ == dist_graph.nodes()[i] && var_views(r@[i].1@)
                == var_views(dist_graph.node_labels@[i as usize]@),
{
    let n = graph_node_count(&dist_graph.dist_graph.graph);
    let mut r: Vec<(NodeName, Vec<VarName>)> = Vec::new();
    let mut i: usize = 0;
    while i < n
        invariant
            i <= n == dist_graph.nodes().len(),
            forall|i: usize| i < dist_graph.nodes().len() ==> #[trigger] dist_graph.node_labels@.contains_key(i),
            r@.len() == i,
            forall|k: int|
                0 <= k < i ==> #[trigger] r@[k].0@ == dist_graph.nodes()[k] && var_views(r@[k].1@)
                    == var_views(dist_graph.node_labels@[k as usize]@),
        decreases n - i,
    {
        let name = graph_node_weight(&dist_graph.dist_graph.graph, i).unwrap().duplicate();
        let work = copy_vars(dist_graph.monitors_at_node(i).unwrap());
        r.push((name, work));
        i = i + 1;
    }
    r
}

/// Sends work nowhere.
pub struct NullSchedulerCommunicator;

/// Sends each location its work over MQTT.
pub struct MQTTSchedulerCommunicator {
    mqtt_uri: String,
}

/// The JSON text of an array of strings, as `serde_json` writes it.
pub uninterp spec fn json_string_array(items: Seq<Seq<char>>) -> Seq<char>;

/// `serde_json::to_string` on a list of strings: the JSON array of those
/// strings, which `serde_json::from_str` reads back as the same strings.
/// Writing strings into memory cannot fail, so the error arm is never taken.
#[verifier::external_body]
fn json_of_strings(items: &Vec<String>) -> (r: String)
    ensures
        r@ == json_string_array(items@.map_values(|s: String| s@)),
        json_strings_of(r@) == Some(items@.map_values(|s: String| s@)),
{
    serde_json::to_string(items).unwrap_or_default()
}

/// The topic on which location `node` receives its work.
pub open spec fn work_topic_of(node: Seq<char>) -> Seq<char> {
    "start_monitors_at_"@ + node
}

/// The topic on which location `node` receives its work.
pub fn work_topic(node: &NodeName) -> (r: String)
    ensures
        r@ == work_topic_of(node@),
{
    let prefix = string_from_str("start_monitors_at_");
    string_concat(&prefix, &node.name())
}

impl MQTTSchedulerCommunicator {
    /// A communicator for the broker at `mqtt_uri`.
    pub fn new(mqtt_uri: String) -> (r: Self)
        ensures
            r.uri() == mqtt_uri@,
    {
        MQTTSchedulerCommunicator { mqtt_uri }
    }

    /// The broker's address.
    pub closed spec fn uri(&self) -> Seq<char> {
        self.mqtt_uri@
    }

    /// The broker's address.
    pub fn mqtt_uri(&self) -> (r: String)
        ensures
            r@ == self.uri(),
    {
        self.mqtt_uri.clone()
    }

    /// The topic and the payload of the message that sends `work` to
    /// `node`: the names of the variables as a JSON array of strings, which
    /// the receiving location reads back as `work`.
    pub fn work_message(&self, node: &NodeName, work: &Vec<VarName>) -> (r: (String, String))
        ensures
            r.0@ == work_topic_of(node@),
            r.1@ == json_string_array(var_views(work@)),
            json_strings_of(r.1@) == Some(var_views(work@)),
    {
        let topic = work_topic(node);
        let mut names: Vec<String> = Vec::new();
        let mut i: usize = 0;
        while i < work.len()
            invariant
                i <= work@.len(),
                names@.len() == i,
                forall|k: int| 0 <= k < i ==> #[trigger] names@[k]@ == work@[k]@,
            decreases work@.len() - i,
        {
            names.push(work[i].name());
            i = i + 1;
        }
        assert(names@.map_values(|s: String| s@) =~= var_views(work@));
        (topic, json_of_strings(&names))
    }
}

/// The output variables that are not distribution constraints, in order:
/// those that a candidate labelling is tried on.
pub fn non_dist_constraints(output_vars: &Vec<VarName>, dist_constraints: &Vec<VarName>) -> (r: Vec<VarName>)
    ensures
        var_views(r@) == var_views(output_vars@).filter(
            |v: Seq<char>| var_views(dist_constraints@).contains(v) == false,
        ),
{
    filter_vars(output_vars, dist_constraints, false)
}

/// A candidate labelling is accepted when every constraint's first value is
/// true.
pub fn constraints_accept(first_output: &Vec<bool>) -> (r: bool)
    ensures
        r == forall|i: int| 0 <= i < first_output@.len() ==> first_output@[i],
{
    let mut i: usize = 0;
    while i < first_output.len()
        invariant
            i <= first_output@.len(),
            forall|j: int| 0 <= j < i ==> first_output@[j],
        decreases first_output@.len() - i,
    {
        if !first_output[i] {
            return false;
        }
        i = i + 1;
    }
    true
}

/// When a planner places variables by `choices`, each variable is monitored
/// at exactly one node: the one chosen for its last occurrence.
pub proof fn lemma_chosen_labels_place_each_once(
    nodes_len: nat,
    vars: Seq<Seq<char>>,
    choices: Seq<int>,
    v: Seq<char>,
    i: int,
)
    requires
        vars.contains(v),
        0 <= i < nodes_len,
    ensures
        chosen_labels(nodes_len, vars, choices).contains_key(i),
        chosen_labels(nodes_len, vars, choices)[i].contains(v) <==> choices[last_node(vars, v)] == i,
{
    lemma_filter_has(vars, chosen_for(vars, choices, i), v);
}

/// The strings of a JSON text that is an array of strings, as `serde_json`
/// reads it; `None` for any other text.
pub uninterp spec fn json_strings_of(text: Seq<char>) -> Option<Seq<Seq<char>>>;

/// `serde_json::from_str` into a list of strings: the strings when `text` is
/// a JSON array of strings, else the parser's error.
#[verifier::external_body]
fn strings_from_json(text: &str) -> (r: Option<Vec<String>>)
    ensures
        r matches Some(v) ==> json_strings_of(text@) == Some(v@.map_values(|s: String| s@)),
        r is None ==> json_strings_of(text@) is None,
{
    serde_json::from_str::<Vec<String>>(text).ok()
}

/// The variables a location is told to monitor, from the message that
/// carries its work; `None` when the message is not a JSON array of strings.
pub fn local_vars_from_message(payload: &str) -> (r: Option<Vec<VarName>>)
    ensures
        r matches Some(vs) ==> json_strings_of(payload@) == Some(var_views(vs@)),
        r is None ==> json_strings_of(payload@) is None,
{
    match strings_from_json(payload) {
        None => None,
        Some(names) => {
            let mut r: Vec<VarName> = Vec::new();
            let mut i: usize = 0;
            while i < names.len()
                invariant
                    i <= names@.len(),
                    r@.len() == i,
                    forall|k: int| 0 <= k < i ==> #[trigger] r@[k]@ == names@[k]@,
                decreases names@.len() - i,
            {
                r.push(VarName::from_string(names[i].clone()));
                i = i + 1;
            }
            assert(var_views(r@) =~= names@.map_values(|s: String| s@));
            Some(r)
        },
    }
}

} // verus!
