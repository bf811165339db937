use std::collections::BTreeMap;
use std::rc::Rc;

use petgraph::graph::DiGraph;
use trustworthiness_checker::cli::{OutputMode, SchedulingType};
use trustworthiness_checker::distribution_graphs::{
    DistributionGraph, LabelledDistributionGraph, NodeName,
};
use trustworthiness_checker::interfaces::{Runtime, Semantics};
use trustworthiness_checker::io_builders::{
    OutputPlan, host_or_default, output_plan, shown_outputs, var_topics,
};
use trustworthiness_checker::monitor_build::{
    DistGraphSetup, DistributionMode, IoSource, MonitorKind, can_build_now, chosen_distribution_mode,
    io_source, monitor_kind,
};
use trustworthiness_checker::mqtt_logic::{
    ReconnectTracker, all_present, decimal_string, mqtt_uri, route_topic, topic_index,
};
use trustworthiness_checker::scheduling::{
    CentralisedSchedulerPlanner, MQTTSchedulerCommunicator, RandomSchedulerPlanner,
    ReplanningCondition, SchedulerPlanner, all_constraints_hold, constraints_accept,
    local_vars_from_message, non_dist_constraints, scheduled_work, should_plan,
};
use trustworthiness_checker::variables::VarName;

fn v(s: &str) -> VarName {
    VarName::new(s)
}

fn graph(names: &[&str]) -> Rc<DistributionGraph> {
    let mut g = DiGraph::new();
    for n in names {
        g.add_node(NodeName::new(n));
    }
    Rc::new(DistributionGraph { central_monitor: 0, graph: g })
}

#[test]
fn replanning_follows_the_condition() {
    assert!(should_plan(&ReplanningCondition::ConstraintsFail, false, true));
    assert!(!should_plan(&ReplanningCondition::ConstraintsFail, true, false));
    assert!(should_plan(&ReplanningCondition::Always, true, true));
    assert!(should_plan(&ReplanningCondition::Never, true, false));
    assert!(!should_plan(&ReplanningCondition::Never, false, true));
}

#[test]
fn constraints_hold_only_when_all_known_and_true() {
    assert_eq!(all_constraints_hold(vec![]), Some(true));
    assert_eq!(all_constraints_hold(vec![Some(true), Some(false)]), Some(false));
    assert_eq!(all_constraints_hold(vec![Some(true), None, Some(false)]), None);
    assert!(constraints_accept(&vec![true, true]));
    assert!(!constraints_accept(&vec![true, false]));
}

#[test]
fn centralised_planner_puts_everything_at_the_central_node() {
    let planner = CentralisedSchedulerPlanner {
        var_names: vec![v("x"), v("y")],
        central_node: NodeName::new("B"),
    };
    let plan = planner.plan(graph(&["A", "B", "C"])).unwrap();
    assert_eq!(plan.node_labels.get(&0), Some(&vec![]));
    assert_eq!(plan.node_labels.get(&1), Some(&vec![v("x"), v("y")]));
    assert_eq!(plan.node_labels.get(&2), Some(&vec![]));
}

#[test]
fn random_planner_places_each_variable_once() {
    let planner = RandomSchedulerPlanner { var_names: vec![v("x"), v("y"), v("z")] };
    let plan = planner.plan(graph(&["A", "B"])).unwrap();
    let mut placed: Vec<String> = plan
        .node_labels
        .values()
        .flat_map(|vs| vs.iter().map(|x| x.name()))
        .collect();
    placed.sort();
    assert_eq!(placed, vec!["x", "y", "z"]);
    assert_eq!(plan.node_labels.len(), 2);
    let chosen = planner.labelling_from_choices(graph(&["A", "B"]), &vec![1, 0, 1]);
    assert_eq!(chosen.node_labels.get(&1), Some(&vec![v("x"), v("z")]));
}

#[test]
fn work_goes_to_every_node() {
    let g = LabelledDistributionGraph {
        dist_graph: graph(&["A", "B"]),
        var_names: vec![v("x")],
        node_labels: BTreeMap::from([(0, vec![]), (1, vec![v("x")])]),
    };
    let work = scheduled_work(&g);
    assert_eq!(work.len(), 2);
    assert_eq!(work[1].0, NodeName::new("B"));
    assert_eq!(work[1].1, vec![v("x")]);
}

#[test]
fn work_messages_over_mqtt() {
    let c = MQTTSchedulerCommunicator::new("tcp://localhost:1883".to_string());
    assert_eq!(c.mqtt_uri(), "tcp://localhost:1883");
    let (topic, payload) = c.work_message(&NodeName::new("robot1"), &vec![v("x"), v("y")]);
    assert_eq!(topic, "start_monitors_at_robot1");
    assert_eq!(payload, "[\"x\",\"y\"]");
}

#[test]
fn optimising_leaves_out_the_constraints() {
    let outs = vec![v("a"), v("c1"), v("b")];
    assert_eq!(non_dist_constraints(&outs, &vec![v("c1")]), vec![v("a"), v("b")]);
}

#[test]
fn monitor_kinds_by_runtime_and_semantics() {
    let mode = DistributionMode::DistributedRandom(vec!["A".to_string(), "B".to_string()]);
    assert!(matches!(
        monitor_kind(Runtime::Async, Semantics::TypedUntimed, &mode, false),
        MonitorKind::AsyncTypedUntimed
    ));
    match monitor_kind(Runtime::Distributed, Semantics::Untimed, &mode, true) {
        MonitorKind::Distributed(DistGraphSetup::Random(locs)) => {
            assert_eq!(locs[1], (NodeName::new("B"), "B".to_string()));
        }
        _ => panic!("expected a random distributed monitor"),
    }
    assert_eq!(io_source(true, true), IoSource::Built);
    assert_eq!(io_source(false, true), IoSource::Given);
    assert!(!can_build_now(false, true, false));
    assert_eq!(
        DistributionMode::DistributedOptimizedStatic(vec!["A".to_string()], vec![v("c")]).describe(),
        "DistributedOptimizedStatic([\"A\"], [VarName::new(\"c\")])"
    );
    assert_eq!(SchedulingType::Mqtt.as_str(), "mqtt");
}

fn output_mode() -> OutputMode {
    OutputMode {
        output_stdout: false,
        output_mqtt_topics: None,
        mqtt_output: false,
        output_redis_topics: None,
        redis_output: false,
        output_ros_topics: None,
    }
}

#[test]
fn output_handlers_keep_only_output_topics() {
    let mut mode = output_mode();
    mode.output_mqtt_topics = Some(vec!["z".to_string(), "other".to_string()]);
    match output_plan(&mode, &Some(vec![v("z")])) {
        OutputPlan::Mqtt(vars, topics) => {
            assert_eq!(vars, vec![v("z")]);
            assert_eq!(topics, vec![(v("z"), "z".to_string())]);
        }
        _ => panic!("expected MQTT output"),
    }
    assert!(matches!(output_plan(&output_mode(), &None), OutputPlan::Stdout(_)));
    assert_eq!(
        var_topics(&None, &Some(vec![v("x")])),
        vec![(v("x"), "x".to_string())]
    );
    assert_eq!(host_or_default(&None), "localhost");
}

#[test]
fn mqtt_addresses_and_topics() {
    assert_eq!(mqtt_uri(&"localhost".to_string(), Some(1883)), "tcp://localhost:1883");
    assert_eq!(mqtt_uri(&"h".to_string(), None), "tcp://h");
    assert_eq!(decimal_string(0), "0");
    assert_eq!(decimal_string(65535), "65535");
    let topics = vec!["a".to_string(), "b".to_string()];
    assert_eq!(topic_index(&topics, &"b".to_string()), Some(1));
    assert_eq!(topic_index(&topics, &"c".to_string()), None);
    assert_eq!(all_present(&vec![Some(1), Some(2)]), Some(vec![1, 2]));
    assert_eq!(all_present(&vec![Some(1), None]), None);
}

#[test]
fn reconnecting_stops_after_the_maximum() {
    let mut t = ReconnectTracker::new(2);
    assert!(t.running());
    assert!(t.connection_lost());
    assert!(t.connection_lost());
    t.message_received();
    assert!(t.connection_lost());
    assert!(t.connection_lost());
    assert!(!t.connection_lost());
    assert!(!t.running());
    let mut never = ReconnectTracker::new(0);
    assert!(!never.connection_lost());
}

#[test]
fn messages_go_to_the_last_variable_of_their_topic() {
    let pairs = vec![
        (v("a"), "t1".to_string()),
        (v("b"), "t2".to_string()),
        (v("c"), "t1".to_string()),
    ];
    assert_eq!(route_topic(&pairs, &"t1".to_string()), Some(v("c")));
    assert_eq!(route_topic(&pairs, &"t2".to_string()), Some(v("b")));
    assert_eq!(route_topic(&pairs, &"t3".to_string()), None);
}

#[test]
fn work_messages_are_read_back_as_variables() {
    assert_eq!(local_vars_from_message("[\"x\", \"y\"]"), Some(vec![v("x"), v("y")]));
    assert_eq!(local_vars_from_message("{\"x\": 1}"), None);
    let c = MQTTSchedulerCommunicator::new("tcp://h".to_string());
    let (_, payload) = c.work_message(&NodeName::new("n"), &vec![v("a\"b")]);
    assert_eq!(local_vars_from_message(&payload), Some(vec![v("a\"b")]));
}

#[test]
fn auxiliary_outputs_are_not_shown() {
    assert_eq!(shown_outputs(&vec![v("x"), v("a"), v("y")], &vec![v("a")]), vec![0, 2]);
    assert_eq!(shown_outputs(&vec![v("x")], &vec![]), vec![0]);
}

#[test]
fn topics_are_subscribed_once_per_variable() {
    let topics = Some(vec!["a".to_string(), "b".to_string(), "a".to_string()]);
    assert_eq!(
        var_topics(&topics, &None),
        vec![(v("a"), "a".to_string()), (v("b"), "b".to_string())]
    );
}

#[test]
fn a_built_distribution_mode_wins() {
    let built = Some(DistributionMode::DistributedRandom(vec!["A".to_string()]));
    assert!(matches!(
        chosen_distribution_mode(built, DistributionMode::CentralMonitor),
        DistributionMode::DistributedRandom(_)
    ));
    assert!(matches!(
        chosen_distribution_mode(None, DistributionMode::CentralMonitor),
        DistributionMode::CentralMonitor
    ));
}
