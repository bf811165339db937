//! The options of the command-line tools, as plain data.
use vstd::prelude::*;

use crate::interfaces::{Runtime, Semantics};

verus! {

/// Specification languages.
#[derive(Debug, Clone, Copy, PartialEq, Eq, Structural, PartialOrd, Ord)]
pub enum Language {
    /// The DynSRV runtime-verification language.
    DynSRV,
    /// A synonym for DynSRV.
    Lola,
}

/// Ways of parsing a specification.
#[derive(Debug, Clone, Copy, PartialEq, Eq, Structural, PartialOrd, Ord)]
pub enum ParserMode {
    /// Parser combinators.
    Combinator,
    /// A generated LALR(1) parser.
    Lalr,
}

/// Where the input streams come from; exactly one source is chosen.
#[derive(Debug, Clone)]
pub struct InputMode {
    /// A file of trace data.
    pub input_file: Option<String>,
    /// MQTT topics to subscribe to.
    pub input_mqtt_topics: Option<Vec<String>>,
    /// MQTT topics with a variable mapping.
    pub input_map_mqtt_topics: Option<Vec<String>>,
    /// MQTT input on the topics named after the input variables.
    pub mqtt_input: bool,
    /// Redis channels to subscribe to.
    pub input_redis_topics: Option<Vec<String>>,
    /// Redis input on the channels named after the input variables.
    pub redis_input: bool,
    /// A file that maps variables to ROS topics.
    pub input_ros_topics: Option<String>,
}

/// Where the output streams go; at most one destination is chosen.
#[derive(Debug, Clone)]
pub struct OutputMode {
    /// Standard output.
    pub output_stdout: bool,
    /// MQTT topics to publish to.
    pub output_mqtt_topics: Option<Vec<String>>,
    /// MQTT output on the topics named after the output variables.
    pub mqtt_output: bool,
    /// Redis channels to publish to.
    pub output_redis_topics: Option<Vec<String>>,
    /// Redis output on the channels named after the output variables.
    pub redis_output: bool,
    /// A file that maps variables to ROS topics.
    pub output_ros_topics: Option<String>,
}

/// How monitoring is distributed over locations.
#[derive(Debug, Clone)]
pub struct DistributionMode {
    /// One central monitor (the default).
    pub centralised: bool,
    /// A distribution graph file for local monitoring.
    pub distribution_graph: Option<String>,
    /// The topics monitored locally.
    pub local_topics: Option<Vec<String>>,
    /// Locations for centralised distributed monitoring over MQTT.
    pub mqtt_centralised_distributed: Option<Vec<String>>,
    /// Locations for randomly distributed monitoring over MQTT.
    pub mqtt_randomized_distributed: Option<Vec<String>>,
    /// Locations for statically optimised distributed monitoring over MQTT.
    pub mqtt_static_optimized: Option<Vec<String>>,
    /// Locations for dynamically optimised distributed monitoring over MQTT.
    pub mqtt_dynamic_optimized: Option<Vec<String>>,
    /// Wait for work from the scheduler.
    pub distributed_work: bool,
}

/// How work is handed out to locations.
#[derive(Debug, Clone, Copy, PartialEq, Eq, Structural)]
pub enum SchedulingType {
    /// A stand-in for tests and single-node runs.
    Mock,
    /// Over MQTT.
    Mqtt,
}

impl SchedulingType {
    /// The name of the scheduling type on the command line.
    pub fn as_str(&self) -> (r: &'static str)
        ensures
            r@ == match self {
                SchedulingType::Mock => "mock"@,
                SchedulingType::Mqtt => "mqtt"@,
            },
    {
        match self {
            SchedulingType::Mock => "mock",
            SchedulingType::Mqtt => "mqtt",
        }
    }
}

/// The options of the checker.
#[derive(Debug, Clone)]
pub struct Cli {
    /// The specification file.
    pub model: String,
    pub input_mode: InputMode,
    pub output_mode: OutputMode,
    pub parser_mode: Option<ParserMode>,
    pub language: Option<Language>,
    pub semantics: Option<Semantics>,
    pub runtime: Option<Runtime>,
    pub distribution_mode: DistributionMode,
    /// This node's name in distributed monitoring.
    pub local_node: Option<String>,
    pub scheduling_mode: SchedulingType,
    /// The variables whose values constrain the distribution.
    pub distribution_constraints: Option<Vec<String>>,
    pub mqtt_port: Option<u16>,
    pub redis_port: Option<u16>,
    pub redis_host: String,
}

/// The options of the checker for ROS.
#[derive(Debug, Clone)]
pub struct CliROS {
    /// The specification file.
    pub model: String,
    /// The file that maps variables to ROS topics.
    pub ros_input_mapping_file: String,
    pub language: Option<Language>,
    pub semantics: Option<Semantics>,
    pub runtime: Option<Runtime>,
}

} // verus!
