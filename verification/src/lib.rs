//! Specification parsing, localisation and distributed scheduling for the
//! trustworthiness checker, verified with Verus.
pub mod text;
pub mod interfaces;
pub mod variables;
pub mod values;
pub mod varmap;
pub mod ast;
pub mod lexer;
pub mod parser;
pub mod localisation;
pub mod graph;
pub mod distribution_graphs;
pub mod graph_layout;
pub mod plotting;
pub mod scheduling;
pub mod contexts;
pub mod cli;
pub mod monitor_build;
pub mod io_builders;
pub mod ros_mapping;
pub mod benches;
pub mod mqtt_logic;
