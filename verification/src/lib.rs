//! A schema-aware graph model: node templates with typed slots and fields,
//! node instances created from them, and the connections between their slots.

pub mod appearance;
pub mod checks;
pub mod commands;
pub mod config;
pub mod conformity;
pub mod deletion;
pub mod connect;
pub mod creation;
pub mod decimal;
pub mod errors;
pub mod fields;
pub mod graph;
pub mod hierarchy;
pub mod ids;
pub mod initial;
pub mod js;
pub mod laws;
pub mod layout;
pub mod menu;
pub mod model;
pub mod pointer;
pub mod prune;
pub mod queries;
pub mod samples;
pub mod seqs;
pub mod text;
pub mod views;
