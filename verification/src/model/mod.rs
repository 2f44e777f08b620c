//! Core model: incidences, values and the world graph.

pub mod value;
pub mod incidence;
pub mod world_graph;
pub mod graph_laws;
pub mod event;
pub mod event_sourced_graph_builder;
