//! The computing side of the GraphQL API: parsing of Datalog text, schema
//! statistics, graph structure extraction, result shapes, sample data and
//! benchmark workloads.

pub mod parse;
pub mod schema;
pub mod listing;
pub mod query;
pub mod structure;
pub mod benchmark;
pub mod demo;
pub mod mutation;
pub mod event_sourced;
pub mod hop_walk;
pub mod service;
