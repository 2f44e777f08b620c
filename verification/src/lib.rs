//! IncDB: an incidence-only graph database core.
//!
//! Every structure is an `Incidence`; types, sets and categories are
//! patterns of incidences. The `model` module holds the world graph,
//! `foundation` the coinductive and type-theoretic layer, `query` the
//! query engines, `vector` the embeddings, `ir` the interchange formats and
//! `api` what the GraphQL API computes: lookups, listings, statistics,
//! structure walks, demonstration data and benchmark workloads.

pub mod text;
pub mod model;
pub mod foundation;
pub mod query;
pub mod api;
pub mod vector;
pub mod ir;
