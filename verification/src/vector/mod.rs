//! Embeddings attached to incidences.

pub mod embedding;
pub mod aggregation;
