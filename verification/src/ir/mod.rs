//! Interchange formats: JSON-LD for publishing, the internal JSON form for
//! computation, and the conversions between them and the world graph.

pub mod jsonld;
pub mod internal_json;
pub mod converter;
