//! Query engines: coinductive exploration, Datalog, pattern matching and
//! vector queries.

pub mod coinductive;
pub mod datalog;
pub mod pattern;
pub mod vector_query;
