//! The incidence foundation: axioms, coinduction, bisimulation, types,
//! universes, categories and the internal logic.

pub mod axioms;
pub mod coinduction;
pub mod bisimulation;
pub mod category;
pub mod internal_logic;
pub mod nno;
pub mod type_system;
pub mod universe;
pub mod witness;
