//! A registry of persons and cities with a many-to-many membership relation.
//!
//! The core is a dense array-backed bidirectional membership index: for every
//! person/city relation there is a forward slot (city side), a reverse slot
//! (person side) and a cross-reference entry tying the two positions together.
//! Removal uses swap-deletion so that both slot arrays stay gap-free, and the
//! per-person and per-city counters always agree with the arrays.

pub mod contract;
pub mod error;
pub mod laws;
pub mod msg;
pub mod state;
pub mod utils;
