//! Core of an in-memory vector index adapter: the mapping between graph
//! vertex ids and the 32-bit slots of a proximity-graph index, the rules
//! for building, inserting and soft-deleting, the choice between an exact
//! scan and a filtered graph search, and the statistics kept about both.
//!
//! Vectors and distances never enter this crate. A distance is stood for by
//! an integer key that orders as the distances do, and every operation of
//! the proximity-graph index is handed in by the caller as a function value.

pub mod error;
pub mod shared_map;
pub mod sorting;
pub mod id_map;
pub mod stats;
pub mod nearest;
pub mod filter;
pub mod resolve;
pub mod strategy;
pub mod distance;
pub mod procedure;
pub mod adapter;
pub mod building;
pub mod insert;
pub mod soft_delete;
pub mod search;
