//! Operator execution core of an incremental-view-maintenance dataflow
//! engine: signed delta records flow through a graph of transformation
//! nodes, and every node implements one uniform operator contract.
//!
//! The crate provides the contract itself ([`ingredient::Ingredient`]),
//! the surrounding value types (addresses, records, updates, the graph
//! view), and two reference operators: a pass-through identity and a
//! column projection with an in-place, allocation-free permutation.

pub mod address;
pub mod data;
pub mod decimal;
pub mod graph;
pub mod identity;
pub mod ingredient;
pub mod permute;
