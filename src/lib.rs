//! Risk scoring for liquidity protocols, expressed as a branch-free
//! arithmetic graph for zero-knowledge proving, together with the
//! serialization of the verifier's proof and configuration trees to JSON.
//!
//! - `metrics`: the inputs and the scoring formula, in exact fixed point.
//! - `graph`: an acyclic arithmetic graph, its values and its evaluation.
//! - `circuit`: the scoring formula built as a graph without branches.
//! - `hex`, `abi`: field elements as hex, and the JSON text of ABI trees.
//! - `schema`: the verifier's tree shapes and their all-zero placeholders.

pub mod abi;
pub mod circuit;
pub mod graph;
pub mod hex;
pub mod metrics;
pub mod schema;
pub mod shape;
