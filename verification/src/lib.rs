//! Transactional state caching and execution-trace aggregation for a
//! smart-contract execution engine.
//!
//! The crate offers a copy-on-write view over persistent chain state
//! (storage cells, nonces, deployed-class bindings, declared classes),
//! extraction of the net state diff of one transaction, and iterative
//! traversal and aggregation of nested call trees for metering.

pub mod cache;
pub mod call_info;
pub mod cached_state;
pub mod core_types;
pub mod diff;
pub mod errors;
pub mod ordered_map;
pub mod reader;
pub mod summary;
