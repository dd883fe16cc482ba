//! Verified core of a blockDAG node.
//!
//! The crate proves the rules that depend on ancestor state and shared
//! mutable indexes: context-dependent block-body validation, a derived
//! UTXO index kept consistent with an engine-owned ground truth
//! (incremental update and full resync), the decision logic of the
//! notification bridge that drives that index, and the reconstruction
//! of a trusted sub-DAG used during initial block download.

pub mod assoc;
pub mod errors;
pub mod model;
pub mod network;
pub mod processor;
pub mod send;
pub mod trusted;
pub mod utxoindex;
pub mod validator;
pub mod wallet;
