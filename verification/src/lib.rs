//! The decision logic of a cluster controller: which node leads, which log
//! prefixes may be discarded, how a log chain is extended, and the contract
//! that every log segment provider has to meet.

pub mod cluster_state;
pub mod controller;
pub mod identifiers;
pub mod leader;
pub mod loglet;
pub mod memory_loglet;
pub mod metadata_store;
pub mod metrics;
pub mod reconfigure;
pub mod sequence;
pub mod trim;
