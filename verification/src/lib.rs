//! Verified core of the lean-multisig language bindings and of the
//! lean-multisig / Lighthouse BLS comparison benchmarks.

pub mod batch;
pub mod bindings;
pub mod claim_context;
pub mod config;
pub mod diagnostics;
pub mod fixtures;
pub mod limits;
pub mod paths;
pub mod report;
pub mod summary;
pub mod text;
