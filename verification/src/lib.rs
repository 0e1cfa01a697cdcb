//! Aggregation-validation-merge engine for system host-mapping files.
//!
//! The crate validates fetched host-mapping documents (address / hostname
//! grammar), and idempotently splices a marker-delimited, engine-owned
//! region into an arbitrary pre-existing text file, leaving user-authored
//! content untouched.
#![verifier::loop_isolation(false)]

pub mod config;
pub mod hosts;
pub mod laws;
pub mod scheduler;
pub mod text;
pub mod validate;
