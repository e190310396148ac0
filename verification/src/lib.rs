//! Verified core of the reference-counting benchmark harness: the compiler
//! configurations, the paths and command lines built from them, the parsing
//! of tool output, the CSV records, and the bookkeeping environment of drop
//! specialisation.

pub mod roc_configuration;
pub mod text;
pub mod pattern;
pub mod drop_specialization;
pub mod runtime_performance;
pub mod build_performance;
