//! Core of a medallion-style batch ETL pipeline for tabular data: a typed
//! cell-value model with strict per-cell coercion, an expression IR with a
//! verified evaluator, a mapping/data-quality planner, snapshot-addressed
//! storage naming with anti-join deduplication, and a stricter typed
//! validation pass for the DVF real-estate dataset.
//!
//! File and network I/O live outside this crate; every function here computes
//! on plain values and is verified against its contract.

pub mod catalog;
pub mod coerce;
pub mod curate;
pub mod dates;
pub mod dvf;
pub mod expr;
pub mod frame;
pub mod ingest;
pub mod keys;
pub mod mapping;
pub mod num;
pub mod pipeline;
pub mod plan;
pub mod report;
pub mod request;
pub mod schema;
pub mod snapshot;
pub mod text;
pub mod value;
