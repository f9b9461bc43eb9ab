//! Chunk reorganization and deduplication query planning for a time-series
//! store.
//!
//! The crate models the planning-time view of columnar data chunks and
//! verifies the logic that reconciles them: merging heterogeneous per-chunk
//! schemas into one deterministic unified schema, parsing and evaluating
//! tombstone delete predicates, collating in-memory snapshot batches into a
//! queryable chunk, and building scan / compaction / split plans for a
//! downstream columnar execution engine.

pub mod api_errors;
pub mod cache;
pub mod data;
pub mod merge;
pub mod predicate;
pub mod provider;
pub mod querier_handler;
pub mod query;
pub mod reorg;
pub mod system_tables;
pub mod schema;
pub mod text;
