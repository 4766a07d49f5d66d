//! A searchable index over versioned, tabular game-data sheets.
//!
//! The crate builds per-sheet index partitions from typed, localized rows,
//! and answers structured queries over them: boolean groups, exact-match
//! leaves, and cross-sheet relation predicates resolved by recursive
//! sub-searches. Queries arrive in a sheet-agnostic form, are normalized
//! against one concrete sheet's columns, resolved into the index's native
//! query representation, executed per partition, and merged into one
//! deterministically ranked, limit-truncated result sequence.

pub mod data;
pub mod error;
pub mod index;
pub mod laws;
pub mod normalize;
pub mod provider;
pub mod query;
pub mod rank;
pub mod resolve;
pub mod schema;
pub mod search;
pub mod service;
pub mod thaliak;
