//! A verified, in-memory, diff-based catalog transaction layer.
//!
//! The crate models the durable metadata of a streaming SQL engine: databases,
//! schemas, items, roles, clusters and their replicas, privileges, comments,
//! settings and id counters. All mutations are buffered as signed diffs over a
//! baseline snapshot inside a transaction, validated against per-table
//! uniqueness invariants, and flattened into a batch for a single atomic write
//! by an external durable store.

pub mod error;
pub mod ids;
pub mod laws;
pub mod objects;
pub mod purification;
pub mod table;
pub mod transaction;
