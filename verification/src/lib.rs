//! Backend engine of a desktop file explorer: a bounded, filter-aware
//! filesystem search with verified result invariants, plus the sequential
//! listing and folder-size operations around it.
//!
//! Directory traversal itself is done by the `ignore` crate behind a small
//! set of trusted wrappers; everything the engine decides about an entry
//! (matching, the result cap, counters, ordering) is verified.

pub mod types;

pub mod trusted;

pub mod strops;

pub mod sort;

pub mod engine;

pub mod ops;
