//! Resolution of anonymous targets: build targets synthesized during
//! analysis from a rule type, an attribute mapping, and an inherited
//! execution configuration.
//!
//! The library models the surrounding build system's collaborators (the
//! rule-implementation table, the execution-platform set, and the memoizing
//! incremental-computation engine) as plain data, so that the logic that
//! decides coercion, structural identity, memoization and promise binding
//! is stated and proved here.

mod text;

pub mod attrs;
pub mod coerce;
pub mod config;
pub mod engine;
pub mod errors;
pub mod key;
pub mod label;
pub mod registry;
