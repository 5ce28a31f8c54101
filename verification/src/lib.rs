//! A verified record-resolution engine for user-configured categories of a
//! competitive activity (speedrun leaderboards).
//!
//! A logical category may be backed by several concrete leaderboards:
//! combinations of variable filters, per-level boards for individual-level
//! categories, and merged sub-categories. The [`model::Resolver`] expands a
//! category configuration into concrete leaderboard queries, looks each one up
//! in the supplied [`source::Source`] data, drops runs marked unwatchable,
//! keeps the locally tied-fastest runs per query, recursively resolves
//! sub-categories, merges the candidate pools, re-applies the global
//! tie-break, de-duplicates by run identity, and memoizes the result per
//! (game name, category name) for the duration of one resolution pass.
//!
//! All I/O — reading configuration, talking to the upstream leaderboard
//! service, rendering menus — lives outside this crate; the library works on
//! plain values and is verified end to end against the specification
//! functions in [`semantics`].

#![verifier::loop_isolation(false)]

pub mod config;
pub mod data;
pub mod errors;
pub mod expand;
pub mod lemmas;
pub mod model;
pub mod run;
pub mod semantics;
pub mod source;
pub mod util;
