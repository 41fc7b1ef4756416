//! Translates native build rules, as returned by a build-graph query, into
//! directory-scoped generated manifests: one `[package]` descriptor per source
//! directory, with at most one `[lib]` section and one `[[bin]]` section per
//! executable rule.
//!
//! The crate covers the rule model and its normalization pass, the per-rule
//! crate-root (entry point) resolution, the dependency graph over rule
//! identifiers with topological iteration, and the manifest synthesis with its
//! conflict detection and default-target selection.

pub mod buck;
pub mod graph;
pub mod paths;
pub mod translate;
