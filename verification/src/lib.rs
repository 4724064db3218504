//! unit2nix: per-crate Nix build plans from Cargo's unit graph.
//!
//! The library merges the unit graph (exact resolved features, dependencies
//! and platforms), `cargo metadata` (sources, manifest paths, `links`) and
//! `Cargo.lock` (checksums) into one build plan.

pub mod cargo;
pub mod cli;
pub mod error;
pub mod merge;
pub mod metadata;
pub mod output;
pub mod overrides;
pub mod paths;
pub mod prefetch;
pub mod sample;
pub mod source;
pub mod strmap;
pub mod text;
pub mod unit_graph;
