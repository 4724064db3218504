//! The parts of `cargo metadata --format-version=1` and of `Cargo.lock`
//! that the build plan is made from.
use vstd::prelude::*;

verus! {

/// Output of `cargo metadata --format-version=1`.
#[derive(Debug)]
pub struct CargoMetadata {
    pub packages: Vec<MetadataPackage>,
    pub workspace_root: String,
    pub workspace_members: Vec<String>,
}

/// A package entry from cargo metadata: source info, manifest path, and the
/// fields used for `CARGO_PKG_*` environment variables in build scripts.
#[derive(Debug)]
pub struct MetadataPackage {
    pub id: String,
    pub source: Option<String>,
    pub links: Option<String>,
    pub manifest_path: String,
    pub authors: Option<Vec<String>>,
    pub description: Option<String>,
    pub homepage: Option<String>,
    pub license: Option<String>,
    pub repository: Option<String>,
}

/// The packages of a `Cargo.lock` file.
#[derive(Debug)]
pub struct CargoLock {
    pub package: Option<Vec<LockPackage>>,
}

/// A package entry from `Cargo.lock`, with the checksum of registry crates.
#[derive(Debug)]
pub struct LockPackage {
    pub name: String,
    pub version: String,
    pub checksum: Option<String>,
}

} // verus!
