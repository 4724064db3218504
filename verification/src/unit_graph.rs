//! The unit graph that `cargo build --unit-graph -Z unstable-options`
//! reports: every compilation unit with its resolved features, target kinds,
//! mode and dependency edges.
use vstd::prelude::*;

verus! {

/// The full dependency graph of compilation units.
#[derive(Debug)]
pub struct UnitGraph {
    pub units: Vec<Unit>,
    pub roots: Vec<usize>,
}

/// One invocation of rustc: a crate compiled in one mode with one feature set.
#[derive(Debug)]
pub struct Unit {
    pub pkg_id: String,
    pub target: UnitTarget,
    pub mode: UnitMode,
    pub features: Vec<String>,
    pub dependencies: Vec<UnitDep>,
    /// Target triple for target-platform units; `None` for host units.
    pub platform: Option<String>,
}

/// The compilation mode of a unit.
#[derive(Debug, Clone, Copy, PartialEq, Eq, Structural)]
pub enum UnitMode {
    /// Normal compilation: produces a library or binary artifact.
    Build,
    /// Executing a build script.
    RunCustomBuild,
    /// Compiling a crate for testing (only in `cargo test --unit-graph`).
    Test,
    /// Running a doctest.
    Doctest,
    /// Any mode that Cargo may add later.
    Other,
}

/// The target being compiled (from `[lib]`, `[[bin]]`, etc).
#[derive(Debug)]
pub struct UnitTarget {
    pub kind: Vec<CrateKind>,
    pub crate_types: Vec<String>,
    pub name: String,
    pub src_path: String,
    pub edition: String,
}

/// The kind of a crate target, as reported by Cargo.
#[derive(Debug, Clone, Copy, PartialEq, Eq, Structural)]
pub enum CrateKind {
    Lib,
    Rlib,
    Cdylib,
    Dylib,
    Staticlib,
    ProcMacro,
    Bin,
    CustomBuild,
    /// Any kind that Cargo may add later.
    Other,
}

impl CrateKind {
    /// Library kinds: lib, rlib, cdylib, dylib, staticlib.
    pub open spec fn lib_kind(self) -> bool {
        self is Lib || self is Rlib || self is Cdylib || self is Dylib || self is Staticlib
    }

    /// Library kinds and proc-macro.
    pub open spec fn lib_like_kind(self) -> bool {
        self.lib_kind() || self is ProcMacro
    }

    /// True for library-like kinds: lib, rlib, cdylib, dylib, staticlib.
    pub fn is_lib(&self) -> (r: bool)
        ensures
            r == self.lib_kind(),
    {
        match self {
            CrateKind::Lib | CrateKind::Rlib | CrateKind::Cdylib | CrateKind::Dylib
            | CrateKind::Staticlib => true,
            _ => false,
        }
    }

    /// True if this is a procedural macro.
    pub fn is_proc_macro(&self) -> (r: bool)
        ensures
            r == (*self is ProcMacro),
    {
        match self {
            CrateKind::ProcMacro => true,
            _ => false,
        }
    }

    /// True for library-like or proc-macro kinds (targets that produce a linkable artifact).
    pub fn is_lib_like(&self) -> (r: bool)
        ensures
            r == self.lib_like_kind(),
    {
        self.is_lib() || self.is_proc_macro()
    }
}

impl UnitTarget {
    /// Some kind is a library kind.
    pub open spec fn lib_present(self) -> bool {
        exists|i: int| 0 <= i < self.kind.len() && (#[trigger] self.kind[i]).lib_kind()
    }

    /// Some kind is proc-macro.
    pub open spec fn proc_macro_present(self) -> bool {
        exists|i: int| 0 <= i < self.kind.len() && #[trigger] self.kind[i] is ProcMacro
    }

    /// Some kind is a library kind or proc-macro.
    pub open spec fn lib_like_present(self) -> bool {
        exists|i: int| 0 <= i < self.kind.len() && (#[trigger] self.kind[i]).lib_like_kind()
    }

    /// Some kind is bin.
    pub open spec fn bin_present(self) -> bool {
        exists|i: int| 0 <= i < self.kind.len() && #[trigger] self.kind[i] is Bin
    }

    /// Some kind is custom-build.
    pub open spec fn custom_build_present(self) -> bool {
        exists|i: int| 0 <= i < self.kind.len() && #[trigger] self.kind[i] is CustomBuild
    }

    /// True if any kind is a library type (lib, rlib, cdylib, dylib, staticlib).
    pub fn has_lib(&self) -> (r: bool)
        ensures
            r == self.lib_present(),
    {
        let mut i: usize = 0;
        while i < self.kind.len()
            invariant
                i <= self.kind.len(),
                forall|j: int| 0 <= j < i ==> !(#[trigger] self.kind[j]).lib_kind(),
            decreases self.kind.len() - i,
        {
            if self.kind[i].is_lib() {
                return true;
            }
            i = i + 1;
        }
        false
    }

    /// True if any kind is proc-macro.
    pub fn has_proc_macro(&self) -> (r: bool)
        ensures
            r == self.proc_macro_present(),
    {
        let mut i: usize = 0;
        while i < self.kind.len()
            invariant
                i <= self.kind.len(),
                forall|j: int| 0 <= j < i ==> !(#[trigger] self.kind[j] is ProcMacro),
            decreases self.kind.len() - i,
        {
            if self.kind[i].is_proc_macro() {
                return true;
            }
            i = i + 1;
        }
        false
    }

    /// True if any kind is library-like or proc-macro.
    pub fn has_lib_like(&self) -> (r: bool)
        ensures
            r == self.lib_like_present(),
    {
        let mut i: usize = 0;
        while i < self.kind.len()
            invariant
                i <= self.kind.len(),
                forall|j: int| 0 <= j < i ==> !(#[trigger] self.kind[j]).lib_like_kind(),
            decreases self.kind.len() - i,
        {
            if self.kind[i].is_lib_like() {
                return true;
            }
            i = i + 1;
        }
        false
    }

    /// True if any kind is bin.
    pub fn has_bin(&self) -> (r: bool)
        ensures
            r == self.bin_present(),
    {
        let mut i: usize = 0;
        while i < self.kind.len()
            invariant
                i <= self.kind.len(),
                forall|j: int| 0 <= j < i ==> !(#[trigger] self.kind[j] is Bin),
            decreases self.kind.len() - i,
        {
            if self.kind[i] == CrateKind::Bin {
                return true;
            }
            i = i + 1;
        }
        false
    }

    /// True if any kind is custom-build (build script).
    pub fn has_custom_build(&self) -> (r: bool)
        ensures
            r == self.custom_build_present(),
    {
        let mut i: usize = 0;
        while i < self.kind.len()
            invariant
                i <= self.kind.len(),
                forall|j: int| 0 <= j < i ==> !(#[trigger] self.kind[j] is CustomBuild),
            decreases self.kind.len() - i,
        {
            if self.kind[i] == CrateKind::CustomBuild {
                return true;
            }
            i = i + 1;
        }
        false
    }
}

/// A dependency edge between two units in the unit graph.
#[derive(Debug)]
pub struct UnitDep {
    pub index: usize,
    pub extern_crate_name: String,
}

/// A Build-mode unit with a library-like, bin or build-script target: one
/// whose dependency edges a merge reads.
pub open spec fn build_edges_read(u: &Unit) -> bool {
    u.mode == UnitMode::Build && (u.target.lib_like_present() || u.target.bin_present()
        || u.target.custom_build_present())
}

/// Every edge of a unit of [`build_edges_read`] points at a unit of the graph.
pub open spec fn build_deps_in_range(g: UnitGraph) -> bool {
    forall|u: int, d: int|
        0 <= u < g.units.len() && build_edges_read(&g.units[u]) && 0 <= d < g.units[u].dependencies.len()
            ==> (#[trigger] g.units[u].dependencies[d]).index < g.units.len()
}

/// A Test-mode unit of one of `members` with a library-like or bin target:
/// one whose dependency edges the dev-dependency classification reads.
pub open spec fn test_edges_read(u: &Unit, members: Seq<Seq<char>>) -> bool {
    u.mode == UnitMode::Test && (u.target.lib_like_present() || u.target.bin_present()) && members.contains(
        u.pkg_id@,
    )
}

/// Every edge of a unit of [`test_edges_read`] points at a unit of the graph.
pub open spec fn test_deps_in_range(g: UnitGraph, members: Seq<Seq<char>>) -> bool {
    forall|u: int, d: int|
        0 <= u < g.units.len() && test_edges_read(&g.units[u], members) && 0 <= d < g.units[u].dependencies.len()
            ==> (#[trigger] g.units[u].dependencies[d]).index < g.units.len()
}

/// Every root points at a unit of the graph.
pub open spec fn roots_in_range(g: UnitGraph) -> bool {
    forall|r: int| 0 <= r < g.roots.len() ==> #[trigger] g.roots[r] < g.units.len()
}

} // verus!
