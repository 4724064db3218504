//! The build plan: one entry per crate, in the shape the Nix consumer reads.
use vstd::prelude::*;

use crate::strmap::StrMap;
use crate::text::{opt_view, views};

verus! {

/// The version of the build plan format.
pub const BUILD_PLAN_VERSION: u32 = 1;

/// A complete build plan.
#[derive(Debug)]
pub struct NixBuildPlan {
    pub version: u32,
    pub workspace_root: String,
    pub roots: Vec<String>,
    /// Workspace member name → package ID.
    pub workspace_members: StrMap<String>,
    /// Target triple this plan was resolved for (`None` = host).
    pub target: Option<String>,
    /// SHA256 hash of the `Cargo.lock` file content.
    pub cargo_lock_hash: String,
    /// Fingerprint of the inputs the plan was made from, when one was recorded.
    pub inputs_hash: Option<String>,
    /// Package ID → crate.
    pub crates: StrMap<NixCrate>,
}

/// One crate of the plan.
#[derive(Debug)]
pub struct NixCrate {
    pub crate_name: String,
    pub version: String,
    pub edition: String,
    pub sha256: Option<String>,
    pub source: Option<NixSource>,
    pub features: Vec<String>,
    /// Host-platform features, when they differ from the target features.
    pub host_features: Option<Vec<String>>,
    pub dependencies: Vec<NixDep>,
    pub build_dependencies: Vec<NixDep>,
    pub dev_dependencies: Vec<NixDep>,
    pub proc_macro: bool,
    pub build: Option<String>,
    pub lib_path: Option<String>,
    pub lib_name: Option<String>,
    pub lib_crate_types: Vec<String>,
    pub crate_bin: Vec<NixBinTarget>,
    pub links: Option<String>,
    pub authors: Vec<String>,
    pub description: Option<String>,
    pub homepage: Option<String>,
    pub license: Option<String>,
    pub repository: Option<String>,
}

/// Where a crate's source comes from.
#[derive(Debug)]
pub enum NixSource {
    CratesIo,
    /// Non-crates.io registry, by index URL.
    Registry { index: String },
    /// A path relative to the workspace root.
    Local { path: String },
    Git {
        url: String,
        rev: String,
        /// Subdirectory within the git repository, when not at its root.
        sub_dir: Option<String>,
        /// Fixed-output hash of the checkout, when known.
        sha256: Option<String>,
    },
}

/// A dependency edge of the plan.
#[derive(Debug)]
pub struct NixDep {
    pub package_id: String,
    pub extern_crate_name: String,
}

/// A binary target of a crate.
#[derive(Debug)]
pub struct NixBinTarget {
    pub name: String,
    pub path: String,
}

// ---------------------------------------------------------------------------
// Mathematical views
// ---------------------------------------------------------------------------

/// A source, with every string taken by its view.
pub enum SourceView {
    CratesIo,
    Registry { index: Seq<char> },
    Local { path: Seq<char> },
    Git { url: Seq<char>, rev: Seq<char>, sub_dir: Option<Seq<char>>, sha256: Option<Seq<char>> },
}

/// A dependency edge, by (package ID, extern crate name).
pub type DepView = (Seq<char>, Seq<char>);

/// A crate, with every string taken by its view.
pub struct CrateView {
    pub crate_name: Seq<char>,
    pub version: Seq<char>,
    pub edition: Seq<char>,
    pub sha256: Option<Seq<char>>,
    pub source: Option<SourceView>,
    pub features: Seq<Seq<char>>,
    pub host_features: Option<Seq<Seq<char>>>,
    pub dependencies: Seq<DepView>,
    pub build_dependencies: Seq<DepView>,
    pub dev_dependencies: Seq<DepView>,
    pub proc_macro: bool,
    pub build: Option<Seq<char>>,
    pub lib_path: Option<Seq<char>>,
    pub lib_name: Option<Seq<char>>,
    pub lib_crate_types: Seq<Seq<char>>,
    pub crate_bin: Seq<(Seq<char>, Seq<char>)>,
    pub links: Option<Seq<char>>,
    pub authors: Seq<Seq<char>>,
    pub description: Option<Seq<char>>,
    pub homepage: Option<Seq<char>>,
    pub license: Option<Seq<char>>,
    pub repository: Option<Seq<char>>,
}

impl View for NixSource {
    type V = SourceView;

    open spec fn view(&self) -> SourceView {
        match self {
            NixSource::CratesIo => SourceView::CratesIo,
            NixSource::Registry { index } => SourceView::Registry { index: index@ },
            NixSource::Local { path } => SourceView::Local { path: path@ },
            NixSource::Git { url, rev, sub_dir, sha256 } => SourceView::Git {
                url: url@,
                rev: rev@,
                sub_dir: opt_view(*sub_dir),
                sha256: opt_view(*sha256),
            },
        }
    }
}

impl View for NixDep {
    type V = DepView;

    open spec fn view(&self) -> DepView {
        (self.package_id@, self.extern_crate_name@)
    }
}

/// The views of a sequence of dependency edges.
pub open spec fn dep_views(s: Seq<NixDep>) -> Seq<DepView> {
    s.map_values(|d: NixDep| d@)
}

/// The view of an optional source.
pub open spec fn opt_source_view(o: Option<NixSource>) -> Option<SourceView> {
    match o {
        Some(s) => Some(s@),
        None => None,
    }
}

/// The view of optional features.
pub open spec fn opt_views(o: Option<Vec<String>>) -> Option<Seq<Seq<char>>> {
    match o {
        Some(v) => Some(views(v@)),
        None => None,
    }
}

impl View for NixCrate {
    type V = CrateView;

    open spec fn view(&self) -> CrateView {
        CrateView {
            crate_name: self.crate_name@,
            version: self.version@,
            edition: self.edition@,
            sha256: opt_view(self.sha256),
            source: opt_source_view(self.source),
            features: views(self.features@),
            host_features: opt_views(self.host_features),
            dependencies: dep_views(self.dependencies@),
            build_dependencies: dep_views(self.build_dependencies@),
            dev_dependencies: dep_views(self.dev_dependencies@),
            proc_macro: self.proc_macro,
            build: opt_view(self.build),
            lib_path: opt_view(self.lib_path),
            lib_name: opt_view(self.lib_name),
            lib_crate_types: views(self.lib_crate_types@),
            crate_bin: self.crate_bin@.map_values(|b: NixBinTarget| (b.name@, b.path@)),
            links: opt_view(self.links),
            authors: views(self.authors@),
            description: opt_view(self.description),
            homepage: opt_view(self.homepage),
            license: opt_view(self.license),
            repository: opt_view(self.repository),
        }
    }
}

/// The crates of a plan, each taken by its view.
pub open spec fn crate_views(m: Map<Seq<char>, NixCrate>) -> Map<Seq<char>, CrateView> {
    Map::new(|k: Seq<char>| m.contains_key(k), |k: Seq<char>| m[k]@)
}

/// A map of strings, each value taken by its view.
pub open spec fn string_map_view(m: Map<Seq<char>, String>) -> Map<Seq<char>, Seq<char>> {
    Map::new(|k: Seq<char>| m.contains_key(k), |k: Seq<char>| m[k]@)
}

/// A build plan, with every string taken by its view.
pub struct PlanView {
    pub version: u32,
    pub workspace_root: Seq<char>,
    pub roots: Seq<Seq<char>>,
    pub workspace_members: Map<Seq<char>, Seq<char>>,
    pub target: Option<Seq<char>>,
    pub cargo_lock_hash: Seq<char>,
    pub inputs_hash: Option<Seq<char>>,
    pub crates: Map<Seq<char>, CrateView>,
}

impl View for NixBuildPlan {
    type V = PlanView;

    open spec fn view(&self) -> PlanView {
        PlanView {
            version: self.version,
            workspace_root: self.workspace_root@,
            roots: views(self.roots@),
            workspace_members: string_map_view(self.workspace_members@),
            target: opt_view(self.target),
            cargo_lock_hash: self.cargo_lock_hash@,
            inputs_hash: opt_view(self.inputs_hash),
            crates: crate_views(self.crates@),
        }
    }
}

/// Every dependency, build dependency and dev dependency of every crate
/// names a crate of the plan.
pub open spec fn refs_closed(crates: Map<Seq<char>, CrateView>) -> bool {
    forall|k: Seq<char>, i: int|
        #![trigger crates[k].dependencies[i]]
        #![trigger crates[k].build_dependencies[i]]
        #![trigger crates[k].dev_dependencies[i]]
        crates.contains_key(k) ==> {
            &&& 0 <= i < crates[k].dependencies.len() ==> crates.contains_key(
                crates[k].dependencies[i].0,
            )
            &&& 0 <= i < crates[k].build_dependencies.len() ==> crates.contains_key(
                crates[k].build_dependencies[i].0,
            )
            &&& 0 <= i < crates[k].dev_dependencies.len() ==> crates.contains_key(
                crates[k].dev_dependencies[i].0,
            )
        }
}

impl Default for NixCrate {
    /// A crate with every string empty, every list empty and every option `None`.
    fn default() -> (c: Self)
        ensures
            c@ == (CrateView {
                crate_name: Seq::empty(),
                version: Seq::empty(),
                edition: Seq::empty(),
                sha256: None,
                source: None,
                features: Seq::empty(),
                host_features: None,
                dependencies: Seq::empty(),
                build_dependencies: Seq::empty(),
                dev_dependencies: Seq::empty(),
                proc_macro: false,
                build: None,
                lib_path: None,
                lib_name: None,
                lib_crate_types: Seq::empty(),
                crate_bin: Seq::empty(),
                links: None,
                authors: Seq::empty(),
                description: None,
                homepage: None,
                license: None,
                repository: None,
            }),
    {
        let c = NixCrate {
            crate_name: String::new(),
            version: String::new(),
            edition: String::new(),
            sha256: None,
            source: None,
            features: Vec::new(),
            host_features: None,
            dependencies: Vec::new(),
            build_dependencies: Vec::new(),
            dev_dependencies: Vec::new(),
            proc_macro: false,
            build: None,
            lib_path: None,
            lib_name: None,
            lib_crate_types: Vec::new(),
            crate_bin: Vec::new(),
            links: None,
            authors: Vec::new(),
            description: None,
            homepage: None,
            license: None,
            repository: None,
        };
        proof {
            assert(views(c.features@) =~= Seq::empty());
            assert(dep_views(c.dependencies@) =~= Seq::empty());
            assert(dep_views(c.build_dependencies@) =~= Seq::empty());
            assert(dep_views(c.dev_dependencies@) =~= Seq::empty());
            assert(views(c.lib_crate_types@) =~= Seq::empty());
            assert(views(c.authors@) =~= Seq::empty());
            assert(c.crate_bin@.map_values(|b: NixBinTarget| (b.name@, b.path@)) =~= Seq::empty());
        }
        c
    }
}

} // verus!
