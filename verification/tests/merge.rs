//! Tests of merging the unit graph, metadata and lock file into a plan.

use std::collections::BTreeSet;

use unit2nix::merge::{
    build_nix_crate, classify_dev_dependencies, collect_build_dependencies, collect_dependencies,
    collect_features, collect_platform_features, make_relative, merge, parse_pkg_id, read_edges_in_range,
    sanitize_metadata,
    validate_references, MergeContext,
};
use unit2nix::metadata::{CargoLock, CargoMetadata, LockPackage, MetadataPackage};
use unit2nix::output::{NixCrate, NixDep, NixSource, BUILD_PLAN_VERSION};
use unit2nix::strmap::StrMap;
use unit2nix::unit_graph::{CrateKind, Unit, UnitDep, UnitGraph, UnitMode, UnitTarget};
// ---------------------------------------------------------------------------
// Test fixtures / helpers
// ---------------------------------------------------------------------------

/// Create a minimal `NixCrate` for tests. Override fields after construction.
fn make_nix_crate(name: &str, version: &str) -> NixCrate {
    NixCrate {
        crate_name: name.to_string(),
        version: version.to_string(),
        edition: "2021".to_string(),
        ..NixCrate::default()
    }
}

fn make_unit(
    pkg_id: &str,
    kind: Vec<CrateKind>,
    mode: UnitMode,
    features: Vec<&str>,
    deps: Vec<(usize, &str)>,
) -> Unit {
    make_unit_with_platform(pkg_id, kind, mode, features, deps, None)
}

fn make_unit_with_platform(
    pkg_id: &str,
    kind: Vec<CrateKind>,
    mode: UnitMode,
    features: Vec<&str>,
    deps: Vec<(usize, &str)>,
    platform: Option<&str>,
) -> Unit {
    Unit {
        pkg_id: pkg_id.to_string(),
        target: UnitTarget {
            kind,
            crate_types: vec!["lib".to_string()],
            name: "test".to_string(),
            src_path: "/path/to/src/lib.rs".to_string(),
            edition: "2021".to_string(),
        },
        mode,
        features: features.iter().map(|s| s.to_string()).collect(),
        dependencies: deps
            .iter()
            .map(|(idx, name)| UnitDep {
                index: *idx,
                extern_crate_name: name.to_string(),
            })
            .collect(),
        platform: platform.map(str::to_string),
    }
}

fn make_meta_pkg(id: &str, source: Option<&str>, manifest_path: &str) -> MetadataPackage {
    MetadataPackage {
        id: id.to_string(),
        source: source.map(str::to_string),
        manifest_path: manifest_path.to_string(),
        links: None,
        authors: Some(vec!["Test Author <test@example.com>".to_string()]),
        description: Some("A test package".to_string()),
        homepage: None,
        license: Some("MIT".to_string()),
        repository: None,
    }
}

fn make_lock_pkg(name: &str, version: &str, checksum: Option<&str>) -> LockPackage {
    LockPackage {
        name: name.to_string(),
        version: version.to_string(),
        checksum: checksum.map(str::to_string),
    }
}

// ---------------------------------------------------------------------------
// parse_pkg_id tests (existing)
// ---------------------------------------------------------------------------

#[test]
fn parse_registry_pkg_id() {
    let (name, version) =
        parse_pkg_id("registry+https://github.com/rust-lang/crates.io-index#serde@1.0.200")
            .unwrap();
    assert_eq!(name, "serde");
    assert_eq!(version, "1.0.200");
}

#[test]
fn parse_path_pkg_id() {
    let (name, version) =
        parse_pkg_id("path+file:///home/user/project/crates/aspen-core#0.1.0").unwrap();
    assert_eq!(name, "aspen-core");
    assert_eq!(version, "0.1.0");
}

#[test]
fn parse_git_pkg_id() {
    let (name, version) =
        parse_pkg_id("git+https://github.com/example/repo.git?rev=abc123#my-crate@0.5.0")
            .unwrap();
    assert_eq!(name, "my-crate");
    assert_eq!(version, "0.5.0");
}

#[test]
fn parse_pkg_id_malformed_no_hash() {
    let result = parse_pkg_id("garbage-with-no-hash");
    assert!(result.is_err(), "should error on malformed pkg_id");
}

// ---------------------------------------------------------------------------
// make_relative tests
// ---------------------------------------------------------------------------

#[test]
fn make_relative_strips_prefix() {
    let crate_root = "/home/user/project/crates/foo";
    let abs_path = "/home/user/project/crates/foo/src/lib.rs";
    let result = make_relative(abs_path, crate_root);
    assert_eq!(result, "src/lib.rs");
}

#[test]
fn make_relative_returns_original_on_mismatch() {
    let crate_root = "/home/user/project/crates/foo";
    let abs_path = "/other/path/src/lib.rs";
    let result = make_relative(abs_path, crate_root);
    assert_eq!(result, abs_path);
}

// ---------------------------------------------------------------------------
// sanitize_metadata tests
// ---------------------------------------------------------------------------

#[test]
fn sanitize_metadata_replaces_newlines() {
    let input = "Line one\nLine two\r\nLine three";
    let result = sanitize_metadata(input);
    // Note: \r\n becomes two spaces because both \n and \r are replaced
    assert_eq!(result, "Line one Line two  Line three");
    assert!(!result.contains('\n'));
    assert!(!result.contains('\r'));
}

#[test]
fn sanitize_metadata_replaces_quotes() {
    let input = r#"Some "quoted" text"#;
    let result = sanitize_metadata(input);
    assert_eq!(result, "Some 'quoted' text");
    assert!(!result.contains('"'));
}

// ---------------------------------------------------------------------------
// collect_features tests
// ---------------------------------------------------------------------------

#[test]
fn collect_features_deduplicates_and_sorts() {
    let unit0 = make_unit(
        "pkg#0.1.0",
        vec![CrateKind::Lib],
        UnitMode::Build,
        vec!["default", "feature_a"],
        vec![],
    );
    let unit1 = make_unit(
        "pkg#0.1.0",
        vec![CrateKind::Lib],
        UnitMode::Build,
        vec!["feature_b", "default"],
        vec![],
    );
    let units = vec![(0, &unit0), (1, &unit1)];
    let features = collect_features(&units);
    assert_eq!(features, vec!["default", "feature_a", "feature_b"]);
}

#[test]
fn collect_features_only_from_build_mode() {
    let unit0 = make_unit(
        "pkg#0.1.0",
        vec![CrateKind::Lib],
        UnitMode::Build,
        vec!["feature_a"],
        vec![],
    );
    let unit1 = make_unit(
        "pkg#0.1.0",
        vec![CrateKind::Lib],
        UnitMode::Test,
        vec!["test_feature"],
        vec![],
    );
    let unit2 = make_unit(
        "pkg#0.1.0",
        vec![CrateKind::Lib],
        UnitMode::RunCustomBuild,
        vec!["build_feature"],
        vec![],
    );
    let units = vec![(0, &unit0), (1, &unit1), (2, &unit2)];
    let features = collect_features(&units);
    assert_eq!(features, vec!["feature_a"]);
}

#[test]
fn collect_features_only_lib_like_targets() {
    let unit0 = make_unit(
        "pkg#0.1.0",
        vec![CrateKind::Lib],
        UnitMode::Build,
        vec!["lib_feature"],
        vec![],
    );
    let unit1 = make_unit(
        "pkg#0.1.0",
        vec![CrateKind::CustomBuild],
        UnitMode::Build,
        vec!["build_feature"],
        vec![],
    );
    let units = vec![(0, &unit0), (1, &unit1)];
    let features = collect_features(&units);
    assert_eq!(features, vec!["lib_feature"]);
}

#[test]
fn collect_features_bin_only_crate() {
    // Bin-only crates (no lib target) should collect features from bin units.
    let unit0 = make_unit(
        "pkg#0.1.0",
        vec![CrateKind::Bin],
        UnitMode::Build,
        vec!["ci", "forge"],
        vec![],
    );
    let unit1 = make_unit(
        "pkg#0.1.0",
        vec![CrateKind::CustomBuild],
        UnitMode::Build,
        vec!["build_feature"],
        vec![],
    );
    let units = vec![(0, &unit0), (1, &unit1)];
    let features = collect_features(&units);
    assert_eq!(features, vec!["ci", "forge"]);
}

#[test]
fn collect_features_lib_takes_precedence_over_bin() {
    // When both lib and bin exist, only lib features are collected
    // (bin inherits from lib in cargo's model).
    let lib_unit = make_unit(
        "pkg#0.1.0",
        vec![CrateKind::Lib],
        UnitMode::Build,
        vec!["lib_feature"],
        vec![],
    );
    let bin_unit = make_unit(
        "pkg#0.1.0",
        vec![CrateKind::Bin],
        UnitMode::Build,
        vec!["bin_feature"],
        vec![],
    );
    let units = vec![(0, &lib_unit), (1, &bin_unit)];
    let features = collect_features(&units);
    assert_eq!(features, vec!["lib_feature"]);
}

// ---------------------------------------------------------------------------
// collect_platform_features tests
// ---------------------------------------------------------------------------

#[test]
fn collect_platform_features_splits_host_and_target_when_they_differ() {
    let host_unit = make_unit_with_platform(
        "pkg#0.1.0",
        vec![CrateKind::Lib],
        UnitMode::Build,
        vec!["default", "std"],
        vec![],
        None,
    );
    let target_unit = make_unit_with_platform(
        "pkg#0.1.0",
        vec![CrateKind::Lib],
        UnitMode::Build,
        vec!["alloc"],
        vec![],
        Some("aarch64-unknown-none"),
    );

    let (target_features, host_features) =
        collect_platform_features(&[(0, &host_unit), (1, &target_unit)]);

    assert_eq!(target_features, vec!["alloc"]);
    assert_eq!(host_features, Some(vec!["default".to_string(), "std".to_string()]));
}

#[test]
fn collect_platform_features_omits_host_override_when_feature_sets_match() {
    let host_unit = make_unit_with_platform(
        "pkg#0.1.0",
        vec![CrateKind::Lib],
        UnitMode::Build,
        vec!["default", "std"],
        vec![],
        None,
    );
    let target_unit = make_unit_with_platform(
        "pkg#0.1.0",
        vec![CrateKind::Lib],
        UnitMode::Build,
        vec!["default", "std"],
        vec![],
        Some("aarch64-unknown-linux-gnu"),
    );

    let (target_features, host_features) =
        collect_platform_features(&[(0, &host_unit), (1, &target_unit)]);

    assert_eq!(target_features, vec!["default", "std"]);
    assert_eq!(host_features, None);
}

// ---------------------------------------------------------------------------
// collect_dependencies tests
// ---------------------------------------------------------------------------

#[test]
fn collect_dependencies_filters_self_refs() {
    let pkg_id = "pkg#0.1.0";
    let unit_graph = UnitGraph {
        units: vec![
            make_unit(pkg_id, vec![CrateKind::Lib], UnitMode::Build, vec![], vec![]),
            make_unit(pkg_id, vec![CrateKind::Bin], UnitMode::Build, vec![], vec![(0, "pkg")]),
        ],
        roots: vec![0],
    };
    let unit_pkg_ids: Vec<&str> = unit_graph.units.iter().map(|u| u.pkg_id.as_str()).collect();
    let units = vec![(1, &unit_graph.units[1])];

    let deps = collect_dependencies(&units, &unit_graph, &unit_pkg_ids, pkg_id);
    assert!(deps.is_empty(), "bin→lib self-refs should be filtered");
}

#[test]
fn collect_dependencies_skips_run_custom_build() {
    let unit_graph = UnitGraph {
        units: vec![
            make_unit("pkg#0.1.0", vec![CrateKind::Lib], UnitMode::Build, vec![], vec![]),
            make_unit(
                "dep#0.2.0",
                vec![CrateKind::CustomBuild],
                UnitMode::RunCustomBuild,
                vec![],
                vec![],
            ),
            make_unit(
                "pkg#0.1.0",
                vec![CrateKind::Lib],
                UnitMode::Build,
                vec![],
                vec![(1, "dep")],
            ),
        ],
        roots: vec![0],
    };
    let unit_pkg_ids: Vec<&str> = unit_graph.units.iter().map(|u| u.pkg_id.as_str()).collect();
    let units = vec![(2, &unit_graph.units[2])];

    let deps = collect_dependencies(&units, &unit_graph, &unit_pkg_ids, "pkg#0.1.0");
    assert!(deps.is_empty(), "RunCustomBuild deps should be skipped");
}

#[test]
fn collect_dependencies_deduplicates() {
    let unit_graph = UnitGraph {
        units: vec![
            make_unit("pkg#0.1.0", vec![CrateKind::Lib], UnitMode::Build, vec![], vec![(1, "dep")]),
            make_unit("dep#0.2.0", vec![CrateKind::Lib], UnitMode::Build, vec![], vec![]),
            make_unit("pkg#0.1.0", vec![CrateKind::Bin], UnitMode::Build, vec![], vec![(1, "dep")]),
        ],
        roots: vec![0],
    };
    let unit_pkg_ids: Vec<&str> = unit_graph.units.iter().map(|u| u.pkg_id.as_str()).collect();
    let units = vec![(0, &unit_graph.units[0]), (2, &unit_graph.units[2])];

    let deps = collect_dependencies(&units, &unit_graph, &unit_pkg_ids, "pkg#0.1.0");
    assert_eq!(deps.len(), 1);
    assert_eq!(deps[0].package_id, "dep#0.2.0");
    assert_eq!(deps[0].extern_crate_name, "dep");
}

// ---------------------------------------------------------------------------
// collect_build_dependencies tests
// ---------------------------------------------------------------------------

#[test]
fn collect_build_dependencies_from_build_script() {
    let build_script = make_unit(
        "pkg#0.1.0",
        vec![CrateKind::CustomBuild],
        UnitMode::Build,
        vec![],
        vec![(0, "build_dep"), (1, "another_dep")],
    );
    let unit_pkg_ids = vec!["build_dep#0.1.0", "another_dep#0.2.0"];

    let deps = collect_build_dependencies(Some(&(0, &build_script)), &unit_pkg_ids);
    assert_eq!(deps.len(), 2);
    assert_eq!(deps[0].package_id, "build_dep#0.1.0");
    assert_eq!(deps[0].extern_crate_name, "build_dep");
    assert_eq!(deps[1].package_id, "another_dep#0.2.0");
    assert_eq!(deps[1].extern_crate_name, "another_dep");
}

#[test]
fn collect_build_dependencies_returns_empty_when_none() {
    let deps = collect_build_dependencies(None, &[]);
    assert!(deps.is_empty());
}

// ---------------------------------------------------------------------------
// validate_references tests
// ---------------------------------------------------------------------------

#[test]
fn validate_references_passes_when_all_valid() {
    let mut crates = StrMap::new();
    let mut pkg_a = make_nix_crate("pkg_a", "0.1.0");
    pkg_a.dependencies = vec![NixDep {
        package_id: "pkg_b#0.2.0".to_string(),
        extern_crate_name: "pkg_b".to_string(),
    }];
    crates.insert("pkg_a#0.1.0".to_string(), pkg_a);
    crates.insert("pkg_b#0.2.0".to_string(), make_nix_crate("pkg_b", "0.2.0"));

    let result = validate_references(&crates);
    assert!(result.is_ok());
}

#[test]
fn validate_references_fails_with_dangling_refs() {
    let mut crates = StrMap::new();
    let mut pkg_a = make_nix_crate("pkg_a", "0.1.0");
    pkg_a.dependencies = vec![NixDep {
        package_id: "missing#0.9.0".to_string(),
        extern_crate_name: "missing".to_string(),
    }];
    crates.insert("pkg_a#0.1.0".to_string(), pkg_a);

    let result = validate_references(&crates);
    assert!(result.is_err());
}

#[test]
fn validate_references_checks_build_dependencies() {
    let mut crates = StrMap::new();
    let mut pkg_a = make_nix_crate("pkg_a", "0.1.0");
    pkg_a.build_dependencies = vec![NixDep {
        package_id: "missing-build#0.9.0".to_string(),
        extern_crate_name: "missing_build".to_string(),
    }];
    crates.insert("pkg_a#0.1.0".to_string(), pkg_a);

    let err = validate_references(&crates).unwrap_err().message();
    assert!(err.contains("reference crates not in the build plan"), "got: {err}");
}

#[test]
fn validate_references_checks_dev_dependencies() {
    let mut crates = StrMap::new();
    let mut pkg_a = make_nix_crate("pkg_a", "0.1.0");
    pkg_a.dev_dependencies = vec![NixDep {
        package_id: "missing-dev#0.9.0".to_string(),
        extern_crate_name: "missing_dev".to_string(),
    }];
    crates.insert("pkg_a#0.1.0".to_string(), pkg_a);

    let err = validate_references(&crates).unwrap_err().message();
    assert!(err.contains("reference crates not in the build plan"), "got: {err}");
}

// ---------------------------------------------------------------------------
// build_nix_crate tests
// ---------------------------------------------------------------------------

/// Build a `MergeContext` from a `UnitGraph` for tests.
fn make_ctx(unit_graph: &UnitGraph) -> MergeContext<'_> {
    MergeContext {
        unit_graph,
        unit_pkg_ids: unit_graph.units.iter().map(|u| u.pkg_id.as_str()).collect(),
        checksums: Vec::new(),
        workspace_root: "/workspace",
    }
}

#[test]
fn build_nix_crate_lib_crate() {
    let pkg_id = "registry+https://github.com/rust-lang/crates.io-index#serde@1.0.0";
    let unit_graph = UnitGraph {
        units: vec![make_unit(
            pkg_id,
            vec![CrateKind::Lib],
            UnitMode::Build,
            vec!["default", "std"],
            vec![],
        )],
        roots: vec![0],
    };
    let mut ctx = make_ctx(&unit_graph);
    ctx.checksums.push(("serde".to_string(), "1.0.0".to_string(), "abc123".to_string()));
    let units = vec![(0, &unit_graph.units[0])];

    let meta_pkg = make_meta_pkg(
        pkg_id,
        Some("registry+https://github.com/rust-lang/crates.io-index"),
        "/path/to/Cargo.toml",
    );

    let result = build_nix_crate(
        &ctx,
        pkg_id,
        &units,
        Some(&meta_pkg),
        false,
    )
    .unwrap();

    assert!(result.is_some());
    let crate_info = result.unwrap();
    assert_eq!(crate_info.crate_name, "serde");
    assert_eq!(crate_info.version, "1.0.0");
    assert_eq!(crate_info.features, vec!["default", "std"]);
    assert_eq!(crate_info.sha256, Some("abc123".to_string()));
    assert!(!crate_info.proc_macro);
}

#[test]
fn build_nix_crate_bin_only() {
    let pkg_id = "path+file:///home/user/proj#mybin@0.1.0";
    let mut unit = make_unit(pkg_id, vec![CrateKind::Bin], UnitMode::Build, vec![], vec![]);
    unit.target.src_path = "/home/user/proj/src/main.rs".to_string();
    unit.target.name = "mybin".to_string();

    let unit_graph = UnitGraph {
        units: vec![unit],
        roots: vec![0],
    };
    let ctx = make_ctx(&unit_graph);
    let units = vec![(0, &unit_graph.units[0])];

    let meta_pkg = make_meta_pkg(pkg_id, None, "/home/user/proj/Cargo.toml");

    let result = build_nix_crate(
        &ctx,
        pkg_id,
        &units,
        Some(&meta_pkg),
        true, // include_bins = true
    )
    .unwrap();

    assert!(result.is_some());
    let crate_info = result.unwrap();
    assert_eq!(crate_info.crate_name, "mybin");
    assert_eq!(crate_info.crate_bin.len(), 1);
    assert_eq!(crate_info.crate_bin[0].name, "mybin");
}

#[test]
fn build_nix_crate_skips_no_buildable_target() {
    let pkg_id = "pkg#0.1.0";
    let unit_graph = UnitGraph {
        units: vec![make_unit(
            pkg_id,
            vec![CrateKind::CustomBuild],
            UnitMode::RunCustomBuild,
            vec![],
            vec![],
        )],
        roots: vec![0],
    };
    let ctx = make_ctx(&unit_graph);
    let units = vec![(0, &unit_graph.units[0])];

    let result = build_nix_crate(
        &ctx,
        pkg_id,
        &units,
        None,
        false,
    )
    .unwrap();

    assert!(result.is_none());
}

#[test]
fn build_nix_crate_proc_macro_sets_proc_macro_flag() {
    let pkg_id = "proc_macro_dep#0.1.0";
    let unit_graph = UnitGraph {
        units: vec![make_unit(
            pkg_id,
            vec![CrateKind::ProcMacro],
            UnitMode::Build,
            vec![],
            vec![],
        )],
        roots: vec![0],
    };
    let ctx = make_ctx(&unit_graph);
    let units = vec![(0, &unit_graph.units[0])];

    let result = build_nix_crate(&ctx, pkg_id, &units, None, false).unwrap();
    let crate_info = result.expect("proc macro should build");
    assert!(crate_info.proc_macro);
    assert_eq!(crate_info.crate_name, "proc_macro_dep");
}

// ---------------------------------------------------------------------------
// classify_dev_dependencies tests
// ---------------------------------------------------------------------------

#[test]
fn classify_dev_dependencies_from_single_graph() {
    // The test graph has Build-mode and Test-mode units for the workspace
    // member. Dev deps are those on Test-mode units but not Build-mode.
    let test_graph = UnitGraph {
        units: vec![
            // 0: ws_member Build-mode (normal deps)
            make_unit("ws_member#0.1.0", vec![CrateKind::Lib], UnitMode::Build, vec![], vec![(1, "dep_a")]),
            // 1: dep_a (normal dep)
            make_unit("dep_a#0.2.0", vec![CrateKind::Lib], UnitMode::Build, vec![], vec![]),
            // 2: ws_member Test-mode (normal + dev deps)
            make_unit(
                "ws_member#0.1.0",
                vec![CrateKind::Lib],
                UnitMode::Test,
                vec![],
                vec![(1, "dep_a"), (3, "dev_dep")],
            ),
            // 3: dev_dep (dev-only)
            make_unit("dev_dep#0.3.0", vec![CrateKind::Lib], UnitMode::Build, vec![], vec![]),
        ],
        roots: vec![0],
    };

    let metadata = CargoMetadata {
        packages: vec![],
        workspace_root: "/workspace".to_string(),
        workspace_members: vec!["ws_member#0.1.0".to_string()],
    };

    // Pre-populate crates as merge() would (built from test graph)
    let mut crates = StrMap::new();
    let mut ws_member = make_nix_crate("ws_member", "0.1.0");
    ws_member.dependencies = vec![NixDep {
        package_id: "dep_a#0.2.0".to_string(),
        extern_crate_name: "dep_a".to_string(),
    }];
    crates.insert("ws_member#0.1.0".to_string(), ws_member);
    crates.insert("dep_a#0.2.0".to_string(), make_nix_crate("dep_a", "0.2.0"));
    crates.insert("dev_dep#0.3.0".to_string(), make_nix_crate("dev_dep", "0.3.0"));

    classify_dev_dependencies(&test_graph, &metadata, &mut crates).unwrap();

    let ws_crate = &crates.get("ws_member#0.1.0").unwrap();
    assert_eq!(ws_crate.dev_dependencies.len(), 1);
    assert_eq!(ws_crate.dev_dependencies[0].package_id, "dev_dep#0.3.0");
    assert_eq!(ws_crate.dev_dependencies[0].extern_crate_name, "dev_dep");
}

#[test]
fn classify_dev_dependencies_skips_run_custom_build_in_test_units() {
    let test_graph = UnitGraph {
        units: vec![
            make_unit("ws_member#0.1.0", vec![CrateKind::Lib], UnitMode::Build, vec![], vec![]),
            make_unit(
                "build_helper#0.1.0",
                vec![CrateKind::CustomBuild],
                UnitMode::RunCustomBuild,
                vec![],
                vec![],
            ),
            make_unit(
                "ws_member#0.1.0",
                vec![CrateKind::Lib],
                UnitMode::Test,
                vec![],
                vec![(1, "build_helper")],
            ),
        ],
        roots: vec![0],
    };

    let metadata = CargoMetadata {
        packages: vec![],
        workspace_root: "/workspace".to_string(),
        workspace_members: vec!["ws_member#0.1.0".to_string()],
    };

    let mut crates = StrMap::new();
    crates.insert("ws_member#0.1.0".to_string(), make_nix_crate("ws_member", "0.1.0"));
    crates.insert("build_helper#0.1.0".to_string(), make_nix_crate("build_helper", "0.1.0"));

    classify_dev_dependencies(&test_graph, &metadata, &mut crates).unwrap();
    assert!(crates.get("ws_member#0.1.0").unwrap().dev_dependencies.is_empty());
}

#[test]
fn classify_dev_dependencies_deduplicates_same_dev_dep_within_member() {
    let test_graph = UnitGraph {
        units: vec![
            make_unit("ws_member#0.1.0", vec![CrateKind::Lib], UnitMode::Build, vec![], vec![]),
            make_unit("dev_dep#0.3.0", vec![CrateKind::Lib], UnitMode::Build, vec![], vec![]),
            make_unit(
                "ws_member#0.1.0",
                vec![CrateKind::Lib],
                UnitMode::Test,
                vec![],
                vec![(1, "dev_dep")],
            ),
            make_unit(
                "ws_member#0.1.0",
                vec![CrateKind::Bin],
                UnitMode::Test,
                vec![],
                vec![(1, "dev_dep")],
            ),
        ],
        roots: vec![0],
    };

    let metadata = CargoMetadata {
        packages: vec![],
        workspace_root: "/workspace".to_string(),
        workspace_members: vec!["ws_member#0.1.0".to_string()],
    };

    let mut crates = StrMap::new();
    crates.insert("ws_member#0.1.0".to_string(), make_nix_crate("ws_member", "0.1.0"));
    crates.insert("dev_dep#0.3.0".to_string(), make_nix_crate("dev_dep", "0.3.0"));

    classify_dev_dependencies(&test_graph, &metadata, &mut crates).unwrap();
    let deps = &crates.get("ws_member#0.1.0").unwrap().dev_dependencies;
    assert_eq!(deps.len(), 1);
    assert_eq!(deps[0].package_id, "dev_dep#0.3.0");
}

#[test]
fn classify_dev_dependencies_resets_dedup_per_workspace_member() {
    let test_graph = UnitGraph {
        units: vec![
            make_unit("member_a#0.1.0", vec![CrateKind::Lib], UnitMode::Build, vec![], vec![]),
            make_unit("member_b#0.2.0", vec![CrateKind::Lib], UnitMode::Build, vec![], vec![]),
            make_unit("shared_dev#0.3.0", vec![CrateKind::Lib], UnitMode::Build, vec![], vec![]),
            make_unit(
                "member_a#0.1.0",
                vec![CrateKind::Lib],
                UnitMode::Test,
                vec![],
                vec![(2, "shared_dev")],
            ),
            make_unit(
                "member_b#0.2.0",
                vec![CrateKind::Lib],
                UnitMode::Test,
                vec![],
                vec![(2, "shared_dev")],
            ),
        ],
        roots: vec![0, 1],
    };

    let metadata = CargoMetadata {
        packages: vec![],
        workspace_root: "/workspace".to_string(),
        workspace_members: vec!["member_a#0.1.0".to_string(), "member_b#0.2.0".to_string()],
    };

    let mut crates = StrMap::new();
    crates.insert("member_a#0.1.0".to_string(), make_nix_crate("member_a", "0.1.0"));
    crates.insert("member_b#0.2.0".to_string(), make_nix_crate("member_b", "0.2.0"));
    crates.insert("shared_dev#0.3.0".to_string(), make_nix_crate("shared_dev", "0.3.0"));

    classify_dev_dependencies(&test_graph, &metadata, &mut crates).unwrap();
    assert_eq!(crates.get("member_a#0.1.0").unwrap().dev_dependencies.len(), 1);
    assert_eq!(crates.get("member_b#0.2.0").unwrap().dev_dependencies.len(), 1);
    assert_eq!(crates.get("member_a#0.1.0").unwrap().dev_dependencies[0].package_id, "shared_dev#0.3.0");
    assert_eq!(crates.get("member_b#0.2.0").unwrap().dev_dependencies[0].package_id, "shared_dev#0.3.0");
}

#[test]
fn classify_dev_dependencies_treats_test_only_member_deps_as_dev_deps() {
    let test_graph = UnitGraph {
        units: vec![
            make_unit("test_only_member#0.1.0", vec![CrateKind::Lib], UnitMode::Test, vec![], vec![(1, "dev_dep")]),
            make_unit("dev_dep#0.3.0", vec![CrateKind::Lib], UnitMode::Build, vec![], vec![]),
        ],
        roots: vec![0],
    };

    let metadata = CargoMetadata {
        packages: vec![],
        workspace_root: "/workspace".to_string(),
        workspace_members: vec!["test_only_member#0.1.0".to_string()],
    };

    let mut crates = StrMap::new();
    crates.insert("test_only_member#0.1.0".to_string(), make_nix_crate("test_only_member", "0.1.0"));
    crates.insert("dev_dep#0.3.0".to_string(), make_nix_crate("dev_dep", "0.3.0"));

    classify_dev_dependencies(&test_graph, &metadata, &mut crates).unwrap();
    let deps = &crates.get("test_only_member#0.1.0").unwrap().dev_dependencies;
    assert_eq!(deps.len(), 1);
    assert_eq!(deps[0].package_id, "dev_dep#0.3.0");
}

// ---------------------------------------------------------------------------
// merge with test graph (end-to-end)
// ---------------------------------------------------------------------------

/// Dev-only crates appear in the build plan when a test graph is provided.
#[test]
fn merge_with_test_graph_includes_dev_only_crates() {
    let build_graph = UnitGraph {
        units: vec![make_unit("ws#0.1.0", vec![CrateKind::Lib], UnitMode::Build, vec![], vec![])],
        roots: vec![0],
    };
    let test_graph = UnitGraph {
        units: vec![
            make_unit("ws#0.1.0", vec![CrateKind::Lib], UnitMode::Build, vec![], vec![]),
            make_unit(
                "ws#0.1.0",
                vec![CrateKind::Lib],
                UnitMode::Test,
                vec![],
                vec![(2, "test_only")],
            ),
            make_unit("test_only#0.1.0", vec![CrateKind::Lib], UnitMode::Build, vec![], vec![]),
        ],
        roots: vec![0],
    };

    let metadata = CargoMetadata {
        packages: vec![make_meta_pkg("ws#0.1.0", None, "/workspace/Cargo.toml")],
        workspace_root: "/workspace".to_string(),
        workspace_members: vec!["ws#0.1.0".to_string()],
    };
    let lock = CargoLock { package: None };

    let plan = merge(&build_graph, &metadata, &lock, None, "h".to_string(), Some(&test_graph), None).unwrap();

    assert!(plan.crates.contains_key("test_only#0.1.0"));
    assert_eq!(plan.crates.get("test_only#0.1.0").unwrap().crate_name, "test_only");
}

/// Regression test: crates in both build and test graphs get the test
/// graph's feature set (the superset) because merge() builds from the
/// test graph as primary source.
///
/// Real-world scenario: `zerocopy` has `["simd"]` in the build graph but
/// `["derive", "simd", "zerocopy-derive"]` in the test graph because
/// `half` (a dev-dep via criterion) requests the `derive` feature.
#[test]
fn merge_with_test_graph_uses_superset_features() {
    let zc_id = "registry+https://github.com/rust-lang/crates.io-index#zerocopy@0.8.40";
    let zc_derive_id = "registry+https://github.com/rust-lang/crates.io-index#zerocopy-derive@0.8.40";

    let build_graph = UnitGraph {
        units: vec![
            make_unit("ws#0.1.0", vec![CrateKind::Lib], UnitMode::Build, vec![], vec![(1, "zerocopy")]),
            make_unit(zc_id, vec![CrateKind::Lib], UnitMode::Build, vec!["simd"], vec![]),
        ],
        roots: vec![0],
    };

    let test_graph = UnitGraph {
        units: vec![
            make_unit("ws#0.1.0", vec![CrateKind::Lib], UnitMode::Build, vec![], vec![(1, "zerocopy")]),
            make_unit(
                zc_id,
                vec![CrateKind::Lib],
                UnitMode::Build,
                vec!["derive", "simd", "zerocopy-derive"],
                vec![(2, "zerocopy_derive")],
            ),
            make_unit(zc_derive_id, vec![CrateKind::ProcMacro], UnitMode::Build, vec![], vec![]),
            make_unit(
                "ws#0.1.0",
                vec![CrateKind::Lib],
                UnitMode::Test,
                vec![],
                vec![(1, "zerocopy"), (4, "half")],
            ),
            make_unit("half#2.0.0", vec![CrateKind::Lib], UnitMode::Build, vec![], vec![(1, "zerocopy")]),
        ],
        roots: vec![0],
    };

    let metadata = CargoMetadata {
        packages: vec![make_meta_pkg("ws#0.1.0", None, "/workspace/Cargo.toml")],
        workspace_root: "/workspace".to_string(),
        workspace_members: vec!["ws#0.1.0".to_string()],
    };
    let lock = CargoLock { package: None };

    let plan = merge(&build_graph, &metadata, &lock, None, "h".to_string(), Some(&test_graph), None).unwrap();

    // zerocopy gets the test graph's superset features
    let zc = &plan.crates.get(zc_id).unwrap();
    assert_eq!(zc.features, vec!["derive", "simd", "zerocopy-derive"]);

    // zerocopy-derive is a dependency of zerocopy (from the derive feature)
    let zc_dep_ids: Vec<&str> = zc.dependencies.iter().map(|d| d.package_id.as_str()).collect();
    assert!(zc_dep_ids.contains(&zc_derive_id));

    // zerocopy-derive and half both in the plan
    assert!(plan.crates.contains_key(zc_derive_id));
    assert!(plan.crates.contains_key("half#2.0.0"));

    // half is classified as a dev-dep of the workspace member
    let ws = &plan.crates.get("ws#0.1.0").unwrap();
    let dev_dep_ids: Vec<&str> = ws.dev_dependencies.iter().map(|d| d.package_id.as_str()).collect();
    assert!(dev_dep_ids.contains(&"half#2.0.0"));
}

// ---------------------------------------------------------------------------
// merge tests (end-to-end)
// ---------------------------------------------------------------------------

#[test]
fn merge_simple_workspace() {
    let unit_graph = UnitGraph {
        units: vec![
            make_unit("ws_pkg#0.1.0", vec![CrateKind::Lib], UnitMode::Build, vec!["default"], vec![(1, "dep")]),
            make_unit("dep#0.2.0", vec![CrateKind::Lib], UnitMode::Build, vec![], vec![]),
        ],
        roots: vec![0],
    };

    let metadata = CargoMetadata {
        packages: vec![
            make_meta_pkg("ws_pkg#0.1.0", None, "/workspace/Cargo.toml"),
            make_meta_pkg(
                "dep#0.2.0",
                Some("registry+https://github.com/rust-lang/crates.io-index"),
                "/registry/dep/Cargo.toml",
            ),
        ],
        workspace_root: "/workspace".to_string(),
        workspace_members: vec!["ws_pkg#0.1.0".to_string()],
    };

    let lock = CargoLock {
        package: Some(vec![make_lock_pkg("dep", "0.2.0", Some("def456"))]),
    };

    let plan = merge(&unit_graph, &metadata, &lock, None, "hash123".to_string(), None, None).unwrap();

    assert_eq!(plan.version, BUILD_PLAN_VERSION);
    assert_eq!(plan.workspace_root, "/workspace");
    assert_eq!(plan.roots.len(), 1);
    assert_eq!(plan.roots[0], "ws_pkg#0.1.0");
    assert_eq!(plan.cargo_lock_hash, "hash123");

    assert_eq!(plan.crates.len(), 2);
    assert!(plan.crates.contains_key("ws_pkg#0.1.0"));
    assert!(plan.crates.contains_key("dep#0.2.0"));

    let ws_crate = &plan.crates.get("ws_pkg#0.1.0").unwrap();
    assert_eq!(ws_crate.crate_name, "ws_pkg");
    assert_eq!(ws_crate.features, vec!["default"]);
    assert_eq!(ws_crate.dependencies.len(), 1);
    assert_eq!(ws_crate.dependencies[0].package_id, "dep#0.2.0");

    let dep_crate = &plan.crates.get("dep#0.2.0").unwrap();
    assert_eq!(dep_crate.crate_name, "dep");
    assert_eq!(dep_crate.sha256, Some("def456".to_string()));
}

#[test]
fn merge_includes_workspace_members_mapping() {
    let unit_graph = UnitGraph {
        units: vec![
            make_unit("member_a#0.1.0", vec![CrateKind::Lib], UnitMode::Build, vec![], vec![]),
            make_unit("member_b#0.2.0", vec![CrateKind::Lib], UnitMode::Build, vec![], vec![]),
        ],
        roots: vec![0, 1],
    };

    let metadata = CargoMetadata {
        packages: vec![
            make_meta_pkg("member_a#0.1.0", None, "/workspace/a/Cargo.toml"),
            make_meta_pkg("member_b#0.2.0", None, "/workspace/b/Cargo.toml"),
        ],
        workspace_root: "/workspace".to_string(),
        workspace_members: vec!["member_a#0.1.0".to_string(), "member_b#0.2.0".to_string()],
    };

    let lock = CargoLock { package: None };

    let plan = merge(&unit_graph, &metadata, &lock, None, "hash".to_string(), None, None).unwrap();

    assert_eq!(plan.workspace_members.len(), 2);
    assert_eq!(plan.workspace_members.get("member_a"), Some(&"member_a#0.1.0".to_string()));
    assert_eq!(plan.workspace_members.get("member_b"), Some(&"member_b#0.2.0".to_string()));
}

// ---------------------------------------------------------------------------
// Workspace filtering tests
// ---------------------------------------------------------------------------

#[test]
fn merge_members_filter_selects_subset() {
    let unit_graph = UnitGraph {
        units: vec![
            make_unit("member_a#0.1.0", vec![CrateKind::Lib], UnitMode::Build, vec![], vec![(1, "dep")]),
            make_unit("dep#0.3.0", vec![CrateKind::Lib], UnitMode::Build, vec![], vec![]),
            make_unit("member_b#0.2.0", vec![CrateKind::Lib], UnitMode::Build, vec![], vec![]),
        ],
        roots: vec![0, 2],
    };

    let metadata = CargoMetadata {
        packages: vec![
            make_meta_pkg("member_a#0.1.0", None, "/workspace/a/Cargo.toml"),
            make_meta_pkg("dep#0.3.0", Some("registry+https://github.com/rust-lang/crates.io-index"), "/reg/dep/Cargo.toml"),
            make_meta_pkg("member_b#0.2.0", None, "/workspace/b/Cargo.toml"),
        ],
        workspace_root: "/workspace".to_string(),
        workspace_members: vec!["member_a#0.1.0".to_string(), "member_b#0.2.0".to_string()],
    };

    let lock = CargoLock { package: None };
    let filter = vec!["member_a".to_string()];

    let plan = merge(&unit_graph, &metadata, &lock, None, "h".to_string(), None, Some(&filter)).unwrap();

    // Only member_a in workspace_members and roots
    assert_eq!(plan.workspace_members.len(), 1);
    assert!(plan.workspace_members.contains_key("member_a"));
    assert!(!plan.workspace_members.contains_key("member_b"));
    assert_eq!(plan.roots.len(), 1);
    assert_eq!(plan.roots[0], "member_a#0.1.0");

    // All crates still present (needed as transitive deps)
    assert_eq!(plan.crates.len(), 3);
}

#[test]
fn merge_target_propagates_to_plan() {
    let unit_graph = UnitGraph {
        units: vec![
            make_unit("ws_pkg#0.1.0", vec![CrateKind::Lib], UnitMode::Build, vec![], vec![]),
        ],
        roots: vec![0],
    };

    let metadata = CargoMetadata {
        packages: vec![
            make_meta_pkg("ws_pkg#0.1.0", None, "/workspace/Cargo.toml"),
        ],
        workspace_root: "/workspace".to_string(),
        workspace_members: vec!["ws_pkg#0.1.0".to_string()],
    };

    let lock = CargoLock { package: None };

    // With target set
    let plan = merge(
        &unit_graph, &metadata, &lock,
        Some("aarch64-unknown-linux-gnu"),
        "hash".to_string(), None, None,
    ).unwrap();
    assert_eq!(plan.target, Some("aarch64-unknown-linux-gnu".to_string()));

    // Without target
    let plan_no_target = merge(
        &unit_graph, &metadata, &lock,
        None,
        "hash".to_string(), None, None,
    ).unwrap();
    assert_eq!(plan_no_target.target, None);
}

#[test]
fn merge_cross_target_records_host_feature_override() {
    let pkg_id = "dep#0.2.0";
    let unit_graph = UnitGraph {
        units: vec![
            make_unit("ws_pkg#0.1.0", vec![CrateKind::Lib], UnitMode::Build, vec![], vec![(1, "dep")]),
            make_unit_with_platform(
                pkg_id,
                vec![CrateKind::Lib],
                UnitMode::Build,
                vec!["default", "std"],
                vec![],
                None,
            ),
            make_unit_with_platform(
                pkg_id,
                vec![CrateKind::Lib],
                UnitMode::Build,
                vec!["alloc"],
                vec![],
                Some("aarch64-unknown-none"),
            ),
        ],
        roots: vec![0],
    };

    let metadata = CargoMetadata {
        packages: vec![
            make_meta_pkg("ws_pkg#0.1.0", None, "/workspace/Cargo.toml"),
            make_meta_pkg(pkg_id, Some("registry+https://github.com/rust-lang/crates.io-index"), "/registry/dep/Cargo.toml"),
        ],
        workspace_root: "/workspace".to_string(),
        workspace_members: vec!["ws_pkg#0.1.0".to_string()],
    };

    let plan = merge(
        &unit_graph,
        &metadata,
        &CargoLock { package: None },
        Some("aarch64-unknown-none"),
        "hash".to_string(),
        None,
        None,
    ).unwrap();

    let dep = &plan.crates.get(pkg_id).unwrap();
    assert_eq!(dep.features, vec!["alloc"]);
    assert_eq!(dep.host_features, Some(vec!["default".to_string(), "std".to_string()]));
}

#[test]
fn merge_plan_is_reference_closed_after_members_filter() {
    let unit_graph = UnitGraph {
        units: vec![
            make_unit("member_a#0.1.0", vec![CrateKind::Lib], UnitMode::Build, vec![], vec![(1, "dep")]),
            make_unit("dep#0.3.0", vec![CrateKind::Lib], UnitMode::Build, vec![], vec![(2, "leaf")]),
            make_unit("leaf#0.4.0", vec![CrateKind::Lib], UnitMode::Build, vec![], vec![]),
            make_unit("member_b#0.2.0", vec![CrateKind::Lib], UnitMode::Build, vec![], vec![]),
        ],
        roots: vec![0, 3],
    };

    let metadata = CargoMetadata {
        packages: vec![
            make_meta_pkg("member_a#0.1.0", None, "/workspace/a/Cargo.toml"),
            make_meta_pkg("dep#0.3.0", Some("registry+https://github.com/rust-lang/crates.io-index"), "/reg/dep/Cargo.toml"),
            make_meta_pkg("leaf#0.4.0", Some("registry+https://github.com/rust-lang/crates.io-index"), "/reg/leaf/Cargo.toml"),
            make_meta_pkg("member_b#0.2.0", None, "/workspace/b/Cargo.toml"),
        ],
        workspace_root: "/workspace".to_string(),
        workspace_members: vec!["member_a#0.1.0".to_string(), "member_b#0.2.0".to_string()],
    };

    let filter = vec!["member_a".to_string()];
    let plan = merge(
        &unit_graph,
        &metadata,
        &CargoLock { package: None },
        None,
        "hash".to_string(),
        None,
        Some(&filter),
    ).unwrap();

    validate_references(&plan.crates).unwrap();
    let root_ids: BTreeSet<String> = plan.roots.iter().cloned().collect();
    let member_ids: BTreeSet<String> = (0..plan.workspace_members.len())
        .map(|i| plan.workspace_members.value_at(i).clone())
        .collect();
    assert!(root_ids.is_subset(&member_ids), "roots should be selected workspace members");
    assert!(root_ids.iter().all(|id| plan.crates.contains_key(id)), "roots must exist in crate map");
    assert!(plan.crates.contains_key("dep#0.3.0"), "transitive dep should stay in crate map");
    assert!(plan.crates.contains_key("leaf#0.4.0"), "transitive dep closure should stay intact");
}

#[test]
fn merge_test_graph_only_assigns_dev_dependencies_to_workspace_members() {
    let build_graph = UnitGraph {
        units: vec![make_unit("ws#0.1.0", vec![CrateKind::Lib], UnitMode::Build, vec![], vec![(1, "dep_a")])],
        roots: vec![0],
    };
    let test_graph = UnitGraph {
        units: vec![
            make_unit("ws#0.1.0", vec![CrateKind::Lib], UnitMode::Build, vec![], vec![(1, "dep_a")]),
            make_unit("dep_a#0.2.0", vec![CrateKind::Lib], UnitMode::Build, vec![], vec![]),
            make_unit(
                "ws#0.1.0",
                vec![CrateKind::Lib],
                UnitMode::Test,
                vec![],
                vec![(1, "dep_a"), (3, "dev_only")],
            ),
            make_unit("dev_only#0.3.0", vec![CrateKind::Lib], UnitMode::Build, vec![], vec![]),
        ],
        roots: vec![0],
    };

    let metadata = CargoMetadata {
        packages: vec![make_meta_pkg("ws#0.1.0", None, "/workspace/Cargo.toml")],
        workspace_root: "/workspace".to_string(),
        workspace_members: vec!["ws#0.1.0".to_string()],
    };

    let plan = merge(
        &build_graph,
        &metadata,
        &CargoLock { package: None },
        None,
        "hash".to_string(),
        Some(&test_graph),
        None,
    ).unwrap();

    assert_eq!(plan.crates.get("ws#0.1.0").unwrap().dev_dependencies.len(), 1);
    assert!(plan.crates.get("dep_a#0.2.0").unwrap().dev_dependencies.is_empty());
    assert!(plan.crates.get("dev_only#0.3.0").unwrap().dev_dependencies.is_empty());
    validate_references(&plan.crates).unwrap();
}

#[test]
fn merge_recovers_from_malformed_metadata_source_via_pkg_id_inference() {
    let dep_id = "registry+https://github.com/rust-lang/crates.io-index#dep@0.2.0";
    let unit_graph = UnitGraph {
        units: vec![
            make_unit("ws#0.1.0", vec![CrateKind::Lib], UnitMode::Build, vec![], vec![(1, "dep")]),
            make_unit(dep_id, vec![CrateKind::Lib], UnitMode::Build, vec![], vec![]),
        ],
        roots: vec![0],
    };

    let metadata = CargoMetadata {
        packages: vec![
            make_meta_pkg("ws#0.1.0", None, "/workspace/Cargo.toml"),
            make_meta_pkg(dep_id, Some("sparse+https://example.invalid/index"), "/registry/dep/Cargo.toml"),
        ],
        workspace_root: "/workspace".to_string(),
        workspace_members: vec!["ws#0.1.0".to_string()],
    };

    let plan = merge(
        &unit_graph,
        &metadata,
        &CargoLock { package: None },
        None,
        "hash".to_string(),
        None,
        None,
    ).unwrap();

    assert!(matches!(plan.crates.get(dep_id).unwrap().source, Some(NixSource::CratesIo)));
    validate_references(&plan.crates).unwrap();
}

#[test]
fn merge_build_script_dependencies_stay_separate_from_normal_dependencies() {
    let mut lib_unit = make_unit(
        "ws#0.1.0",
        vec![CrateKind::Lib],
        UnitMode::Build,
        vec![],
        vec![(2, "runtime_dep")],
    );
    lib_unit.target.src_path = "/workspace/src/lib.rs".to_string();

    let mut build_script_unit = make_unit(
        "ws#0.1.0",
        vec![CrateKind::CustomBuild],
        UnitMode::Build,
        vec![],
        vec![(3, "build_dep")],
    );
    build_script_unit.target.src_path = "/workspace/build-support/custom-build.rs".to_string();

    let unit_graph = UnitGraph {
        units: vec![
            lib_unit,
            build_script_unit,
            make_unit(
                "runtime_dep#0.2.0",
                vec![CrateKind::Lib],
                UnitMode::Build,
                vec![],
                vec![],
            ),
            make_unit(
                "build_dep#0.3.0",
                vec![CrateKind::Lib],
                UnitMode::Build,
                vec![],
                vec![],
            ),
        ],
        roots: vec![0],
    };

    let metadata = CargoMetadata {
        packages: vec![
            make_meta_pkg("ws#0.1.0", None, "/workspace/Cargo.toml"),
            make_meta_pkg("runtime_dep#0.2.0", Some("registry+https://github.com/rust-lang/crates.io-index"), "/reg/runtime/Cargo.toml"),
            make_meta_pkg("build_dep#0.3.0", Some("registry+https://github.com/rust-lang/crates.io-index"), "/reg/build/Cargo.toml"),
        ],
        workspace_root: "/workspace".to_string(),
        workspace_members: vec!["ws#0.1.0".to_string()],
    };

    let plan = merge(
        &unit_graph,
        &metadata,
        &CargoLock { package: None },
        None,
        "hash".to_string(),
        None,
        None,
    ).unwrap();

    let ws = &plan.crates.get("ws#0.1.0").unwrap();
    assert_eq!(ws.dependencies.len(), 1);
    assert_eq!(ws.dependencies[0].package_id, "runtime_dep#0.2.0");
    assert_eq!(ws.build_dependencies.len(), 1);
    assert_eq!(ws.build_dependencies[0].package_id, "build_dep#0.3.0");
    assert_eq!(ws.build, Some("build-support/custom-build.rs".to_string()));
    validate_references(&plan.crates).unwrap();
}

#[test]
fn merge_bin_only_workspace_member_keeps_bin_target_metadata() {
    let mut bin_unit = make_unit(
        "bin_only#0.1.0",
        vec![CrateKind::Bin],
        UnitMode::Build,
        vec!["cli"],
        vec![],
    );
    bin_unit.target.name = "bin-only".to_string();
    bin_unit.target.src_path = "/workspace/src/bin/main.rs".to_string();

    let unit_graph = UnitGraph {
        units: vec![bin_unit],
        roots: vec![0],
    };

    let metadata = CargoMetadata {
        packages: vec![make_meta_pkg("bin_only#0.1.0", None, "/workspace/Cargo.toml")],
        workspace_root: "/workspace".to_string(),
        workspace_members: vec!["bin_only#0.1.0".to_string()],
    };

    let plan = merge(
        &unit_graph,
        &metadata,
        &CargoLock { package: None },
        None,
        "hash".to_string(),
        None,
        None,
    ).unwrap();

    let bin = &plan.crates.get("bin_only#0.1.0").unwrap();
    assert_eq!(bin.features, vec!["cli"]);
    assert_eq!(bin.lib_path, None);
    assert_eq!(bin.lib_name, None);
    assert_eq!(bin.crate_bin.len(), 1);
    assert_eq!(bin.crate_bin[0].name, "bin-only");
    assert_eq!(bin.crate_bin[0].path, "src/bin/main.rs");
}

#[test]
fn merge_members_filter_with_test_graph_keeps_selected_member_dev_dependencies() {
    let build_graph = UnitGraph {
        units: vec![
            make_unit("member_a#0.1.0", vec![CrateKind::Lib], UnitMode::Build, vec![], vec![]),
            make_unit("member_b#0.2.0", vec![CrateKind::Lib], UnitMode::Build, vec![], vec![]),
        ],
        roots: vec![0, 1],
    };
    let test_graph = UnitGraph {
        units: vec![
            make_unit("member_a#0.1.0", vec![CrateKind::Lib], UnitMode::Build, vec![], vec![]),
            make_unit("member_b#0.2.0", vec![CrateKind::Lib], UnitMode::Build, vec![], vec![]),
            make_unit(
                "member_a#0.1.0",
                vec![CrateKind::Lib],
                UnitMode::Test,
                vec![],
                vec![(4, "dev_a")],
            ),
            make_unit(
                "member_b#0.2.0",
                vec![CrateKind::Lib],
                UnitMode::Test,
                vec![],
                vec![(5, "dev_b")],
            ),
            make_unit("dev_a#0.3.0", vec![CrateKind::Lib], UnitMode::Build, vec![], vec![]),
            make_unit("dev_b#0.4.0", vec![CrateKind::Lib], UnitMode::Build, vec![], vec![]),
        ],
        roots: vec![0, 1],
    };

    let metadata = CargoMetadata {
        packages: vec![
            make_meta_pkg("member_a#0.1.0", None, "/workspace/a/Cargo.toml"),
            make_meta_pkg("member_b#0.2.0", None, "/workspace/b/Cargo.toml"),
        ],
        workspace_root: "/workspace".to_string(),
        workspace_members: vec!["member_a#0.1.0".to_string(), "member_b#0.2.0".to_string()],
    };
    let filter = vec!["member_a".to_string()];

    let plan = merge(
        &build_graph,
        &metadata,
        &CargoLock { package: None },
        None,
        "hash".to_string(),
        Some(&test_graph),
        Some(&filter),
    ).unwrap();

    assert_eq!(plan.workspace_members.len(), 1);
    assert_eq!(plan.workspace_members.get("member_a"), Some(&"member_a#0.1.0".to_string()));
    assert_eq!(plan.roots, vec!["member_a#0.1.0".to_string()]);
    assert_eq!(plan.crates.get("member_a#0.1.0").unwrap().dev_dependencies.len(), 1);
    assert_eq!(plan.crates.get("member_a#0.1.0").unwrap().dev_dependencies[0].package_id, "dev_a#0.3.0");
    validate_references(&plan.crates).unwrap();
}

#[test]
fn merge_matrix_preserves_internal_crate_graph_across_filter_and_test_graph_variants() {
    let build_graph = UnitGraph {
        units: vec![
            make_unit("member_a#0.1.0", vec![CrateKind::Lib], UnitMode::Build, vec![], vec![(2, "shared")]),
            make_unit("member_b#0.2.0", vec![CrateKind::Lib], UnitMode::Build, vec![], vec![(2, "shared")]),
            make_unit("shared#0.3.0", vec![CrateKind::Lib], UnitMode::Build, vec![], vec![]),
        ],
        roots: vec![0, 1],
    };
    let test_graph = UnitGraph {
        units: vec![
            make_unit("member_a#0.1.0", vec![CrateKind::Lib], UnitMode::Build, vec![], vec![(2, "shared")]),
            make_unit("member_b#0.2.0", vec![CrateKind::Lib], UnitMode::Build, vec![], vec![(2, "shared")]),
            make_unit("shared#0.3.0", vec![CrateKind::Lib], UnitMode::Build, vec![], vec![]),
            make_unit("dev_a#0.4.0", vec![CrateKind::Lib], UnitMode::Build, vec![], vec![]),
            make_unit("dev_b#0.5.0", vec![CrateKind::Lib], UnitMode::Build, vec![], vec![]),
            make_unit(
                "member_a#0.1.0",
                vec![CrateKind::Lib],
                UnitMode::Test,
                vec![],
                vec![(2, "shared"), (3, "dev_a")],
            ),
            make_unit(
                "member_b#0.2.0",
                vec![CrateKind::Lib],
                UnitMode::Test,
                vec![],
                vec![(2, "shared"), (4, "dev_b")],
            ),
        ],
        roots: vec![0, 1],
    };
    let metadata = CargoMetadata {
        packages: vec![
            make_meta_pkg("member_a#0.1.0", None, "/workspace/a/Cargo.toml"),
            make_meta_pkg("member_b#0.2.0", None, "/workspace/b/Cargo.toml"),
            make_meta_pkg("shared#0.3.0", Some("registry+https://github.com/rust-lang/crates.io-index"), "/reg/shared/Cargo.toml"),
        ],
        workspace_root: "/workspace".to_string(),
        workspace_members: vec!["member_a#0.1.0".to_string(), "member_b#0.2.0".to_string()],
    };

    for use_test_graph in [false, true] {
        for filter in [None, Some(vec!["member_a".to_string()])] {
            let plan = merge(
                &build_graph,
                &metadata,
                &CargoLock { package: None },
                None,
                "hash".to_string(),
                use_test_graph.then_some(&test_graph),
                filter.as_deref(),
            ).unwrap();

            validate_references(&plan.crates).unwrap();
            assert!(plan.crates.contains_key("member_a#0.1.0"));
            assert!(plan.crates.contains_key("member_b#0.2.0"));
            assert!(plan.crates.contains_key("shared#0.3.0"));

            if let Some(filter) = &filter {
                assert_eq!(plan.workspace_members.len(), 1, "filter={filter:?} test_graph={use_test_graph}");
                assert_eq!(plan.workspace_members.get("member_a"), Some(&"member_a#0.1.0".to_string()));
                assert_eq!(plan.roots, vec!["member_a#0.1.0".to_string()]);
            } else {
                assert_eq!(plan.workspace_members.len(), 2, "test_graph={use_test_graph}");
                assert_eq!(plan.roots.len(), 2, "test_graph={use_test_graph}");
            }

            if use_test_graph {
                assert_eq!(plan.crates.get("member_a#0.1.0").unwrap().dev_dependencies.len(), 1);
                assert_eq!(plan.crates.get("member_b#0.2.0").unwrap().dev_dependencies.len(), 1);
            } else {
                assert!(plan.crates.get("member_a#0.1.0").unwrap().dev_dependencies.is_empty());
                assert!(plan.crates.get("member_b#0.2.0").unwrap().dev_dependencies.is_empty());
            }
        }
    }
}

#[test]
fn merge_members_filter_invalid_name_errors() {
    let unit_graph = UnitGraph {
        units: vec![
            make_unit("member_a#0.1.0", vec![CrateKind::Lib], UnitMode::Build, vec![], vec![]),
        ],
        roots: vec![0],
    };

    let metadata = CargoMetadata {
        packages: vec![
            make_meta_pkg("member_a#0.1.0", None, "/workspace/a/Cargo.toml"),
        ],
        workspace_root: "/workspace".to_string(),
        workspace_members: vec!["member_a#0.1.0".to_string()],
    };

    let lock = CargoLock { package: None };
    let filter = vec!["nonexistent".to_string()];

    let result = merge(&unit_graph, &metadata, &lock, None, "h".to_string(), None, Some(&filter));

    assert!(result.is_err());
    let msg = result.unwrap_err().message();
    assert!(msg.contains("unknown workspace member 'nonexistent'"), "got: {msg}");
    assert!(msg.contains("member_a"), "should list valid members, got: {msg}");
}

// ---------------------------------------------------------------------------
// Further cases
// ---------------------------------------------------------------------------

#[test]
fn parse_pkg_id_without_crate_name_errors() {
    let err = parse_pkg_id("path+file:///#0.1.0").unwrap_err();
    assert_eq!(err.message(), "malformed package ID (no crate name): path+file:///#0.1.0");
    let err = parse_pkg_id("garbage-with-no-hash").unwrap_err();
    assert_eq!(err.message(), "malformed package ID (no '#' separator): garbage-with-no-hash");
}

#[test]
fn parse_pkg_id_path_with_query_strips_it() {
    let (name, version) = parse_pkg_id("git+https://host/org/repo?rev=abc#0.1.0").unwrap();
    assert_eq!(name, "repo");
    assert_eq!(version, "0.1.0");
}

#[test]
fn dangling_references_are_reported_with_their_crates() {
    let mut crates = StrMap::new();
    let mut pkg_a = make_nix_crate("pkg_a", "0.1.0");
    pkg_a.dependencies = vec![NixDep {
        package_id: "missing#0.9.0".to_string(),
        extern_crate_name: "missing".to_string(),
    }];
    pkg_a.dev_dependencies = vec![NixDep {
        package_id: "gone#1.0.0".to_string(),
        extern_crate_name: "gone".to_string(),
    }];
    crates.insert("pkg_a#0.1.0".to_string(), pkg_a);

    let err = validate_references(&crates).unwrap_err();
    assert_eq!(
        err.message(),
        "2 dependencies reference crates not in the build plan (likely a missing crate kind \u{2014} see unit2nix bug tracker)"
    );
    match err {
        unit2nix::error::Error::DanglingReferences(refs) => {
            assert_eq!(
                refs,
                vec![
                    ("pkg_a".to_string(), "pkg_a#0.1.0".to_string(), "missing#0.9.0".to_string()),
                    ("pkg_a".to_string(), "pkg_a#0.1.0".to_string(), "gone#1.0.0".to_string()),
                ]
            );
        },
        other => panic!("expected dangling references, got {other:?}"),
    }
}

#[test]
fn merge_invalid_member_lists_valid_names_in_order() {
    let unit_graph = UnitGraph {
        units: vec![
            make_unit("member_b#0.2.0", vec![CrateKind::Lib], UnitMode::Build, vec![], vec![]),
            make_unit("member_a#0.1.0", vec![CrateKind::Lib], UnitMode::Build, vec![], vec![]),
        ],
        roots: vec![0, 1],
    };
    let metadata = CargoMetadata {
        packages: vec![
            make_meta_pkg("member_a#0.1.0", None, "/workspace/a/Cargo.toml"),
            make_meta_pkg("member_b#0.2.0", None, "/workspace/b/Cargo.toml"),
        ],
        workspace_root: "/workspace".to_string(),
        workspace_members: vec!["member_b#0.2.0".to_string(), "member_a#0.1.0".to_string()],
    };
    let filter = vec!["member_a".to_string(), "nope".to_string()];
    let err = merge(&unit_graph, &metadata, &CargoLock { package: None }, None, "h".to_string(), None, Some(&filter))
        .unwrap_err();
    assert_eq!(err.message(), "unknown workspace member 'nope'. Valid members: member_a, member_b");
}

#[test]
fn merge_malformed_package_id_errors() {
    let unit_graph = UnitGraph {
        units: vec![make_unit("no-hash-here", vec![CrateKind::Lib], UnitMode::Build, vec![], vec![])],
        roots: vec![0],
    };
    let metadata = CargoMetadata {
        packages: vec![],
        workspace_root: "/workspace".to_string(),
        workspace_members: vec![],
    };
    let err = merge(&unit_graph, &metadata, &CargoLock { package: None }, None, "h".to_string(), None, None)
        .unwrap_err();
    assert_eq!(err.message(), "malformed package ID (no '#' separator): no-hash-here");
}

#[test]
fn merge_without_test_graph_gives_no_dev_dependencies() {
    let unit_graph = UnitGraph {
        units: vec![
            make_unit("ws#0.1.0", vec![CrateKind::Lib], UnitMode::Build, vec![], vec![]),
            make_unit("ws#0.1.0", vec![CrateKind::Lib], UnitMode::Test, vec![], vec![(2, "dev")]),
            make_unit("dev#0.1.0", vec![CrateKind::Lib], UnitMode::Build, vec![], vec![]),
        ],
        roots: vec![0],
    };
    let metadata = CargoMetadata {
        packages: vec![make_meta_pkg("ws#0.1.0", None, "/workspace/Cargo.toml")],
        workspace_root: "/workspace".to_string(),
        workspace_members: vec!["ws#0.1.0".to_string()],
    };
    let plan = merge(&unit_graph, &metadata, &CargoLock { package: None }, None, "h".to_string(), None, None).unwrap();
    assert!(plan.crates.get("ws#0.1.0").unwrap().dev_dependencies.is_empty());
}

#[test]
fn build_nix_crate_description_is_sanitized_and_lib_name_kept_when_it_differs() {
    let pkg_id = "registry+https://github.com/rust-lang/crates.io-index#my-crate@1.0.0";
    let mut unit = make_unit(pkg_id, vec![CrateKind::Lib], UnitMode::Build, vec![], vec![]);
    unit.target.name = "other_name".to_string();
    unit.target.src_path = "/reg/my-crate/src/lib.rs".to_string();
    let unit_graph = UnitGraph { units: vec![unit], roots: vec![0] };
    let ctx = make_ctx(&unit_graph);
    let units = vec![(0, &unit_graph.units[0])];
    let mut meta = make_meta_pkg(pkg_id, Some("registry+https://github.com/rust-lang/crates.io-index"), "/reg/my-crate/Cargo.toml");
    meta.description = Some("two\nlines \"quoted\"".to_string());
    let c = build_nix_crate(&ctx, pkg_id, &units, Some(&meta), false).unwrap().unwrap();
    assert_eq!(c.description, Some("two lines 'quoted'".to_string()));
    assert_eq!(c.lib_name, Some("other_name".to_string()));
    assert_eq!(c.lib_path, None);
    assert_eq!(c.authors, vec!["Test Author <test@example.com>".to_string()]);
    assert_eq!(c.license, Some("MIT".to_string()));
}

#[test]
fn merge_ignores_stray_edges_on_units_it_does_not_read() {
    // The doctest unit's edge points outside the graph; the merge never reads
    // a doctest unit's edges, so the graph is still mergeable.
    let unit_graph = UnitGraph {
        units: vec![
            make_unit("ws_pkg#0.1.0", vec![CrateKind::Lib], UnitMode::Build, vec![], vec![(1, "dep")]),
            make_unit("dep#0.2.0", vec![CrateKind::Lib], UnitMode::Build, vec![], vec![]),
            make_unit("ws_pkg#0.1.0", vec![CrateKind::Lib], UnitMode::Doctest, vec![], vec![(99, "ghost")]),
        ],
        roots: vec![0],
    };
    let metadata = CargoMetadata {
        packages: vec![],
        workspace_root: "/workspace".to_string(),
        workspace_members: vec!["ws_pkg#0.1.0".to_string()],
    };
    let lock = CargoLock { package: None };

    assert!(read_edges_in_range(&unit_graph, &[]));
    let plan = merge(&unit_graph, &metadata, &lock, None, "h".to_string(), None, None).unwrap();
    assert_eq!(plan.crates.len(), 2);
    assert_eq!(plan.roots, vec!["ws_pkg#0.1.0".to_string()]);
}

#[test]
fn read_edges_in_range_finds_a_stray_edge_that_is_read() {
    let build = UnitGraph {
        units: vec![make_unit("a#0.1.0", vec![CrateKind::Lib], UnitMode::Build, vec![], vec![(5, "b")])],
        roots: vec![0],
    };
    assert!(!read_edges_in_range(&build, &[]));

    // A Test-mode edge is read only for a workspace member.
    let test = UnitGraph {
        units: vec![make_unit("a#0.1.0", vec![CrateKind::Lib], UnitMode::Test, vec![], vec![(5, "b")])],
        roots: vec![],
    };
    assert!(read_edges_in_range(&test, &[]));
    assert!(!read_edges_in_range(&test, &["a#0.1.0".to_string()]));
}

#[test]
fn merge_reports_malformed_package_id_before_reading_roots() {
    // The root index is out of range, but the package ID without `#` is
    // reported first, as the merge builds crates before it reads roots.
    let unit_graph = UnitGraph {
        units: vec![make_unit("no-hash-here", vec![CrateKind::Lib], UnitMode::Build, vec![], vec![])],
        roots: vec![7],
    };
    let metadata = CargoMetadata {
        packages: vec![],
        workspace_root: "/workspace".to_string(),
        workspace_members: vec![],
    };
    let lock = CargoLock { package: None };

    let err = merge(&unit_graph, &metadata, &lock, None, "h".to_string(), None, None).unwrap_err();
    assert!(err.message().contains("malformed package ID"), "got: {}", err.message());
}
