//! Tests of the override coverage report.

use unit2nix::output::{NixBuildPlan, NixCrate};
use unit2nix::overrides::{check_overrides, is_known_no_override, override_report_lines};
use unit2nix::strmap::StrMap;

fn make_plan(crates: Vec<(&str, Option<&str>)>) -> NixBuildPlan {
    let mut plan_crates = StrMap::new();
    for (name, links) in crates {
        let pkg_id = format!("registry+https://github.com/rust-lang/crates.io-index#{name}@1.0.0");
        plan_crates.insert(
            pkg_id,
            NixCrate {
                crate_name: name.to_string(),
                version: "1.0.0".to_string(),
                edition: "2021".to_string(),
                sha256: None,
                source: None,
                features: vec![],
                host_features: None,
                dependencies: vec![],
                build_dependencies: vec![],
                dev_dependencies: vec![],
                proc_macro: false,
                build: None,
                lib_path: None,
                lib_name: None,
                lib_crate_types: vec![],
                crate_bin: vec![],
                links: links.map(str::to_owned),
                authors: vec![],
                description: None,
                homepage: None,
                license: None,
                repository: None,
            },
        );
    }
    NixBuildPlan {
        version: 1,
        workspace_root: "/workspace".to_string(),
        roots: vec![],
        workspace_members: StrMap::new(),
        target: None,
        cargo_lock_hash: String::new(),
        inputs_hash: None,
        crates: plan_crates,
    }
}

#[test]
fn report_covered_and_unknown() {
    let plan = make_plan(vec![
        ("ring", Some("ring_core_0_17_14_")),
        ("my-custom-sys", Some("my_custom")),
        ("serde", None),
    ]);
    let report = check_overrides(&plan);
    assert_eq!(report.total, 2, "only crates with links");
    assert_eq!(report.no_override_needed, 1, "ring_core_ prefix is known-no-override");
    assert_eq!(report.missing, 1, "my-custom-sys is unknown");
    assert_eq!(report.covered, 0);
}

#[test]
fn report_pure_rust() {
    let plan = make_plan(vec![("serde", None), ("tokio", None)]);
    let report = check_overrides(&plan);
    assert_eq!(report.total, 0);
    assert_eq!(report.missing, 0);
    assert!(report.crates.is_empty());
}

#[test]
fn report_lists_crates_by_name_with_status_and_note() {
    let plan = make_plan(vec![
        ("zstd-sys", Some("zstd")),
        ("libz-sys", Some("z")),
        ("rayon-core", Some("rayon-core")),
    ]);
    let report = check_overrides(&plan);
    assert_eq!(report.total, 3);
    let names: Vec<&str> = report.crates.iter().map(|c| c.name.as_str()).collect();
    assert_eq!(names, vec!["libz-sys", "rayon-core", "zstd-sys"]);
    assert_eq!(report.crates[0].status, "covered");
    assert_eq!(report.crates[0].note, Some("needs pkg-config + zlib".to_string()));
    assert_eq!(report.crates[1].status, "no-override-needed");
    assert_eq!(report.crates[1].note, Some("Rust-internal".to_string()));
    assert_eq!(report.crates[2].status, "covered");
    assert_eq!(report.covered, 2);
    assert_eq!(report.no_override_needed, 1);
    assert_eq!(report.missing, 0);
    assert_eq!(report.covered + report.no_override_needed + report.missing, report.total);
}

#[test]
fn unknown_crate_has_no_note() {
    let plan = make_plan(vec![("my-custom-sys", Some("my_custom"))]);
    let report = check_overrides(&plan);
    assert_eq!(report.crates[0].status, "unknown");
    assert_eq!(report.crates[0].note, None);
    assert_eq!(report.crates[0].links, "my_custom");
}

#[test]
fn known_no_override_by_name_or_links_prefix() {
    assert!(is_known_no_override("prettyplease", "anything"));
    assert!(is_known_no_override("ring", "ring_core_0_17_14_"));
    assert!(!is_known_no_override("ring", "ring"));
    assert!(!is_known_no_override("openssl-sys", "openssl"));
}

#[test]
fn report_text_for_pure_rust_plan() {
    let plan = make_plan(vec![("serde", None)]);
    let lines = override_report_lines(&check_overrides(&plan));
    assert_eq!(
        lines,
        vec![
            "No crates with native link requirements found.".to_string(),
            "This is a pure Rust project \u{2014} no overrides needed.".to_string(),
        ]
    );
}

#[test]
fn report_text_for_covered_and_unknown_crates() {
    let plan = make_plan(vec![("libz-sys", Some("z")), ("my-custom-sys", Some("my_custom"))]);
    let lines = override_report_lines(&check_overrides(&plan));
    assert_eq!(lines[0], "Found 2 crate(s) with native link requirements:");
    assert_eq!(lines[1], "");
    assert_eq!(
        lines[2],
        format!("  \u{2713} {:30}  links={:20}  covered (needs pkg-config + zlib)", "libz-sys", "z")
    );
    assert_eq!(
        lines[3],
        format!("  ? {:30}  links={:20}  may need extraCrateOverrides", "my-custom-sys", "my_custom")
    );
    assert_eq!(lines[4], "");
    assert_eq!(lines[5], "Summary: 1 covered, 0 no-override-needed, 1 may need attention");
    assert_eq!(lines[6], "");
    assert_eq!(lines[7], "For missing crates, add overrides via extraCrateOverrides:");
    assert_eq!(lines.last().unwrap(), "See docs/sys-crate-overrides.md for details.");
    assert_eq!(lines.len(), 18);
}
