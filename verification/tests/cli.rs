//! Tests of the decisions that follow from the command-line options alone.

use unit2nix::cli::{strip_subcommand_arg, Cli};

fn make_cli() -> Cli {
    Cli {
        manifest_path: "./Cargo.toml".to_string(),
        features: None,
        bin: None,
        package: None,
        all_features: false,
        no_default_features: false,
        target: None,
        output: "build-plan.json".to_string(),
        stdout: false,
        check_overrides: false,
        include_dev: false,
        members: None,
        no_check: false,
        json: false,
        force: false,
        workspace: false,
        no_locked: false,
        build_std: None,
        build_std_features: None,
    }
}

fn strings(v: &[&str]) -> Vec<String> {
    v.iter().map(|s| s.to_string()).collect()
}

#[test]
fn members_filter_splits_on_commas() {
    let mut cli = make_cli();
    cli.members = Some("sample-bin,sample-lib".to_string());
    assert_eq!(cli.members_filter(), Some(strings(&["sample-bin", "sample-lib"])));
}

#[test]
fn members_filter_drops_empty_names() {
    let mut cli = make_cli();
    cli.members = Some(",a,,b,".to_string());
    assert_eq!(cli.members_filter(), Some(strings(&["a", "b"])));
    assert_eq!(make_cli().members_filter(), None);
}

#[test]
fn workspace_and_package_flags_conflict() {
    let mut cli = make_cli();
    cli.workspace = true;
    cli.package = Some("sample-bin".to_string());
    let err = cli.check_flag_conflicts().unwrap_err();
    assert_eq!(err.message(), "--workspace and --package cannot be used together");
}

#[test]
fn members_and_package_flags_conflict() {
    let mut cli = make_cli();
    cli.workspace = true;
    cli.members = Some("a".to_string());
    cli.package = Some("sample-bin".to_string());
    let err = cli.check_flag_conflicts().unwrap_err();
    assert_eq!(err.message(), "--members and --package cannot be used together");
}

#[test]
fn compatible_flags_pass() {
    let mut cli = make_cli();
    cli.workspace = true;
    cli.members = Some("a".to_string());
    assert!(cli.check_flag_conflicts().is_ok());
    let mut cli = make_cli();
    cli.package = Some("p".to_string());
    assert!(cli.check_flag_conflicts().is_ok());
}

#[test]
fn workspace_implies_dev_dependencies() {
    let mut cli = make_cli();
    assert!(!cli.wants_dev_dependencies());
    cli.workspace = true;
    assert!(cli.wants_dev_dependencies());
    let mut cli = make_cli();
    cli.include_dev = true;
    assert!(cli.wants_dev_dependencies());
}

#[test]
fn cargo_subcommand_arg_is_stripped() {
    assert_eq!(
        strip_subcommand_arg(strings(&["cargo-unit2nix", "unit2nix", "-o", "foo"])),
        strings(&["cargo-unit2nix", "-o", "foo"])
    );
    assert_eq!(
        strip_subcommand_arg(strings(&["unit2nix", "-o", "foo"])),
        strings(&["unit2nix", "-o", "foo"])
    );
    assert_eq!(strip_subcommand_arg(strings(&["cargo-unit2nix"])), strings(&["cargo-unit2nix"]));
}
