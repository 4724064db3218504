//! Tests of the cargo argument lists, the lock file path and hash, and the
//! message of a failed cargo run.

use unit2nix::cargo::{
    append_common_args, cargo_failure_message, cargo_lock_hash, cargo_lock_path, cargo_metadata_args,
    checksum_count, hex_lower, test_unit_graph_args, unit_graph_args,
};
use unit2nix::cli::Cli;
use unit2nix::metadata::{CargoLock, LockPackage};

fn make_cli() -> Cli {
    Cli {
        manifest_path: "./Cargo.toml".to_string(),
        features: None,
        bin: None,
        package: None,
        all_features: false,
        no_default_features: false,
        target: None,
        output: "build-plan.json".to_string(),
        stdout: false,
        check_overrides: false,
        include_dev: false,
        members: None,
        no_check: false,
        json: false,
        force: false,
        workspace: false,
        no_locked: false,
        build_std: None,
        build_std_features: None,
    }
}

#[test]
fn unit_graph_args_include_common_flags() {
    let mut cli = make_cli();
    cli.workspace = true;
    cli.features = Some("serde,cli".to_string());
    cli.all_features = true;
    cli.no_default_features = true;
    cli.bin = Some("unit2nix".to_string());
    cli.package = Some("unit2nix".to_string());
    cli.target = Some("aarch64-unknown-linux-gnu".to_string());
    cli.build_std = Some("core,alloc".to_string());
    cli.build_std_features = Some("compiler-builtins-mem".to_string());

    assert_eq!(
        unit_graph_args(&cli),
        vec![
            "build",
            "--unit-graph",
            "-Z",
            "unstable-options",
            "--locked",
            "--workspace",
            "--features",
            "serde,cli",
            "--all-features",
            "--no-default-features",
            "--bin",
            "unit2nix",
            "--package",
            "unit2nix",
            "--target",
            "aarch64-unknown-linux-gnu",
            "-Zbuild-std=core,alloc",
            "-Zbuild-std-features=compiler-builtins-mem",
        ]
        .into_iter()
        .map(str::to_owned)
        .collect::<Vec<_>>()
    );
}

#[test]
fn unit_graph_args_skip_locked_when_requested() {
    let mut cli = make_cli();
    cli.no_locked = true;

    assert!(
        !unit_graph_args(&cli).contains(&"--locked".to_string()),
        "--locked should be omitted when --no-locked is set"
    );
}

#[test]
fn test_unit_graph_args_include_no_run() {
    let args = test_unit_graph_args(&make_cli());
    assert_eq!(args[0], "test");
    assert!(args.contains(&"--unit-graph".to_string()));
    assert!(args.contains(&"--no-run".to_string()));
    assert!(args.contains(&"--locked".to_string()));
}

#[test]
fn cargo_metadata_args_forward_only_feature_flags() {
    let mut cli = make_cli();
    cli.workspace = true;
    cli.features = Some("serde".to_string());
    cli.all_features = true;
    cli.no_default_features = true;
    cli.bin = Some("unit2nix".to_string());
    cli.package = Some("unit2nix".to_string());
    cli.target = Some("aarch64-unknown-linux-gnu".to_string());
    cli.build_std = Some("core,alloc".to_string());

    assert_eq!(
        cargo_metadata_args(&cli),
        vec![
            "metadata",
            "--format-version=1",
            "--locked",
            "--features",
            "serde",
            "--all-features",
            "--no-default-features",
        ]
        .into_iter()
        .map(str::to_owned)
        .collect::<Vec<_>>()
    );
}

#[test]
fn minimal_argument_lists() {
    let mut cli = make_cli();
    cli.no_locked = true;
    assert_eq!(unit_graph_args(&cli), vec!["build", "--unit-graph", "-Z", "unstable-options"]);
    assert_eq!(
        test_unit_graph_args(&cli),
        vec!["test", "--unit-graph", "-Z", "unstable-options", "--no-run"]
    );
    assert_eq!(cargo_metadata_args(&cli), vec!["metadata", "--format-version=1"]);
}

#[test]
fn common_args_are_appended_after_existing_ones() {
    let mut cli = make_cli();
    cli.package = Some("p".to_string());
    let mut args = vec!["x".to_string()];
    append_common_args(&mut args, &cli);
    assert_eq!(args, vec!["x", "--package", "p"]);
}

#[test]
fn cargo_lock_path_is_beside_the_manifest() {
    assert_eq!(cargo_lock_path("/workspace/Cargo.toml"), "/workspace/Cargo.lock");
    assert_eq!(cargo_lock_path("./Cargo.toml"), "./Cargo.lock");
    assert_eq!(cargo_lock_path("Cargo.toml"), "Cargo.lock");
    assert_eq!(cargo_lock_path("/"), "./Cargo.lock");
}

#[test]
fn cargo_lock_hash_of_known_content() {
    assert_eq!(
        cargo_lock_hash(b"abc"),
        "ba7816bf8f01cfea414140de5dae2223b00361a396177a9cb410ff61f20015ad"
    );
    assert_eq!(
        cargo_lock_hash(b""),
        "e3b0c44298fc1c149afbf4c8996fb92427ae41e4649b934ca495991b7852b855"
    );
}

const LOCK_CONTENT: &str = "# This file is automatically @generated by Cargo.\n# It is not intended for manual editing.\nversion = 4\n\n[[package]]\nname = \"anyhow\"\nversion = \"1.0.104\"\nsource = \"registry+https://github.com/rust-lang/crates.io-index\"\n";

#[test]
fn cargo_lock_hash_is_sha256_hex() {
    let hash = cargo_lock_hash(LOCK_CONTENT.as_bytes());
    assert_eq!(hash.len(), 64, "SHA256 hex should be 64 chars, got: {hash}");
    assert!(hash.chars().all(|c| c.is_ascii_hexdigit()), "hash should be hex, got: {hash}");
    assert!(!hash.chars().any(|c| c.is_ascii_uppercase()), "hash should be lowercase, got: {hash}");
}

#[test]
fn cargo_lock_hash_is_deterministic() {
    let h1 = cargo_lock_hash(LOCK_CONTENT.as_bytes());
    let h2 = cargo_lock_hash(LOCK_CONTENT.as_bytes());
    assert_eq!(h1, h2, "same file should produce same hash");
    assert_ne!(h1, cargo_lock_hash(b"version = 3\n"));
}

#[test]
fn hex_is_two_lowercase_digits_per_byte() {
    assert_eq!(hex_lower(&[0x0a, 0x14, 0x1e, 0xff, 0x00]), "0a141eff00");
    assert_eq!(hex_lower(&[]), "");
}

#[test]
fn checksum_count_counts_only_packages_with_a_checksum() {
    let lock = CargoLock {
        package: Some(vec![
            LockPackage { name: "a".to_string(), version: "1.0.0".to_string(), checksum: Some("x".to_string()) },
            LockPackage { name: "b".to_string(), version: "1.0.0".to_string(), checksum: None },
            LockPackage { name: "c".to_string(), version: "2.0.0".to_string(), checksum: Some("y".to_string()) },
        ]),
    };
    assert_eq!(checksum_count(&lock), 2);
    assert_eq!(checksum_count(&CargoLock { package: None }), 0);
}

#[test]
fn failure_message_with_stderr_only_and_unit_graph_hint() {
    let args = vec!["build".to_string(), "--unit-graph".to_string()];
    let msg = cargo_failure_message(&args, "cargo build --unit-graph", "nightly exploded\n", "");
    assert_eq!(
        msg,
        "cargo build --unit-graph failed:\nnightly exploded\n\n\nhint: `cargo build --unit-graph` requires nightly Rust (`-Z unstable-options`). Is nightly installed and active?"
    );
}

#[test]
fn failure_message_includes_truncated_stdout_preview() {
    let args = vec!["metadata".to_string()];
    let stdout = "x".repeat(700);
    let msg = cargo_failure_message(&args, "cargo metadata", "bad metadata", &stdout);
    assert_eq!(
        msg,
        format!("cargo metadata failed:\nstderr: bad metadata\nstdout (truncated): {}", "x".repeat(500))
    );
    assert!(!msg.contains("hint:"));
}
