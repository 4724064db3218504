//! Tests of git source hashes: `crate-hashes.json` keys and entries, and the
//! checkouts that still have to be prefetched.

use unit2nix::output::{NixBuildPlan, NixCrate, NixSource};
use unit2nix::prefetch::{
    apply_crate_hashes, apply_crate_hashes_text, apply_prefetched_hash, crate_names_of, git_prefetch_requests, parse_crate_hash_key,
    short_rev,
};
use unit2nix::strmap::StrMap;

fn make_plan_with_git_crates(crates: Vec<(&str, &str, &str)>) -> NixBuildPlan {
    let mut plan_crates = StrMap::new();
    for (pkg_id, url, rev) in crates {
        let crate_info = NixCrate {
            crate_name: pkg_id.split('#').next().unwrap_or(pkg_id).to_string(),
            version: "0.1.0".to_string(),
            edition: "2021".to_string(),
            source: Some(NixSource::Git {
                url: url.to_string(),
                rev: rev.to_string(),
                sub_dir: None,
                sha256: None,
            }),
            ..NixCrate::default()
        };
        plan_crates.insert(pkg_id.to_string(), crate_info);
    }
    NixBuildPlan {
        version: 1,
        workspace_root: "/workspace".to_string(),
        roots: vec![],
        workspace_members: StrMap::new(),
        target: None,
        cargo_lock_hash: "hash".to_string(),
        inputs_hash: None,
        crates: plan_crates,
    }
}

fn git_hash(plan: &NixBuildPlan, pkg_id: &str) -> Option<String> {
    match &plan.crates.get(pkg_id).unwrap().source {
        Some(NixSource::Git { sha256, .. }) => sha256.clone(),
        other => panic!("expected git source, got {other:?}"),
    }
}

fn entries(pairs: &[(&str, &str)]) -> Vec<(String, String)> {
    pairs.iter().map(|(k, h)| (k.to_string(), h.to_string())).collect()
}

#[test]
fn parse_key_with_rev() {
    let key = "https://git.snix.dev/snix/snix.git?rev=180bfc4ce41a#nix-compat@0.1.0";
    let (url, rev) = parse_crate_hash_key(key).unwrap();
    assert_eq!(url, "https://git.snix.dev/snix/snix.git");
    assert_eq!(rev, Some("180bfc4ce41a".to_string()));
}

#[test]
fn parse_key_with_full_rev() {
    let key = "https://git.snix.dev/snix/snix.git?rev=180bfc4ce41ad25016aae2e3eb4e7af8c3d185ac#nix-compat@0.1.0";
    let (url, rev) = parse_crate_hash_key(key).unwrap();
    assert_eq!(url, "https://git.snix.dev/snix/snix.git");
    assert_eq!(rev, Some("180bfc4ce41ad25016aae2e3eb4e7af8c3d185ac".to_string()));
}

#[test]
fn parse_key_no_rev_returns_url_only() {
    let key = "https://github.com/n0-computer/iroh-experiments#h3-iroh@0.1.0";
    let (url, rev) = parse_crate_hash_key(key).unwrap();
    assert_eq!(url, "https://github.com/n0-computer/iroh-experiments");
    assert_eq!(rev, None);
}

#[test]
fn parse_key_github_with_rev() {
    let key = "https://github.com/s2-streamstore/mad-turmoil?rev=ef75169#mad-turmoil@0.2.0";
    let (url, rev) = parse_crate_hash_key(key).unwrap();
    assert_eq!(url, "https://github.com/s2-streamstore/mad-turmoil");
    assert_eq!(rev, Some("ef75169".to_string()));
}

#[test]
fn parse_key_with_branch_query_has_no_rev() {
    let key = "https://github.com/user/repo?branch=main#crate-name@1.0.0";
    let (url, rev) = parse_crate_hash_key(key).unwrap();
    assert_eq!(url, "https://github.com/user/repo");
    assert_eq!(rev, None);
}

#[test]
fn apply_crate_hashes_matches_exact_url_and_rev() {
    let text = r#"{
  "https://example.com/repo.git?rev=abc123#crate-a@0.1.0": "sha256-exact"
}"#;
    let mut plan = make_plan_with_git_crates(vec![
        ("crate-a#0.1.0", "https://example.com/repo.git", "abc123"),
        ("crate-b#0.1.0", "https://example.com/repo.git", "def456"),
    ]);

    let applied = apply_crate_hashes_text(&mut plan, text);

    assert_eq!(applied, Some(1));
    assert_eq!(git_hash(&plan, "crate-a#0.1.0").as_deref(), Some("sha256-exact"));
    assert_eq!(git_hash(&plan, "crate-b#0.1.0"), None);
}

#[test]
fn apply_crate_hashes_matches_url_only_and_shares_across_multiple_crates() {
    let text = r#"{
  "https://example.com/monorepo.git#crate-a@0.1.0": "sha256-shared"
}"#;
    let mut plan = make_plan_with_git_crates(vec![
        ("crate-a#0.1.0", "https://example.com/monorepo.git", "abc123"),
        ("crate-b#0.1.0", "https://example.com/monorepo.git", "def456"),
    ]);

    let applied = apply_crate_hashes_text(&mut plan, text);

    assert_eq!(applied, Some(2));
    for pkg_id in ["crate-a#0.1.0", "crate-b#0.1.0"] {
        assert_eq!(git_hash(&plan, pkg_id).as_deref(), Some("sha256-shared"), "pkg_id: {pkg_id}");
    }
}

#[test]
fn apply_crate_hashes_does_not_overwrite_existing_hashes() {
    let text = r#"{
  "https://example.com/repo.git?rev=abc123#crate-a@0.1.0": "sha256-new"
}"#;
    let mut plan = make_plan_with_git_crates(vec![("crate-a#0.1.0", "https://example.com/repo.git", "abc123")]);
    let existing = apply_prefetched_hash(&mut plan, &["crate-a#0.1.0".to_string()], "sha256-existing");
    assert!(existing.is_ok());

    let applied = apply_crate_hashes_text(&mut plan, text);

    assert_eq!(applied, Some(0));
    assert_eq!(git_hash(&plan, "crate-a#0.1.0").as_deref(), Some("sha256-existing"));
}

#[test]
fn apply_crate_hashes_text_rejects_malformed_json_and_changes_nothing() {
    let mut plan = make_plan_with_git_crates(vec![("crate-a#0.1.0", "https://example.com/repo.git", "abc123")]);

    assert_eq!(apply_crate_hashes_text(&mut plan, "{ not json"), None);
    assert_eq!(apply_crate_hashes_text(&mut plan, r#"{"k": 3}"#), None);
    assert_eq!(apply_crate_hashes_text(&mut plan, r#"["a", "b"]"#), None);
    assert_eq!(git_hash(&plan, "crate-a#0.1.0"), None);
}

#[test]
fn apply_crate_hashes_text_with_empty_object_applies_nothing() {
    let mut plan = make_plan_with_git_crates(vec![("crate-a#0.1.0", "https://example.com/repo.git", "abc123")]);

    assert_eq!(apply_crate_hashes_text(&mut plan, "{}"), Some(0));
    assert_eq!(git_hash(&plan, "crate-a#0.1.0"), None);
}

#[test]
fn apply_crate_hashes_text_reads_entries_in_key_order() {
    // The rev-less key sorts before the keyed one in the file's map, but the
    // crate at rev abc123 still takes the hash of its exact checkout.
    let text = r#"{
  "https://example.com/repo.git?rev=abc123#crate-a@0.1.0": "sha256-rev",
  "https://example.com/repo.git#crate-a@0.1.0": "sha256-url"
}"#;
    let mut plan = make_plan_with_git_crates(vec![
        ("crate-a#0.1.0", "https://example.com/repo.git", "abc123"),
        ("crate-b#0.1.0", "https://example.com/repo.git", "zzz999"),
    ]);

    assert_eq!(apply_crate_hashes_text(&mut plan, text), Some(2));
    assert_eq!(git_hash(&plan, "crate-a#0.1.0").as_deref(), Some("sha256-rev"));
    assert_eq!(git_hash(&plan, "crate-b#0.1.0").as_deref(), Some("sha256-url"));
}

#[test]
fn apply_crate_hashes_prefers_rev_entry_over_url_entry() {
    let hashes = entries(&[
        ("https://example.com/repo.git#crate-a@0.1.0", "sha256-url"),
        ("https://example.com/repo.git?rev=abc123#crate-a@0.1.0", "sha256-rev"),
    ]);
    let mut plan = make_plan_with_git_crates(vec![
        ("crate-a#0.1.0", "https://example.com/repo.git", "abc123"),
        ("crate-b#0.1.0", "https://example.com/repo.git", "zzz999"),
    ]);

    apply_crate_hashes(&mut plan, &hashes);

    assert_eq!(git_hash(&plan, "crate-a#0.1.0").as_deref(), Some("sha256-rev"));
    assert_eq!(git_hash(&plan, "crate-b#0.1.0").as_deref(), Some("sha256-url"));
}

#[test]
fn apply_crate_hashes_first_entry_for_a_checkout_wins() {
    let hashes = entries(&[
        ("https://example.com/repo.git?rev=abc123#crate-a@0.1.0", "sha256-first"),
        ("https://example.com/repo.git?rev=abc123#crate-b@0.1.0", "sha256-second"),
    ]);
    let mut plan = make_plan_with_git_crates(vec![("crate-b#0.1.0", "https://example.com/repo.git", "abc123")]);

    apply_crate_hashes(&mut plan, &hashes);

    assert_eq!(git_hash(&plan, "crate-b#0.1.0").as_deref(), Some("sha256-first"));
}

#[test]
fn prefetch_requests_deduplicate_by_url_and_rev() {
    let plan = make_plan_with_git_crates(vec![
        ("crate-a#0.1.0", "https://example.com/repo.git", "abc123"),
        ("crate-b#0.1.0", "https://example.com/repo.git", "abc123"),
        ("crate-c#0.1.0", "https://example.com/repo.git", "def456"),
    ]);

    let requests = git_prefetch_requests(&plan);

    assert_eq!(requests.len(), 2);
    assert_eq!(requests[0].rev, "abc123");
    assert_eq!(requests[0].pkg_ids, vec!["crate-a#0.1.0".to_string(), "crate-b#0.1.0".to_string()]);
    assert_eq!(requests[1].rev, "def456");
    assert_eq!(requests[1].pkg_ids, vec!["crate-c#0.1.0".to_string()]);
}

#[test]
fn prefetch_requests_skip_crates_with_existing_hashes() {
    let mut plan = make_plan_with_git_crates(vec![
        ("crate-hashed#0.1.0", "https://example.com/repo.git", "abc123"),
        ("crate-missing#0.1.0", "https://example.com/repo.git", "def456"),
    ]);
    apply_prefetched_hash(&mut plan, &["crate-hashed#0.1.0".to_string()], "sha256-existing").unwrap();

    let requests = git_prefetch_requests(&plan);

    assert_eq!(requests.len(), 1);
    assert_eq!(requests[0].url, "https://example.com/repo.git");
    assert_eq!(requests[0].rev, "def456");
    assert_eq!(requests[0].pkg_ids, vec!["crate-missing#0.1.0".to_string()]);
}

#[test]
fn prefetched_hash_applies_to_every_crate_of_the_checkout() {
    let mut plan = make_plan_with_git_crates(vec![
        ("crate-a#0.1.0", "https://example.com/repo.git", "abc123"),
        ("crate-b#0.1.0", "https://example.com/repo.git", "abc123"),
        ("crate-c#0.1.0", "https://example.com/repo.git", "def456"),
    ]);
    let requests = git_prefetch_requests(&plan);

    apply_prefetched_hash(&mut plan, &requests[0].pkg_ids, "sha256-fake").unwrap();

    assert_eq!(git_hash(&plan, "crate-a#0.1.0").as_deref(), Some("sha256-fake"));
    assert_eq!(git_hash(&plan, "crate-b#0.1.0").as_deref(), Some("sha256-fake"));
    assert_eq!(git_hash(&plan, "crate-c#0.1.0"), None);
}

#[test]
fn prefetched_hash_for_unknown_package_fails() {
    let mut plan = make_plan_with_git_crates(vec![("crate-a#0.1.0", "https://example.com/repo.git", "abc123")]);
    let ids = vec!["crate-a#0.1.0".to_string(), "ghost#0.1.0".to_string()];

    let err = apply_prefetched_hash(&mut plan, &ids, "sha256-fake").unwrap_err();

    assert_eq!(
        err.message(),
        "internal error: pkg_id ghost#0.1.0 missing from build plan during prefetch"
    );
    assert_eq!(git_hash(&plan, "crate-a#0.1.0").as_deref(), Some("sha256-fake"));
}

#[test]
fn crate_names_of_known_packages() {
    let plan = make_plan_with_git_crates(vec![
        ("crate-good#0.1.0", "https://example.com/repo.git", "goodrev"),
        ("crate-bad#0.1.0", "https://example.com/repo.git", "badrev"),
    ]);
    let ids = vec!["crate-bad#0.1.0".to_string(), "nothing#1.0.0".to_string(), "crate-good#0.1.0".to_string()];
    assert_eq!(crate_names_of(&plan, &ids), vec!["crate-bad".to_string(), "crate-good".to_string()]);
}

#[test]
fn short_rev_keeps_twelve_characters() {
    assert_eq!(short_rev("180bfc4ce41ad25016aae2e3eb4e7af8c3d185ac"), "180bfc4ce41a");
    assert_eq!(short_rev("abc123"), "abc123");
    assert_eq!(short_rev("123456789012"), "123456789012");
}

#[test]
fn short_rev_counts_bytes_not_characters() {
    // Seven two-byte characters are fourteen bytes; the first twelve bytes
    // are six characters.
    assert_eq!(short_rev("ééééééé"), "éééééé");
    assert_eq!(short_rev("éééééé"), "éééééé");
    assert_eq!(short_rev("abcdefghi€xyz"), "abcdefghi€");
}
