//! Tests of the text of each error.

use unit2nix::error::Error;
use unit2nix::source::parse_source;

#[test]
fn unknown_source_type_message() {
    let err = parse_source(Some("sparse+https://example.com/index/"), "", "").unwrap_err();
    assert_eq!(err.message(), "unknown source type: sparse+https://example.com/index/");
}

#[test]
fn malformed_git_source_message() {
    let err = parse_source(Some("git+https://example.com/repo.git"), "", "").unwrap_err();
    assert_eq!(err.message(), "malformed git source URL: git+https://example.com/repo.git");
}

#[test]
fn messages_of_constructed_errors() {
    assert_eq!(
        Error::UnknownWorkspaceMember("x".to_string(), vec![]).message(),
        "unknown workspace member 'x'. Valid members: "
    );
    assert_eq!(
        Error::ConflictingFlags("--a".to_string(), "--b".to_string()).message(),
        "--a and --b cannot be used together"
    );
    assert_eq!(
        Error::DanglingReferences(vec![]).message(),
        "0 dependencies reference crates not in the build plan (likely a missing crate kind \u{2014} see unit2nix bug tracker)"
    );
    assert_eq!(Error::MissingCrateName("p#1".to_string()).message(), "malformed package ID (no crate name): p#1");
}
