//! The command-line options, and the decisions that follow from them alone.
use vstd::prelude::*;

use crate::error::{Error, ErrorView};
use crate::text::{chars_of, split_all, split_chars, string_from_chars, to_owned, vec_views, views};

verus! {

/// Generate per-crate Nix build plans from Cargo's unit graph.
///
/// Merges `cargo build --unit-graph` (exact resolved features, deps, platform
/// filtering) with `cargo metadata` (source info, SHA256 hashes, links field)
/// into a single JSON consumed by a thin Nix wrapper around `buildRustCrate`.
#[derive(Debug)]
pub struct Cli {
    /// Path to the Cargo.toml.
    pub manifest_path: String,
    /// Features to enable (comma-separated).
    pub features: Option<String>,
    /// Build a specific binary target.
    pub bin: Option<String>,
    /// Build a specific package.
    pub package: Option<String>,
    /// Enable all features.
    pub all_features: bool,
    /// Do not activate the `default` feature.
    pub no_default_features: bool,
    /// Target triple for cross-compilation (e.g. aarch64-unknown-linux-gnu).
    pub target: Option<String>,
    /// Output file.
    pub output: String,
    /// Write the plan to stdout instead of the output file.
    pub stdout: bool,
    /// Check which -sys crates need native overrides, then exit.
    pub check_overrides: bool,
    /// Include dev-dependencies for workspace members.
    pub include_dev: bool,
    /// Workspace members to include (comma-separated).
    pub members: Option<String>,
    /// Skip the override check after generation.
    pub no_check: bool,
    /// Machine-readable output (with `--check-overrides`).
    pub json: bool,
    /// Regenerate even if the inputs have not changed.
    pub force: bool,
    /// Resolve all workspace members, with their dev-dependencies.
    pub workspace: bool,
    /// Do not pass `--locked` to cargo.
    pub no_locked: bool,
    /// Standard library crates to build from source (`-Zbuild-std`).
    pub build_std: Option<String>,
    /// Features of the standard library build (`-Zbuild-std-features`).
    pub build_std_features: Option<String>,
}

/// The nonempty pieces of a comma-separated list, in order.
pub open spec fn list_items(pieces: Seq<Seq<char>>) -> Seq<Seq<char>>
    decreases pieces.len(),
{
    if pieces.len() == 0 {
        Seq::empty()
    } else {
        let prev = list_items(pieces.drop_last());
        if pieces.last().len() > 0 {
            prev.push(pieces.last())
        } else {
            prev
        }
    }
}

/// The names of a comma-separated `--members` value.
pub open spec fn member_names_of(members: Seq<char>) -> Seq<Seq<char>> {
    list_items(split_all(members, ','))
}

/// The first pair of options that may not be given together, if any:
/// `--members` with `--package`, then `--workspace` with `--package`.
pub open spec fn flag_conflict(members: bool, workspace: bool, package: bool) -> Option<(Seq<char>, Seq<char>)> {
    if members && package {
        Some(("--members"@, "--package"@))
    } else if workspace && package {
        Some(("--workspace"@, "--package"@))
    } else {
        None
    }
}

impl Cli {
    /// The workspace members that `--members` selects, in the order given.
    pub fn members_filter(&self) -> (r: Option<Vec<String>>)
        ensures
            match self.members {
                Some(m) => r matches Some(v) && views(v@) == member_names_of(m@),
                None => r is None,
            },
    {
        match &self.members {
            None => None,
            Some(m) => {
                let v = chars_of(m.as_str());
                let pieces = split_chars(&v, ',');
                let ghost ps = vec_views(pieces@);
                let mut names: Vec<String> = Vec::new();
                let mut i: usize = 0;
                while i < pieces.len()
                    invariant
                        i <= pieces.len(),
                        ps == vec_views(pieces@),
                        ps == split_all(m@, ','),
                        views(names@) == list_items(ps.take(i as int)),
                    decreases pieces.len() - i,
                {
                    proof {
                        assert(ps.take(i + 1).drop_last() =~= ps.take(i as int));
                        assert(ps.take(i + 1).last() == pieces@[i as int]@);
                    }
                    if pieces[i].len() > 0 {
                        let ghost before = views(names@);
                        let name = string_from_chars(&pieces[i]);
                        names.push(name);
                        proof {
                            assert(views(names@) =~= before.push(name@));
                        }
                    }
                    i = i + 1;
                }
                proof {
                    assert(ps.take(i as int) =~= ps);
                }
                Some(names)
            },
        }
    }

    /// Fails when two options that exclude each other are both given.
    pub fn check_flag_conflicts(&self) -> (r: Result<(), Error>)
        ensures
            match flag_conflict(self.members is Some, self.workspace, self.package is Some) {
                Some((a, b)) => r matches Err(e) && e@ == ErrorView::ConflictingFlags(a, b),
                None => r is Ok,
            },
    {
        if self.members.is_some() && self.package.is_some() {
            return Err(Error::ConflictingFlags(to_owned("--members"), to_owned("--package")));
        }
        if self.workspace && self.package.is_some() {
            return Err(Error::ConflictingFlags(to_owned("--workspace"), to_owned("--package")));
        }
        Ok(())
    }

    /// Whether dev-dependencies are resolved: `--include-dev`, or
    /// `--workspace`, which implies it.
    pub fn wants_dev_dependencies(&self) -> (r: bool)
        ensures
            r == (self.include_dev || self.workspace),
    {
        self.include_dev || self.workspace
    }
}

/// The arguments of a `cargo unit2nix` invocation with the subcommand name
/// that Cargo inserts removed: `["cargo-unit2nix", "unit2nix", rest..]`
/// becomes `["cargo-unit2nix", rest..]`; other argument lists pass unchanged.
pub open spec fn without_subcommand_arg(args: Seq<Seq<char>>) -> Seq<Seq<char>> {
    if args.len() > 1 && args[1] == "unit2nix"@ {
        seq![args[0]] + args.skip(2)
    } else {
        args
    }
}

/// Strip the `unit2nix` subcommand argument that Cargo inserts.
pub fn strip_subcommand_arg(args: Vec<String>) -> (r: Vec<String>)
    ensures
        views(r@) == without_subcommand_arg(views(args@)),
{
    if args.len() > 1 && crate::text::str_eq(args[1].as_str(), "unit2nix") {
        let mut r: Vec<String> = Vec::new();
        r.push(args[0].clone());
        let mut i: usize = 2;
        proof {
            assert(views(r@) =~= seq![views(args@)[0]] + views(args@).skip(2).take(0));
        }
        while i < args.len()
            invariant
                2 <= i <= args.len(),
                views(r@) == seq![views(args@)[0]] + views(args@).skip(2).take(i - 2),
            decreases args.len() - i,
        {
            let ghost before = views(r@);
            r.push(args[i].clone());
            proof {
                assert(views(r@) =~= before.push(args@[i as int]@));
                assert(views(args@).skip(2).take(i + 1 - 2) =~= views(args@).skip(2).take(i - 2).push(
                    args@[i as int]@,
                ));
            }
            i = i + 1;
        }
        proof {
            assert(views(args@).skip(2).take(i - 2) =~= views(args@).skip(2));
        }
        r
    } else {
        args
    }
}

} // verus!
