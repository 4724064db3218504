//! What is handed to cargo and what is made of its answers: the argument
//! lists of its subcommands, the path and hash of `Cargo.lock`, and the
//! message of a failed run.
use vstd::prelude::*;

use sha2::Digest;

use crate::cli::Cli;
use crate::merge::{lock_packages, lock_table};
use crate::metadata::CargoLock;
use crate::paths::{join_path, parent_of, path_join, path_parent};
use crate::text::{append, chars_of, concat, push_char, str_eq, string_from_range, to_owned, views};

verus! {

// ---------------------------------------------------------------------------
// Cargo.lock
// ---------------------------------------------------------------------------

/// The `Cargo.lock` beside a manifest: in the manifest's directory, or in
/// `.` when the manifest path has no parent.
pub open spec fn lock_path_of(manifest_path: Seq<char>) -> Seq<char> {
    let dir = match path_parent(manifest_path) {
        Some(p) => p,
        None => "."@,
    };
    path_join(dir, "Cargo.lock"@)
}

/// Resolve the Cargo.lock path from a manifest path.
pub fn cargo_lock_path(manifest_path: &str) -> (r: String)
    ensures
        r@ == lock_path_of(manifest_path@),
{
    let dir = match parent_of(manifest_path) {
        Some(p) => p,
        None => to_owned("."),
    };
    join_path(dir.as_str(), "Cargo.lock")
}

/// The SHA-256 digest of a byte string.
pub uninterp spec fn sha256_digest(data: Seq<u8>) -> Seq<u8>;

/// Calls `sha2::Sha256::digest`, the one-shot hash of the `digest::Digest`
/// trait; claims that the bytes it returns are [`sha256_digest`] of `data`
/// and that there are 32 of them (the output size of `Sha256` is `U32`).
#[verifier::external_body]
fn sha256(data: &[u8]) -> (r: Vec<u8>)
    ensures
        r@ == sha256_digest(data@),
        r@.len() == 32,
{
    sha2::Sha256::digest(data).to_vec()
}

/// The lowercase hexadecimal digit of `d`.
pub open spec fn hex_digit(d: nat) -> char {
    seq!['0', '1', '2', '3', '4', '5', '6', '7', '8', '9', 'a', 'b', 'c', 'd', 'e', 'f'][d as int]
}

/// Whether `c` is a lowercase hexadecimal digit.
pub open spec fn is_hex_char(c: char) -> bool {
    ('0' <= c && c <= '9') || ('a' <= c && c <= 'f')
}

/// Two lowercase hexadecimal digits per byte, high half first, as `{:x}`
/// writes a digest.
pub open spec fn lower_hex(bytes: Seq<u8>) -> Seq<char>
    decreases bytes.len(),
{
    if bytes.len() == 0 {
        Seq::empty()
    } else {
        let b = bytes.last();
        lower_hex(bytes.drop_last()).push(hex_digit((b / 16) as nat)).push(hex_digit((b % 16) as nat))
    }
}

/// The character of hexadecimal digit `d`.
fn hex_char(d: u8) -> (c: char)
    requires
        d < 16,
    ensures
        c == hex_digit(d as nat),
{
    let digits = ['0', '1', '2', '3', '4', '5', '6', '7', '8', '9', 'a', 'b', 'c', 'd', 'e', 'f'];
    proof {
        assert(digits@ =~= seq!['0', '1', '2', '3', '4', '5', '6', '7', '8', '9', 'a', 'b', 'c', 'd', 'e', 'f']);
    }
    digits[d as usize]
}

/// The lowercase hexadecimal notation of a byte string.
pub fn hex_lower(bytes: &[u8]) -> (r: String)
    ensures
        r@ == lower_hex(bytes@),
{
    let mut r = String::new();
    let mut i: usize = 0;
    proof {
        assert(bytes@.take(0) =~= Seq::<u8>::empty());
    }
    while i < bytes.len()
        invariant
            i <= bytes.len(),
            r@ == lower_hex(bytes@.take(i as int)),
        decreases bytes.len() - i,
    {
        let b = bytes[i];
        proof {
            assert(bytes@.take(i + 1).drop_last() =~= bytes@.take(i as int));
            assert(bytes@.take(i + 1).last() == b);
        }
        push_char(&mut r, hex_char(b / 16));
        push_char(&mut r, hex_char(b % 16));
        i = i + 1;
    }
    proof {
        assert(bytes@.take(i as int) =~= bytes@);
    }
    r
}

/// The SHA-256 hash of the content of `Cargo.lock`, in lowercase hex: the
/// value the Nix consumer compares with `builtins.hashFile "sha256"` to
/// detect stale build plans.
pub fn cargo_lock_hash(content: &[u8]) -> (r: String)
    ensures
        r@ == lower_hex(sha256_digest(content@)),
        r@.len() == 64,
        forall|i: int| 0 <= i < r@.len() ==> is_hex_char(#[trigger] r@[i]),
{
    let digest = sha256(content);
    proof {
        lemma_lower_hex(digest@);
    }
    hex_lower(digest.as_slice())
}

/// Every digit is a lowercase hexadecimal character.
proof fn lemma_hex_digit(d: nat)
    requires
        d < 16,
    ensures
        is_hex_char(hex_digit(d)),
{
    let digits = seq!['0', '1', '2', '3', '4', '5', '6', '7', '8', '9', 'a', 'b', 'c', 'd', 'e', 'f'];
    assert(hex_digit(d) == digits[d as int]);
    if d < 8 {
        if d < 4 {
            assert(d == 0 || d == 1 || d == 2 || d == 3);
        } else {
            assert(d == 4 || d == 5 || d == 6 || d == 7);
        }
    } else {
        if d < 12 {
            assert(d == 8 || d == 9 || d == 10 || d == 11);
        } else {
            assert(d == 12 || d == 13 || d == 14 || d == 15);
        }
    }
}

/// The hex notation has two hexadecimal characters per byte.
pub proof fn lemma_lower_hex(bytes: Seq<u8>)
    ensures
        lower_hex(bytes).len() == 2 * bytes.len(),
        forall|i: int| 0 <= i < lower_hex(bytes).len() ==> is_hex_char(#[trigger] lower_hex(bytes)[i]),
    decreases bytes.len(),
{
    if bytes.len() > 0 {
        let b = bytes.last();
        lemma_lower_hex(bytes.drop_last());
        lemma_hex_digit((b / 16) as nat);
        lemma_hex_digit((b % 16) as nat);
        let prev = lower_hex(bytes.drop_last());
        let cur = prev.push(hex_digit((b / 16) as nat)).push(hex_digit((b % 16) as nat));
        assert forall|i: int| 0 <= i < cur.len() implies is_hex_char(#[trigger] cur[i]) by {
            if i < prev.len() {
                assert(cur[i] == prev[i]);
            }
        }
    }
}

/// The number of locked packages that have a checksum.
pub fn checksum_count(lock: &CargoLock) -> (r: usize)
    ensures
        r == lock_table(lock_packages(*lock)).len(),
{
    match &lock.package {
        None => 0,
        Some(pkgs) => {
            let mut n: usize = 0;
            let mut i: usize = 0;
            proof {
                assert(pkgs@.take(0) =~= Seq::<crate::metadata::LockPackage>::empty());
            }
            while i < pkgs.len()
                invariant
                    i <= pkgs.len(),
                    n <= i,
                    n == lock_table(pkgs@.take(i as int)).len(),
                decreases pkgs.len() - i,
            {
                proof {
                    assert(pkgs@.take(i + 1).drop_last() =~= pkgs@.take(i as int));
                    assert(pkgs@.take(i + 1).last() == pkgs@[i as int]);
                }
                if pkgs[i].checksum.is_some() {
                    n = n + 1;
                }
                i = i + 1;
            }
            proof {
                assert(pkgs@.take(i as int) =~= pkgs@);
            }
            n
        },
    }
}

// ---------------------------------------------------------------------------
// Argument lists
// ---------------------------------------------------------------------------

/// `[flag]` when `on`, else nothing.
pub open spec fn flag_if(on: bool, flag: Seq<char>) -> Seq<Seq<char>> {
    if on {
        seq![flag]
    } else {
        Seq::empty()
    }
}

/// `[flag, value]` when there is a value, else nothing.
pub open spec fn flag_value(o: Option<String>, flag: Seq<char>) -> Seq<Seq<char>> {
    match o {
        Some(v) => seq![flag, v@],
        None => Seq::empty(),
    }
}

/// `[prefix ++ value]` when there is a value, else nothing.
pub open spec fn joined_value(o: Option<String>, prefix: Seq<char>) -> Seq<Seq<char>> {
    match o {
        Some(v) => seq![prefix + v@],
        None => Seq::empty(),
    }
}

/// The flags that `cargo build` and `cargo test` share: workspace,
/// features, bin, package, target and the standard library build.
pub open spec fn common_args(cli: Cli) -> Seq<Seq<char>> {
    flag_if(cli.workspace, "--workspace"@) + flag_value(cli.features, "--features"@) + flag_if(
        cli.all_features,
        "--all-features"@,
    ) + flag_if(cli.no_default_features, "--no-default-features"@) + flag_value(cli.bin, "--bin"@)
        + flag_value(cli.package, "--package"@) + flag_value(cli.target, "--target"@) + joined_value(
        cli.build_std,
        "-Zbuild-std="@,
    ) + joined_value(cli.build_std_features, "-Zbuild-std-features="@)
}

/// `--locked`, unless `--no-locked` was given.
pub open spec fn locked_args(cli: Cli) -> Seq<Seq<char>> {
    flag_if(!cli.no_locked, "--locked"@)
}

/// The arguments of `cargo build --unit-graph`.
pub open spec fn unit_graph_arg_list(cli: Cli) -> Seq<Seq<char>> {
    seq!["build"@, "--unit-graph"@, "-Z"@, "unstable-options"@] + locked_args(cli) + common_args(cli)
}

/// The arguments of `cargo test --unit-graph`.
pub open spec fn test_unit_graph_arg_list(cli: Cli) -> Seq<Seq<char>> {
    seq!["test"@, "--unit-graph"@, "-Z"@, "unstable-options"@, "--no-run"@] + locked_args(cli) + common_args(cli)
}

/// The arguments of `cargo metadata`: only the feature flags are forwarded.
pub open spec fn metadata_arg_list(cli: Cli) -> Seq<Seq<char>> {
    seq!["metadata"@, "--format-version=1"@] + locked_args(cli) + flag_value(cli.features, "--features"@)
        + flag_if(cli.all_features, "--all-features"@) + flag_if(
        cli.no_default_features,
        "--no-default-features"@,
    )
}

/// Appends `flag` when `on`.
fn push_flag(args: &mut Vec<String>, on: bool, flag: &str)
    ensures
        views(final(args)@) == views(old(args)@) + flag_if(on, flag@),
{
    let ghost before = views(args@);
    if on {
        args.push(to_owned(flag));
    }
    proof {
        assert(views(args@) =~= before + flag_if(on, flag@));
    }
}

/// Appends `flag` and the value, when there is one.
fn push_flag_value(args: &mut Vec<String>, o: &Option<String>, flag: &str)
    ensures
        views(final(args)@) == views(old(args)@) + flag_value(*o, flag@),
{
    let ghost before = views(args@);
    match o {
        Some(v) => {
            args.push(to_owned(flag));
            args.push(v.clone());
        },
        None => {},
    }
    proof {
        assert(views(args@) =~= before + flag_value(*o, flag@));
    }
}

/// Appends `prefix` joined to the value, when there is one.
fn push_joined_value(args: &mut Vec<String>, o: &Option<String>, prefix: &str)
    ensures
        views(final(args)@) == views(old(args)@) + joined_value(*o, prefix@),
{
    let ghost before = views(args@);
    match o {
        Some(v) => {
            args.push(concat(prefix, v.as_str()));
        },
        None => {},
    }
    proof {
        assert(views(args@) =~= before + joined_value(*o, prefix@));
    }
}

/// The common flags, in order.
fn common_arg_vec(cli: &Cli) -> (r: Vec<String>)
    ensures
        views(r@) == common_args(*cli),
{
    let mut args: Vec<String> = Vec::new();
    push_flag(&mut args, cli.workspace, "--workspace");
    proof {
        assert(views(args@) =~= flag_if(cli.workspace, "--workspace"@));
    }
    push_flag_value(&mut args, &cli.features, "--features");
    push_flag(&mut args, cli.all_features, "--all-features");
    push_flag(&mut args, cli.no_default_features, "--no-default-features");
    push_flag_value(&mut args, &cli.bin, "--bin");
    push_flag_value(&mut args, &cli.package, "--package");
    push_flag_value(&mut args, &cli.target, "--target");
    push_joined_value(&mut args, &cli.build_std, "-Zbuild-std=");
    push_joined_value(&mut args, &cli.build_std_features, "-Zbuild-std-features=");
    args
}

/// Append the common flags (features, target, bin, package, workspace,
/// standard library build) to an argument list.
pub fn append_common_args(args: &mut Vec<String>, cli: &Cli)
    ensures
        views(final(args)@) == views(old(args)@) + common_args(*cli),
{
    let ghost start = args@;
    let mut common = common_arg_vec(cli);
    let ghost more = common@;
    args.append(&mut common);
    proof {
        assert(args@ == start + more);
        assert(views(args@) =~= views(start) + views(more));
    }
}

/// A list of owned strings holding the given literals.
fn owned_list(items: &[&str]) -> (r: Vec<String>)
    ensures
        views(r@) == items@.map_values(|s: &str| s@),
{
    let mut r: Vec<String> = Vec::new();
    let mut i: usize = 0;
    while i < items.len()
        invariant
            i <= items.len(),
            views(r@) == items@.map_values(|s: &str| s@).take(i as int),
        decreases items.len() - i,
    {
        let ghost before = views(r@);
        let item = to_owned(items[i]);
        r.push(item);
        proof {
            assert(views(r@) =~= before.push(item@));
            assert(items@.map_values(|s: &str| s@)[i as int] == item@);
            assert(views(r@) =~= items@.map_values(|s: &str| s@).take(i + 1));
        }
        i = i + 1;
    }
    proof {
        assert(items@.map_values(|s: &str| s@).take(i as int) =~= items@.map_values(|s: &str| s@));
    }
    r
}

/// The arguments of `cargo build --unit-graph`.
pub fn unit_graph_args(cli: &Cli) -> (r: Vec<String>)
    ensures
        views(r@) == unit_graph_arg_list(*cli),
{
    let head = ["build", "--unit-graph", "-Z", "unstable-options"];
    let mut args = owned_list(&head);
    proof {
        assert(views(args@) =~= seq!["build"@, "--unit-graph"@, "-Z"@, "unstable-options"@]);
    }
    push_flag(&mut args, !cli.no_locked, "--locked");
    append_common_args(&mut args, cli);
    proof {
        assert(views(args@) =~= unit_graph_arg_list(*cli));
    }
    args
}

/// The arguments of `cargo test --unit-graph`.
pub fn test_unit_graph_args(cli: &Cli) -> (r: Vec<String>)
    ensures
        views(r@) == test_unit_graph_arg_list(*cli),
{
    let head = ["test", "--unit-graph", "-Z", "unstable-options", "--no-run"];
    let mut args = owned_list(&head);
    proof {
        assert(views(args@) =~= seq!["test"@, "--unit-graph"@, "-Z"@, "unstable-options"@, "--no-run"@]);
    }
    push_flag(&mut args, !cli.no_locked, "--locked");
    append_common_args(&mut args, cli);
    proof {
        assert(views(args@) =~= test_unit_graph_arg_list(*cli));
    }
    args
}

/// The arguments of `cargo metadata`.
///
/// Only feature flags are forwarded: `cargo metadata` takes none of
/// `--workspace`, `--package`, `--bin`, `--target` or `-Z`, and does not need
/// them, as it always resolves the whole workspace. Feature flags matter
/// because they decide which optional dependencies are resolved.
pub fn cargo_metadata_args(cli: &Cli) -> (r: Vec<String>)
    ensures
        views(r@) == metadata_arg_list(*cli),
{
    let head = ["metadata", "--format-version=1"];
    let mut args = owned_list(&head);
    proof {
        assert(views(args@) =~= seq!["metadata"@, "--format-version=1"@]);
    }
    push_flag(&mut args, !cli.no_locked, "--locked");
    push_flag_value(&mut args, &cli.features, "--features");
    push_flag(&mut args, cli.all_features, "--all-features");
    push_flag(&mut args, cli.no_default_features, "--no-default-features");
    proof {
        assert(views(args@) =~= metadata_arg_list(*cli));
    }
    args
}

// ---------------------------------------------------------------------------
// Failed runs
// ---------------------------------------------------------------------------

/// The hint added to the failure of a `--unit-graph` run.
pub open spec fn nightly_hint() -> Seq<char> {
    "\n\nhint: `cargo build --unit-graph` requires nightly Rust (`-Z unstable-options`). Is nightly installed and active?"@
}

/// The message of a failed cargo run: its description and stderr; its
/// stdout too, cut to 500 characters, when there is any; and the nightly
/// hint when the arguments ask for a unit graph.
pub open spec fn failure_message(
    args: Seq<Seq<char>>,
    description: Seq<char>,
    stderr: Seq<char>,
    stdout: Seq<char>,
) -> Seq<char> {
    let hint = if args.contains("--unit-graph"@) {
        nightly_hint()
    } else {
        Seq::empty()
    };
    if stdout.len() == 0 {
        description + " failed:\n"@ + stderr + hint
    } else {
        let preview = if stdout.len() > 500 {
            stdout.take(500)
        } else {
            stdout
        };
        description + " failed:\nstderr: "@ + stderr + "\nstdout (truncated): "@ + preview + hint
    }
}

/// The message of a failed cargo run with the arguments `args`, given the
/// text of its stderr and stdout.
pub fn cargo_failure_message(args: &[String], description: &str, stderr: &str, stdout: &str) -> (r: String)
    ensures
        r@ == failure_message(views(args@), description@, stderr@, stdout@),
{
    let mut unit_graph = false;
    let mut i: usize = 0;
    while i < args.len()
        invariant
            i <= args.len(),
            unit_graph == exists|j: int| 0 <= j < i && #[trigger] views(args@)[j] == "--unit-graph"@,
        decreases args.len() - i,
    {
        if str_eq(args[i].as_str(), "--unit-graph") {
            proof {
                assert(views(args@)[i as int] == "--unit-graph"@);
            }
            unit_graph = true;
        }
        i = i + 1;
    }
    proof {
        if unit_graph {
            let j = choose|j: int| 0 <= j < i && #[trigger] views(args@)[j] == "--unit-graph"@;
            assert(views(args@).contains("--unit-graph"@));
        }
        if views(args@).contains("--unit-graph"@) {
            let j = choose|j: int| 0 <= j < views(args@).len() && views(args@)[j] == "--unit-graph"@;
            assert(views(args@)[j] == "--unit-graph"@);
        }
    }
    let out = chars_of(stdout);
    let mut r = to_owned(description);
    if out.len() == 0 {
        append(&mut r, " failed:\n");
        append(&mut r, stderr);
    } else {
        let end = if out.len() > 500 {
            500
        } else {
            out.len()
        };
        let preview = string_from_range(&out, 0, end);
        proof {
            if out.len() > 500 {
                assert(preview@ =~= stdout@.take(500));
            } else {
                assert(preview@ =~= stdout@);
            }
        }
        append(&mut r, " failed:\nstderr: ");
        append(&mut r, stderr);
        append(&mut r, "\nstdout (truncated): ");
        append(&mut r, preview.as_str());
    }
    if unit_graph {
        append(
            &mut r,
            "\n\nhint: `cargo build --unit-graph` requires nightly Rust (`-Z unstable-options`). Is nightly installed and active?",
        );
    }
    proof {
        assert(r@ =~= failure_message(views(args@), description@, stderr@, stdout@));
    }
    r
}

// ---------------------------------------------------------------------------
// Laws of the argument lists
// ---------------------------------------------------------------------------

/// `cargo metadata` gets only the feature flags and `--locked`: two option
/// sets that agree on those give the same arguments, whatever workspace,
/// package, bin, target or standard-library options they carry.
pub proof fn law_metadata_args_forward_only_feature_flags(a: Cli, b: Cli)
    requires
        a.features == b.features,
        a.all_features == b.all_features,
        a.no_default_features == b.no_default_features,
        a.no_locked == b.no_locked,
    ensures
        metadata_arg_list(a) == metadata_arg_list(b),
{
}

/// `--locked` follows the fixed subcommand arguments of every cargo call
/// exactly when `--no-locked` is not given; without it, the common flags
/// follow them directly.
pub proof fn law_locked_unless_no_locked(cli: Cli)
    ensures
        !cli.no_locked ==> unit_graph_arg_list(cli)[4] == "--locked"@ && test_unit_graph_arg_list(cli)[5]
            == "--locked"@ && metadata_arg_list(cli)[2] == "--locked"@,
        cli.no_locked ==> unit_graph_arg_list(cli) == seq!["build"@, "--unit-graph"@, "-Z"@, "unstable-options"@]
            + common_args(cli) && test_unit_graph_arg_list(cli) == seq![
            "test"@,
            "--unit-graph"@,
            "-Z"@,
            "unstable-options"@,
            "--no-run"@,
        ] + common_args(cli),
{
    let ub = seq!["build"@, "--unit-graph"@, "-Z"@, "unstable-options"@];
    let tb = seq!["test"@, "--unit-graph"@, "-Z"@, "unstable-options"@, "--no-run"@];
    if cli.no_locked {
        assert(ub + locked_args(cli) =~= ub);
        assert(tb + locked_args(cli) =~= tb);
    }
}

/// Whether `a` is directly followed by `b` somewhere in `args`.
pub open spec fn has_pair(args: Seq<Seq<char>>, a: Seq<char>, b: Seq<char>) -> bool {
    exists|i: int| 0 <= i && i + 1 < args.len() && #[trigger] args[i] == a && args[i + 1] == b
}

/// Whether `args` carry every option of `cli` that selects what cargo
/// resolves: workspace, features, bin, package, target and the standard
/// library build, each flag with its value.
pub open spec fn carries_selection(cli: Cli, args: Seq<Seq<char>>) -> bool {
    &&& cli.workspace ==> args.contains("--workspace"@)
    &&& cli.features matches Some(f) ==> has_pair(args, "--features"@, f@)
    &&& cli.all_features ==> args.contains("--all-features"@)
    &&& cli.no_default_features ==> args.contains("--no-default-features"@)
    &&& cli.bin matches Some(b) ==> has_pair(args, "--bin"@, b@)
    &&& cli.package matches Some(p) ==> has_pair(args, "--package"@, p@)
    &&& cli.target matches Some(t) ==> has_pair(args, "--target"@, t@)
    &&& cli.build_std matches Some(b) ==> args.contains("-Zbuild-std="@ + b@)
    &&& cli.build_std_features matches Some(b) ==> args.contains("-Zbuild-std-features="@ + b@)
}

proof fn lemma_pair_after(x: Seq<Seq<char>>, y: Seq<Seq<char>>, a: Seq<char>, b: Seq<char>)
    requires
        has_pair(y, a, b),
    ensures
        has_pair(x + y, a, b),
{
    let i = choose|i: int| 0 <= i && i + 1 < y.len() && #[trigger] y[i] == a && y[i + 1] == b;
    assert((x + y)[x.len() + i] == a);
    assert((x + y)[x.len() + i + 1] == b);
}

proof fn lemma_pair_before(x: Seq<Seq<char>>, y: Seq<Seq<char>>, a: Seq<char>, b: Seq<char>)
    requires
        has_pair(x, a, b),
    ensures
        has_pair(x + y, a, b),
{
    let i = choose|i: int| 0 <= i && i + 1 < x.len() && #[trigger] x[i] == a && x[i + 1] == b;
    assert((x + y)[i] == a);
    assert((x + y)[i + 1] == b);
}

proof fn lemma_one_after(x: Seq<Seq<char>>, y: Seq<Seq<char>>, a: Seq<char>)
    requires
        y.contains(a),
    ensures
        (x + y).contains(a),
{
    let i = choose|i: int| 0 <= i < y.len() && y[i] == a;
    assert((x + y)[x.len() + i] == a);
}

proof fn lemma_one_before(x: Seq<Seq<char>>, y: Seq<Seq<char>>, a: Seq<char>)
    requires
        x.contains(a),
    ensures
        (x + y).contains(a),
{
    let i = choose|i: int| 0 <= i < x.len() && x[i] == a;
    assert((x + y)[i] == a);
}

/// Every selection option of `cli` is in any list that ends with its common
/// arguments.
#[verifier::spinoff_prover]
#[verifier::rlimit(40)]
proof fn lemma_common_args_carry(cli: Cli, head: Seq<Seq<char>>)
    ensures
        carries_selection(cli, head + common_args(cli)),
{
    let ws = flag_if(cli.workspace, "--workspace"@);
    let f = flag_value(cli.features, "--features"@);
    let af = flag_if(cli.all_features, "--all-features"@);
    let nd = flag_if(cli.no_default_features, "--no-default-features"@);
    let bn = flag_value(cli.bin, "--bin"@);
    let pk = flag_value(cli.package, "--package"@);
    let tg = flag_value(cli.target, "--target"@);
    let bs = joined_value(cli.build_std, "-Zbuild-std="@);
    let bf = joined_value(cli.build_std_features, "-Zbuild-std-features="@);
    assert(common_args(cli) == ws + f + af + nd + bn + pk + tg + bs + bf);
    if cli.workspace {
        let a = "--workspace"@;
        assert(ws[0] == a);
        lemma_one_before(ws, f, a);
        lemma_one_before(ws + f, af, a);
        lemma_one_before(ws + f + af, nd, a);
        lemma_one_before(ws + f + af + nd, bn, a);
        lemma_one_before(ws + f + af + nd + bn, pk, a);
        lemma_one_before(ws + f + af + nd + bn + pk, tg, a);
        lemma_one_before(ws + f + af + nd + bn + pk + tg, bs, a);
        lemma_one_before(ws + f + af + nd + bn + pk + tg + bs, bf, a);
        lemma_one_after(head, common_args(cli), a);
    }
    if let Some(v) = cli.features {
        let (a, b) = ("--features"@, v@);
        assert(f[0] == a && f[1] == b);
        lemma_pair_after(ws, f, a, b);
        lemma_pair_before(ws + f, af, a, b);
        lemma_pair_before(ws + f + af, nd, a, b);
        lemma_pair_before(ws + f + af + nd, bn, a, b);
        lemma_pair_before(ws + f + af + nd + bn, pk, a, b);
        lemma_pair_before(ws + f + af + nd + bn + pk, tg, a, b);
        lemma_pair_before(ws + f + af + nd + bn + pk + tg, bs, a, b);
        lemma_pair_before(ws + f + af + nd + bn + pk + tg + bs, bf, a, b);
        lemma_pair_after(head, common_args(cli), a, b);
    }
    if cli.all_features {
        let a = "--all-features"@;
        assert(af[0] == a);
        lemma_one_after(ws + f, af, a);
        lemma_one_before(ws + f + af, nd, a);
        lemma_one_before(ws + f + af + nd, bn, a);
        lemma_one_before(ws + f + af + nd + bn, pk, a);
        lemma_one_before(ws + f + af + nd + bn + pk, tg, a);
        lemma_one_before(ws + f + af + nd + bn + pk + tg, bs, a);
        lemma_one_before(ws + f + af + nd + bn + pk + tg + bs, bf, a);
        lemma_one_after(head, common_args(cli), a);
    }
    if cli.no_default_features {
        let a = "--no-default-features"@;
        assert(nd[0] == a);
        lemma_one_after(ws + f + af, nd, a);
        lemma_one_before(ws + f + af + nd, bn, a);
        lemma_one_before(ws + f + af + nd + bn, pk, a);
        lemma_one_before(ws + f + af + nd + bn + pk, tg, a);
        lemma_one_before(ws + f + af + nd + bn + pk + tg, bs, a);
        lemma_one_before(ws + f + af + nd + bn + pk + tg + bs, bf, a);
        lemma_one_after(head, common_args(cli), a);
    }
    if let Some(v) = cli.bin {
        let (a, b) = ("--bin"@, v@);
        assert(bn[0] == a && bn[1] == b);
        lemma_pair_after(ws + f + af + nd, bn, a, b);
        lemma_pair_before(ws + f + af + nd + bn, pk, a, b);
        lemma_pair_before(ws + f + af + nd + bn + pk, tg, a, b);
        lemma_pair_before(ws + f + af + nd + bn + pk + tg, bs, a, b);
        lemma_pair_before(ws + f + af + nd + bn + pk + tg + bs, bf, a, b);
        lemma_pair_after(head, common_args(cli), a, b);
    }
    if let Some(v) = cli.package {
        let (a, b) = ("--package"@, v@);
        assert(pk[0] == a && pk[1] == b);
        lemma_pair_after(ws + f + af + nd + bn, pk, a, b);
        lemma_pair_before(ws + f + af + nd + bn + pk, tg, a, b);
        lemma_pair_before(ws + f + af + nd + bn + pk + tg, bs, a, b);
        lemma_pair_before(ws + f + af + nd + bn + pk + tg + bs, bf, a, b);
        lemma_pair_after(head, common_args(cli), a, b);
    }
    if let Some(v) = cli.target {
        let (a, b) = ("--target"@, v@);
        assert(tg[0] == a && tg[1] == b);
        lemma_pair_after(ws + f + af + nd + bn + pk, tg, a, b);
        lemma_pair_before(ws + f + af + nd + bn + pk + tg, bs, a, b);
        lemma_pair_before(ws + f + af + nd + bn + pk + tg + bs, bf, a, b);
        lemma_pair_after(head, common_args(cli), a, b);
    }
    if let Some(v) = cli.build_std {
        let a = "-Zbuild-std="@ + v@;
        assert(bs[0] == a);
        lemma_one_after(ws + f + af + nd + bn + pk + tg, bs, a);
        lemma_one_before(ws + f + af + nd + bn + pk + tg + bs, bf, a);
        lemma_one_after(head, common_args(cli), a);
    }
    if let Some(v) = cli.build_std_features {
        let a = "-Zbuild-std-features="@ + v@;
        assert(bf[0] == a);
        lemma_one_after(ws + f + af + nd + bn + pk + tg + bs, bf, a);
        lemma_one_after(head, common_args(cli), a);
    }
}

/// `cargo build --unit-graph` and `cargo test --unit-graph` resolve the same
/// selection, whether or not `--locked` is passed: each carries every
/// workspace, feature, bin, package, target and standard-library option of
/// the command line, and after their fixed subcommand arguments the two
/// lists are the same.
pub proof fn law_unit_graph_calls_carry_the_selection(cli: Cli)
    ensures
        carries_selection(cli, unit_graph_arg_list(cli)),
        carries_selection(cli, test_unit_graph_arg_list(cli)),
        unit_graph_arg_list(cli).take(4) == seq!["build"@, "--unit-graph"@, "-Z"@, "unstable-options"@],
        test_unit_graph_arg_list(cli).take(5) == seq![
            "test"@,
            "--unit-graph"@,
            "-Z"@,
            "unstable-options"@,
            "--no-run"@,
        ],
        test_unit_graph_arg_list(cli).skip(5) == unit_graph_arg_list(cli).skip(4),
{
    lemma_build_args_carry(cli);
    lemma_test_args_carry(cli);
    lemma_unit_graph_heads(cli);
}

proof fn lemma_build_args_carry(cli: Cli)
    ensures
        carries_selection(cli, unit_graph_arg_list(cli)),
{
    let ub = seq!["build"@, "--unit-graph"@, "-Z"@, "unstable-options"@];
    lemma_common_args_carry(cli, ub + locked_args(cli));
}

proof fn lemma_test_args_carry(cli: Cli)
    ensures
        carries_selection(cli, test_unit_graph_arg_list(cli)),
{
    let tb = seq!["test"@, "--unit-graph"@, "-Z"@, "unstable-options"@, "--no-run"@];
    lemma_common_args_carry(cli, tb + locked_args(cli));
}

proof fn lemma_unit_graph_heads(cli: Cli)
    ensures
        unit_graph_arg_list(cli).take(4) == seq!["build"@, "--unit-graph"@, "-Z"@, "unstable-options"@],
        test_unit_graph_arg_list(cli).take(5) == seq![
            "test"@,
            "--unit-graph"@,
            "-Z"@,
            "unstable-options"@,
            "--no-run"@,
        ],
        test_unit_graph_arg_list(cli).skip(5) == unit_graph_arg_list(cli).skip(4),
{
    let ub = seq!["build"@, "--unit-graph"@, "-Z"@, "unstable-options"@];
    let tb = seq!["test"@, "--unit-graph"@, "-Z"@, "unstable-options"@, "--no-run"@];
    let tail = locked_args(cli) + common_args(cli);
    assert(unit_graph_arg_list(cli) =~= ub + tail);
    assert(test_unit_graph_arg_list(cli) =~= tb + tail);
    assert((ub + tail).take(4) =~= ub);
    assert((tb + tail).take(5) =~= tb);
    assert((ub + tail).skip(4) =~= tail);
    assert((tb + tail).skip(5) =~= tail);
}

} // verus!
