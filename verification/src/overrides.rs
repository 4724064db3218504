//! Known `-sys` crate registry for `--check-overrides`.
//!
//! Maps crate names to human-readable notes about the native libraries they
//! need. The registry is compiled in: it does not need to match the Nix-side
//! overrides exactly, but covers the same common cases.
use vstd::prelude::*;

use crate::output::{crate_views, CrateView, NixBuildPlan};
use crate::strmap::StrMap;
use crate::text::{
    append, dec_str, decimal, opt_view, pad_right, padded, sorted_seq_of, starts_with, str_eq, to_owned,
    views,
};

verus! {

/// A known crate entry: what it needs and whether it is covered.
#[derive(Debug)]
pub struct KnownCrate {
    /// Human-readable note about what the crate needs.
    pub note: &'static str,
    /// Whether nixpkgs' default crate overrides or the built-in ones cover it.
    pub covered: bool,
}

/// Override status for a single crate in the report.
#[derive(Debug)]
pub struct CrateOverrideStatus {
    pub name: String,
    pub links: String,
    pub status: &'static str,
    pub note: Option<String>,
}

/// Aggregate override coverage report.
#[derive(Debug)]
pub struct OverrideReport {
    pub total: usize,
    pub covered: usize,
    pub no_override_needed: usize,
    pub missing: usize,
    pub crates: Vec<CrateOverrideStatus>,
}

// ---------------------------------------------------------------------------
// The registry
// ---------------------------------------------------------------------------

/// Crates whose `links` field is Rust-internal and never needs a native override.
pub open spec fn no_override_names() -> Seq<Seq<char>> {
    seq![
        "rayon-core"@,
        "prettyplease"@,
        "compiler_builtins"@,
        "rustc-std-workspace-core"@,
        "rustc-std-workspace-alloc"@,
    ]
}

/// Prefixes of `links` values that are Rust-internal.
pub open spec fn no_override_prefixes() -> Seq<Seq<char>> {
    seq!["ring_core_"@]
}

/// The crate is Rust-internal by its name or by the prefix of its `links` value.
pub open spec fn known_no_override(crate_name: Seq<char>, links: Seq<char>) -> bool {
    no_override_names().contains(crate_name) || exists|i: int|
        0 <= i < no_override_prefixes().len() && (#[trigger] no_override_prefixes()[i]).is_prefix_of(links)
}

/// The registry: `(crate name, note, covered)`, nixpkgs' overrides first,
/// then the built-in ones.
pub open spec fn registry() -> Seq<(Seq<char>, Seq<char>, bool)> {
    seq![
        ("openssl-sys"@, "needs pkg-config + openssl.dev"@, true),
        ("libgit2-sys"@, "needs pkg-config + libgit2"@, true),
        ("libz-sys"@, "needs pkg-config + zlib"@, true),
        ("libsqlite3-sys"@, "needs pkg-config + sqlite.dev"@, true),
        ("libssh2-sys"@, "needs pkg-config + libssh2"@, true),
        ("curl-sys"@, "needs pkg-config + curl"@, true),
        ("libdbus-sys"@, "needs pkg-config + dbus"@, true),
        ("prost-build"@, "needs protobuf compiler"@, true),
        ("rdkafka-sys"@, "needs pkg-config + rdkafka"@, true),
        ("pq-sys"@, "needs pkg-config + postgresql"@, true),
        ("alsa-sys"@, "needs pkg-config + alsa-lib"@, true),
        ("freetype-sys"@, "needs pkg-config + freetype"@, true),
        ("expat-sys"@, "needs pkg-config + expat"@, true),
        ("libudev-sys"@, "needs pkg-config + udev"@, true),
        ("aws-lc-sys"@, "needs cmake + go"@, true),
        ("ring"@, "needs perl for build script assembly compilation"@, true),
        ("tikv-jemalloc-sys"@, "needs make for vendored jemalloc build"@, true),
        ("jemalloc-sys"@, "needs make for vendored jemalloc build"@, true),
        ("onig_sys"@, "needs pkg-config + oniguruma"@, true),
        ("librocksdb-sys"@, "needs cmake + rocksdb"@, true),
        ("zstd-sys"@, "needs pkg-config + zstd"@, true),
        ("bzip2-sys"@, "needs pkg-config + bzip2"@, true),
        ("lzma-sys"@, "needs pkg-config + xz/lzma"@, true),
    ]
}

/// The note and coverage of the registry entry named `name`.
pub open spec fn registry_entry(entries: Seq<(Seq<char>, Seq<char>, bool)>, name: Seq<char>) -> Option<
    (Seq<char>, bool),
>
    decreases entries.len(),
{
    if entries.len() == 0 {
        None
    } else if entries[0].0 == name {
        Some((entries[0].1, entries[0].2))
    } else {
        registry_entry(entries.drop_first(), name)
    }
}

/// The names of [`no_override_names`].
fn known_no_override_names() -> (r: Vec<&'static str>)
    ensures
        r@.map_values(|s: &str| s@) == no_override_names(),
{
    let r = vec![
        "rayon-core",
        "prettyplease",
        "compiler_builtins",
        "rustc-std-workspace-core",
        "rustc-std-workspace-alloc",
    ];
    proof {
        assert(r@.map_values(|s: &str| s@) =~= no_override_names());
    }
    r
}

/// The prefixes of [`no_override_prefixes`].
fn known_no_override_prefixes() -> (r: Vec<&'static str>)
    ensures
        r@.map_values(|s: &str| s@) == no_override_prefixes(),
{
    let r = vec!["ring_core_"];
    proof {
        assert(r@.map_values(|s: &str| s@) =~= no_override_prefixes());
    }
    r
}

/// Whether a crate is Rust-internal and never needs a native override.
pub fn is_known_no_override(crate_name: &str, links_value: &str) -> (r: bool)
    ensures
        r == known_no_override(crate_name@, links_value@),
{
    let names = known_no_override_names();
    let mut i: usize = 0;
    while i < names.len()
        invariant
            i <= names.len(),
            names@.map_values(|s: &str| s@) == no_override_names(),
            forall|j: int| 0 <= j < i ==> no_override_names()[j] != crate_name@,
        decreases names.len() - i,
    {
        if str_eq(names[i], crate_name) {
            proof {
                assert(no_override_names()[i as int] == crate_name@);
            }
            return true;
        }
        i = i + 1;
    }
    let prefixes = known_no_override_prefixes();
    let mut k: usize = 0;
    while k < prefixes.len()
        invariant
            k <= prefixes.len(),
            prefixes@.map_values(|s: &str| s@) == no_override_prefixes(),
            forall|j: int| 0 <= j < k ==> !(#[trigger] no_override_prefixes()[j]).is_prefix_of(links_value@),
        decreases prefixes.len() - k,
    {
        if starts_with(links_value, prefixes[k]) {
            proof {
                assert(no_override_prefixes()[k as int].is_prefix_of(links_value@));
            }
            return true;
        }
        k = k + 1;
    }
    proof {
        assert(!no_override_names().contains(crate_name@)) by {
            if no_override_names().contains(crate_name@) {
                let j = choose|j: int| 0 <= j < no_override_names().len() && no_override_names()[j] == crate_name@;
                assert(no_override_names()[j] != crate_name@);
            }
        }
    }
    false
}

/// The views of the registry's entries.
pub open spec fn registry_view(r: Seq<(&str, KnownCrate)>) -> Seq<(Seq<char>, Seq<char>, bool)> {
    r.map_values(|e: (&str, KnownCrate)| (e.0@, e.1.note@, e.1.covered))
}

/// Build the known-crate registry.
fn known_crates() -> (r: Vec<(&'static str, KnownCrate)>)
    ensures
        registry_view(r@) == registry(),
{
    let r = vec![
        ("openssl-sys", KnownCrate { note: "needs pkg-config + openssl.dev", covered: true }),
        ("libgit2-sys", KnownCrate { note: "needs pkg-config + libgit2", covered: true }),
        ("libz-sys", KnownCrate { note: "needs pkg-config + zlib", covered: true }),
        ("libsqlite3-sys", KnownCrate { note: "needs pkg-config + sqlite.dev", covered: true }),
        ("libssh2-sys", KnownCrate { note: "needs pkg-config + libssh2", covered: true }),
        ("curl-sys", KnownCrate { note: "needs pkg-config + curl", covered: true }),
        ("libdbus-sys", KnownCrate { note: "needs pkg-config + dbus", covered: true }),
        ("prost-build", KnownCrate { note: "needs protobuf compiler", covered: true }),
        ("rdkafka-sys", KnownCrate { note: "needs pkg-config + rdkafka", covered: true }),
        ("pq-sys", KnownCrate { note: "needs pkg-config + postgresql", covered: true }),
        ("alsa-sys", KnownCrate { note: "needs pkg-config + alsa-lib", covered: true }),
        ("freetype-sys", KnownCrate { note: "needs pkg-config + freetype", covered: true }),
        ("expat-sys", KnownCrate { note: "needs pkg-config + expat", covered: true }),
        ("libudev-sys", KnownCrate { note: "needs pkg-config + udev", covered: true }),
        ("aws-lc-sys", KnownCrate { note: "needs cmake + go", covered: true }),
        ("ring", KnownCrate { note: "needs perl for build script assembly compilation", covered: true }),
        ("tikv-jemalloc-sys", KnownCrate { note: "needs make for vendored jemalloc build", covered: true }),
        ("jemalloc-sys", KnownCrate { note: "needs make for vendored jemalloc build", covered: true }),
        ("onig_sys", KnownCrate { note: "needs pkg-config + oniguruma", covered: true }),
        ("librocksdb-sys", KnownCrate { note: "needs cmake + rocksdb", covered: true }),
        ("zstd-sys", KnownCrate { note: "needs pkg-config + zstd", covered: true }),
        ("bzip2-sys", KnownCrate { note: "needs pkg-config + bzip2", covered: true }),
        ("lzma-sys", KnownCrate { note: "needs pkg-config + xz/lzma", covered: true }),
    ];
    proof {
        assert(registry_view(r@) =~= registry());
    }
    r
}

// ---------------------------------------------------------------------------
// The report
// ---------------------------------------------------------------------------

/// The status and note that the report gives a crate with a `links` value.
pub open spec fn status_of(name: Seq<char>, links: Seq<char>) -> (Seq<char>, Option<Seq<char>>) {
    if known_no_override(name, links) {
        ("no-override-needed"@, Some("Rust-internal"@))
    } else {
        match registry_entry(registry(), name) {
            Some((note, covered)) => if covered {
                ("covered"@, Some(note))
            } else {
                ("unknown"@, Some(note))
            },
            None => ("unknown"@, None),
        }
    }
}

/// The `links` values of the crates named `name` among `keys`, in order.
pub open spec fn named_links(keys: Seq<Seq<char>>, m: Map<Seq<char>, CrateView>, name: Seq<char>) -> Seq<
    Seq<char>,
>
    decreases keys.len(),
{
    if keys.len() == 0 {
        Seq::empty()
    } else {
        let prev = named_links(keys.drop_last(), m, name);
        let c = m[keys.last()];
        if c.crate_name == name && c.links is Some {
            prev.push(c.links->0)
        } else {
            prev
        }
    }
}

/// The names of the crates that have a `links` value.
pub open spec fn linked_names(m: Map<Seq<char>, CrateView>) -> Set<Seq<char>> {
    Set::new(
        |n: Seq<char>|
            exists|k: Seq<char>| m.contains_key(k) && m[k].links is Some && #[trigger] m[k].crate_name == n,
    )
}

/// `(name, links)` of the crates named by `names`, name after name, each
/// name's crates in the order of `keys`.
pub open spec fn entries_for(names: Seq<Seq<char>>, keys: Seq<Seq<char>>, m: Map<Seq<char>, CrateView>) -> Seq<
    (Seq<char>, Seq<char>),
>
    decreases names.len(),
{
    if names.len() == 0 {
        Seq::empty()
    } else {
        let n = names.last();
        entries_for(names.drop_last(), keys, m) + named_links(keys, m, n).map_values(
            |l: Seq<char>| (n, l),
        )
    }
}

/// `(name, links)` of every crate that has a `links` value: sorted by name,
/// and crates of one name in package-ID order.
pub open spec fn link_entries(m: Map<Seq<char>, CrateView>) -> Seq<(Seq<char>, Seq<char>)> {
    entries_for(sorted_seq_of(linked_names(m)), sorted_seq_of(m.dom()), m)
}

/// A report line by `(name, links, status, note)`.
pub type StatusView = (Seq<char>, Seq<char>, Seq<char>, Option<Seq<char>>);

/// The view of a report line.
pub open spec fn status_view(s: CrateOverrideStatus) -> StatusView {
    (s.name@, s.links@, s.status@, opt_view(s.note))
}

/// The views of report lines.
pub open spec fn status_views(s: Seq<CrateOverrideStatus>) -> Seq<StatusView> {
    s.map_values(|x: CrateOverrideStatus| status_view(x))
}

/// The report line of a `(name, links)` entry.
pub open spec fn entry_status(e: (Seq<char>, Seq<char>)) -> StatusView {
    (e.0, e.1, status_of(e.0, e.1).0, status_of(e.0, e.1).1)
}

/// The report lines of the crates of a plan.
pub open spec fn report_statuses(m: Map<Seq<char>, CrateView>) -> Seq<StatusView> {
    link_entries(m).map_values(|e: (Seq<char>, Seq<char>)| entry_status(e))
}

/// How many report lines have status `st`.
pub open spec fn count_status(s: Seq<StatusView>, st: Seq<char>) -> nat
    decreases s.len(),
{
    if s.len() == 0 {
        0
    } else {
        count_status(s.drop_last(), st) + if s.last().2 == st {
            1nat
        } else {
            0nat
        }
    }
}

/// The registry entry named `name`.
fn lookup_known<'a>(reg: &'a Vec<(&'static str, KnownCrate)>, name: &str) -> (r: Option<&'a KnownCrate>)
    requires
        registry_view(reg@) == registry(),
    ensures
        match registry_entry(registry(), name@) {
            Some((note, covered)) => r matches Some(k) && k.note@ == note && k.covered == covered,
            None => r is None,
        },
{
    let mut i: usize = 0;
    proof {
        assert(registry().skip(0) =~= registry());
    }
    while i < reg.len()
        invariant
            i <= reg.len(),
            registry_view(reg@) == registry(),
            registry_entry(registry(), name@) == registry_entry(registry().skip(i as int), name@),
        decreases reg.len() - i,
    {
        proof {
            assert(registry().skip(i as int)[0] == registry()[i as int]);
            assert(registry().skip(i as int).drop_first() =~= registry().skip(i + 1));
            assert(registry()[i as int] == (reg@[i as int].0@, reg@[i as int].1.note@, reg@[i as int].1.covered));
        }
        if str_eq(reg[i].0, name) {
            return Some(&reg[i].1);
        }
        i = i + 1;
    }
    proof {
        assert(registry().skip(i as int).len() == 0);
    }
    None
}

/// The report line of a crate named `name` with `links` value `links`.
fn make_status(reg: &Vec<(&'static str, KnownCrate)>, name: &str, links: &str) -> (r: CrateOverrideStatus)
    requires
        registry_view(reg@) == registry(),
    ensures
        status_view(r) == entry_status((name@, links@)),
{
    if is_known_no_override(name, links) {
        CrateOverrideStatus {
            name: to_owned(name),
            links: to_owned(links),
            status: "no-override-needed",
            note: Some(to_owned("Rust-internal")),
        }
    } else {
        match lookup_known(reg, name) {
            Some(known) => {
                if known.covered {
                    CrateOverrideStatus {
                        name: to_owned(name),
                        links: to_owned(links),
                        status: "covered",
                        note: Some(to_owned(known.note)),
                    }
                } else {
                    CrateOverrideStatus {
                        name: to_owned(name),
                        links: to_owned(links),
                        status: "unknown",
                        note: Some(to_owned(known.note)),
                    }
                }
            },
            None => CrateOverrideStatus {
                name: to_owned(name),
                links: to_owned(links),
                status: "unknown",
                note: None,
            },
        }
    }
}

/// A name has `links` entries among `keys` exactly when some key of that
/// name has a `links` value.
proof fn lemma_named_links_nonempty(keys: Seq<Seq<char>>, m: Map<Seq<char>, CrateView>, n: Seq<char>)
    ensures
        named_links(keys, m, n).len() > 0 <==> exists|j: int|
            0 <= j < keys.len() && m[#[trigger] keys[j]].crate_name == n && m[keys[j]].links is Some,
    decreases keys.len(),
{
    if keys.len() > 0 {
        let prev = keys.drop_last();
        lemma_named_links_nonempty(prev, m, n);
        if exists|j: int| 0 <= j < prev.len() && m[#[trigger] prev[j]].crate_name == n && m[prev[j]].links is Some {
            let j = choose|j: int| 0 <= j < prev.len() && m[#[trigger] prev[j]].crate_name == n && m[prev[j]].links is Some;
            assert(keys[j] == prev[j]);
        }
        if exists|j: int| 0 <= j < keys.len() && m[#[trigger] keys[j]].crate_name == n && m[keys[j]].links is Some {
            let j = choose|j: int| 0 <= j < keys.len() && m[#[trigger] keys[j]].crate_name == n && m[keys[j]].links is Some;
            if j < keys.len() - 1 {
                assert(prev[j] == keys[j]);
            }
        }
    }
}

/// One of the three statuses of a report line.
pub open spec fn is_status(st: Seq<char>) -> bool {
    st == "covered"@ || st == "no-override-needed"@ || st == "unknown"@
}

proof fn lemma_status_of_is_status(name: Seq<char>, links: Seq<char>)
    ensures
        is_status(status_of(name, links).0),
{
}

/// When every line has one of the three statuses, the counts of the three
/// add up to the number of lines.
proof fn lemma_counts_partition(s: Seq<StatusView>)
    requires
        forall|j: int| 0 <= j < s.len() ==> is_status(#[trigger] s[j].2),
    ensures
        count_status(s, "covered"@) + count_status(s, "no-override-needed"@) + count_status(s, "unknown"@) == s.len(),
    decreases s.len(),
{
    reveal_strlit("covered");
    reveal_strlit("no-override-needed");
    reveal_strlit("unknown");
    assert("covered"@[0] != "unknown"@[0]);
    assert("covered"@.len() != "no-override-needed"@.len());
    assert("unknown"@.len() != "no-override-needed"@.len());
    if s.len() > 0 {
        assert forall|j: int| 0 <= j < s.drop_last().len() implies is_status(#[trigger] s.drop_last()[j].2) by {
            assert(s.drop_last()[j] == s[j]);
        }
        lemma_counts_partition(s.drop_last());
        assert(is_status(s[s.len() - 1].2));
    }
}

/// How many of the crates `keys` have a `links` value.
pub open spec fn count_linked(keys: Seq<Seq<char>>, m: Map<Seq<char>, CrateView>) -> nat
    decreases keys.len(),
{
    if keys.len() == 0 {
        0
    } else {
        count_linked(keys.drop_last(), m) + if m[keys.last()].links is Some {
            1nat
        } else {
            0nat
        }
    }
}

/// The number of `links` values of the crates named by `names`, name by name.
pub open spec fn sum_named(names: Seq<Seq<char>>, keys: Seq<Seq<char>>, m: Map<Seq<char>, CrateView>) -> nat
    decreases names.len(),
{
    if names.len() == 0 {
        0
    } else {
        sum_named(names.drop_last(), keys, m) + named_links(keys, m, names.last()).len()
    }
}

/// How many times `x` occurs in `s`.
pub open spec fn occurrences(s: Seq<Seq<char>>, x: Seq<char>) -> nat
    decreases s.len(),
{
    if s.len() == 0 {
        0
    } else {
        occurrences(s.drop_last(), x) + if s.last() == x {
            1nat
        } else {
            0nat
        }
    }
}

proof fn lemma_entries_len(names: Seq<Seq<char>>, keys: Seq<Seq<char>>, m: Map<Seq<char>, CrateView>)
    ensures
        entries_for(names, keys, m).len() == sum_named(names, keys, m),
    decreases names.len(),
{
    if names.len() > 0 {
        lemma_entries_len(names.drop_last(), keys, m);
    }
}

/// A name that occurs once in a sequence without duplicates.
proof fn lemma_occurrences(s: Seq<Seq<char>>, x: Seq<char>)
    requires
        s.no_duplicates(),
    ensures
        occurrences(s, x) == if s.contains(x) {
            1nat
        } else {
            0nat
        },
    decreases s.len(),
{
    if s.len() > 0 {
        let d = s.drop_last();
        assert(d.no_duplicates()) by {
            assert forall|a: int, b: int| 0 <= a < d.len() && 0 <= b < d.len() && a != b implies d[a] != d[b] by {
                assert(d[a] == s[a] && d[b] == s[b]);
            }
        }
        lemma_occurrences(d, x);
        if d.contains(x) {
            let j = choose|j: int| 0 <= j < d.len() && d[j] == x;
            assert(s[j] == x);
            if s.last() == x {
                assert(s[s.len() - 1] == x);
            }
        }
        if s.contains(x) && !d.contains(x) {
            let j = choose|j: int| 0 <= j < s.len() && s[j] == x;
            if j < s.len() - 1 {
                assert(d[j] == x);
            }
        }
        if !s.contains(x) && s.last() == x {
            assert(s[s.len() - 1] == x);
        }
        if d.contains(x) {
            let j = choose|j: int| 0 <= j < d.len() && d[j] == x;
            assert(s.contains(x)) by {
                assert(s[j] == x);
            }
        }
    }
}

/// Adding a key to the keys adds one to the sum for each occurrence of its
/// name, when it has a `links` value.
proof fn lemma_sum_named_step(names: Seq<Seq<char>>, keys: Seq<Seq<char>>, m: Map<Seq<char>, CrateView>)
    requires
        keys.len() > 0,
    ensures
        sum_named(names, keys, m) == sum_named(names, keys.drop_last(), m) + if m[keys.last()].links is Some {
            occurrences(names, m[keys.last()].crate_name)
        } else {
            0nat
        },
    decreases names.len(),
{
    if names.len() > 0 {
        lemma_sum_named_step(names.drop_last(), keys, m);
    }
}

/// With distinct names that cover every crate with a `links` value, the sum
/// over the names counts those crates.
proof fn lemma_sum_named_counts(names: Seq<Seq<char>>, keys: Seq<Seq<char>>, m: Map<Seq<char>, CrateView>)
    requires
        names.no_duplicates(),
        forall|j: int| 0 <= j < keys.len() && m[keys[j]].links is Some ==> names.contains(#[trigger] m[keys[j]].crate_name),
    ensures
        sum_named(names, keys, m) == count_linked(keys, m),
    decreases keys.len(),
{
    if keys.len() == 0 {
        lemma_sum_named_zero(names, keys, m);
    } else {
        let d = keys.drop_last();
        assert forall|j: int| 0 <= j < d.len() && m[d[j]].links is Some implies names.contains(
            #[trigger] m[d[j]].crate_name,
        ) by {
            assert(d[j] == keys[j]);
        }
        lemma_sum_named_counts(names, d, m);
        lemma_sum_named_step(names, keys, m);
        let k = keys.last();
        lemma_occurrences(names, m[k].crate_name);
        if m[k].links is Some {
            assert(names.contains(m[keys[keys.len() - 1]].crate_name));
        }
    }
}

proof fn lemma_sum_named_zero(names: Seq<Seq<char>>, keys: Seq<Seq<char>>, m: Map<Seq<char>, CrateView>)
    requires
        keys.len() == 0,
    ensures
        sum_named(names, keys, m) == 0,
    decreases names.len(),
{
    if names.len() > 0 {
        lemma_sum_named_zero(names.drop_last(), keys, m);
    }
}

/// Counts the report lines of each status.
fn count_statuses(statuses: &Vec<CrateOverrideStatus>) -> (r: (usize, usize, usize))
    ensures
        r.0 == count_status(status_views(statuses@), "covered"@),
        r.1 == count_status(status_views(statuses@), "no-override-needed"@),
        r.2 == count_status(status_views(statuses@), "unknown"@),
{
    let mut covered: usize = 0;
    let mut no_override: usize = 0;
    let mut missing: usize = 0;
    let mut j: usize = 0;
    while j < statuses.len()
        invariant
            j <= statuses.len(),
            covered <= j && no_override <= j && missing <= j,
            covered == count_status(status_views(statuses@.take(j as int)), "covered"@),
            no_override == count_status(status_views(statuses@.take(j as int)), "no-override-needed"@),
            missing == count_status(status_views(statuses@.take(j as int)), "unknown"@),
        decreases statuses.len() - j,
    {
        proof {
            let sv = status_views(statuses@.take(j + 1));
            assert(sv.drop_last() =~= status_views(statuses@.take(j as int)));
            assert(sv.last() == status_view(statuses@[j as int]));
        }
        let st = statuses[j].status;
        if str_eq(st, "covered") {
            covered = covered + 1;
        }
        if str_eq(st, "no-override-needed") {
            no_override = no_override + 1;
        }
        if str_eq(st, "unknown") {
            missing = missing + 1;
        }
        j = j + 1;
    }
    proof {
        assert(statuses@.take(j as int) =~= statuses@);
    }
    (covered, no_override, missing)
}

/// Analyze override coverage for a build plan.
///
/// The report lists every crate that has a `links` value, sorted by crate
/// name (crates of one name in package-ID order), each with its status:
/// Rust-internal ones need no override, registered ones are covered, the
/// rest may need one. The totals count the lines of each status.
pub fn check_overrides(plan: &NixBuildPlan) -> (r: OverrideReport)
    ensures
        status_views(r.crates@) == report_statuses(crate_views(plan.crates@)),
        r.total == report_statuses(crate_views(plan.crates@)).len(),
        r.covered == count_status(report_statuses(crate_views(plan.crates@)), "covered"@),
        r.no_override_needed == count_status(
            report_statuses(crate_views(plan.crates@)),
            "no-override-needed"@,
        ),
        r.missing == count_status(report_statuses(crate_views(plan.crates@)), "unknown"@),
        r.covered + r.no_override_needed + r.missing == r.total,
        r.total == count_linked(sorted_seq_of(crate_views(plan.crates@).dom()), crate_views(plan.crates@)),
{
    let reg = known_crates();
    let ghost m = crate_views(plan.crates@);
    let crates = &plan.crates;
    crates.keys_are_sorted();
    proof {
        crates.lemma_pairs_are_sorted_map();
        assert(m.dom() =~= crates@.dom());
    }
    let ghost keys = crates.keys();
    // Group the `links` values by crate name, in package-ID order.
    let mut groups: StrMap<Vec<String>> = StrMap::new();
    let mut i: usize = 0;
    while i < crates.len()
        invariant
            i <= crates.pairs().len(),
            keys == crates.keys(),
            m == crate_views(crates@),
            forall|j: int| 0 <= j < crates.pairs().len() ==> #[trigger] crates@[crates.pairs()[j].0] == crates.pairs()[j].1,
            forall|n: Seq<char>|
                #![trigger groups@.contains_key(n)]
                groups@.contains_key(n) <==> named_links(keys.take(i as int), m, n).len() > 0,
            forall|n: Seq<char>|
                #![trigger groups@[n]]
                groups@.contains_key(n) ==> views(groups@[n]@) == named_links(keys.take(i as int), m, n),
        decreases crates.pairs().len() - i,
    {
        let c = crates.value_at(i);
        let ghost k = keys[i as int];
        proof {
            assert(keys.take(i + 1).drop_last() =~= keys.take(i as int));
            assert(keys.take(i + 1).last() == k);
            assert(k == crates.pairs()[i as int].0);
            assert(m[k] == c@);
        }
        match &c.links {
            Some(l) => {
                let ghost nm = c.crate_name@;
                match groups.index_of(c.crate_name.as_str()) {
                    Some(idx) => {
                        groups.keys_are_sorted();
                        proof {
                            groups.lemma_pair_in_view(idx as int);
                        }
                        let mut v = groups.replace_value_at(idx, Vec::new());
                        let ghost before = views(v@);
                        v.push(l.clone());
                        proof {
                            assert(views(v@) =~= before.push(l@));
                        }
                        groups.replace_value_at(idx, v);
                    },
                    None => {
                        let mut v: Vec<String> = Vec::new();
                        v.push(l.clone());
                        proof {
                            assert(named_links(keys.take(i as int), m, nm).len() == 0);
                            assert(named_links(keys.take(i as int), m, nm) =~= Seq::<Seq<char>>::empty());
                            assert(views(v@) =~= seq![l@]);
                        }
                        groups.insert(c.crate_name.clone(), v);
                    },
                }
            },
            None => {},
        }
        i = i + 1;
    }
    proof {
        assert(keys.take(i as int) =~= keys);
    }
    groups.keys_are_sorted();
    proof {
        groups.lemma_pairs_are_sorted_map();
        assert(groups@.dom() =~= linked_names(m)) by {
            assert forall|n: Seq<char>| groups@.dom().contains(n) <==> linked_names(m).contains(n) by {
                lemma_named_links_nonempty(keys, m, n);
                if groups@.contains_key(n) {
                    let j = choose|j: int| 0 <= j < keys.len() && m[#[trigger] keys[j]].crate_name == n && m[keys[j]].links is Some;
                    assert(keys.to_set().contains(keys[j]));
                    assert(m.contains_key(keys[j]));
                }
                if linked_names(m).contains(n) {
                    let k = choose|k: Seq<char>| m.contains_key(k) && m[k].links is Some && #[trigger] m[k].crate_name == n;
                    assert(keys.to_set().contains(k));
                    let j = choose|j: int| 0 <= j < keys.len() && keys[j] == k;
                    assert(m[keys[j]].crate_name == n);
                }
            }
        }
    }
    let ghost names = groups.keys();
    // One report line per (name, links), by name, then in package-ID order.
    let mut statuses: Vec<CrateOverrideStatus> = Vec::new();
    let mut gi: usize = 0;
    proof {
        assert(names.take(0) =~= Seq::<Seq<char>>::empty());
        assert(status_views(statuses@) =~= Seq::<StatusView>::empty());
    }
    while gi < groups.len()
        invariant
            gi <= groups.pairs().len(),
            names == groups.keys(),
            registry_view(reg@) == registry(),
            forall|j: int| 0 <= j < groups.pairs().len() ==> #[trigger] groups@[groups.pairs()[j].0] == groups.pairs()[j].1,
            forall|n: Seq<char>|
                #![trigger groups@[n]]
                groups@.contains_key(n) ==> views(groups@[n]@) == named_links(keys, m, n),
            status_views(statuses@) == entries_for(names.take(gi as int), keys, m).map_values(
                |e: (Seq<char>, Seq<char>)| entry_status(e),
            ),
        decreases groups.pairs().len() - gi,
    {
        let name = groups.key_at(gi);
        let list = groups.value_at(gi);
        let ghost n = name@;
        let ghost done = entries_for(names.take(gi as int), keys, m).map_values(
            |e: (Seq<char>, Seq<char>)| entry_status(e),
        );
        proof {
            assert(names[gi as int] == n);
            assert(groups@[n] == *list);
            assert(views(list@) == named_links(keys, m, n));
        }
        let mut li: usize = 0;
        proof {
            assert(status_views(statuses@) =~= done + named_links(keys, m, n).take(0).map_values(
                |l: Seq<char>| entry_status((n, l)),
            ));
        }
        while li < list.len()
            invariant
                li <= list.len(),
                name@ == n,
                views(list@) == named_links(keys, m, n),
                registry_view(reg@) == registry(),
                status_views(statuses@) == done + named_links(keys, m, n).take(li as int).map_values(
                    |l: Seq<char>| entry_status((n, l)),
                ),
            decreases list.len() - li,
        {
            let st = make_status(&reg, name.as_str(), list[li].as_str());
            let ghost before = status_views(statuses@);
            statuses.push(st);
            proof {
                assert(views(list@)[li as int] == list@[li as int]@);
                assert(status_views(statuses@) =~= before.push(status_view(st)));
                assert(named_links(keys, m, n).take(li + 1).map_values(|l: Seq<char>| entry_status((n, l)))
                    =~= named_links(keys, m, n).take(li as int).map_values(
                    |l: Seq<char>| entry_status((n, l)),
                ).push(entry_status((n, list@[li as int]@))));
                assert(status_views(statuses@) =~= done + named_links(keys, m, n).take(li + 1).map_values(
                    |l: Seq<char>| entry_status((n, l)),
                ));
            }
            li = li + 1;
        }
        proof {
            assert(names.take(gi + 1).drop_last() =~= names.take(gi as int));
            assert(names.take(gi + 1).last() == n);
            let prev = entries_for(names.take(gi as int), keys, m);
            let more = named_links(keys, m, n).map_values(|l: Seq<char>| (n, l));
            assert(entries_for(names.take(gi + 1), keys, m) == prev + more);
            assert(named_links(keys, m, n).take(li as int) =~= named_links(keys, m, n));
            assert((prev + more).map_values(|e: (Seq<char>, Seq<char>)| entry_status(e)) =~= done
                + named_links(keys, m, n).map_values(|l: Seq<char>| entry_status((n, l))));
        }
        gi = gi + 1;
    }
    proof {
        assert(names.take(gi as int) =~= names);
        assert(names == sorted_seq_of(linked_names(m)));
        assert(keys == sorted_seq_of(m.dom()));
        assert(keys.to_set() =~= m.dom());
        assert(names.no_duplicates()) by {
            assert forall|a: int, b: int| 0 <= a < names.len() && 0 <= b < names.len() && a != b implies names[a]
                != names[b] by {
                if a < b {
                    crate::text::lemma_seq_lt_irreflexive(names[a]);
                } else {
                    crate::text::lemma_seq_lt_irreflexive(names[b]);
                }
            }
        }
        assert forall|j: int| 0 <= j < keys.len() && m[keys[j]].links is Some implies names.contains(
            #[trigger] m[keys[j]].crate_name,
        ) by {
            assert(keys.to_set().contains(keys[j]));
            assert(linked_names(m).contains(m[keys[j]].crate_name));
            assert(names.to_set().contains(m[keys[j]].crate_name));
        }
        lemma_entries_len(names, keys, m);
        lemma_sum_named_counts(names, keys, m);
    }
    let (covered, no_override_needed, missing) = count_statuses(&statuses);
    proof {
        let sv = status_views(statuses@);
        assert forall|j: int| 0 <= j < sv.len() implies is_status(#[trigger] sv[j].2) by {
            let e = link_entries(m)[j];
            assert(sv[j] == entry_status(e));
            lemma_status_of_is_status(e.0, e.1);
        }
        lemma_counts_partition(sv);
    }
    OverrideReport { total: statuses.len(), covered, no_override_needed, missing, crates: statuses }
}

// ---------------------------------------------------------------------------
// Human-readable text of a report
// ---------------------------------------------------------------------------

/// The text line of one report entry: icon, padded name and `links` value,
/// status label and note.
pub open spec fn status_line(s: StatusView) -> Seq<char> {
    let ok = s.2 == "covered"@ || s.2 == "no-override-needed"@;
    let icon = if ok {
        "\u{2713}"@
    } else {
        "?"@
    };
    let label = if s.2 == "covered"@ {
        "covered"@
    } else if s.2 == "no-override-needed"@ {
        "no override needed"@
    } else {
        "may need extraCrateOverrides"@
    };
    let detail = match s.3 {
        Some(n) => " ("@ + n + ")"@,
        None => Seq::empty(),
    };
    "  "@ + icon + " "@ + padded(s.0, 30) + "  links="@ + padded(s.1, 20) + "  "@ + label + detail
}

/// The advice printed when some crates may need an override.
pub open spec fn missing_hint() -> Seq<Seq<char>> {
    seq![
        Seq::empty(),
        "For missing crates, add overrides via extraCrateOverrides:"@,
        "  buildFromUnitGraph {"@,
        "    extraCrateOverrides = {"@,
        "      <crate-name> = attrs: {"@,
        "        nativeBuildInputs = [ pkgs.pkg-config ];"@,
        "        buildInputs = [ pkgs.<library> ];"@,
        "      };"@,
        "    };"@,
        "  };"@,
        Seq::empty(),
        "See docs/sys-crate-overrides.md for details."@,
    ]
}

/// The lines of the human-readable form of a report.
pub open spec fn report_text(r: OverrideReport) -> Seq<Seq<char>> {
    if r.total == 0 {
        seq![
            "No crates with native link requirements found."@,
            "This is a pure Rust project \u{2014} no overrides needed."@,
        ]
    } else {
        let head = seq![
            "Found "@ + dec_str(r.total as nat) + " crate(s) with native link requirements:"@,
            Seq::empty(),
        ];
        let body = status_views(r.crates@).map_values(|s: StatusView| status_line(s));
        let summary = seq![
            Seq::empty(),
            "Summary: "@ + dec_str(r.covered as nat) + " covered, "@ + dec_str(r.no_override_needed as nat)
                + " no-override-needed, "@ + dec_str(r.missing as nat) + " may need attention"@,
        ];
        let hint = if r.missing > 0 {
            missing_hint()
        } else {
            Seq::empty()
        };
        head + body + summary + hint
    }
}

/// The text line of one report entry.
fn status_line_of(s: &CrateOverrideStatus) -> (r: String)
    ensures
        r@ == status_line(status_view(*s)),
{
    let covered = str_eq(s.status, "covered");
    let no_override = str_eq(s.status, "no-override-needed");
    let mut r = to_owned("  ");
    if covered || no_override {
        append(&mut r, "\u{2713}");
    } else {
        append(&mut r, "?");
    }
    append(&mut r, " ");
    append(&mut r, pad_right(s.name.as_str(), 30).as_str());
    append(&mut r, "  links=");
    append(&mut r, pad_right(s.links.as_str(), 20).as_str());
    append(&mut r, "  ");
    if covered {
        append(&mut r, "covered");
    } else if no_override {
        append(&mut r, "no override needed");
    } else {
        append(&mut r, "may need extraCrateOverrides");
    }
    match &s.note {
        Some(n) => {
            append(&mut r, " (");
            append(&mut r, n.as_str());
            append(&mut r, ")");
        },
        None => {},
    }
    r
}

/// The lines of the human-readable form of a report, each to be printed on
/// a line of its own.
pub fn override_report_lines(report: &OverrideReport) -> (r: Vec<String>)
    ensures
        views(r@) == report_text(*report),
{
    let mut lines: Vec<String> = Vec::new();
    if report.total == 0 {
        lines.push(to_owned("No crates with native link requirements found."));
        lines.push(to_owned("This is a pure Rust project \u{2014} no overrides needed."));
        proof {
            assert(views(lines@) =~= report_text(*report));
        }
        return lines;
    }
    let mut found = to_owned("Found ");
    append(&mut found, decimal(report.total).as_str());
    append(&mut found, " crate(s) with native link requirements:");
    lines.push(found);
    lines.push(String::new());
    let ghost head = views(lines@);
    let mut i: usize = 0;
    while i < report.crates.len()
        invariant
            i <= report.crates.len(),
            views(lines@) == head + status_views(report.crates@).take(i as int).map_values(
                |s: StatusView| status_line(s),
            ),
        decreases report.crates.len() - i,
    {
        let line = status_line_of(&report.crates[i]);
        let ghost before = views(lines@);
        lines.push(line);
        proof {
            assert(views(lines@) =~= before.push(line@));
            assert(status_views(report.crates@).take(i + 1).map_values(|s: StatusView| status_line(s))
                =~= status_views(report.crates@).take(i as int).map_values(|s: StatusView| status_line(s)).push(
                status_line(status_view(report.crates@[i as int])),
            ));
        }
        i = i + 1;
    }
    proof {
        assert(status_views(report.crates@).take(i as int) =~= status_views(report.crates@));
    }
    let ghost body = views(lines@);
    lines.push(String::new());
    let mut summary = to_owned("Summary: ");
    append(&mut summary, decimal(report.covered).as_str());
    append(&mut summary, " covered, ");
    append(&mut summary, decimal(report.no_override_needed).as_str());
    append(&mut summary, " no-override-needed, ");
    append(&mut summary, decimal(report.missing).as_str());
    append(&mut summary, " may need attention");
    lines.push(summary);
    let ghost with_summary = views(lines@);
    proof {
        assert(with_summary =~= body + seq![Seq::<char>::empty(), summary@]);
        assert(body == head + status_views(report.crates@).map_values(|s: StatusView| status_line(s)));
    }
    if report.missing > 0 {
        lines.push(String::new());
        lines.push(to_owned("For missing crates, add overrides via extraCrateOverrides:"));
        lines.push(to_owned("  buildFromUnitGraph {"));
        lines.push(to_owned("    extraCrateOverrides = {"));
        lines.push(to_owned("      <crate-name> = attrs: {"));
        lines.push(to_owned("        nativeBuildInputs = [ pkgs.pkg-config ];"));
        lines.push(to_owned("        buildInputs = [ pkgs.<library> ];"));
        lines.push(to_owned("      };"));
        lines.push(to_owned("    };"));
        lines.push(to_owned("  };"));
        lines.push(String::new());
        lines.push(to_owned("See docs/sys-crate-overrides.md for details."));
        proof {
            assert(views(lines@) =~= with_summary + missing_hint());
        }
    } else {
        proof {
            assert(views(lines@) =~= with_summary + Seq::<Seq<char>>::empty());
        }
    }
    proof {
        assert(views(lines@) =~= report_text(*report));
    }
    lines
}

} // verus!
