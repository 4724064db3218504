//! The merge of the unit graph, `cargo metadata` and `Cargo.lock` into a
//! build plan.
use vstd::prelude::*;

use crate::error::{ref_views, Error, ErrorView};
use crate::metadata::{CargoLock, CargoMetadata, LockPackage, MetadataPackage};
use crate::output::{
    crate_views, dep_views, refs_closed, string_map_view, CrateView, DepView, NixBinTarget,
    NixBuildPlan, NixCrate, NixDep, NixSource, PlanView, SourceView, BUILD_PLAN_VERSION,
};
use crate::paths::{parent_of, path_parent, path_strip_prefix, strip_path_prefix};
use crate::source::{
    infer_source_from_pkg_id, opt_str_view, parse_source, source_of_metadata, source_of_pkg_id,
};
use crate::strmap::StrMap;
use crate::text::{
    after_last, before_first, chars_eq, chars_of, clone_opt, clone_strings, dedup_first,
    find_first_char, find_last_char, lemma_dedup_first, lemma_sorted_seq_of, opt_view, replace_char, replace_chars,
    rsplit_once, sorted_seq_of, str_eq, strictly_increasing, string_from_chars, strings_eq, subvec,
    to_owned, views,
};
use crate::unit_graph::{
    build_deps_in_range, build_edges_read, roots_in_range, test_deps_in_range, test_edges_read, Unit, UnitDep,
    UnitGraph, UnitMode,
};

verus! {

// ---------------------------------------------------------------------------
// Package IDs and paths
// ---------------------------------------------------------------------------

/// The `(crate_name, version)` that a package ID names: `...#name@version`
/// gives both after the last `#`; otherwise the fragment is the version and
/// the name is the last path component of the URL (without its query).
pub open spec fn pkg_id_parts(pkg_id: Seq<char>) -> Result<(Seq<char>, Seq<char>), ErrorView> {
    match rsplit_once(pkg_id, '#') {
        None => Err(ErrorView::MissingHashSeparator(pkg_id)),
        Some((prefix, fragment)) => match rsplit_once(fragment, '@') {
            Some((name, version)) => Ok((name, version)),
            None => {
                let name = after_last(before_first(prefix, '?'), '/');
                if name.len() == 0 {
                    Err(ErrorView::MissingCrateName(pkg_id))
                } else {
                    Ok((name, fragment))
                }
            },
        },
    }
}

/// Extract `(crate_name, version)` from a package ID string.
///
/// - `registry+...#name@version` → `(name, version)`
/// - `path+file:///.../<name>#version` → `(name, version)`
/// - `git+...#name@version` → `(name, version)`
pub fn parse_pkg_id(pkg_id: &str) -> (r: Result<(String, String), Error>)
    ensures
        match pkg_id_parts(pkg_id@) {
            Ok((name, version)) => r matches Ok((a, b)) && a@ == name && b@ == version,
            Err(ev) => r matches Err(e) && e@ == ev,
        },
{
    let v = chars_of(pkg_id);
    let h = match find_last_char(&v, '#') {
        Some(h) => h,
        None => {
            return Err(Error::MissingHashSeparator(to_owned(pkg_id)));
        },
    };
    let prefix = subvec(&v, 0, h);
    let fragment = subvec(&v, h + 1, v.len());
    proof {
        assert(prefix@ =~= v@.take(h as int));
        assert(fragment@ =~= v@.skip(h + 1));
    }
    match find_last_char(&fragment, '@') {
        Some(a) => {
            let name = subvec(&fragment, 0, a);
            let version = subvec(&fragment, a + 1, fragment.len());
            proof {
                assert(name@ =~= fragment@.take(a as int));
                assert(version@ =~= fragment@.skip(a + 1));
            }
            return Ok((string_from_chars(&name), string_from_chars(&version)));
        },
        None => {},
    }
    let url_path = match find_first_char(&prefix, '?') {
        Some(q) => subvec(&prefix, 0, q),
        None => prefix,
    };
    proof {
        assert(url_path@ =~= before_first(prefix@, '?'));
    }
    let name = match find_last_char(&url_path, '/') {
        Some(s) => subvec(&url_path, s + 1, url_path.len()),
        None => url_path,
    };
    proof {
        assert(name@ =~= after_last(url_path@, '/'));
    }
    if name.len() == 0 {
        return Err(Error::MissingCrateName(to_owned(pkg_id)));
    }
    Ok((string_from_chars(&name), string_from_chars(&fragment)))
}

/// `abs_path` relative to `crate_root`, or `abs_path` itself when it does not lie under it.
pub open spec fn relative_to(abs_path: Seq<char>, crate_root: Seq<char>) -> Seq<char> {
    match path_strip_prefix(abs_path, crate_root) {
        Some(p) => p,
        None => abs_path,
    }
}

/// Make an absolute path relative to a crate root directory.
pub fn make_relative(abs_path: &str, crate_root: &str) -> (r: String)
    ensures
        r@ == relative_to(abs_path@, crate_root@),
{
    match strip_path_prefix(abs_path, crate_root) {
        Some(p) => p,
        None => to_owned(abs_path),
    }
}

/// `s` with line breaks turned into spaces and double quotes into single quotes.
pub open spec fn sanitized(s: Seq<char>) -> Seq<char> {
    Seq::new(
        s.len(),
        |i: int|
            if s[i] == '\n' || s[i] == '\r' {
                ' '
            } else if s[i] == '"' {
                '\''
            } else {
                s[i]
            },
    )
}

/// Sanitize a string for safe use in bash `export` statements.
///
/// `buildRustCrate` exports `CARGO_PKG_*` env vars via bash using
/// `export CARGO_PKG_DESCRIPTION="..."`, so newlines and embedded
/// double-quotes break the export.
pub fn sanitize_metadata(s: &str) -> (r: String)
    ensures
        r@ == sanitized(s@),
        r@.len() == s@.len(),
        !r@.contains('\n') && !r@.contains('\r') && !r@.contains('"'),
{
    let v = chars_of(s);
    let mut out: Vec<char> = Vec::new();
    let mut i: usize = 0;
    while i < v.len()
        invariant
            i <= v.len(),
            v@ == s@,
            out@ == sanitized(s@).take(i as int),
        decreases v.len() - i,
    {
        let c = v[i];
        let d = if c == '\n' || c == '\r' {
            ' '
        } else if c == '"' {
            '\''
        } else {
            c
        };
        out.push(d);
        proof {
            assert(out@ =~= sanitized(s@).take(i + 1));
        }
        i = i + 1;
    }
    proof {
        assert(out@ =~= sanitized(s@));
        let t = sanitized(s@);
        assert forall|c: char| c == '\n' || c == '\r' || c == '"' implies !t.contains(c) by {
            if t.contains(c) {
                let j = choose|j: int| 0 <= j < t.len() && t[j] == c;
                assert(t[j] == c);
            }
        }
    }
    string_from_chars(&out)
}

// ---------------------------------------------------------------------------
// Features
// ---------------------------------------------------------------------------

/// Units of a platform class: `None` takes every unit, `Some(true)` the
/// target-platform units and `Some(false)` the host units.
pub open spec fn in_class(u: &Unit, class: Option<bool>) -> bool {
    match class {
        None => true,
        Some(target) => (u.platform is Some) == target,
    }
}

/// Some Build-mode unit of the class has a library-like target.
pub open spec fn lib_like_built(units: Seq<(usize, &Unit)>, class: Option<bool>) -> bool {
    exists|i: int|
        0 <= i < units.len() && in_class(units[i].1, class) && units[i].1.mode == UnitMode::Build
            && (#[trigger] units[i].1.target).lib_like_present()
}

/// The units whose features count: Build-mode units of the class with a
/// library-like target, or with a bin target when there is no such unit.
pub open spec fn feature_unit(units: Seq<(usize, &Unit)>, class: Option<bool>, u: &Unit) -> bool {
    &&& in_class(u, class)
    &&& u.mode == UnitMode::Build
    &&& if lib_like_built(units, class) {
        u.target.lib_like_present()
    } else {
        u.target.bin_present()
    }
}

/// The features of the units that count.
pub open spec fn feature_set(units: Seq<(usize, &Unit)>, class: Option<bool>) -> Set<Seq<char>> {
    Set::new(
        |f: Seq<char>|
            exists|i: int, j: int|
                0 <= i < units.len() && feature_unit(units, class, units[i].1) && 0 <= j
                    < units[i].1.features.len() && (#[trigger] units[i].1.features[j])@ == f,
    )
}

fn unit_in_class(u: &Unit, class: Option<bool>) -> (r: bool)
    ensures
        r == in_class(u, class),
{
    match class {
        None => true,
        Some(target) => u.platform.is_some() == target,
    }
}

/// The sorted, deduplicated features of the units of a class that count.
fn collect_class_features(units: &[(usize, &Unit)], class: Option<bool>) -> (r: Vec<String>)
    ensures
        strictly_increasing(views(r@)),
        views(r@).to_set() == feature_set(units@, class),
        views(r@) == sorted_seq_of(feature_set(units@, class)),
{
    let mut has_lib = false;
    let mut i: usize = 0;
    while i < units.len()
        invariant
            i <= units.len(),
            has_lib == exists|k: int|
                0 <= k < i && in_class(units@[k].1, class) && units@[k].1.mode == UnitMode::Build
                    && (#[trigger] units@[k].1.target).lib_like_present(),
        decreases units.len() - i,
    {
        let u = units[i].1;
        if unit_in_class(u, class) && u.mode == UnitMode::Build && u.target.has_lib_like() {
            has_lib = true;
        }
        i = i + 1;
    }
    assert(has_lib == lib_like_built(units@, class));
    let mut set: StrMap<bool> = StrMap::new();
    let mut i: usize = 0;
    while i < units.len()
        invariant
            i <= units.len(),
            has_lib == lib_like_built(units@, class),
            forall|f: Seq<char>|
                #![trigger set@.contains_key(f)]
                set@.contains_key(f) <==> exists|k: int, j: int|
                    0 <= k < i && feature_unit(units@, class, units@[k].1) && 0 <= j
                        < units@[k].1.features.len() && (#[trigger] units@[k].1.features[j])@ == f,
        decreases units.len() - i,
    {
        let u = units[i].1;
        let counts = unit_in_class(u, class) && u.mode == UnitMode::Build && if has_lib {
            u.target.has_lib_like()
        } else {
            u.target.has_bin()
        };
        if counts {
            let mut j: usize = 0;
            while j < u.features.len()
                invariant
                    i < units.len(),
                    u == units@[i as int].1,
                    j <= u.features.len(),
                    feature_unit(units@, class, u),
                    forall|f: Seq<char>|
                        #![trigger set@.contains_key(f)]
                        set@.contains_key(f) <==> ((exists|k: int, jj: int|
                            0 <= k < i && feature_unit(units@, class, units@[k].1) && 0 <= jj
                                < units@[k].1.features.len() && (#[trigger] units@[k].1.features[jj])@
                                == f) || (exists|jj: int| 0 <= jj < j && (#[trigger] u.features[jj])@ == f)),
                decreases u.features.len() - j,
            {
                set.insert(u.features[j].clone(), true);
                proof {
                    let fj = u.features[j as int]@;
                    assert forall|f: Seq<char>| #![trigger set@.contains_key(f)]
                        set@.contains_key(f) <==> ((exists|k: int, jj: int|
                            0 <= k < i && feature_unit(units@, class, units@[k].1) && 0 <= jj
                                < units@[k].1.features.len() && (#[trigger] units@[k].1.features[jj])@
                                == f) || (exists|jj: int| 0 <= jj < j + 1 && (#[trigger] u.features[jj])@ == f)) by {
                        if f == fj {
                            assert(u.features[j as int]@ == f);
                        }
                    }
                }
                j = j + 1;
            }
            proof {
                assert forall|f: Seq<char>| #![trigger set@.contains_key(f)]
                    set@.contains_key(f) <==> exists|k: int, jj: int|
                        0 <= k < i + 1 && feature_unit(units@, class, units@[k].1) && 0 <= jj
                            < units@[k].1.features.len() && (#[trigger] units@[k].1.features[jj])@ == f by {
                    if exists|jj: int| 0 <= jj < j && (#[trigger] u.features[jj])@ == f {
                        let jj = choose|jj: int| 0 <= jj < j && (#[trigger] u.features[jj])@ == f;
                        assert(units@[i as int].1.features[jj]@ == f);
                    }
                    if exists|k: int, jj: int|
                        0 <= k < i + 1 && feature_unit(units@, class, units@[k].1) && 0 <= jj
                            < units@[k].1.features.len() && (#[trigger] units@[k].1.features[jj])@ == f {
                        let (k, jj) = choose|k: int, jj: int|
                            0 <= k < i + 1 && feature_unit(units@, class, units@[k].1) && 0 <= jj
                                < units@[k].1.features.len() && (#[trigger] units@[k].1.features[jj])@ == f;
                        if k == i {
                            assert(u.features[jj]@ == f);
                        }
                    }
                }
            }
        } else {
            proof {
                assert(!feature_unit(units@, class, units@[i as int].1));
                assert forall|f: Seq<char>| #![trigger set@.contains_key(f)]
                    set@.contains_key(f) <==> exists|k: int, jj: int|
                        0 <= k < i + 1 && feature_unit(units@, class, units@[k].1) && 0 <= jj
                            < units@[k].1.features.len() && (#[trigger] units@[k].1.features[jj])@ == f by {
                    if exists|k: int, jj: int|
                        0 <= k < i + 1 && feature_unit(units@, class, units@[k].1) && 0 <= jj
                            < units@[k].1.features.len() && (#[trigger] units@[k].1.features[jj])@ == f {
                        let (k, jj) = choose|k: int, jj: int|
                            0 <= k < i + 1 && feature_unit(units@, class, units@[k].1) && 0 <= jj
                                < units@[k].1.features.len() && (#[trigger] units@[k].1.features[jj])@ == f;
                        assert(k != i);
                    }
                }
            }
        }
        i = i + 1;
    }
    set.keys_are_sorted();
    let mut out: Vec<String> = Vec::new();
    let mut k: usize = 0;
    while k < set.len()
        invariant
            k <= set.pairs().len(),
            views(out@) == set.keys().take(k as int),
        decreases set.pairs().len() - k,
    {
        let key = set.key_at(k).clone();
        let ghost before = views(out@);
        out.push(key);
        proof {
            assert(key@ == set.pairs()[k as int].0);
            assert(set.keys()[k as int] == set.pairs()[k as int].0);
            assert(views(out@) =~= before.push(key@));
            assert(views(out@) =~= set.keys().take(k + 1));
        }
        k = k + 1;
    }
    proof {
        assert(views(out@) =~= set.keys());
        assert(views(out@).to_set() =~= feature_set(units@, class)) by {
            assert forall|f: Seq<char>| views(out@).to_set().contains(f) <==> feature_set(units@, class).contains(f) by {
                if views(out@).contains(f) {
                    let m = choose|m: int| 0 <= m < views(out@).len() && views(out@)[m] == f;
                    assert(set.pairs()[m].0 == f);
                    assert(set@.contains_key(f));
                }
                if set@.contains_key(f) {
                    let m = choose|m: int| 0 <= m < set.pairs().len() && #[trigger] set.pairs()[m].0 == f;
                    assert(views(out@)[m] == f);
                }
            }
        }
        lemma_sorted_seq_of(views(out@));
    }
    out
}

/// Collect deduplicated, sorted features across the buildable units of a package.
///
/// The same crate can appear several times in the unit graph with different
/// feature sets; Nix builds one derivation per crate, so it takes the union.
/// Library-like units (lib, proc-macro) carry the canonical feature set; for a
/// crate without one, the bin units do.
pub fn collect_features(units: &[(usize, &Unit)]) -> (r: Vec<String>)
    ensures
        strictly_increasing(views(r@)),
        views(r@) == sorted_seq_of(feature_set(units@, None)),
{
    collect_class_features(units, None)
}

/// Some unit is built for the target platform.
pub open spec fn has_target_unit(units: Seq<(usize, &Unit)>) -> bool {
    exists|i: int| 0 <= i < units.len() && (#[trigger] units[i].1).platform is Some
}

/// Some unit is built for the host.
pub open spec fn has_host_unit(units: Seq<(usize, &Unit)>) -> bool {
    exists|i: int| 0 <= i < units.len() && (#[trigger] units[i].1).platform is None
}

/// The `(target_features, host_features_override)` of a package: in a cross
/// build the features of the target-platform units, with those of the host
/// units beside them when the two sets differ.
pub open spec fn platform_features(units: Seq<(usize, &Unit)>) -> (
    Seq<Seq<char>>,
    Option<Seq<Seq<char>>>,
) {
    if !has_target_unit(units) {
        (sorted_seq_of(feature_set(units, None)), None)
    } else {
        let target = feature_set(units, Some(true));
        let host = feature_set(units, Some(false));
        (
            sorted_seq_of(target),
            if !has_host_unit(units) || host == target {
                None
            } else {
                Some(sorted_seq_of(host))
            },
        )
    }
}

/// Collect features split by platform for cross-compilation.
///
/// In cross builds the same crate can appear on both the host (build
/// scripts, proc-macros) and target platforms with different feature sets.
/// Returns the target features and, when the host features differ from
/// them, the host features. For native builds every unit is a host unit and
/// the result is the merged features with no override.
pub fn collect_platform_features(units: &[(usize, &Unit)]) -> (r: (Vec<String>, Option<Vec<String>>))
    ensures
        views(r.0@) == platform_features(units@).0,
        match platform_features(units@).1 {
            None => r.1 is None,
            Some(h) => r.1 matches Some(hv) && views(hv@) == h,
        },
{
    let mut has_target = false;
    let mut has_host = false;
    let mut i: usize = 0;
    while i < units.len()
        invariant
            i <= units.len(),
            has_target == exists|k: int| 0 <= k < i && (#[trigger] units@[k].1).platform is Some,
            has_host == exists|k: int| 0 <= k < i && (#[trigger] units@[k].1).platform is None,
        decreases units.len() - i,
    {
        if units[i].1.platform.is_some() {
            has_target = true;
        } else {
            has_host = true;
        }
        i = i + 1;
    }
    if !has_target {
        return (collect_class_features(units, None), None);
    }
    let target_features = collect_class_features(units, Some(true));
    if !has_host {
        return (target_features, None);
    }
    let host_features = collect_class_features(units, Some(false));
    if strings_eq(&host_features, &target_features) {
        proof {
            assert(feature_set(units@, Some(false)) == feature_set(units@, Some(true)));
        }
        (target_features, None)
    } else {
        (target_features, Some(host_features))
    }
}

// ---------------------------------------------------------------------------
// Dependencies
// ---------------------------------------------------------------------------

/// The views of a sequence of string slices.
pub open spec fn str_views(s: Seq<&str>) -> Seq<Seq<char>> {
    s.map_values(|x: &str| x@)
}

/// The edge `(package ID, extern crate name)` that a unit dependency stands for.
pub open spec fn dep_edge(d: UnitDep, ids: Seq<Seq<char>>) -> DepView {
    (ids[d.index as int], d.extern_crate_name@)
}

/// A normal dependency counts unless it points into the same package or at
/// a build-script run.
pub open spec fn keeps_dep(d: UnitDep, graph: UnitGraph, ids: Seq<Seq<char>>, pkg_id: Seq<char>) -> bool {
    ids[d.index as int] != pkg_id && graph.units[d.index as int].mode != UnitMode::RunCustomBuild
}

/// The counted edges of one unit, in order.
pub open spec fn unit_dep_edges(deps: Seq<UnitDep>, graph: UnitGraph, ids: Seq<Seq<char>>, pkg_id: Seq<char>) -> Seq<
    DepView,
>
    decreases deps.len(),
{
    if deps.len() == 0 {
        Seq::empty()
    } else {
        let prev = unit_dep_edges(deps.drop_last(), graph, ids, pkg_id);
        if keeps_dep(deps.last(), graph, ids, pkg_id) {
            prev.push(dep_edge(deps.last(), ids))
        } else {
            prev
        }
    }
}

/// A Build-mode unit with a library-like or bin target.
pub open spec fn buildable(u: &Unit) -> bool {
    u.mode == UnitMode::Build && (u.target.lib_like_present() || u.target.bin_present())
}

/// The counted edges of the buildable units, unit after unit.
pub open spec fn dep_candidates(
    units: Seq<(usize, &Unit)>,
    graph: UnitGraph,
    ids: Seq<Seq<char>>,
    pkg_id: Seq<char>,
) -> Seq<DepView>
    decreases units.len(),
{
    if units.len() == 0 {
        Seq::empty()
    } else {
        let prev = dep_candidates(units.drop_last(), graph, ids, pkg_id);
        let u = units.last().1;
        if buildable(u) {
            prev + unit_dep_edges(u.dependencies@, graph, ids, pkg_id)
        } else {
            prev
        }
    }
}

/// Every dependency of the units whose edges are read (see
/// [`build_edges_read`]) points below `bound`.
pub open spec fn unit_deps_in_range(units: Seq<(usize, &Unit)>, bound: int) -> bool {
    forall|i: int, d: int|
        0 <= i < units.len() && build_edges_read(units[i].1) && 0 <= d < units[i].1.dependencies.len()
            ==> (#[trigger] units[i].1.dependencies[d]).index < bound
}

/// Whether the edge `(pkg_id, name)` is in `deps`.
fn has_dep(deps: &Vec<NixDep>, pkg_id: &str, name: &str) -> (r: bool)
    ensures
        r == dep_views(deps@).contains((pkg_id@, name@)),
{
    let mut k: usize = 0;
    while k < deps.len()
        invariant
            k <= deps.len(),
            forall|j: int| 0 <= j < k ==> dep_views(deps@)[j] != (pkg_id@, name@),
        decreases deps.len() - k,
    {
        if str_eq(deps[k].package_id.as_str(), pkg_id) && str_eq(
            deps[k].extern_crate_name.as_str(),
            name,
        ) {
            proof {
                assert(dep_views(deps@)[k as int] == (pkg_id@, name@));
            }
            return true;
        }
        k = k + 1;
    }
    proof {
        if dep_views(deps@).contains((pkg_id@, name@)) {
            let j = choose|j: int| 0 <= j < deps.len() && dep_views(deps@)[j] == (pkg_id@, name@);
            assert(false);
        }
    }
    false
}

/// Collect deduplicated normal dependencies from all buildable units.
///
/// Unions deps across the lib/proc-macro unit and all bin units, since
/// different feature variants may pull in different deps; skips edges into
/// the same package and edges to build-script runs.
pub fn collect_dependencies(
    units: &[(usize, &Unit)],
    unit_graph: &UnitGraph,
    unit_pkg_ids: &[&str],
    pkg_id: &str,
) -> (r: Vec<NixDep>)
    requires
        unit_deps_in_range(units@, unit_graph.units.len() as int),
        unit_deps_in_range(units@, unit_pkg_ids.len() as int),
    ensures
        dep_views(r@) == dedup_first(dep_candidates(units@, *unit_graph, str_views(unit_pkg_ids@), pkg_id@)),
        dep_views(r@).no_duplicates(),
        forall|i: int| 0 <= i < r@.len() ==> (#[trigger] dep_views(r@)[i]).0 != pkg_id@,
{
    let ghost g = *unit_graph;
    let ghost ids = str_views(unit_pkg_ids@);
    let mut deps: Vec<NixDep> = Vec::new();
    let mut i: usize = 0;
    proof {
        assert(units@.take(0) =~= Seq::<(usize, &Unit)>::empty());
        assert(dep_views(deps@) =~= Seq::<DepView>::empty());
    }
    while i < units.len()
        invariant
            i <= units.len(),
            g == *unit_graph,
            ids == str_views(unit_pkg_ids@),
            unit_deps_in_range(units@, unit_graph.units.len() as int),
            unit_deps_in_range(units@, unit_pkg_ids.len() as int),
            dep_views(deps@) == dedup_first(dep_candidates(units@.take(i as int), g, ids, pkg_id@)),
        decreases units.len() - i,
    {
        let u = units[i].1;
        proof {
            assert(units@.take(i + 1).drop_last() =~= units@.take(i as int));
            assert(units@.take(i + 1).last() == units@[i as int]);
        }
        let ghost base = dep_candidates(units@.take(i as int), g, ids, pkg_id@);
        if u.mode == UnitMode::Build && (u.target.has_lib_like() || u.target.has_bin()) {
            let mut j: usize = 0;
            proof {
                assert(u.dependencies@.take(0) =~= Seq::<UnitDep>::empty());
                assert(base + unit_dep_edges(u.dependencies@.take(0), g, ids, pkg_id@) =~= base);
            }
            while j < u.dependencies.len()
                invariant
                    i < units.len(),
                    u == units@[i as int].1,
                    build_edges_read(u),
                    j <= u.dependencies.len(),
                    g == *unit_graph,
                    ids == str_views(unit_pkg_ids@),
                    unit_deps_in_range(units@, unit_graph.units.len() as int),
                    unit_deps_in_range(units@, unit_pkg_ids.len() as int),
                    dep_views(deps@) == dedup_first(
                        base + unit_dep_edges(u.dependencies@.take(j as int), g, ids, pkg_id@),
                    ),
                decreases u.dependencies.len() - j,
            {
                let dep = &u.dependencies[j];
                proof {
                    assert(units@[i as int].1.dependencies[j as int] == *dep);
                    assert(dep.index < unit_graph.units.len());
                    assert(dep.index < unit_pkg_ids.len());
                    assert(u.dependencies@.take(j + 1).drop_last() =~= u.dependencies@.take(j as int));
                    assert(u.dependencies@.take(j + 1).last() == *dep);
                }
                let ghost prev = base + unit_dep_edges(u.dependencies@.take(j as int), g, ids, pkg_id@);
                let dep_pkg_id: &str = unit_pkg_ids[dep.index];
                let self_ref = str_eq(dep_pkg_id, pkg_id);
                if !self_ref && unit_graph.units[dep.index].mode != UnitMode::RunCustomBuild {
                    proof {
                        assert(base + unit_dep_edges(u.dependencies@.take(j + 1), g, ids, pkg_id@)
                            =~= prev.push((dep_pkg_id@, dep.extern_crate_name@)));
                        assert(prev.push((dep_pkg_id@, dep.extern_crate_name@)).drop_last() =~= prev);
                    }
                    if !has_dep(&deps, dep_pkg_id, dep.extern_crate_name.as_str()) {
                        let d = NixDep {
                            package_id: to_owned(dep_pkg_id),
                            extern_crate_name: dep.extern_crate_name.clone(),
                        };
                        deps.push(d);
                        proof {
                            assert(dep_views(deps@) =~= dep_views(deps@).drop_last().push(
                                (dep_pkg_id@, dep.extern_crate_name@),
                            ));
                            assert(dep_views(deps@).drop_last() =~= dedup_first(prev));
                        }
                    }
                } else {
                    proof {
                        assert(!keeps_dep(*dep, g, ids, pkg_id@));
                        assert(base + unit_dep_edges(u.dependencies@.take(j + 1), g, ids, pkg_id@) =~= prev);
                    }
                }
                j = j + 1;
            }
            proof {
                assert(u.dependencies@.take(j as int) =~= u.dependencies@);
                assert(buildable(units@[i as int].1));
            }
        } else {
            proof {
                assert(!buildable(units@[i as int].1));
            }
        }
        i = i + 1;
    }
    proof {
        assert(units@.take(units.len() as int) =~= units@);
        let cands = dep_candidates(units@, g, ids, pkg_id@);
        lemma_dedup_first(cands);
        lemma_dep_candidates_not_self(units@, g, ids, pkg_id@);
        assert forall|i: int| 0 <= i < deps@.len() implies (#[trigger] dep_views(deps@)[i]).0 != pkg_id@ by {
            let e = dep_views(deps@)[i];
            assert(dep_views(deps@).len() == deps@.len());
            assert(dedup_first(cands)[i] == e);
            assert(dedup_first(cands).contains(e));
            assert(cands.contains(e));
            let j = choose|j: int| 0 <= j < cands.len() && cands[j] == e;
            assert(cands[j].0 != pkg_id@);
        }
    }
    deps
}

/// No counted edge of a unit points into its own package.
proof fn lemma_unit_dep_edges_not_self(deps: Seq<UnitDep>, graph: UnitGraph, ids: Seq<Seq<char>>, pkg_id: Seq<char>)
    ensures
        forall|i: int|
            0 <= i < unit_dep_edges(deps, graph, ids, pkg_id).len() ==> (#[trigger] unit_dep_edges(
                deps,
                graph,
                ids,
                pkg_id,
            )[i]).0 != pkg_id,
    decreases deps.len(),
{
    if deps.len() > 0 {
        lemma_unit_dep_edges_not_self(deps.drop_last(), graph, ids, pkg_id);
        let prev = unit_dep_edges(deps.drop_last(), graph, ids, pkg_id);
        if keeps_dep(deps.last(), graph, ids, pkg_id) {
            let e = dep_edge(deps.last(), ids);
            assert forall|i: int| 0 <= i < prev.len() + 1 implies (#[trigger] prev.push(e)[i]).0 != pkg_id by {
                if i < prev.len() {
                    assert(prev.push(e)[i] == prev[i]);
                }
            }
        }
    }
}

/// No dependency candidate of a package points into the package itself.
proof fn lemma_dep_candidates_not_self(
    units: Seq<(usize, &Unit)>,
    graph: UnitGraph,
    ids: Seq<Seq<char>>,
    pkg_id: Seq<char>,
)
    ensures
        forall|i: int|
            0 <= i < dep_candidates(units, graph, ids, pkg_id).len() ==> (#[trigger] dep_candidates(
                units,
                graph,
                ids,
                pkg_id,
            )[i]).0 != pkg_id,
    decreases units.len(),
{
    if units.len() > 0 {
        lemma_dep_candidates_not_self(units.drop_last(), graph, ids, pkg_id);
        let prev = dep_candidates(units.drop_last(), graph, ids, pkg_id);
        let u = units.last().1;
        if buildable(u) {
            let more = unit_dep_edges(u.dependencies@, graph, ids, pkg_id);
            lemma_unit_dep_edges_not_self(u.dependencies@, graph, ids, pkg_id);
            assert forall|i: int| 0 <= i < prev.len() + more.len() implies (#[trigger] (prev + more)[i]).0 != pkg_id by {
                if i < prev.len() {
                    assert((prev + more)[i] == prev[i]);
                } else {
                    assert((prev + more)[i] == more[i - prev.len()]);
                }
            }
        }
    }
}

/// The edges of a build-script unit, in order.
pub open spec fn build_dep_edges(deps: Seq<UnitDep>, ids: Seq<Seq<char>>) -> Seq<DepView> {
    deps.map_values(|d: UnitDep| dep_edge(d, ids))
}

/// Collect deduplicated build dependencies from the custom-build (build.rs) unit.
pub fn collect_build_dependencies(
    build_script_unit: Option<&(usize, &Unit)>,
    unit_pkg_ids: &[&str],
) -> (r: Vec<NixDep>)
    requires
        build_script_unit matches Some(p) ==> forall|d: int|
            0 <= d < p.1.dependencies.len() ==> (#[trigger] p.1.dependencies[d]).index < unit_pkg_ids.len(),
    ensures
        dep_views(r@) == match build_script_unit {
            None => Seq::<DepView>::empty(),
            Some(p) => dedup_first(build_dep_edges(p.1.dependencies@, str_views(unit_pkg_ids@))),
        },
{
    let mut deps: Vec<NixDep> = Vec::new();
    match build_script_unit {
        None => {
            proof {
                assert(dep_views(deps@) =~= Seq::<DepView>::empty());
            }
            deps
        },
        Some(p) => {
            let u = p.1;
            let ghost edges = build_dep_edges(u.dependencies@, str_views(unit_pkg_ids@));
            let mut j: usize = 0;
            proof {
                assert(edges.take(0) =~= Seq::<DepView>::empty());
                assert(dep_views(deps@) =~= Seq::<DepView>::empty());
            }
            while j < u.dependencies.len()
                invariant
                    j <= u.dependencies.len(),
                    u == p.1,
                    edges == build_dep_edges(u.dependencies@, str_views(unit_pkg_ids@)),
                    forall|d: int|
                        0 <= d < u.dependencies.len() ==> (#[trigger] u.dependencies[d]).index
                            < unit_pkg_ids.len(),
                    dep_views(deps@) == dedup_first(edges.take(j as int)),
                decreases u.dependencies.len() - j,
            {
                let dep = &u.dependencies[j];
                let dep_pkg_id: &str = unit_pkg_ids[dep.index];
                proof {
                    assert(u.dependencies[j as int] == *dep);
                    assert(edges.take(j + 1).drop_last() =~= edges.take(j as int));
                    assert(edges.take(j + 1).last() == (dep_pkg_id@, dep.extern_crate_name@));
                }
                if !has_dep(&deps, dep_pkg_id, dep.extern_crate_name.as_str()) {
                    deps.push(
                        NixDep {
                            package_id: to_owned(dep_pkg_id),
                            extern_crate_name: dep.extern_crate_name.clone(),
                        },
                    );
                    proof {
                        assert(dep_views(deps@) =~= dep_views(deps@).drop_last().push(
                            (dep_pkg_id@, dep.extern_crate_name@),
                        ));
                    }
                }
                j = j + 1;
            }
            proof {
                assert(edges.take(j as int) =~= edges);
            }
            deps
        },
    }
}

// ---------------------------------------------------------------------------
// Crates
// ---------------------------------------------------------------------------

/// The source of a crate: from its metadata when that parses, else inferred
/// from its package ID.
pub open spec fn resolved_source(
    pkg_id: Seq<char>,
    meta_pkg: Option<&MetadataPackage>,
    workspace_root: Seq<char>,
) -> Option<SourceView> {
    match meta_pkg {
        None => source_of_pkg_id(pkg_id),
        Some(m) => match source_of_metadata(opt_view(m.source), m.manifest_path@, workspace_root) {
            Ok(o) => o,
            Err(_) => source_of_pkg_id(pkg_id),
        },
    }
}

/// Resolve source info for a crate, preferring metadata over `pkg_id` inference.
pub fn resolve_source(
    pkg_id: &str,
    crate_name: &str,
    meta_pkg: Option<&MetadataPackage>,
    workspace_root: &str,
) -> (r: Option<NixSource>)
    ensures
        match resolved_source(pkg_id@, meta_pkg, workspace_root@) {
            Some(sv) => r matches Some(ns) && ns@ == sv,
            None => r is None,
        },
{
    match meta_pkg {
        None => infer_source_from_pkg_id(pkg_id),
        Some(m) => {
            let src: Option<&str> = match &m.source {
                Some(s) => Some(s.as_str()),
                None => None,
            };
            proof {
                assert(opt_str_view(src) == opt_view(m.source));
            }
            match parse_source(src, m.manifest_path.as_str(), workspace_root) {
                Ok(Some(ns)) => Some(ns),
                Ok(None) => None,
                Err(_) => infer_source_from_pkg_id(pkg_id),
            }
        },
    }
}

/// Which unit of a package to pick.
#[derive(Debug, Clone, Copy, PartialEq, Eq, Structural)]
pub enum UnitPick {
    Lib,
    ProcMacro,
    Bin,
    BuildScript,
}

/// A Build-mode unit whose target has the picked kind.
pub open spec fn picks(k: UnitPick, u: &Unit) -> bool {
    &&& u.mode == UnitMode::Build
    &&& match k {
        UnitPick::Lib => u.target.lib_present(),
        UnitPick::ProcMacro => u.target.proc_macro_present(),
        UnitPick::Bin => u.target.bin_present(),
        UnitPick::BuildScript => u.target.custom_build_present(),
    }
}

/// `i` is the first unit that `k` picks.
pub open spec fn is_first_pick(units: Seq<(usize, &Unit)>, k: UnitPick, i: int) -> bool {
    &&& 0 <= i < units.len()
    &&& picks(k, units[i].1)
    &&& forall|j: int| 0 <= j < i ==> !picks(k, #[trigger] units[j].1)
}

/// The first unit that `k` picks, if any.
pub open spec fn first_pick(units: Seq<(usize, &Unit)>, k: UnitPick) -> Option<int> {
    if exists|i: int| 0 <= i < units.len() && picks(k, #[trigger] units[i].1) {
        Some(choose|i: int| is_first_pick(units, k, i))
    } else {
        None
    }
}

fn pick_unit(u: &Unit, k: UnitPick) -> (r: bool)
    ensures
        r == picks(k, u),
{
    u.mode == UnitMode::Build && match k {
        UnitPick::Lib => u.target.has_lib(),
        UnitPick::ProcMacro => u.target.has_proc_macro(),
        UnitPick::Bin => u.target.has_bin(),
        UnitPick::BuildScript => u.target.has_custom_build(),
    }
}

/// The position of the first unit that `k` picks.
pub fn first_unit(units: &[(usize, &Unit)], k: UnitPick) -> (r: Option<usize>)
    ensures
        match r {
            Some(i) => first_pick(units@, k) == Some(i as int) && is_first_pick(units@, k, i as int),
            None => first_pick(units@, k) is None,
        },
{
    let mut i: usize = 0;
    while i < units.len()
        invariant
            i <= units.len(),
            forall|j: int| 0 <= j < i ==> !picks(k, #[trigger] units@[j].1),
        decreases units.len() - i,
    {
        if pick_unit(units[i].1, k) {
            proof {
                assert(is_first_pick(units@, k, i as int));
                let w = choose|w: int| is_first_pick(units@, k, w);
                if w < i {
                    assert(!picks(k, units@[w].1));
                }
                if w > i {
                    assert(!picks(k, units@[i as int].1));
                }
            }
            return Some(i);
        }
        i = i + 1;
    }
    None
}

/// The library unit: the first lib, else the first proc-macro.
pub open spec fn lib_pick(units: Seq<(usize, &Unit)>) -> Option<int> {
    match first_pick(units, UnitPick::Lib) {
        Some(i) => Some(i),
        None => first_pick(units, UnitPick::ProcMacro),
    }
}

/// The unit that a crate's edition and kind come from: its library unit,
/// else its first bin unit.
pub open spec fn primary_pick(units: Seq<(usize, &Unit)>) -> Option<int> {
    match lib_pick(units) {
        Some(i) => Some(i),
        None => first_pick(units, UnitPick::Bin),
    }
}

/// The checksum that the table gives for `(name, version)`; the last entry wins.
pub open spec fn table_checksum(
    table: Seq<(String, String, String)>,
    name: Seq<char>,
    version: Seq<char>,
) -> Option<Seq<char>>
    decreases table.len(),
{
    if table.len() == 0 {
        None
    } else if table.last().0@ == name && table.last().1@ == version {
        Some(table.last().2@)
    } else {
        table_checksum(table.drop_last(), name, version)
    }
}

/// The directory of the crate's manifest (empty without metadata).
pub open spec fn crate_root_of(meta_pkg: Option<&MetadataPackage>) -> Seq<char> {
    match meta_pkg {
        Some(m) => match path_parent(m.manifest_path@) {
            Some(d) => d,
            None => Seq::empty(),
        },
        None => Seq::empty(),
    }
}

/// The bin targets `(name, path relative to the crate root)` of the bin units, in order.
pub open spec fn bin_targets(units: Seq<(usize, &Unit)>, root: Seq<char>) -> Seq<(Seq<char>, Seq<char>)>
    decreases units.len(),
{
    if units.len() == 0 {
        Seq::empty()
    } else {
        let prev = bin_targets(units.drop_last(), root);
        let u = units.last().1;
        if picks(UnitPick::Bin, u) {
            prev.push((u.target.name@, relative_to(u.target.src_path@, root)))
        } else {
            prev
        }
    }
}

/// What the metadata's optional list of authors gives.
pub open spec fn authors_of(meta_pkg: Option<&MetadataPackage>) -> Seq<Seq<char>> {
    match meta_pkg {
        Some(m) => match m.authors {
            Some(a) => views(a@),
            None => Seq::empty(),
        },
        None => Seq::empty(),
    }
}

/// An optional string field of the metadata.
pub open spec fn meta_field(meta_pkg: Option<&MetadataPackage>, f: spec_fn(MetadataPackage) -> Option<String>) -> Option<Seq<char>> {
    match meta_pkg {
        Some(m) => opt_view(f(*m)),
        None => None,
    }
}

/// The crate that a package's units and metadata make: `Ok(None)` when no
/// unit builds a library, proc-macro or binary.
pub open spec fn nix_crate_view(
    graph: UnitGraph,
    ids: Seq<Seq<char>>,
    checksums: Seq<(String, String, String)>,
    workspace_root: Seq<char>,
    pkg_id: Seq<char>,
    units: Seq<(usize, &Unit)>,
    meta_pkg: Option<&MetadataPackage>,
    include_bins: bool,
) -> Result<Option<CrateView>, ErrorView> {
    match primary_pick(units) {
        None => Ok(None),
        Some(pi) => match pkg_id_parts(pkg_id) {
            Err(e) => Err(e),
            Ok((name, version)) => {
                let primary = units[pi].1;
                let lib = lib_pick(units);
                let bs = first_pick(units, UnitPick::BuildScript);
                let root = crate_root_of(meta_pkg);
                Ok(
                    Some(
                        CrateView {
                            crate_name: name,
                            version,
                            edition: primary.target.edition@,
                            sha256: table_checksum(checksums, name, version),
                            source: resolved_source(pkg_id, meta_pkg, workspace_root),
                            features: platform_features(units).0,
                            host_features: platform_features(units).1,
                            dependencies: dedup_first(dep_candidates(units, graph, ids, pkg_id)),
                            build_dependencies: match bs {
                                None => Seq::empty(),
                                Some(b) => dedup_first(build_dep_edges(units[b].1.dependencies@, ids)),
                            },
                            dev_dependencies: Seq::empty(),
                            proc_macro: primary.target.proc_macro_present(),
                            build: match bs {
                                None => None,
                                Some(b) => {
                                    let rel = relative_to(units[b].1.target.src_path@, root);
                                    if rel == "build.rs"@ {
                                        None
                                    } else {
                                        Some(rel)
                                    }
                                },
                            },
                            lib_path: match lib {
                                None => None,
                                Some(l) => {
                                    let p = relative_to(units[l].1.target.src_path@, root);
                                    if p == "src/lib.rs"@ {
                                        None
                                    } else {
                                        Some(p)
                                    }
                                },
                            },
                            lib_name: match lib {
                                None => None,
                                Some(l) => {
                                    let n = replace_char(units[l].1.target.name@, '-', '_');
                                    if n == replace_char(name, '-', '_') {
                                        None
                                    } else {
                                        Some(n)
                                    }
                                },
                            },
                            lib_crate_types: match lib {
                                None => Seq::empty(),
                                Some(l) => views(units[l].1.target.crate_types@),
                            },
                            crate_bin: if include_bins {
                                bin_targets(units, root)
                            } else {
                                Seq::empty()
                            },
                            links: meta_field(meta_pkg, |m: MetadataPackage| m.links),
                            authors: authors_of(meta_pkg),
                            description: match meta_field(meta_pkg, |m: MetadataPackage| m.description) {
                                Some(d) => Some(sanitized(d)),
                                None => None,
                            },
                            homepage: meta_field(meta_pkg, |m: MetadataPackage| m.homepage),
                            license: meta_field(meta_pkg, |m: MetadataPackage| m.license),
                            repository: meta_field(meta_pkg, |m: MetadataPackage| m.repository),
                        },
                    ),
                )
            },
        },
    }
}

/// Shared context for building `NixCrate` values from a unit graph.
pub struct MergeContext<'a> {
    pub unit_graph: &'a UnitGraph,
    /// The package ID of each unit of the graph, by index.
    pub unit_pkg_ids: Vec<&'a str>,
    /// `(name, version, checksum)` of the locked packages; the last entry for a
    /// name and version wins.
    pub checksums: Vec<(String, String, String)>,
    pub workspace_root: &'a str,
}

/// The checksum that `table` gives for `(name, version)`.
fn lookup_checksum(table: &Vec<(String, String, String)>, name: &str, version: &str) -> (r: Option<String>)
    ensures
        opt_view(r) == table_checksum(table@, name@, version@),
{
    let mut k: usize = table.len();
    proof {
        assert(table@.take(k as int) =~= table@);
    }
    while k > 0
        invariant
            k <= table.len(),
            table_checksum(table@, name@, version@) == table_checksum(table@.take(k as int), name@, version@),
        decreases k,
    {
        let e = &table[k - 1];
        proof {
            assert(table@.take(k as int).last() == *e);
            assert(table@.take(k as int).drop_last() =~= table@.take(k - 1));
        }
        if str_eq(e.0.as_str(), name) && str_eq(e.1.as_str(), version) {
            return Some(e.2.clone());
        }
        k = k - 1;
    }
    None
}

/// Build a `NixCrate` from a set of unit graph units for a package.
///
/// Returns `Ok(Some(crate))` on success, `Ok(None)` if the package has no
/// buildable target (it is skipped), or an error when the package ID does not
/// name a crate.
pub fn build_nix_crate(
    ctx: &MergeContext<'_>,
    pkg_id: &str,
    units: &[(usize, &Unit)],
    meta_pkg: Option<&MetadataPackage>,
    include_bins: bool,
) -> (r: Result<Option<NixCrate>, Error>)
    requires
        unit_deps_in_range(units@, ctx.unit_graph.units.len() as int),
        unit_deps_in_range(units@, ctx.unit_pkg_ids@.len() as int),
    ensures
        match nix_crate_view(
            *ctx.unit_graph,
            str_views(ctx.unit_pkg_ids@),
            ctx.checksums@,
            ctx.workspace_root@,
            pkg_id@,
            units@,
            meta_pkg,
            include_bins,
        ) {
            Ok(Some(cv)) => r matches Ok(Some(c)) && c@ == cv,
            Ok(None) => r matches Ok(None),
            Err(ev) => r matches Err(e) && e@ == ev,
        },
{
    let lib_idx = match first_unit(units, UnitPick::Lib) {
        Some(i) => Some(i),
        None => first_unit(units, UnitPick::ProcMacro),
    };
    let primary_idx = match lib_idx {
        Some(i) => i,
        None => match first_unit(units, UnitPick::Bin) {
            Some(i) => i,
            None => {
                return Ok(None);
            },
        },
    };
    let build_idx = first_unit(units, UnitPick::BuildScript);
    let (crate_name, version) = match parse_pkg_id(pkg_id) {
        Ok(p) => p,
        Err(e) => {
            return Err(e);
        },
    };
    let primary = units[primary_idx].1;
    let (features, host_features) = collect_platform_features(units);
    let proc_macro = primary.target.has_proc_macro();
    let dependencies = collect_dependencies(units, ctx.unit_graph, ctx.unit_pkg_ids.as_slice(), pkg_id);
    let build_dependencies = match build_idx {
        Some(b) => {
            proof {
                assert forall|d: int|
                    0 <= d < units@[b as int].1.dependencies.len() implies (#[trigger] units@[b as int].1.dependencies[d]).index
                    < ctx.unit_pkg_ids@.len() by {
                    assert(units@[b as int].1.dependencies[d] == units@[b as int].1.dependencies[d]);
                }
            }
            collect_build_dependencies(Some(&units[b]), ctx.unit_pkg_ids.as_slice())
        },
        None => collect_build_dependencies(None, ctx.unit_pkg_ids.as_slice()),
    };
    let sha256 = lookup_checksum(&ctx.checksums, crate_name.as_str(), version.as_str());
    let source = resolve_source(pkg_id, crate_name.as_str(), meta_pkg, ctx.workspace_root);
    let crate_root: String = match meta_pkg {
        Some(m) => match parent_of(m.manifest_path.as_str()) {
            Some(d) => d,
            None => String::new(),
        },
        None => String::new(),
    };
    let lib_path = match lib_idx {
        Some(l) => {
            let p = make_relative(units[l].1.target.src_path.as_str(), crate_root.as_str());
            if chars_eq(&chars_of(p.as_str()), &chars_of("src/lib.rs")) {
                None
            } else {
                Some(p)
            }
        },
        None => None,
    };
    let lib_name = match lib_idx {
        Some(l) => {
            let n = replace_chars(&chars_of(units[l].1.target.name.as_str()), '-', '_');
            let c = replace_chars(&chars_of(crate_name.as_str()), '-', '_');
            if chars_eq(&n, &c) {
                None
            } else {
                Some(string_from_chars(&n))
            }
        },
        None => None,
    };
    let lib_crate_types = match lib_idx {
        Some(l) => clone_strings(&units[l].1.target.crate_types),
        None => Vec::new(),
    };
    let mut crate_bin: Vec<NixBinTarget> = Vec::new();
    if include_bins {
        let mut i: usize = 0;
        proof {
            assert(units@.take(0) =~= Seq::<(usize, &Unit)>::empty());
            assert(crate_bin@.map_values(|b: NixBinTarget| (b.name@, b.path@)) =~= Seq::<
                (Seq<char>, Seq<char>),
            >::empty());
        }
        while i < units.len()
            invariant
                i <= units.len(),
                crate_bin@.map_values(|b: NixBinTarget| (b.name@, b.path@)) == bin_targets(
                    units@.take(i as int),
                    crate_root@,
                ),
            decreases units.len() - i,
        {
            let u = units[i].1;
            proof {
                assert(units@.take(i + 1).drop_last() =~= units@.take(i as int));
                assert(units@.take(i + 1).last() == units@[i as int]);
            }
            if pick_unit(u, UnitPick::Bin) {
                let b = NixBinTarget {
                    name: u.target.name.clone(),
                    path: make_relative(u.target.src_path.as_str(), crate_root.as_str()),
                };
                let ghost before = crate_bin@.map_values(|b: NixBinTarget| (b.name@, b.path@));
                crate_bin.push(b);
                proof {
                    assert(crate_bin@.map_values(|b: NixBinTarget| (b.name@, b.path@)) =~= before.push(
                        (b.name@, b.path@),
                    ));
                }
            }
            i = i + 1;
        }
        proof {
            assert(units@.take(units.len() as int) =~= units@);
        }
    } else {
        proof {
            assert(crate_bin@.map_values(|b: NixBinTarget| (b.name@, b.path@)) =~= Seq::<
                (Seq<char>, Seq<char>),
            >::empty());
        }
    }
    let build = match build_idx {
        Some(b) => {
            let rel = make_relative(units[b].1.target.src_path.as_str(), crate_root.as_str());
            if chars_eq(&chars_of(rel.as_str()), &chars_of("build.rs")) {
                None
            } else {
                Some(rel)
            }
        },
        None => None,
    };
    let (links, authors, description, homepage, license, repository) = match meta_pkg {
        Some(m) => (
            clone_opt(&m.links),
            match &m.authors {
                Some(a) => clone_strings(a),
                None => Vec::new(),
            },
            match &m.description {
                Some(d) => Some(sanitize_metadata(d.as_str())),
                None => None,
            },
            clone_opt(&m.homepage),
            clone_opt(&m.license),
            clone_opt(&m.repository),
        ),
        None => (None, Vec::new(), None, None, None, None),
    };
    let c = NixCrate {
        crate_name,
        version,
        edition: primary.target.edition.clone(),
        sha256,
        source,
        features,
        host_features,
        dependencies,
        build_dependencies,
        dev_dependencies: Vec::new(),
        proc_macro,
        build,
        lib_path,
        lib_name,
        lib_crate_types,
        crate_bin,
        links,
        authors,
        description,
        homepage,
        license,
        repository,
    };
    proof {
        assert(dep_views(c.dev_dependencies@) =~= Seq::<DepView>::empty());
        assert(views(c.lib_crate_types@) == match lib_pick(units@) {
            None => Seq::<Seq<char>>::empty(),
            Some(l) => views(units@[l].1.target.crate_types@),
        }) by {
            if lib_idx is None {
                assert(views(c.lib_crate_types@) =~= Seq::<Seq<char>>::empty());
            }
        }
        assert(views(c.authors@) == authors_of(meta_pkg)) by {
            if meta_pkg is None || meta_pkg.unwrap().authors is None {
                assert(views(c.authors@) =~= Seq::<Seq<char>>::empty());
            }
        }
        reveal_strlit("src/lib.rs");
        reveal_strlit("build.rs");
    }
    Ok(Some(c))
}

// ---------------------------------------------------------------------------
// Validation
// ---------------------------------------------------------------------------

/// The number of edges of `deps` into crates outside `dom`.
pub open spec fn missing_count(deps: Seq<DepView>, dom: Set<Seq<char>>) -> nat
    decreases deps.len(),
{
    if deps.len() == 0 {
        0
    } else {
        missing_count(deps.drop_last(), dom) + if dom.contains(deps.last().0) {
            0nat
        } else {
            1nat
        }
    }
}

/// The number of edges of a crate into crates outside `dom`.
pub open spec fn crate_missing(c: CrateView, dom: Set<Seq<char>>) -> nat {
    missing_count(c.dependencies, dom) + missing_count(c.build_dependencies, dom) + missing_count(
        c.dev_dependencies,
        dom,
    )
}

/// The number of dangling edges of the crates with the given keys.
pub open spec fn missing_in(keys: Seq<Seq<char>>, m: Map<Seq<char>, CrateView>) -> nat
    decreases keys.len(),
{
    if keys.len() == 0 {
        0
    } else {
        missing_in(keys.drop_last(), m) + crate_missing(m[keys.last()], m.dom())
    }
}

proof fn lemma_missing_count_zero(deps: Seq<DepView>, dom: Set<Seq<char>>)
    ensures
        (missing_count(deps, dom) == 0) <==> forall|i: int|
            0 <= i < deps.len() ==> dom.contains(#[trigger] deps[i].0),
    decreases deps.len(),
{
    if deps.len() > 0 {
        lemma_missing_count_zero(deps.drop_last(), dom);
        if missing_count(deps, dom) == 0 {
            assert forall|i: int| 0 <= i < deps.len() implies dom.contains(#[trigger] deps[i].0) by {
                if i < deps.len() - 1 {
                    assert(deps.drop_last()[i] == deps[i]);
                }
            }
        }
        if forall|i: int| 0 <= i < deps.len() ==> dom.contains(#[trigger] deps[i].0) {
            assert forall|i: int| 0 <= i < deps.drop_last().len() implies dom.contains(
                #[trigger] deps.drop_last()[i].0,
            ) by {
                assert(deps.drop_last()[i] == deps[i]);
            }
            assert(dom.contains(deps[deps.len() - 1].0));
        }
    }
}

proof fn lemma_missing_in_zero(keys: Seq<Seq<char>>, m: Map<Seq<char>, CrateView>)
    ensures
        (missing_in(keys, m) == 0) <==> forall|j: int|
            0 <= j < keys.len() ==> crate_missing(m[#[trigger] keys[j]], m.dom()) == 0,
    decreases keys.len(),
{
    if keys.len() > 0 {
        lemma_missing_in_zero(keys.drop_last(), m);
        if missing_in(keys, m) == 0 {
            assert forall|j: int| 0 <= j < keys.len() implies crate_missing(m[#[trigger] keys[j]], m.dom())
                == 0 by {
                if j < keys.len() - 1 {
                    assert(keys.drop_last()[j] == keys[j]);
                }
            }
        }
        if forall|j: int| 0 <= j < keys.len() ==> crate_missing(m[#[trigger] keys[j]], m.dom()) == 0 {
            assert forall|j: int| 0 <= j < keys.drop_last().len() implies crate_missing(
                m[#[trigger] keys.drop_last()[j]],
                m.dom(),
            ) == 0 by {
                assert(keys.drop_last()[j] == keys[j]);
            }
            assert(crate_missing(m[keys[keys.len() - 1]], m.dom()) == 0);
        }
    }
}

/// A plan's crates are reference-closed exactly when no edge dangles.
pub proof fn lemma_closed_iff_no_dangling(m: Map<Seq<char>, CrateView>, keys: Seq<Seq<char>>)
    requires
        keys.to_set() == m.dom(),
    ensures
        refs_closed(m) <==> missing_in(keys, m) == 0,
{
    lemma_missing_in_zero(keys, m);
    if refs_closed(m) {
        assert forall|j: int| 0 <= j < keys.len() implies crate_missing(m[#[trigger] keys[j]], m.dom())
            == 0 by {
            let k = keys[j];
            assert(keys.to_set().contains(k));
            let c = m[k];
            lemma_missing_count_zero(c.dependencies, m.dom());
            lemma_missing_count_zero(c.build_dependencies, m.dom());
            lemma_missing_count_zero(c.dev_dependencies, m.dom());
            assert forall|i: int| 0 <= i < c.dependencies.len() implies m.dom().contains(
                #[trigger] c.dependencies[i].0,
            ) by {
                assert(m.contains_key(m[k].dependencies[i].0));
            }
            assert forall|i: int| 0 <= i < c.build_dependencies.len() implies m.dom().contains(
                #[trigger] c.build_dependencies[i].0,
            ) by {
                assert(m.contains_key(m[k].build_dependencies[i].0));
            }
            assert forall|i: int| 0 <= i < c.dev_dependencies.len() implies m.dom().contains(
                #[trigger] c.dev_dependencies[i].0,
            ) by {
                assert(m.contains_key(m[k].dev_dependencies[i].0));
            }
        }
    }
    if missing_in(keys, m) == 0 {
        assert forall|k: Seq<char>, i: int|
            #![trigger m[k].dependencies[i]]
            #![trigger m[k].build_dependencies[i]]
            #![trigger m[k].dev_dependencies[i]]
            m.contains_key(k) implies {
            &&& 0 <= i < m[k].dependencies.len() ==> m.contains_key(m[k].dependencies[i].0)
            &&& 0 <= i < m[k].build_dependencies.len() ==> m.contains_key(m[k].build_dependencies[i].0)
            &&& 0 <= i < m[k].dev_dependencies.len() ==> m.contains_key(m[k].dev_dependencies[i].0)
        } by {
            assert(keys.to_set().contains(k));
            let j = choose|j: int| 0 <= j < keys.len() && keys[j] == k;
            assert(crate_missing(m[keys[j]], m.dom()) == 0);
            let c = m[k];
            lemma_missing_count_zero(c.dependencies, m.dom());
            lemma_missing_count_zero(c.build_dependencies, m.dom());
            lemma_missing_count_zero(c.dev_dependencies, m.dom());
        }
    }
}

/// The package IDs of the edges of `deps` into crates outside `dom`, in order.
pub open spec fn missing_targets(deps: Seq<DepView>, dom: Set<Seq<char>>) -> Seq<Seq<char>>
    decreases deps.len(),
{
    if deps.len() == 0 {
        Seq::empty()
    } else {
        let prev = missing_targets(deps.drop_last(), dom);
        if dom.contains(deps.last().0) {
            prev
        } else {
            prev.push(deps.last().0)
        }
    }
}

/// Each target tagged with the crate name and package ID it is missing from.
pub open spec fn tagged(name: Seq<char>, from: Seq<char>, targets: Seq<Seq<char>>) -> Seq<
    (Seq<char>, Seq<char>, Seq<char>),
> {
    targets.map_values(|t: Seq<char>| (name, from, t))
}

/// The dangling edges of crate `from`: its dependencies, then its build
/// dependencies, then its dev dependencies.
pub open spec fn crate_dangling(from: Seq<char>, c: CrateView, dom: Set<Seq<char>>) -> Seq<
    (Seq<char>, Seq<char>, Seq<char>),
> {
    tagged(c.crate_name, from, missing_targets(c.dependencies, dom)) + tagged(
        c.crate_name,
        from,
        missing_targets(c.build_dependencies, dom),
    ) + tagged(c.crate_name, from, missing_targets(c.dev_dependencies, dom))
}

/// The dangling edges of the crates with the given keys, crate after crate.
pub open spec fn dangling_in(keys: Seq<Seq<char>>, m: Map<Seq<char>, CrateView>) -> Seq<
    (Seq<char>, Seq<char>, Seq<char>),
>
    decreases keys.len(),
{
    if keys.len() == 0 {
        Seq::empty()
    } else {
        dangling_in(keys.drop_last(), m) + crate_dangling(keys.last(), m[keys.last()], m.dom())
    }
}

/// Every dependency edge of a plan's crates that names no crate of the plan,
/// by (crate name, package ID, missing package ID), in package-ID order.
pub open spec fn dangling_refs(m: Map<Seq<char>, CrateView>) -> Seq<(Seq<char>, Seq<char>, Seq<char>)> {
    dangling_in(sorted_seq_of(m.dom()), m)
}

proof fn lemma_missing_targets_len(deps: Seq<DepView>, dom: Set<Seq<char>>)
    ensures
        missing_targets(deps, dom).len() == missing_count(deps, dom),
    decreases deps.len(),
{
    if deps.len() > 0 {
        lemma_missing_targets_len(deps.drop_last(), dom);
    }
}

/// There are as many dangling edges as [`missing_in`] counts.
proof fn lemma_dangling_len(keys: Seq<Seq<char>>, m: Map<Seq<char>, CrateView>)
    ensures
        dangling_in(keys, m).len() == missing_in(keys, m),
    decreases keys.len(),
{
    if keys.len() > 0 {
        lemma_dangling_len(keys.drop_last(), m);
        let c = m[keys.last()];
        lemma_missing_targets_len(c.dependencies, m.dom());
        lemma_missing_targets_len(c.build_dependencies, m.dom());
        lemma_missing_targets_len(c.dev_dependencies, m.dom());
    }
}

/// Records, for each edge of `deps` into a crate that `crates` does not hold,
/// the triple (`name`, `from`, missing package ID).
fn push_missing(
    deps: &Vec<NixDep>,
    crates: &StrMap<NixCrate>,
    name: &String,
    from: &String,
    missing: &mut Vec<(String, String, String)>,
)
    ensures
        ref_views(final(missing)@) == ref_views(old(missing)@) + tagged(
            name@,
            from@,
            missing_targets(dep_views(deps@), crates@.dom()),
        ),
{
    let ghost dv = dep_views(deps@);
    let ghost start = ref_views(missing@);
    let mut k: usize = 0;
    proof {
        assert(ref_views(missing@) =~= start + tagged(name@, from@, missing_targets(dv.take(0), crates@.dom())));
    }
    while k < deps.len()
        invariant
            k <= deps.len(),
            dv == dep_views(deps@),
            start == ref_views(old(missing)@),
            ref_views(missing@) == start + tagged(name@, from@, missing_targets(dv.take(k as int), crates@.dom())),
        decreases deps.len() - k,
    {
        proof {
            assert(dv.take(k + 1).drop_last() =~= dv.take(k as int));
            assert(dv.take(k + 1).last() == deps@[k as int]@);
        }
        if !crates.contains_key(deps[k].package_id.as_str()) {
            let ghost before = ref_views(missing@);
            let t = (name.clone(), from.clone(), deps[k].package_id.clone());
            missing.push(t);
            proof {
                assert(ref_views(missing@) =~= before.push((name@, from@, deps@[k as int].package_id@)));
                assert(tagged(name@, from@, missing_targets(dv.take(k + 1), crates@.dom())) =~= tagged(
                    name@,
                    from@,
                    missing_targets(dv.take(k as int), crates@.dom()),
                ).push((name@, from@, deps@[k as int].package_id@)));
            }
        }
        k = k + 1;
    }
    proof {
        assert(dv.take(k as int) =~= dv);
    }
}

/// Validate that every dependency reference resolves to a crate in the plan.
///
/// Fails with the number of dangling references when some do not.
pub fn validate_references(crates: &StrMap<NixCrate>) -> (r: Result<(), Error>)
    ensures
        match r {
            Ok(()) => refs_closed(crate_views(crates@)),
            Err(e) => !refs_closed(crate_views(crates@)) && e@ == ErrorView::DanglingReferences(
                dangling_refs(crate_views(crates@)),
            ),
        },
{
    let ghost m = crate_views(crates@);
    crates.keys_are_sorted();
    proof {
        crates.lemma_pairs_are_sorted_map();
        assert(m.dom() =~= crates@.dom());
    }
    let ghost keys = crates.keys();
    let mut missing: Vec<(String, String, String)> = Vec::new();
    let mut i: usize = 0;
    proof {
        assert(keys.take(0) =~= Seq::<Seq<char>>::empty());
    }
    while i < crates.len()
        invariant
            i <= crates.pairs().len(),
            keys == crates.keys(),
            m == crate_views(crates@),
            m.dom() == crates@.dom(),
            forall|j: int|
                0 <= j < crates.pairs().len() ==> #[trigger] crates@[crates.pairs()[j].0] == crates.pairs()[j].1,
            ref_views(missing@) == dangling_in(keys.take(i as int), m),
        decreases crates.pairs().len() - i,
    {
        let from = crates.key_at(i);
        let c = crates.value_at(i);
        proof {
            assert(keys.take(i + 1).drop_last() =~= keys.take(i as int));
            assert(keys.take(i + 1).last() == keys[i as int]);
            assert(keys[i as int] == crates.pairs()[i as int].0);
            assert(crates@[keys[i as int]] == *c);
            assert(m[keys[i as int]] == c@);
        }
        let ghost before = ref_views(missing@);
        push_missing(&c.dependencies, crates, &c.crate_name, from, &mut missing);
        push_missing(&c.build_dependencies, crates, &c.crate_name, from, &mut missing);
        push_missing(&c.dev_dependencies, crates, &c.crate_name, from, &mut missing);
        proof {
            assert(ref_views(missing@) =~= before + crate_dangling(keys[i as int], m[keys[i as int]], m.dom()));
        }
        i = i + 1;
    }
    proof {
        assert(keys.take(i as int) =~= keys);
        lemma_closed_iff_no_dangling(m, keys);
        lemma_dangling_len(keys, m);
        assert(ref_views(missing@).len() == missing@.len());
    }
    if missing.len() > 0 {
        Err(Error::DanglingReferences(missing))
    } else {
        Ok(())
    }
}

// ---------------------------------------------------------------------------
// Workspace member filtering
// ---------------------------------------------------------------------------

/// `i` is the first name of `names` that `members` does not hold.
pub open spec fn is_first_unknown(names: Seq<Seq<char>>, members: Set<Seq<char>>, i: int) -> bool {
    &&& 0 <= i < names.len()
    &&& !members.contains(names[i])
    &&& forall|j: int| 0 <= j < i ==> members.contains(#[trigger] names[j])
}

/// The first name of `names` that `members` does not hold, if any.
pub open spec fn first_unknown(names: Seq<Seq<char>>, members: Set<Seq<char>>) -> Option<int> {
    if exists|i: int| 0 <= i < names.len() && !members.contains(#[trigger] names[i]) {
        Some(choose|i: int| is_first_unknown(names, members, i))
    } else {
        None
    }
}

/// The first unknown name is the one at `i` when `i` is the first unknown position.
pub proof fn lemma_first_unknown_at(names: Seq<Seq<char>>, members: Set<Seq<char>>, i: int)
    requires
        is_first_unknown(names, members, i),
    ensures
        first_unknown(names, members) == Some(i),
{
    let w = choose|w: int| is_first_unknown(names, members, w);
    assert(is_first_unknown(names, members, w));
    if w < i {
        assert(members.contains(names[w]));
    }
    if w > i {
        assert(members.contains(names[i]));
    }
}

/// The package IDs that a member map points to.
pub open spec fn member_ids(members: Map<Seq<char>, Seq<char>>) -> Set<Seq<char>> {
    Set::new(|v: Seq<char>| exists|k: Seq<char>| members.contains_key(k) && #[trigger] members[k] == v)
}

/// The roots that are in `ids`, in order.
pub open spec fn roots_in(roots: Seq<Seq<char>>, ids: Set<Seq<char>>) -> Seq<Seq<char>>
    decreases roots.len(),
{
    if roots.len() == 0 {
        Seq::empty()
    } else {
        let prev = roots_in(roots.drop_last(), ids);
        if ids.contains(roots.last()) {
            prev.push(roots.last())
        } else {
            prev
        }
    }
}

/// Whether `name` is one of `names`.
fn contains_name(names: &[String], name: &str) -> (r: bool)
    ensures
        r == views(names@).contains(name@),
{
    let mut k: usize = 0;
    while k < names.len()
        invariant
            k <= names.len(),
            forall|j: int| 0 <= j < k ==> names@[j]@ != name@,
        decreases names.len() - k,
    {
        if str_eq(names[k].as_str(), name) {
            proof {
                assert(views(names@)[k as int] == name@);
            }
            return true;
        }
        k = k + 1;
    }
    proof {
        if views(names@).contains(name@) {
            let j = choose|j: int| 0 <= j < names@.len() && views(names@)[j] == name@;
            assert(names@[j]@ == name@);
        }
    }
    false
}

/// Apply workspace member filtering (`--members`).
///
/// With a filter, every requested name must be a workspace member (else the
/// first unknown one is reported with the valid names); the result keeps
/// only the requested members and the roots that are their package IDs.
/// Without a filter, both pass through unchanged.
pub fn apply_members_filter(
    roots: Vec<String>,
    workspace_members: StrMap<String>,
    filter: Option<&[String]>,
) -> (r: Result<(Vec<String>, StrMap<String>), Error>)
    ensures
        match filter {
            None => r matches Ok((rr, wm)) && rr == roots && wm == workspace_members,
            Some(f) => match first_unknown(views(f@), workspace_members@.dom()) {
                Some(i) => r matches Err(e) && e@ == ErrorView::UnknownWorkspaceMember(
                    views(f@)[i],
                    workspace_members.keys(),
                ),
                None => r matches Ok((rr, wm)) && string_map_view(wm@) == string_map_view(
                    workspace_members@,
                ).restrict(views(f@).to_set()) && views(rr@) == roots_in(
                    views(roots@),
                    member_ids(string_map_view(wm@)),
                ),
            },
        },
{
    let names = match filter {
        None => {
            return Ok((roots, workspace_members));
        },
        Some(f) => f,
    };
    let mut i: usize = 0;
    while i < names.len()
        invariant
            i <= names.len(),
            filter == Some(names),
            forall|j: int| 0 <= j < i ==> workspace_members@.contains_key(#[trigger] views(names@)[j]),
        decreases names.len() - i,
    {
        if !workspace_members.contains_key(names[i].as_str()) {
            proof {
                let nv = views(names@);
                assert(is_first_unknown(nv, workspace_members@.dom(), i as int));
                let w = choose|w: int| is_first_unknown(nv, workspace_members@.dom(), w);
                if w < i {
                    assert(workspace_members@.contains_key(nv[w]));
                }
                if w > i {
                    assert(workspace_members@.contains_key(nv[i as int]));
                }
                assert(first_unknown(nv, workspace_members@.dom()) == Some(i as int));
            }
            let mut valid: Vec<String> = Vec::new();
            let mut k: usize = 0;
            while k < workspace_members.len()
                invariant
                    k <= workspace_members.pairs().len(),
                    views(valid@) == workspace_members.keys().take(k as int),
                decreases workspace_members.pairs().len() - k,
            {
                let key = workspace_members.key_at(k).clone();
                let ghost before = views(valid@);
                valid.push(key);
                proof {
                    assert(views(valid@) =~= before.push(key@));
                    assert(workspace_members.keys()[k as int] == workspace_members.pairs()[k as int].0);
                    assert(views(valid@) =~= workspace_members.keys().take(k + 1));
                }
                k = k + 1;
            }
            proof {
                assert(workspace_members.keys().take(k as int) =~= workspace_members.keys());
            }
            let name = names[i].clone();
            proof {
                assert(name@ == names@[i as int]@);
            }
            let e = Error::UnknownWorkspaceMember(name, valid);
            proof {
                assert(views(valid@) == workspace_members.keys());
                assert(views(names@)[i as int] == names@[i as int]@);
                assert(e@ == ErrorView::UnknownWorkspaceMember(views(names@)[i as int], workspace_members.keys()));
            }
            return Err(e);
        }
        i = i + 1;
    }
    proof {
        if exists|j: int| 0 <= j < views(names@).len() && !workspace_members@.contains_key(#[trigger] views(names@)[j]) {
            let j = choose|j: int| 0 <= j < views(names@).len() && !workspace_members@.contains_key(#[trigger] views(names@)[j]);
            assert(workspace_members@.contains_key(views(names@)[j]));
        }
    }
    let ghost fset = views(names@).to_set();
    let ghost target = string_map_view(workspace_members@).restrict(fset);
    workspace_members.keys_are_sorted();
    proof {
        workspace_members.lemma_pairs_are_sorted_map();
    }
    let mut selected: StrMap<String> = StrMap::new();
    let mut k: usize = 0;
    while k < workspace_members.len()
        invariant
            k <= workspace_members.pairs().len(),
            strictly_increasing(workspace_members.keys()),
            workspace_members.keys().to_set() == workspace_members@.dom(),
            forall|j: int|
                0 <= j < workspace_members.pairs().len() ==> #[trigger] workspace_members@[workspace_members.pairs()[j].0]
                    == workspace_members.pairs()[j].1,
            fset == views(names@).to_set(),
            forall|key: Seq<char>|
                #![trigger selected@.contains_key(key)]
                selected@.contains_key(key) <==> (fset.contains(key) && exists|j: int|
                    0 <= j < k && #[trigger] workspace_members.pairs()[j].0 == key),
            forall|key: Seq<char>|
                #![trigger selected@.contains_key(key)]
                selected@.contains_key(key) ==> selected@[key]@ == workspace_members@[key]@,
        decreases workspace_members.pairs().len() - k,
    {
        let key = workspace_members.key_at(k);
        if contains_name(names, key.as_str()) {
            let v = workspace_members.value_at(k).clone();
            selected.insert(key.clone(), v);
        }
        proof {
            assert(workspace_members.pairs()[k as int].0 == key@);
        }
        k = k + 1;
    }
    proof {
        assert(string_map_view(selected@) =~= target) by {
            assert forall|key: Seq<char>| string_map_view(selected@).contains_key(key) <==> target.contains_key(key) by {
                if selected@.contains_key(key) {
                    let j = choose|j: int| 0 <= j < k && #[trigger] workspace_members.pairs()[j].0 == key;
                    assert(workspace_members.keys()[j] == key);
                    assert(workspace_members.keys().to_set().contains(key));
                }
                if target.contains_key(key) {
                    assert(workspace_members@.dom().contains(key));
                    assert(workspace_members.keys().to_set().contains(key));
                    let j = choose|j: int| 0 <= j < workspace_members.keys().len() && workspace_members.keys()[j] == key;
                    assert(workspace_members.pairs()[j].0 == key);
                }
            }
        }
    }
    let ghost ids = member_ids(string_map_view(selected@));
    selected.keys_are_sorted();
    proof {
        selected.lemma_pairs_are_sorted_map();
    }
    let mut kept: Vec<String> = Vec::new();
    let mut i: usize = 0;
    proof {
        assert(views(roots@).take(0) =~= Seq::<Seq<char>>::empty());
        assert(views(kept@) =~= Seq::<Seq<char>>::empty());
    }
    while i < roots.len()
        invariant
            i <= roots.len(),
            ids == member_ids(string_map_view(selected@)),
            strictly_increasing(selected.keys()),
            selected.keys().to_set() == selected@.dom(),
            forall|j: int|
                0 <= j < selected.pairs().len() ==> #[trigger] selected@[selected.pairs()[j].0] == selected.pairs()[j].1,
            views(kept@) == roots_in(views(roots@).take(i as int), ids),
        decreases roots.len() - i,
    {
        proof {
            assert(views(roots@).take(i + 1).drop_last() =~= views(roots@).take(i as int));
            assert(views(roots@).take(i + 1).last() == roots@[i as int]@);
        }
        let mut found = false;
        let mut k: usize = 0;
        while k < selected.len()
            invariant
                k <= selected.pairs().len(),
                i < roots.len(),
                selected.keys().to_set() == selected@.dom(),
                forall|j: int|
                    0 <= j < selected.pairs().len() ==> #[trigger] selected@[selected.pairs()[j].0]
                        == selected.pairs()[j].1,
                found == exists|j: int| 0 <= j < k && (#[trigger] selected.pairs()[j]).1@ == roots@[i as int]@,
            decreases selected.pairs().len() - k,
        {
            if str_eq(selected.value_at(k).as_str(), roots[i].as_str()) {
                found = true;
            }
            k = k + 1;
        }
        proof {
            let smv = string_map_view(selected@);
            assert(found == ids.contains(roots@[i as int]@)) by {
                if found {
                    let j = choose|j: int| 0 <= j < k && (#[trigger] selected.pairs()[j]).1@ == roots@[i as int]@;
                    let key = selected.pairs()[j].0;
                    assert(selected@[key] == selected.pairs()[j].1);
                    assert(smv.contains_key(key) && smv[key] == roots@[i as int]@);
                }
                if ids.contains(roots@[i as int]@) {
                    let key = choose|key: Seq<char>| smv.contains_key(key) && #[trigger] smv[key] == roots@[i as int]@;
                    assert(selected.keys().to_set().contains(key));
                    let j = choose|j: int| 0 <= j < selected.keys().len() && selected.keys()[j] == key;
                    assert(selected.pairs()[j].0 == key);
                    assert(selected.pairs()[j].1@ == roots@[i as int]@);
                }
            }
        }
        if found {
            let r = roots[i].clone();
            let ghost before = views(kept@);
            kept.push(r);
            proof {
                assert(views(kept@) =~= before.push(r@));
            }
        }
        i = i + 1;
    }
    proof {
        assert(views(roots@).take(roots.len() as int) =~= views(roots@));
    }
    Ok((kept, selected))
}

// ---------------------------------------------------------------------------
// Dev dependencies
// ---------------------------------------------------------------------------

/// The package ID of each unit of a graph, by index.
pub open spec fn graph_ids(g: UnitGraph) -> Seq<Seq<char>> {
    g.units@.map_values(|u: Unit| u.pkg_id@)
}

/// A unit of package `p` with a library-like or bin target.
pub open spec fn member_unit(u: &Unit, p: Seq<char>) -> bool {
    u.pkg_id@ == p && (u.target.lib_like_present() || u.target.bin_present())
}

/// The package IDs (other than `p`) that the Build-mode units of `p` depend on.
pub open spec fn normal_dep_ids(g: UnitGraph, p: Seq<char>) -> Set<Seq<char>> {
    Set::new(
        |q: Seq<char>|
            exists|i: int, d: int|
                0 <= i < g.units.len() && member_unit(&g.units[i], p) && g.units[i].mode
                    == UnitMode::Build && 0 <= d < g.units[i].dependencies.len() && graph_ids(
                    g,
                )[(#[trigger] g.units[i].dependencies[d]).index as int] == q && q != p,
    )
}

/// The edges of the Test-mode units of `p` among the first `n` units, in
/// order, without edges into `p` itself or to build-script runs.
pub open spec fn test_edges(g: UnitGraph, p: Seq<char>, n: int) -> Seq<DepView>
    decreases n,
{
    if n <= 0 {
        Seq::empty()
    } else {
        let prev = test_edges(g, p, n - 1);
        let u = g.units[n - 1];
        if member_unit(&u, p) && u.mode == UnitMode::Test {
            prev + unit_dep_edges(u.dependencies@, g, graph_ids(g), p)
        } else {
            prev
        }
    }
}

/// The edges whose package is not in `normal`, in order.
pub open spec fn drop_normal(edges: Seq<DepView>, normal: Set<Seq<char>>) -> Seq<DepView>
    decreases edges.len(),
{
    if edges.len() == 0 {
        Seq::empty()
    } else {
        let prev = drop_normal(edges.drop_last(), normal);
        if normal.contains(edges.last().0) {
            prev
        } else {
            prev.push(edges.last())
        }
    }
}

/// The dev-only dependencies of workspace member `p`: the edges of its
/// Test-mode units into packages that its Build-mode units do not depend
/// on, each once, in order of appearance.
pub open spec fn dev_deps(g: UnitGraph, p: Seq<char>) -> Seq<DepView> {
    dedup_first(drop_normal(test_edges(g, p, g.units.len() as int), normal_dep_ids(g, p)))
}

/// A crate with its dev dependencies set.
pub open spec fn with_dev(c: CrateView, dev: Seq<DepView>) -> CrateView {
    CrateView { dev_dependencies: dev, ..c }
}

/// The package IDs (other than `p`) that the Build-mode units of `p` depend on.
fn normal_deps_of(g: &UnitGraph, p: &str) -> (r: Vec<String>)
    requires
        build_deps_in_range(*g),
    ensures
        forall|q: Seq<char>| #[trigger] views(r@).contains(q) <==> normal_dep_ids(*g, p@).contains(q),
{
    let mut out: Vec<String> = Vec::new();
    let mut i: usize = 0;
    while i < g.units.len()
        invariant
            i <= g.units.len(),
            build_deps_in_range(*g),
            forall|q: Seq<char>|
                #[trigger] views(out@).contains(q) <==> exists|k: int, d: int|
                    0 <= k < i && member_unit(&g.units[k], p@) && g.units[k].mode == UnitMode::Build && 0
                        <= d < g.units[k].dependencies.len() && graph_ids(
                        *g,
                    )[(#[trigger] g.units[k].dependencies[d]).index as int] == q && q != p@,
        decreases g.units.len() - i,
    {
        let u = &g.units[i];
        let counts = str_eq(u.pkg_id.as_str(), p) && (u.target.has_lib_like() || u.target.has_bin())
            && u.mode == UnitMode::Build;
        let mut j: usize = 0;
        while j < u.dependencies.len()
            invariant
                i < g.units.len(),
                *u == g.units[i as int],
                j <= u.dependencies.len(),
                build_deps_in_range(*g),
                counts == (member_unit(u, p@) && u.mode == UnitMode::Build),
                forall|q: Seq<char>|
                    #[trigger] views(out@).contains(q) <==> (exists|k: int, d: int|
                        0 <= k < i && member_unit(&g.units[k], p@) && g.units[k].mode == UnitMode::Build
                            && 0 <= d < g.units[k].dependencies.len() && graph_ids(
                            *g,
                        )[(#[trigger] g.units[k].dependencies[d]).index as int] == q && q != p@) || (
                    counts && exists|d: int|
                        0 <= d < j && graph_ids(*g)[(#[trigger] u.dependencies[d]).index as int] == q && q
                            != p@),
            decreases u.dependencies.len() - j,
        {
            if counts {
                let idx = u.dependencies[j].index;
                proof {
                    assert(g.units[i as int].dependencies[j as int].index < g.units.len());
                }
                let target = &g.units[idx].pkg_id;
                if !str_eq(target.as_str(), p) {
                    let t = target.clone();
                    let ghost before = views(out@);
                    out.push(t);
                    proof {
                        assert(views(out@) =~= before.push(t@));
                        assert(graph_ids(*g)[idx as int] == t@);
                        assert forall|q: Seq<char>| #[trigger] views(out@).contains(q) <==> (before.contains(q) || q == t@) by {
                            if views(out@).contains(q) {
                                let m = choose|m: int| 0 <= m < views(out@).len() && views(out@)[m] == q;
                                if m < before.len() {
                                    assert(before[m] == q);
                                }
                            }
                            if before.contains(q) {
                                let m = choose|m: int| 0 <= m < before.len() && before[m] == q;
                                assert(views(out@)[m] == q);
                            }
                            if q == t@ {
                                assert(views(out@)[before.len() as int] == q);
                            }
                        }
                    }
                }
            }
            j = j + 1;
        }
        proof {
            assert forall|q: Seq<char>|
                #[trigger] views(out@).contains(q) <==> exists|k: int, d: int|
                    0 <= k < i + 1 && member_unit(&g.units[k], p@) && g.units[k].mode == UnitMode::Build
                        && 0 <= d < g.units[k].dependencies.len() && graph_ids(
                        *g,
                    )[(#[trigger] g.units[k].dependencies[d]).index as int] == q && q != p@ by {
                if exists|k: int, d: int|
                    0 <= k < i + 1 && member_unit(&g.units[k], p@) && g.units[k].mode == UnitMode::Build
                        && 0 <= d < g.units[k].dependencies.len() && graph_ids(
                        *g,
                    )[(#[trigger] g.units[k].dependencies[d]).index as int] == q && q != p@ {
                    let (k, d) = choose|k: int, d: int|
                        0 <= k < i + 1 && member_unit(&g.units[k], p@) && g.units[k].mode
                            == UnitMode::Build && 0 <= d < g.units[k].dependencies.len() && graph_ids(
                            *g,
                        )[(#[trigger] g.units[k].dependencies[d]).index as int] == q && q != p@;
                    if k == i {
                        assert(u.dependencies[d] == g.units[k].dependencies[d]);
                    }
                }
                if counts && exists|d: int|
                    0 <= d < j && graph_ids(*g)[(#[trigger] u.dependencies[d]).index as int] == q && q
                        != p@ {
                    let d = choose|d: int|
                        0 <= d < j && graph_ids(*g)[(#[trigger] u.dependencies[d]).index as int] == q && q
                            != p@;
                    assert(g.units[i as int].dependencies[d] == u.dependencies[d]);
                }
            }
        }
        i = i + 1;
    }
    proof {
        assert forall|q: Seq<char>| #[trigger] views(out@).contains(q) <==> normal_dep_ids(*g, p@).contains(q) by {
        }
    }
    out
}

/// Whether `q` is one of `names`.
fn in_names(names: &Vec<String>, q: &str) -> (r: bool)
    ensures
        r == views(names@).contains(q@),
{
    contains_name(names.as_slice(), q)
}

/// The dev-only dependencies of `p`, given the package IDs of its normal dependencies.
fn dev_deps_of(g: &UnitGraph, p: &str, normal: &Vec<String>, Ghost(members): Ghost<Seq<Seq<char>>>) -> (r: Vec<NixDep>)
    requires
        test_deps_in_range(*g, members), members.contains(p@),
        forall|q: Seq<char>| #[trigger] views(normal@).contains(q) <==> normal_dep_ids(*g, p@).contains(q),
    ensures
        dep_views(r@) == dev_deps(*g, p@),
{
    let ghost ns = normal_dep_ids(*g, p@);
    let ghost ids = graph_ids(*g);
    let mut dev: Vec<NixDep> = Vec::new();
    let mut i: usize = 0;
    proof {
        assert(dep_views(dev@) =~= Seq::<DepView>::empty());
    }
    while i < g.units.len()
        invariant
            i <= g.units.len(),
            test_deps_in_range(*g, members), members.contains(p@),
            ns == normal_dep_ids(*g, p@),
            ids == graph_ids(*g),
            forall|q: Seq<char>| #[trigger] views(normal@).contains(q) <==> ns.contains(q),
            dep_views(dev@) == dedup_first(drop_normal(test_edges(*g, p@, i as int), ns)),
        decreases g.units.len() - i,
    {
        let u = &g.units[i];
        let ghost base = test_edges(*g, p@, i as int);
        if str_eq(u.pkg_id.as_str(), p) && (u.target.has_lib_like() || u.target.has_bin()) && u.mode
            == UnitMode::Test {
            let mut j: usize = 0;
            proof {
                assert(u.dependencies@.take(0) =~= Seq::<UnitDep>::empty());
                assert(base + unit_dep_edges(u.dependencies@.take(0), *g, ids, p@) =~= base);
            }
            while j < u.dependencies.len()
                invariant
                    i < g.units.len(),
                    *u == g.units[i as int],
                    test_edges_read(u, members),
                    j <= u.dependencies.len(),
                    test_deps_in_range(*g, members), members.contains(p@),
                    ids == graph_ids(*g),
                    forall|q: Seq<char>| #[trigger] views(normal@).contains(q) <==> ns.contains(q),
                    dep_views(dev@) == dedup_first(
                        drop_normal(base + unit_dep_edges(u.dependencies@.take(j as int), *g, ids, p@), ns),
                    ),
                decreases u.dependencies.len() - j,
            {
                let dep = &u.dependencies[j];
                proof {
                    assert(g.units[i as int].dependencies[j as int] == *dep);
                    assert(dep.index < g.units.len());
                    assert(u.dependencies@.take(j + 1).drop_last() =~= u.dependencies@.take(j as int));
                    assert(u.dependencies@.take(j + 1).last() == *dep);
                }
                let ghost prev = base + unit_dep_edges(u.dependencies@.take(j as int), *g, ids, p@);
                let target = &g.units[dep.index];
                proof {
                    assert(ids[dep.index as int] == target.pkg_id@);
                }
                if !str_eq(target.pkg_id.as_str(), p) && target.mode != UnitMode::RunCustomBuild {
                    let ghost edge = (target.pkg_id@, dep.extern_crate_name@);
                    proof {
                        assert(base + unit_dep_edges(u.dependencies@.take(j + 1), *g, ids, p@) =~= prev.push(edge));
                        assert(prev.push(edge).drop_last() =~= prev);
                    }
                    if !in_names(normal, target.pkg_id.as_str()) {
                        proof {
                            assert(drop_normal(prev.push(edge), ns) == drop_normal(prev, ns).push(edge));
                            assert(drop_normal(prev, ns).push(edge).drop_last() =~= drop_normal(prev, ns));
                        }
                        if !has_dep(&dev, target.pkg_id.as_str(), dep.extern_crate_name.as_str()) {
                            dev.push(
                                NixDep {
                                    package_id: target.pkg_id.clone(),
                                    extern_crate_name: dep.extern_crate_name.clone(),
                                },
                            );
                            proof {
                                assert(dep_views(dev@) =~= dep_views(dev@).drop_last().push(edge));
                            }
                        }
                    } else {
                        proof {
                            assert(drop_normal(prev.push(edge), ns) == drop_normal(prev, ns));
                        }
                    }
                } else {
                    proof {
                        assert(!keeps_dep(*dep, *g, ids, p@));
                        assert(base + unit_dep_edges(u.dependencies@.take(j + 1), *g, ids, p@) =~= prev);
                    }
                }
                j = j + 1;
            }
            proof {
                assert(u.dependencies@.take(j as int) =~= u.dependencies@);
            }
        }
        i = i + 1;
    }
    dev
}

/// Classify dev-only dependencies on workspace members.
///
/// Within the test graph, Build-mode units carry normal dependencies and
/// Test-mode units add dev dependencies; each workspace member in the plan
/// whose difference is not empty gets it as its dev dependencies.
pub fn classify_dev_dependencies(
    test_graph: &UnitGraph,
    metadata: &CargoMetadata,
    crates: &mut StrMap<NixCrate>,
) -> (r: Result<(), Error>)
    requires
        build_deps_in_range(*test_graph), test_deps_in_range(*test_graph, views(metadata.workspace_members@)),
    ensures
        r is Ok,
        final(crates)@.dom() == old(crates)@.dom(),
        forall|k: Seq<char>|
            #![trigger final(crates)@[k]]
            old(crates)@.contains_key(k) ==> if views(metadata.workspace_members@).contains(k)
                && dev_deps(*test_graph, k).len() > 0 {
                final(crates)@[k]@ == with_dev(old(crates)@[k]@, dev_deps(*test_graph, k))
            } else {
                final(crates)@[k] == old(crates)@[k]
            },
{
    let ghost members = views(metadata.workspace_members@);
    let mut i: usize = 0;
    while i < metadata.workspace_members.len()
        invariant
            i <= metadata.workspace_members.len(),
            members == views(metadata.workspace_members@),
            build_deps_in_range(*test_graph), test_deps_in_range(*test_graph, views(metadata.workspace_members@)),
            crates@.dom() == old(crates)@.dom(),
            forall|k: Seq<char>|
                #![trigger crates@[k]]
                old(crates)@.contains_key(k) ==> if members.take(i as int).contains(k) && dev_deps(
                    *test_graph,
                    k,
                ).len() > 0 {
                    crates@[k]@ == with_dev(old(crates)@[k]@, dev_deps(*test_graph, k))
                } else {
                    crates@[k] == old(crates)@[k]
                },
        decreases metadata.workspace_members.len() - i,
    {
        let ws_id = &metadata.workspace_members[i];
        let ghost key = ws_id@;
        proof {
            assert(members[i as int] == key);
            assert forall|k: Seq<char>| #[trigger] members.take(i + 1).contains(k) <==> (members.take(
                i as int,
            ).contains(k) || k == key) by {
                if members.take(i + 1).contains(k) {
                    let m = choose|m: int| 0 <= m < i + 1 && #[trigger] members.take(i + 1)[m] == k;
                    if m < i {
                        assert(members.take(i as int)[m] == k);
                    }
                }
                if members.take(i as int).contains(k) {
                    let m = choose|m: int| 0 <= m < i && #[trigger] members.take(i as int)[m] == k;
                    assert(members.take(i + 1)[m] == k);
                }
                if k == key {
                    assert(members.take(i + 1)[i as int] == k);
                }
            }
        }
        let normal = normal_deps_of(test_graph, ws_id.as_str());
        let dev = dev_deps_of(test_graph, ws_id.as_str(), &normal, Ghost(members));
        if dev.len() > 0 {
            match crates.index_of(ws_id.as_str()) {
                Some(idx) => {
                    let ghost before = crates@;
                    crates.keys_are_sorted();
                    proof {
                        crates.lemma_pair_in_view(idx as int);
                        assert(before.contains_key(key));
                        let _ = before[key];
                        assert(old(crates)@.contains_key(key));
                    }
                    let mut c = crates.replace_value_at(idx, NixCrate::default());
                    proof {
                        assert(c == before[key]);
                    }
                    let ghost cur = c@;
                    c.dev_dependencies = dev;
                    proof {
                        assert(c@ == with_dev(cur, dev_deps(*test_graph, key)));
                    }
                    crates.replace_value_at(idx, c);
                    proof {
                        assert(crates@ == before.insert(key, c));
                        assert(crates@.dom() =~= before.dom());
                        assert forall|k: Seq<char>| #![trigger crates@[k]]
                            old(crates)@.contains_key(k) implies if members.take(i + 1).contains(k) && dev_deps(
                                *test_graph,
                                k,
                            ).len() > 0 {
                                crates@[k]@ == with_dev(old(crates)@[k]@, dev_deps(*test_graph, k))
                            } else {
                                crates@[k] == old(crates)@[k]
                            } by {
                            if k == key {
                                assert(before[k] == before[key]);
                                if members.take(i as int).contains(k) {
                                    assert(cur == with_dev(old(crates)@[k]@, dev_deps(*test_graph, k)));
                                } else {
                                    assert(cur == old(crates)@[k]@);
                                }
                                assert(with_dev(cur, dev_deps(*test_graph, key)) == with_dev(old(crates)@[k]@, dev_deps(*test_graph, k)));
                            } else {
                                assert(crates@[k] == before[k]);
                            }
                        }
                    }
                },
                None => {
                    proof {
                        assert(!old(crates)@.contains_key(key));
                    }
                },
            }
        } else {
            proof {
                assert(dev_deps(*test_graph, key).len() == 0);
            }
        }
        i = i + 1;
    }
    proof {
        assert(members.take(i as int) =~= members);
    }
    Ok(())
}

// ---------------------------------------------------------------------------
// Merge
// ---------------------------------------------------------------------------

/// The units of package `p` among the first `n` units of a graph, with
/// their indices, in order.
pub open spec fn units_of<'a>(g: UnitGraph, p: Seq<char>, n: int) -> Seq<(usize, &'a Unit)>
    decreases n,
{
    if n <= 0 {
        Seq::empty()
    } else {
        let prev = units_of(g, p, n - 1);
        if g.units[n - 1].pkg_id@ == p {
            prev.push(((n - 1) as usize, &g.units[n - 1]))
        } else {
            prev
        }
    }
}

/// Every entry of [`units_of`] is a unit of the graph with its index.
pub proof fn lemma_units_of(g: UnitGraph, p: Seq<char>, n: int)
    requires
        0 <= n <= g.units.len(),
        n <= usize::MAX,
    ensures
        forall|j: int|
            0 <= j < units_of(g, p, n).len() ==> (#[trigger] units_of(g, p, n)[j]).0 < n && units_of(
                g,
                p,
                n,
            )[j].1 == g.units[units_of(g, p, n)[j].0 as int],
    decreases n,
{
    if n > 0 {
        lemma_units_of(g, p, n - 1);
        let prev = units_of(g, p, n - 1);
        if g.units[n - 1].pkg_id@ == p {
            let e = ((n - 1) as usize, &g.units[n - 1]);
            assert(units_of(g, p, n) == prev.push(e));
            assert forall|j: int| 0 <= j < prev.len() + 1 implies (#[trigger] prev.push(e)[j]).0 < n
                && prev.push(e)[j].1 == g.units[prev.push(e)[j].0 as int] by {
                if j < prev.len() {
                    assert(prev.push(e)[j] == prev[j]);
                }
            }
        }
    }
}

/// The package IDs of a graph's units.
pub open spec fn pkg_ids_of(g: UnitGraph) -> Set<Seq<char>> {
    Set::new(|p: Seq<char>| exists|i: int| 0 <= i < g.units.len() && (#[trigger] g.units[i]).pkg_id@ == p)
}

/// The metadata package with ID `p`; the last one when several share it.
pub open spec fn meta_of<'a>(pkgs: Seq<MetadataPackage>, p: Seq<char>) -> Option<&'a MetadataPackage>
    decreases pkgs.len(),
{
    if pkgs.len() == 0 {
        None
    } else if pkgs.last().id@ == p {
        Some(&pkgs.last())
    } else {
        meta_of(pkgs.drop_last(), p)
    }
}

/// The packages of a lock file.
pub open spec fn lock_packages(lock: CargoLock) -> Seq<LockPackage> {
    match lock.package {
        Some(v) => v@,
        None => Seq::empty(),
    }
}

/// `(name, version, checksum)` of the locked packages that have a checksum, in order.
pub open spec fn lock_table(pkgs: Seq<LockPackage>) -> Seq<(String, String, String)>
    decreases pkgs.len(),
{
    if pkgs.len() == 0 {
        Seq::empty()
    } else {
        let prev = lock_table(pkgs.drop_last());
        match pkgs.last().checksum {
            Some(c) => prev.push((pkgs.last().name, pkgs.last().version, c)),
            None => prev,
        }
    }
}

/// What the merge makes of package `p` of the graph.
pub open spec fn crate_outcome(
    g: UnitGraph,
    metadata: CargoMetadata,
    lock: CargoLock,
    p: Seq<char>,
) -> Result<Option<CrateView>, ErrorView> {
    nix_crate_view(
        g,
        graph_ids(g),
        lock_table(lock_packages(lock)),
        metadata.workspace_root@,
        p,
        units_of(g, p, g.units.len() as int),
        meta_of(metadata.packages@, p),
        views(metadata.workspace_members@).contains(p),
    )
}

/// The first error among the packages `keys`, in order.
pub open spec fn first_error(
    keys: Seq<Seq<char>>,
    g: UnitGraph,
    metadata: CargoMetadata,
    lock: CargoLock,
) -> Option<ErrorView>
    decreases keys.len(),
{
    if keys.len() == 0 {
        None
    } else {
        match crate_outcome(g, metadata, lock, keys[0]) {
            Err(e) => Some(e),
            _ => first_error(keys.drop_first(), g, metadata, lock),
        }
    }
}

/// The crate of an outcome that holds one.
pub open spec fn outcome_crate(o: Result<Option<CrateView>, ErrorView>) -> CrateView {
    match o {
        Ok(Some(c)) => c,
        _ => arbitrary(),
    }
}

/// The crates that the packages of the graph make.
pub open spec fn built_crates(g: UnitGraph, metadata: CargoMetadata, lock: CargoLock) -> Map<
    Seq<char>,
    CrateView,
> {
    Map::new(
        |p: Seq<char>| pkg_ids_of(g).contains(p) && crate_outcome(g, metadata, lock, p) matches Ok(Some(_)),
        |p: Seq<char>| outcome_crate(crate_outcome(g, metadata, lock, p)),
    )
}

/// The crates with the dev dependencies of the workspace members set.
pub open spec fn classified(m: Map<Seq<char>, CrateView>, g: UnitGraph, metadata: CargoMetadata) -> Map<
    Seq<char>,
    CrateView,
> {
    Map::new(
        |k: Seq<char>| m.contains_key(k),
        |k: Seq<char>|
            if views(metadata.workspace_members@).contains(k) && dev_deps(g, k).len() > 0 {
                with_dev(m[k], dev_deps(g, k))
            } else {
                m[k]
            },
    )
}

/// The package IDs of a graph's roots.
pub open spec fn root_ids(g: UnitGraph) -> Seq<Seq<char>> {
    g.roots@.map_values(|r: usize| g.units[r as int].pkg_id@)
}

/// Member name → package ID for the members that the plan holds; a later
/// member wins a name shared by two.
pub open spec fn member_names(members: Seq<Seq<char>>, crates: Map<Seq<char>, CrateView>) -> Map<
    Seq<char>,
    Seq<char>,
>
    decreases members.len(),
{
    if members.len() == 0 {
        Map::empty()
    } else {
        let prev = member_names(members.drop_last(), crates);
        let id = members.last();
        if crates.contains_key(id) {
            prev.insert(crates[id].crate_name, id)
        } else {
            prev
        }
    }
}

/// The plan that merging the inputs gives, or the error it stops at: a
/// package whose ID names no crate (the first in ID order), then dangling
/// dependency edges, then an unknown `--members` name.
pub open spec fn merge_view(
    unit_graph: UnitGraph,
    metadata: CargoMetadata,
    lock: CargoLock,
    target: Option<Seq<char>>,
    cargo_lock_hash: Seq<char>,
    test_unit_graph: Option<UnitGraph>,
    members_filter: Option<Seq<Seq<char>>>,
) -> Result<PlanView, ErrorView> {
    let primary = match test_unit_graph {
        Some(t) => t,
        None => unit_graph,
    };
    match first_error(sorted_seq_of(pkg_ids_of(primary)), primary, metadata, lock) {
        Some(e) => Err(e),
        None => {
            let built = built_crates(primary, metadata, lock);
            let crates = if test_unit_graph is Some {
                classified(built, primary, metadata)
            } else {
                built
            };
            if !refs_closed(crates) {
                Err(ErrorView::DanglingReferences(dangling_refs(crates)))
            } else {
                let wm = member_names(views(metadata.workspace_members@), crates);
                let roots = root_ids(unit_graph);
                let plan = PlanView {
                    version: BUILD_PLAN_VERSION,
                    workspace_root: metadata.workspace_root@,
                    roots,
                    workspace_members: wm,
                    target,
                    cargo_lock_hash,
                    inputs_hash: None,
                    crates,
                };
                match members_filter {
                    None => Ok(plan),
                    Some(f) => match first_unknown(f, wm.dom()) {
                        Some(i) => Err(ErrorView::UnknownWorkspaceMember(f[i], sorted_seq_of(wm.dom()))),
                        None => {
                            let fwm = wm.restrict(f.to_set());
                            Ok(PlanView { roots: roots_in(roots, member_ids(fwm)), workspace_members: fwm, ..plan })
                        },
                    },
                }
            }
        },
    }
}

/// The graph that a merge builds its crates from.
pub open spec fn primary_graph(unit_graph: UnitGraph, test_unit_graph: Option<&UnitGraph>) -> UnitGraph {
    match test_unit_graph {
        Some(t) => *t,
        None => unit_graph,
    }
}

/// The views of an optional list of strings.
pub open spec fn opt_names_view(o: Option<&[String]>) -> Option<Seq<Seq<char>>> {
    match o {
        Some(f) => Some(views(f@)),
        None => None,
    }
}

/// The view of an optional test graph.
pub open spec fn opt_graph(o: Option<&UnitGraph>) -> Option<UnitGraph> {
    match o {
        Some(g) => Some(*g),
        None => None,
    }
}

/// The metadata package with ID `p`.
fn find_meta<'a>(pkgs: &'a Vec<MetadataPackage>, p: &str) -> (r: Option<&'a MetadataPackage>)
    ensures
        r == meta_of(pkgs@, p@),
{
    let mut k: usize = pkgs.len();
    proof {
        assert(pkgs@.take(k as int) =~= pkgs@);
    }
    while k > 0
        invariant
            k <= pkgs.len(),
            meta_of(pkgs@, p@) == meta_of(pkgs@.take(k as int), p@),
        decreases k,
    {
        proof {
            assert(pkgs@.take(k as int).last() == pkgs@[k - 1]);
            assert(pkgs@.take(k as int).drop_last() =~= pkgs@.take(k - 1));
        }
        if str_eq(pkgs[k - 1].id.as_str(), p) {
            return Some(&pkgs[k - 1]);
        }
        k = k - 1;
    }
    None
}

/// `(name, version, checksum)` of the locked packages that have a checksum.
fn checksum_table(lock: &CargoLock) -> (r: Vec<(String, String, String)>)
    ensures
        r@ == lock_table(lock_packages(*lock)),
{
    let mut table: Vec<(String, String, String)> = Vec::new();
    match &lock.package {
        None => {
            proof {
                assert(table@ =~= lock_table(lock_packages(*lock)));
            }
        },
        Some(pkgs) => {
            let mut i: usize = 0;
            proof {
                assert(pkgs@.take(0) =~= Seq::<LockPackage>::empty());
            }
            while i < pkgs.len()
                invariant
                    i <= pkgs.len(),
                    table@ == lock_table(pkgs@.take(i as int)),
                decreases pkgs.len() - i,
            {
                proof {
                    assert(pkgs@.take(i + 1).drop_last() =~= pkgs@.take(i as int));
                    assert(pkgs@.take(i + 1).last() == pkgs@[i as int]);
                }
                match &pkgs[i].checksum {
                    Some(c) => {
                        table.push((pkgs[i].name.clone(), pkgs[i].version.clone(), c.clone()));
                    },
                    None => {},
                }
                i = i + 1;
            }
            proof {
                assert(pkgs@.take(i as int) =~= pkgs@);
            }
        },
    }
    table
}

/// Whether every dependency edge that a merge reads points at a unit of the
/// graph: the edges of Build-mode units with a library-like, bin or
/// build-script target, and of Test-mode units of `members` with a
/// library-like or bin target.
pub fn read_edges_in_range(g: &UnitGraph, members: &[String]) -> (r: bool)
    ensures
        r == (build_deps_in_range(*g) && test_deps_in_range(*g, views(members@))),
{
    let n = g.units.len();
    let mut i: usize = 0;
    while i < n
        invariant
            i <= n,
            n == g.units.len(),
            forall|u: int, d: int|
                0 <= u < i && (build_edges_read(&g.units[u]) || test_edges_read(&g.units[u], views(members@)))
                    && 0 <= d < g.units[u].dependencies.len() ==> (#[trigger] g.units[u].dependencies[d]).index < n,
        decreases n - i,
    {
        let u = &g.units[i];
        let build = u.mode == UnitMode::Build && (u.target.has_lib_like() || u.target.has_bin()
            || u.target.has_custom_build());
        let test = u.mode == UnitMode::Test && (u.target.has_lib_like() || u.target.has_bin()) && contains_name(
            members,
            u.pkg_id.as_str(),
        );
        if build || test {
            let mut j: usize = 0;
            while j < u.dependencies.len()
                invariant
                    i < n,
                    n == g.units.len(),
                    *u == g.units[i as int],
                    build || test,
                    build == build_edges_read(u),
                    test == test_edges_read(u, views(members@)),
                    j <= u.dependencies.len(),
                    forall|d: int| 0 <= d < j ==> (#[trigger] u.dependencies[d]).index < n,
                decreases u.dependencies.len() - j,
            {
                if u.dependencies[j].index >= n {
                    proof {
                        assert(build_edges_read(&g.units[i as int]) || test_edges_read(
                            &g.units[i as int],
                            views(members@),
                        ));
                        assert(g.units[i as int].dependencies[j as int].index >= n);
                    }
                    return false;
                }
                j = j + 1;
            }
        }
        proof {
            assert forall|u: int, d: int|
                0 <= u < i + 1 && (build_edges_read(&g.units[u]) || test_edges_read(&g.units[u], views(members@)))
                    && 0 <= d < g.units[u].dependencies.len() implies (#[trigger] g.units[u].dependencies[d]).index < n by {
                if u == i {
                    assert(g.units[u].dependencies[d] == g.units[i as int].dependencies[d]);
                }
            }
        }
        i = i + 1;
    }
    true
}

/// Merge cargo unit-graph, metadata, and lockfile into a Nix build plan.
///
/// When `test_unit_graph` (from `cargo test --unit-graph`) is given, it is the
/// source of every crate: its feature sets already reflect Cargo's feature
/// unification across normal and dev dependencies, and the workspace members'
/// dev-only dependencies are classified within it. The roots come from
/// `unit_graph`.
///
/// Fails when a package ID is malformed, when dependency references dangle,
/// or when a requested `members_filter` name is not a workspace member.
pub fn merge(
    unit_graph: &UnitGraph,
    metadata: &CargoMetadata,
    lock: &CargoLock,
    target: Option<&str>,
    cargo_lock_hash: String,
    test_unit_graph: Option<&UnitGraph>,
    members_filter: Option<&[String]>,
) -> (r: Result<NixBuildPlan, Error>)
    requires
        first_error(
            sorted_seq_of(pkg_ids_of(primary_graph(*unit_graph, test_unit_graph))),
            primary_graph(*unit_graph, test_unit_graph),
            *metadata,
            *lock,
        ) is None ==> roots_in_range(*unit_graph),
        build_deps_in_range(primary_graph(*unit_graph, test_unit_graph)),
        test_unit_graph is Some ==> test_deps_in_range(*test_unit_graph.unwrap(), views(metadata.workspace_members@)),
    ensures
        match merge_view(
            *unit_graph,
            *metadata,
            *lock,
            crate::source::opt_str_view(target),
            cargo_lock_hash@,
            opt_graph(test_unit_graph),
            opt_names_view(members_filter),
        ) {
            Ok(pv) => r matches Ok(plan) && plan@ == pv,
            Err(ev) => r matches Err(e) && e@ == ev,
        },
{
    let primary: &UnitGraph = match test_unit_graph {
        Some(t) => t,
        None => unit_graph,
    };
    let ghost g = *primary;
    proof {
        assert(g == (match opt_graph(test_unit_graph) {
            Some(t) => t,
            None => *unit_graph,
        }));
    }
    let mut unit_pkg_ids: Vec<&str> = Vec::new();
    let mut i: usize = 0;
    while i < primary.units.len()
        invariant
            i <= primary.units.len(),
            str_views(unit_pkg_ids@) == graph_ids(*primary).take(i as int),
            unit_pkg_ids@.len() == i,
        decreases primary.units.len() - i,
    {
        let ghost before = unit_pkg_ids@;
        unit_pkg_ids.push(primary.units[i].pkg_id.as_str());
        proof {
            assert(unit_pkg_ids@.len() == i + 1);
            assert(unit_pkg_ids@[i as int]@ == primary.units[i as int].pkg_id@);
            assert(forall|j: int| 0 <= j < i ==> unit_pkg_ids@[j] == before[j]);
            assert forall|j: int| 0 <= j < i + 1 implies #[trigger] str_views(unit_pkg_ids@)[j] == graph_ids(
                *primary,
            ).take(i + 1)[j] by {
                if j < i {
                    assert(str_views(before)[j] == graph_ids(*primary).take(i as int)[j]);
                }
            }
            assert(str_views(unit_pkg_ids@) =~= graph_ids(*primary).take(i + 1));
        }
        i = i + 1;
    }
    proof {
        assert(graph_ids(*primary).take(i as int) =~= graph_ids(*primary));
    }
    let ctx = MergeContext {
        unit_graph: primary,
        unit_pkg_ids,
        checksums: checksum_table(lock),
        workspace_root: metadata.workspace_root.as_str(),
    };
    // Group units by package ID.
    let mut groups: StrMap<Vec<(usize, &Unit)>> = StrMap::new();
    let mut i: usize = 0;
    while i < primary.units.len()
        invariant
            i <= primary.units.len(),
            g == *primary,
            forall|p: Seq<char>|
                #![trigger groups@.contains_key(p)]
                groups@.contains_key(p) <==> exists|k: int| 0 <= k < i && (#[trigger] g.units[k]).pkg_id@ == p,
            forall|p: Seq<char>|
                #![trigger groups@[p]]
                groups@.contains_key(p) ==> groups@[p]@ == units_of(g, p, i as int),
        decreases primary.units.len() - i,
    {
        let u = &primary.units[i];
        let ghost key = u.pkg_id@;
        match groups.index_of(u.pkg_id.as_str()) {
            Some(idx) => {
                groups.keys_are_sorted();
                proof {
                    groups.lemma_pair_in_view(idx as int);
                }
                let mut v = groups.replace_value_at(idx, Vec::new());
                v.push((i, u));
                groups.replace_value_at(idx, v);
            },
            None => {
                let mut v: Vec<(usize, &Unit)> = Vec::new();
                v.push((i, u));
                proof {
                    assert(units_of(g, key, i as int) =~= Seq::<(usize, &Unit)>::empty()) by {
                        lemma_units_of(g, key, i as int);
                        if units_of(g, key, i as int).len() > 0 {
                            let e = units_of(g, key, i as int)[0];
                            assert(g.units[e.0 as int].pkg_id@ == key) by {
                                lemma_units_of_pkg(g, key, i as int);
                            }
                            assert(groups@.contains_key(key));
                        }
                    }
                }
                groups.insert(u.pkg_id.clone(), v);
            },
        }
        proof {
            assert forall|p: Seq<char>| #![trigger groups@.contains_key(p)]
                groups@.contains_key(p) <==> exists|k: int| 0 <= k < i + 1 && (#[trigger] g.units[k]).pkg_id@ == p by {
                if p == key {
                    assert(g.units[i as int].pkg_id@ == p);
                }
            }
            assert forall|p: Seq<char>| #![trigger groups@[p]]
                groups@.contains_key(p) implies groups@[p]@ == units_of(g, p, i + 1) by {
            }
        }
        i = i + 1;
    }
    proof {
        assert(groups@.dom() =~= pkg_ids_of(g)) by {
            assert forall|p: Seq<char>| groups@.dom().contains(p) <==> pkg_ids_of(g).contains(p) by {
                if groups@.contains_key(p) {
                    let k = choose|k: int| 0 <= k < i && (#[trigger] g.units[k]).pkg_id@ == p;
                    assert(g.units[k].pkg_id@ == p);
                }
            }
        }
    }
    groups.keys_are_sorted();
    proof {
        groups.lemma_pairs_are_sorted_map();
    }
    let ghost keys = groups.keys();
    let mut crates: StrMap<NixCrate> = StrMap::new();
    let mut i: usize = 0;
    proof {
        assert(keys.skip(0) =~= keys);
    }
    while i < groups.len()
        invariant
            i <= groups.pairs().len(),
            g == *primary,
            keys == groups.keys(),
            keys == sorted_seq_of(pkg_ids_of(g)),
            groups@.dom() == pkg_ids_of(g),
            forall|j: int|
                0 <= j < groups.pairs().len() ==> #[trigger] groups@[groups.pairs()[j].0] == groups.pairs()[j].1,
            forall|p: Seq<char>|
                #![trigger groups@[p]]
                groups@.contains_key(p) ==> groups@[p]@ == units_of(g, p, g.units.len() as int),
            build_deps_in_range(g),
            g.units.len() <= usize::MAX,
            g == (match opt_graph(test_unit_graph) {
                Some(t) => t,
                None => *unit_graph,
            }),
            ctx.unit_graph == primary,
            str_views(ctx.unit_pkg_ids@) == graph_ids(g),
            ctx.checksums@ == lock_table(lock_packages(*lock)),
            ctx.workspace_root@ == metadata.workspace_root@,
            first_error(keys, g, *metadata, *lock) == first_error(keys.skip(i as int), g, *metadata, *lock),
            forall|p: Seq<char>|
                #![trigger crates@.contains_key(p)]
                crates@.contains_key(p) <==> (keys.take(i as int).contains(p) && crate_outcome(
                    g,
                    *metadata,
                    *lock,
                    p,
                ) matches Ok(Some(_))),
            forall|p: Seq<char>|
                #![trigger crates@[p]]
                crates@.contains_key(p) ==> crates@[p]@ == outcome_crate(crate_outcome(g, *metadata, *lock, p)),
        decreases groups.pairs().len() - i,
    {
        let pkg_id = groups.key_at(i);
        let units = groups.value_at(i);
        let ghost p = pkg_id@;
        proof {
            assert(keys[i as int] == p);
            assert(groups@[p] == *units);
            assert(units@ == units_of(g, p, g.units.len() as int));
            lemma_units_of(g, p, g.units.len() as int);
            assert(ctx.unit_pkg_ids@.len() == g.units.len()) by {
                assert(str_views(ctx.unit_pkg_ids@).len() == graph_ids(g).len());
            }
            assert forall|a: int, d: int|
                0 <= a < units@.len() && build_edges_read(units@[a].1) && 0 <= d < units@[a].1.dependencies.len() implies (#[trigger] units@[a].1.dependencies[d]).index
                < g.units.len() by {
                let ui = units@[a].0 as int;
                assert(units@[a].1 == g.units[ui]);
                assert(g.units[ui].dependencies[d] == units@[a].1.dependencies[d]);
            }
            assert(keys.skip(i as int)[0] == p);
            assert(keys.skip(i as int).drop_first() =~= keys.skip(i + 1));
        }
        let meta_pkg = find_meta(&metadata.packages, pkg_id.as_str());
        let is_member = contains_name(metadata.workspace_members.as_slice(), pkg_id.as_str());
        let built = build_nix_crate(&ctx, pkg_id.as_str(), units.as_slice(), meta_pkg, is_member);
        proof {
            assert(crate_outcome(g, *metadata, *lock, p) == nix_crate_view(
                *ctx.unit_graph,
                str_views(ctx.unit_pkg_ids@),
                ctx.checksums@,
                ctx.workspace_root@,
                p,
                units@,
                meta_pkg,
                is_member,
            ));
        }
        match built {
            Err(e) => {
                proof {
                    assert(first_error(keys, g, *metadata, *lock) == Some(e@));
                }
                return Err(e);
            },
            Ok(None) => {},
            Ok(Some(c)) => {
                crates.insert(pkg_id.clone(), c);
            },
        }
        proof {
            assert forall|q: Seq<char>| #[trigger] keys.take(i + 1).contains(q) <==> (keys.take(i as int).contains(q) || q == p) by {
                if keys.take(i + 1).contains(q) {
                    let m = choose|m: int| 0 <= m < i + 1 && #[trigger] keys.take(i + 1)[m] == q;
                    if m < i {
                        assert(keys.take(i as int)[m] == q);
                    }
                }
                if keys.take(i as int).contains(q) {
                    let m = choose|m: int| 0 <= m < i && #[trigger] keys.take(i as int)[m] == q;
                    assert(keys.take(i + 1)[m] == q);
                }
                if q == p {
                    assert(keys.take(i + 1)[i as int] == q);
                }
            }
        }
        i = i + 1;
    }
    proof {
        assert(keys.take(i as int) =~= keys);
        assert(keys.skip(i as int) =~= Seq::<Seq<char>>::empty());
        assert(first_error(keys, g, *metadata, *lock) is None);
        assert(crate_views(crates@) =~= built_crates(g, *metadata, *lock)) by {
            assert forall|p: Seq<char>| #[trigger] crate_views(crates@).contains_key(p) <==> built_crates(g, *metadata, *lock).contains_key(p) by {
                assert(keys.to_set().contains(p) == keys.contains(p));
            }
        }
    }
    if test_unit_graph.is_some() {
        let ghost before = crate_views(crates@);
        let _ = classify_dev_dependencies(primary, metadata, &mut crates);
        proof {
            assert(crate_views(crates@) =~= classified(before, g, *metadata)) by {
                assert forall|k: Seq<char>| #[trigger] crate_views(crates@).contains_key(k) implies crate_views(crates@)[k] == classified(before, g, *metadata)[k] by {
                    let _ = crates@[k];
                }
            }
        }
    }
    let ghost final_crates = crate_views(crates@);
    // Roots
    let mut roots: Vec<String> = Vec::new();
    let mut i: usize = 0;
    while i < unit_graph.roots.len()
        invariant
            i <= unit_graph.roots.len(),
            roots_in_range(*unit_graph),
            views(roots@) == root_ids(*unit_graph).take(i as int),
        decreases unit_graph.roots.len() - i,
    {
        let r = unit_graph.roots[i];
        let id = unit_graph.units[r].pkg_id.clone();
        let ghost before = views(roots@);
        roots.push(id);
        proof {
            assert(views(roots@) =~= before.push(id@));
            assert(views(roots@) =~= root_ids(*unit_graph).take(i + 1));
        }
        i = i + 1;
    }
    proof {
        assert(root_ids(*unit_graph).take(i as int) =~= root_ids(*unit_graph));
    }
    // Workspace members present in the plan: name → package ID.
    let ghost members = views(metadata.workspace_members@);
    let mut workspace_members: StrMap<String> = StrMap::new();
    let mut i: usize = 0;
    proof {
        assert(members.take(0) =~= Seq::<Seq<char>>::empty());
        assert(string_map_view(workspace_members@) =~= Map::<Seq<char>, Seq<char>>::empty());
    }
    while i < metadata.workspace_members.len()
        invariant
            i <= metadata.workspace_members.len(),
            members == views(metadata.workspace_members@),
            final_crates == crate_views(crates@),
            string_map_view(workspace_members@) == member_names(members.take(i as int), final_crates),
        decreases metadata.workspace_members.len() - i,
    {
        let wm_id = &metadata.workspace_members[i];
        proof {
            assert(members.take(i + 1).drop_last() =~= members.take(i as int));
            assert(members.take(i + 1).last() == wm_id@);
        }
        match crates.get(wm_id.as_str()) {
            Some(c) => {
                let name = c.crate_name.clone();
                let id = wm_id.clone();
                let ghost before = workspace_members@;
                workspace_members.insert(name, id);
                proof {
                    assert(string_map_view(workspace_members@) =~= string_map_view(before).insert(name@, id@));
                }
            },
            None => {},
        }
        i = i + 1;
    }
    proof {
        assert(members.take(i as int) =~= members);
    }
    match validate_references(&crates) {
        Ok(()) => {},
        Err(e) => {
            return Err(e);
        },
    }
    let ghost wm_view = string_map_view(workspace_members@);
    workspace_members.keys_are_sorted();
    proof {
        workspace_members.lemma_pairs_are_sorted_map();
        assert(wm_view.dom() =~= workspace_members@.dom());
    }
    let (filtered_roots, filtered_members) = match apply_members_filter(roots, workspace_members, members_filter) {
        Ok(x) => x,
        Err(e) => {
            proof {
                assert(workspace_members.keys() == sorted_seq_of(wm_view.dom()));
                assert(wm_view == member_names(members, final_crates));
            }
            return Err(e);
        },
    };
    let plan = NixBuildPlan {
        version: BUILD_PLAN_VERSION,
        workspace_root: metadata.workspace_root.clone(),
        roots: filtered_roots,
        workspace_members: filtered_members,
        target: match target {
            Some(t) => Some(to_owned(t)),
            None => None,
        },
        cargo_lock_hash,
        inputs_hash: None,
        crates,
    };
    Ok(plan)
}

/// Every entry of [`units_of`] belongs to package `p`.
pub proof fn lemma_units_of_pkg(g: UnitGraph, p: Seq<char>, n: int)
    requires
        0 <= n <= g.units.len(),
        n <= usize::MAX,
    ensures
        forall|j: int|
            0 <= j < units_of(g, p, n).len() ==> g.units[(#[trigger] units_of(g, p, n)[j]).0 as int].pkg_id@
                == p,
    decreases n,
{
    if n > 0 {
        lemma_units_of_pkg(g, p, n - 1);
    }
}

// ---------------------------------------------------------------------------
// Laws of the merge
// ---------------------------------------------------------------------------

/// Every root that [`roots_in`] keeps is in `ids`.
proof fn lemma_roots_in_subset(roots: Seq<Seq<char>>, ids: Set<Seq<char>>)
    ensures
        forall|i: int| 0 <= i < roots_in(roots, ids).len() ==> ids.contains(#[trigger] roots_in(roots, ids)[i]),
    decreases roots.len(),
{
    if roots.len() > 0 {
        lemma_roots_in_subset(roots.drop_last(), ids);
        let prev = roots_in(roots.drop_last(), ids);
        if ids.contains(roots.last()) {
            assert forall|i: int| 0 <= i < prev.len() + 1 implies ids.contains(#[trigger] prev.push(roots.last())[i]) by {
                if i < prev.len() {
                    assert(prev.push(roots.last())[i] == prev[i]);
                }
            }
        }
    }
}

/// Every member entry names a package that `crates` holds.
proof fn lemma_member_names_in(members: Seq<Seq<char>>, crates: Map<Seq<char>, CrateView>)
    ensures
        forall|n: Seq<char>|
            #[trigger] member_names(members, crates).contains_key(n) ==> crates.contains_key(
                member_names(members, crates)[n],
            ),
    decreases members.len(),
{
    if members.len() > 0 {
        lemma_member_names_in(members.drop_last(), crates);
        let prev = member_names(members.drop_last(), crates);
        let id = members.last();
        if crates.contains_key(id) {
            let cur = prev.insert(crates[id].crate_name, id);
            assert forall|n: Seq<char>| #[trigger] cur.contains_key(n) implies crates.contains_key(cur[n]) by {
                if n != crates[id].crate_name {
                    assert(prev.contains_key(n));
                }
            }
        }
    }
}

/// A merge that succeeds gives a reference-closed plan: every dependency,
/// build dependency and dev dependency of every crate names a crate of the plan.
pub proof fn law_merged_plan_is_closed(
    unit_graph: UnitGraph,
    metadata: CargoMetadata,
    lock: CargoLock,
    target: Option<Seq<char>>,
    cargo_lock_hash: Seq<char>,
    test_unit_graph: Option<UnitGraph>,
    members_filter: Option<Seq<Seq<char>>>,
)
    requires
        merge_view(unit_graph, metadata, lock, target, cargo_lock_hash, test_unit_graph, members_filter) is Ok,
    ensures
        refs_closed(
            merge_view(unit_graph, metadata, lock, target, cargo_lock_hash, test_unit_graph, members_filter)->Ok_0.crates,
        ),
{
}

/// Every workspace member that a merged plan lists maps to a crate of the plan.
pub proof fn law_members_point_into_plan(
    unit_graph: UnitGraph,
    metadata: CargoMetadata,
    lock: CargoLock,
    target: Option<Seq<char>>,
    cargo_lock_hash: Seq<char>,
    test_unit_graph: Option<UnitGraph>,
    members_filter: Option<Seq<Seq<char>>>,
)
    requires
        merge_view(unit_graph, metadata, lock, target, cargo_lock_hash, test_unit_graph, members_filter) is Ok,
    ensures
        ({
            let plan = merge_view(
                unit_graph,
                metadata,
                lock,
                target,
                cargo_lock_hash,
                test_unit_graph,
                members_filter,
            )->Ok_0;
            forall|n: Seq<char>|
                #[trigger] plan.workspace_members.contains_key(n) ==> plan.crates.contains_key(
                    plan.workspace_members[n],
                )
        }),
{
    let primary = match test_unit_graph {
        Some(t) => t,
        None => unit_graph,
    };
    let built = built_crates(primary, metadata, lock);
    let crates = if test_unit_graph is Some {
        classified(built, primary, metadata)
    } else {
        built
    };
    lemma_member_names_in(views(metadata.workspace_members@), crates);
}

/// With a `--members` filter, a merged plan lists only requested members,
/// and its roots are the packages of those members, each a crate of the plan.
pub proof fn law_filtered_roots_are_selected_members(
    unit_graph: UnitGraph,
    metadata: CargoMetadata,
    lock: CargoLock,
    target: Option<Seq<char>>,
    cargo_lock_hash: Seq<char>,
    test_unit_graph: Option<UnitGraph>,
    filter: Seq<Seq<char>>,
)
    requires
        merge_view(unit_graph, metadata, lock, target, cargo_lock_hash, test_unit_graph, Some(filter)) is Ok,
    ensures
        ({
            let plan = merge_view(
                unit_graph,
                metadata,
                lock,
                target,
                cargo_lock_hash,
                test_unit_graph,
                Some(filter),
            )->Ok_0;
            &&& forall|n: Seq<char>| #[trigger] plan.workspace_members.contains_key(n) ==> filter.contains(n)
            &&& forall|i: int|
                0 <= i < plan.roots.len() ==> member_ids(plan.workspace_members).contains(#[trigger] plan.roots[i])
                    && plan.crates.contains_key(plan.roots[i])
        }),
{
    let primary = match test_unit_graph {
        Some(t) => t,
        None => unit_graph,
    };
    let built = built_crates(primary, metadata, lock);
    let crates = if test_unit_graph is Some {
        classified(built, primary, metadata)
    } else {
        built
    };
    let wm = member_names(views(metadata.workspace_members@), crates);
    let fwm = wm.restrict(filter.to_set());
    lemma_member_names_in(views(metadata.workspace_members@), crates);
    lemma_roots_in_subset(root_ids(unit_graph), member_ids(fwm));
    let plan = merge_view(unit_graph, metadata, lock, target, cargo_lock_hash, test_unit_graph, Some(filter))->Ok_0;
    assert forall|n: Seq<char>| #[trigger] plan.workspace_members.contains_key(n) implies filter.contains(n) by {
        assert(filter.to_set().contains(n));
    }
    assert forall|i: int| 0 <= i < plan.roots.len() implies member_ids(plan.workspace_members).contains(
        #[trigger] plan.roots[i],
    ) && plan.crates.contains_key(plan.roots[i]) by {
        let r = plan.roots[i];
        assert(member_ids(fwm).contains(r));
        let k = choose|k: Seq<char>| fwm.contains_key(k) && #[trigger] fwm[k] == r;
        assert(wm.contains_key(k));
    }
}

/// A member filter only narrows a merge. With a filter the merge fails
/// exactly when the unfiltered one does, with the same error, or when a
/// requested name is none of its workspace members; otherwise its plan is the
/// unfiltered plan with only the requested members and only the roots that
/// are theirs, in the same order.
pub proof fn law_members_filter_narrows_plan(
    unit_graph: UnitGraph,
    metadata: CargoMetadata,
    lock: CargoLock,
    target: Option<Seq<char>>,
    cargo_lock_hash: Seq<char>,
    test_unit_graph: Option<UnitGraph>,
    filter: Seq<Seq<char>>,
)
    ensures
        ({
            let whole = merge_view(unit_graph, metadata, lock, target, cargo_lock_hash, test_unit_graph, None);
            let narrowed = merge_view(
                unit_graph,
                metadata,
                lock,
                target,
                cargo_lock_hash,
                test_unit_graph,
                Some(filter),
            );
            &&& whole is Err ==> narrowed == whole
            &&& narrowed is Ok <==> whole is Ok && forall|i: int|
                0 <= i < filter.len() ==> whole->Ok_0.workspace_members.contains_key(#[trigger] filter[i])
            &&& narrowed is Ok ==> {
                let p = whole->Ok_0;
                let q = narrowed->Ok_0;
                &&& q.workspace_members == p.workspace_members.restrict(filter.to_set())
                &&& q.roots == roots_in(p.roots, member_ids(q.workspace_members))
                &&& q == (crate::output::PlanView { roots: q.roots, workspace_members: q.workspace_members, ..p })
            }
        }),
{
    let whole = merge_view(unit_graph, metadata, lock, target, cargo_lock_hash, test_unit_graph, None);
    let narrowed = merge_view(unit_graph, metadata, lock, target, cargo_lock_hash, test_unit_graph, Some(filter));
    if whole is Ok {
        let wm = whole->Ok_0.workspace_members;
        match first_unknown(filter, wm.dom()) {
            Some(_) => {
                let j = choose|j: int| 0 <= j < filter.len() && !wm.dom().contains(#[trigger] filter[j]);
                assert(!wm.contains_key(filter[j]));
            },
            None => {
                assert forall|i: int| 0 <= i < filter.len() implies wm.contains_key(#[trigger] filter[i]) by {
                    if !wm.dom().contains(filter[i]) {
                        assert(exists|j: int| 0 <= j < filter.len() && !wm.dom().contains(#[trigger] filter[j]));
                    }
                }
            },
        }
    }
}

/// Only workspace members get dev dependencies, and only when the merge
/// was given the test unit graph.
pub proof fn law_dev_dependencies_only_on_members(
    unit_graph: UnitGraph,
    metadata: CargoMetadata,
    lock: CargoLock,
    target: Option<Seq<char>>,
    cargo_lock_hash: Seq<char>,
    test_unit_graph: Option<UnitGraph>,
    members_filter: Option<Seq<Seq<char>>>,
)
    requires
        merge_view(unit_graph, metadata, lock, target, cargo_lock_hash, test_unit_graph, members_filter) is Ok,
    ensures
        ({
            let plan = merge_view(
                unit_graph,
                metadata,
                lock,
                target,
                cargo_lock_hash,
                test_unit_graph,
                members_filter,
            )->Ok_0;
            forall|k: Seq<char>|
                #[trigger] plan.crates.contains_key(k) && plan.crates[k].dev_dependencies.len() > 0 ==> test_unit_graph
                    is Some && views(metadata.workspace_members@).contains(k)
        }),
{
    let primary = match test_unit_graph {
        Some(t) => t,
        None => unit_graph,
    };
    let built = built_crates(primary, metadata, lock);
    assert forall|k: Seq<char>| #[trigger] built.contains_key(k) implies built[k].dev_dependencies.len() == 0 by {
        let o = crate_outcome(primary, metadata, lock, k);
        assert(o matches Ok(Some(_)));
    }
}

/// The kept edges avoid `normal` and come from `edges`.
proof fn lemma_drop_normal(edges: Seq<DepView>, normal: Set<Seq<char>>)
    ensures
        forall|i: int|
            0 <= i < drop_normal(edges, normal).len() ==> !normal.contains((#[trigger] drop_normal(edges, normal)[i]).0)
                && edges.contains(drop_normal(edges, normal)[i]),
    decreases edges.len(),
{
    if edges.len() > 0 {
        let d = edges.drop_last();
        lemma_drop_normal(d, normal);
        let prev = drop_normal(d, normal);
        assert forall|i: int| 0 <= i < prev.len() implies edges.contains(#[trigger] prev[i]) by {
            let j = choose|j: int| 0 <= j < d.len() && d[j] == prev[i];
            assert(edges[j] == prev[i]);
        }
        if !normal.contains(edges.last().0) {
            let e = edges.last();
            assert forall|i: int| 0 <= i < prev.len() + 1 implies !normal.contains((#[trigger] prev.push(e)[i]).0)
                && edges.contains(prev.push(e)[i]) by {
                if i < prev.len() {
                    assert(prev.push(e)[i] == prev[i]);
                } else {
                    assert(edges[edges.len() - 1] == e);
                }
            }
        }
    }
}

/// No test edge of `p` points into `p` itself.
proof fn lemma_test_edges_not_self(g: UnitGraph, p: Seq<char>, n: int)
    ensures
        forall|i: int| 0 <= i < test_edges(g, p, n).len() ==> (#[trigger] test_edges(g, p, n)[i]).0 != p,
    decreases n,
{
    if n > 0 {
        lemma_test_edges_not_self(g, p, n - 1);
        let prev = test_edges(g, p, n - 1);
        let u = g.units[n - 1];
        if member_unit(&u, p) && u.mode == UnitMode::Test {
            let more = unit_dep_edges(u.dependencies@, g, graph_ids(g), p);
            lemma_unit_dep_edges_not_self(u.dependencies@, g, graph_ids(g), p);
            assert forall|i: int| 0 <= i < prev.len() + more.len() implies (#[trigger] (prev + more)[i]).0 != p by {
                if i < prev.len() {
                    assert((prev + more)[i] == prev[i]);
                } else {
                    assert((prev + more)[i] == more[i - prev.len()]);
                }
            }
        }
    }
}

/// The dev dependencies of a workspace member are each listed once, point
/// neither into the member itself nor to a package that its normal build
/// already depends on.
pub proof fn law_dev_dependencies_are_dev_only(g: UnitGraph, p: Seq<char>)
    ensures
        dev_deps(g, p).no_duplicates(),
        forall|i: int|
            0 <= i < dev_deps(g, p).len() ==> (#[trigger] dev_deps(g, p)[i]).0 != p && !normal_dep_ids(g, p).contains(
                dev_deps(g, p)[i].0,
            ),
{
    let edges = test_edges(g, p, g.units.len() as int);
    let kept = drop_normal(edges, normal_dep_ids(g, p));
    lemma_dedup_first(kept);
    lemma_drop_normal(edges, normal_dep_ids(g, p));
    lemma_test_edges_not_self(g, p, g.units.len() as int);
    assert forall|i: int| 0 <= i < dev_deps(g, p).len() implies (#[trigger] dev_deps(g, p)[i]).0 != p
        && !normal_dep_ids(g, p).contains(dev_deps(g, p)[i].0) by {
        let e = dev_deps(g, p)[i];
        assert(dedup_first(kept).contains(e));
        assert(kept.contains(e));
        let j = choose|j: int| 0 <= j < kept.len() && kept[j] == e;
        assert(edges.contains(kept[j]));
        let k = choose|k: int| 0 <= k < edges.len() && edges[k] == e;
        assert(edges[k].0 != p);
    }
}

/// Whether locked package `p` is `name` at `version` and has a checksum.
pub open spec fn locks_with_checksum(p: LockPackage, name: Seq<char>, version: Seq<char>) -> bool {
    p.name@ == name && p.version@ == version && p.checksum is Some
}

/// The checksum that the lock file gives for `(name, version)` is the one of
/// the last locked package whose name and version are both exactly those and
/// that has a checksum; where no package is, there is no checksum. Another
/// version of the same crate never lends its checksum.
pub proof fn law_lock_checksum_is_of_that_name_and_version(
    pkgs: Seq<LockPackage>,
    name: Seq<char>,
    version: Seq<char>,
)
    ensures
        match table_checksum(lock_table(pkgs), name, version) {
            Some(c) => exists|i: int|
                0 <= i < pkgs.len() && #[trigger] locks_with_checksum(pkgs[i], name, version)
                    && pkgs[i].checksum->0@ == c && forall|j: int|
                    i < j < pkgs.len() ==> !#[trigger] locks_with_checksum(pkgs[j], name, version),
            None => forall|i: int| 0 <= i < pkgs.len() ==> !#[trigger] locks_with_checksum(pkgs[i], name, version),
        },
    decreases pkgs.len(),
{
    if pkgs.len() > 0 {
        let prev = pkgs.drop_last();
        let last = pkgs.last();
        law_lock_checksum_is_of_that_name_and_version(prev, name, version);
        assert forall|i: int| 0 <= i < prev.len() implies pkgs[i] == #[trigger] prev[i] by {}
        match last.checksum {
            Some(c) => {
                let t = lock_table(prev);
                assert(t.push((last.name, last.version, c)).drop_last() =~= t);
            },
            None => {},
        }
        let n = pkgs.len() - 1;
        match table_checksum(lock_table(pkgs), name, version) {
            Some(c) => {
                if locks_with_checksum(last, name, version) {
                    assert(locks_with_checksum(pkgs[n], name, version));
                } else {
                    let i = choose|i: int|
                        0 <= i < prev.len() && #[trigger] locks_with_checksum(prev[i], name, version)
                            && prev[i].checksum->0@ == c && forall|j: int|
                            i < j < prev.len() ==> !#[trigger] locks_with_checksum(prev[j], name, version);
                    assert(locks_with_checksum(pkgs[i], name, version));
                    assert forall|j: int| i < j < pkgs.len() implies !#[trigger] locks_with_checksum(
                        pkgs[j],
                        name,
                        version,
                    ) by {
                        if j < n {
                            assert(pkgs[j] == prev[j]);
                        }
                    }
                }
            },
            None => {
                assert forall|i: int| 0 <= i < pkgs.len() implies !#[trigger] locks_with_checksum(
                    pkgs[i],
                    name,
                    version,
                ) by {
                    if i < n {
                        assert(pkgs[i] == prev[i]);
                    }
                }
            },
        }
    }
}

/// Every crate of a merged plan carries the checksum that the lock file gives
/// its own name and version: that of the last locked package with exactly
/// that name and version and a checksum, and none where there is no such
/// package.
pub proof fn law_plan_checksum_is_the_crates_own(
    unit_graph: UnitGraph,
    metadata: CargoMetadata,
    lock: CargoLock,
    target: Option<Seq<char>>,
    cargo_lock_hash: Seq<char>,
    test_unit_graph: Option<UnitGraph>,
    members_filter: Option<Seq<Seq<char>>>,
    k: Seq<char>,
)
    requires
        merge_view(unit_graph, metadata, lock, target, cargo_lock_hash, test_unit_graph, members_filter) is Ok,
        merge_view(
            unit_graph,
            metadata,
            lock,
            target,
            cargo_lock_hash,
            test_unit_graph,
            members_filter,
        )->Ok_0.crates.contains_key(k),
    ensures
        ({
            let c = merge_view(
                unit_graph,
                metadata,
                lock,
                target,
                cargo_lock_hash,
                test_unit_graph,
                members_filter,
            )->Ok_0.crates[k];
            let pkgs = lock_packages(lock);
            match c.sha256 {
                Some(h) => exists|i: int|
                    0 <= i < pkgs.len() && #[trigger] locks_with_checksum(pkgs[i], c.crate_name, c.version)
                        && pkgs[i].checksum->0@ == h && forall|j: int|
                        i < j < pkgs.len() ==> !#[trigger] locks_with_checksum(pkgs[j], c.crate_name, c.version),
                None => forall|i: int|
                    0 <= i < pkgs.len() ==> !#[trigger] locks_with_checksum(pkgs[i], c.crate_name, c.version),
            }
        }),
{
    let primary = match test_unit_graph {
        Some(t) => t,
        None => unit_graph,
    };
    let built = built_crates(primary, metadata, lock);
    let c = merge_view(unit_graph, metadata, lock, target, cargo_lock_hash, test_unit_graph, members_filter)->Ok_0.crates[k];
    assert(built.contains_key(k));
    let b = built[k];
    assert(c.sha256 == b.sha256 && c.crate_name == b.crate_name && c.version == b.version);
    assert(b.sha256 == table_checksum(lock_table(lock_packages(lock)), b.crate_name, b.version));
    law_lock_checksum_is_of_that_name_and_version(lock_packages(lock), b.crate_name, b.version);
}

} // verus!
