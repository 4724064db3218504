//! Source strings of `cargo metadata` and package IDs, read as the place a
//! crate's source comes from.
use vstd::prelude::*;

use crate::error::{Error, ErrorView};
use crate::output::{NixSource, SourceView};
use crate::paths::{parent_of, path_parent, path_strip_prefix, strip_path_prefix};
use crate::text::{
    before_first, chars_eq, chars_of, contains_char, find_first, find_first_char, find_last_char,
    find_prefixed, find_prefixed_piece, has_prefix_at, is_first_index, is_last_index, join_pieces, join_with,
    lemma_first_index_exists, lemma_last_index_exists, lemma_split_all_nonempty,
    opt_view, rsplit_once, split_all, split_chars, split_once, starts_with, string_from_chars,
    strip_prefix, subvec, to_owned, vec_views,
};

verus! {

/// Parsed components of a `git+URL?query#fragment` string.
#[derive(Debug)]
pub struct ParsedGitUrl {
    /// Base URL (everything before `?` or `#`).
    pub url: String,
    /// Value of the `?rev=` query parameter, if present.
    pub rev_query: Option<String>,
    /// The fragment after the last `#`.
    pub fragment: String,
}

/// The value of the first `rev=` parameter of a query string.
pub open spec fn query_rev(query: Seq<char>) -> Option<Seq<char>> {
    find_prefixed(split_all(query, '&'), "rev="@)
}

/// The parts (base URL, `rev` query parameter, fragment) of a
/// `git+URL?query#fragment` string: the fragment follows the last `#`, the
/// query follows the first `?` before it.
pub open spec fn git_url_parts(s: Seq<char>) -> Option<(Seq<char>, Option<Seq<char>>, Seq<char>)> {
    match strip_prefix(s, "git+"@) {
        None => None,
        Some(rest) => match rsplit_once(rest, '#') {
            None => None,
            Some((url_part, fragment)) => match split_once(url_part, '?') {
                Some((base, query)) => Some((base, query_rev(query), fragment)),
                None => Some((url_part, None, fragment)),
            },
        },
    }
}

/// The value of the first `rev=` parameter of `query`.
pub(crate) fn rev_of_query(query: &Vec<char>) -> (r: Option<String>)
    ensures
        opt_view(r) == query_rev(query@),
{
    let pieces = split_chars(query, '&');
    let key = chars_of("rev=");
    match find_prefixed_piece(&pieces, &key) {
        Some(v) => Some(string_from_chars(&v)),
        None => None,
    }
}

/// Parse a `git+URL?query#fragment` string into its components.
///
/// In metadata source strings the fragment is the full commit hash; in
/// package IDs it is `name@version`.
pub fn parse_git_url(s: &str) -> (r: Option<ParsedGitUrl>)
    ensures
        match r {
            Some(p) => git_url_parts(s@) == Some((p.url@, opt_view(p.rev_query), p.fragment@)),
            None => git_url_parts(s@) is None,
        },
{
    let v = chars_of(s);
    let pre = chars_of("git+");
    proof {
        assert(v@.skip(0) =~= v@);
    }
    if !has_prefix_at(&v, 0, &pre) {
        return None;
    }
    let rest = subvec(&v, pre.len(), v.len());
    proof {
        assert(rest@ =~= v@.skip(pre@.len() as int));
    }
    let h = match find_last_char(&rest, '#') {
        Some(h) => h,
        None => {
            return None;
        },
    };
    let url_part = subvec(&rest, 0, h);
    let fragment = subvec(&rest, h + 1, rest.len());
    proof {
        assert(url_part@ =~= rest@.take(h as int));
        assert(fragment@ =~= rest@.skip(h + 1));
    }
    match find_first_char(&url_part, '?') {
        Some(q) => {
            let base = subvec(&url_part, 0, q);
            let query = subvec(&url_part, q + 1, url_part.len());
            proof {
                assert(base@ =~= url_part@.take(q as int));
                assert(query@ =~= url_part@.skip(q + 1));
            }
            Some(
                ParsedGitUrl {
                    url: string_from_chars(&base),
                    rev_query: rev_of_query(&query),
                    fragment: string_from_chars(&fragment),
                },
            )
        },
        None => {
            Some(
                ParsedGitUrl {
                    url: string_from_chars(&url_part),
                    rev_query: None,
                    fragment: string_from_chars(&fragment),
                },
            )
        },
    }
}

/// The index of the first piece equal to `p`.
fn find_piece(pieces: &Vec<Vec<char>>, p: &Vec<char>) -> (r: Option<usize>)
    ensures
        match r {
            Some(i) => find_first(vec_views(pieces@), p@) == Some(i as int) && i < pieces.len(),
            None => find_first(vec_views(pieces@), p@) is None,
        },
{
    let ghost vs = vec_views(pieces@);
    let mut k: usize = 0;
    while k < pieces.len()
        invariant
            k <= pieces.len(),
            vs == vec_views(pieces@),
            forall|j: int| 0 <= j < k ==> vs[j] != p@,
        decreases pieces.len() - k,
    {
        if chars_eq(&pieces[k], p) {
            proof {
                assert(vs[k as int] == p@);
                assert(is_first_index(vs, p@, k as int));
                let w = choose|i: int| is_first_index(vs, p@, i);
                if w < k {
                    assert(vs[w] != p@);
                }
                if w > k {
                    assert(vs[k as int] != p@);
                }
            }
            return Some(k);
        }
        k = k + 1;
    }
    proof {
        if vs.contains(p@) {
            let j = choose|j: int| 0 <= j < vs.len() && vs[j] == p@;
            assert(vs[j] != p@);
        }
    }
    None
}

/// The subdirectory of a git checkout that holds the manifest at `manifest_path`:
/// the path components between `checkouts/<name>/<hash>/` and a final
/// `Cargo.toml`, when there are any.
pub open spec fn git_subdir(manifest_path: Seq<char>) -> Option<Seq<char>> {
    let parts = split_all(manifest_path, '/');
    match find_first(parts, "checkouts"@) {
        None => None,
        Some(ci) => {
            let root = ci + 3;
            let end = parts.len() - 1;
            if root >= parts.len() {
                None
            } else if parts[end] != "Cargo.toml"@ {
                None
            } else if end <= root {
                None
            } else {
                let sub = join_with(parts.subrange(root, end), "/"@);
                if sub.len() == 0 {
                    None
                } else {
                    Some(sub)
                }
            }
        },
    }
}

/// Compute the subdirectory of a crate within a git checkout.
///
/// Cargo stores git checkouts at `~/.cargo/git/checkouts/<name>/<hash>/`.
/// If the crate's Cargo.toml is at `.../checkouts/<name>/<hash>/sub/path/Cargo.toml`,
/// this returns `Some("sub/path")`. Returns `None` if the crate is at the repo root.
pub fn compute_git_subdir(manifest_path: &str) -> (r: Option<String>)
    ensures
        opt_view(r) == git_subdir(manifest_path@),
{
    let v = chars_of(manifest_path);
    let parts = split_chars(&v, '/');
    let checkouts = chars_of("checkouts");
    let ci = match find_piece(&parts, &checkouts) {
        Some(i) => i,
        None => {
            return None;
        },
    };
    if parts.len() < 3 || ci >= parts.len() - 3 {
        return None;
    }
    let root = ci + 3;
    let end = parts.len() - 1;
    let cargo_toml = chars_of("Cargo.toml");
    if !chars_eq(&parts[end], &cargo_toml) {
        return None;
    }
    if end <= root {
        return None;
    }
    let sub = join_pieces(&parts, root, end, '/');
    proof {
        reveal_strlit("/");
        assert("/"@ =~= seq!['/']);
    }
    if sub.len() == 0 {
        None
    } else {
        Some(string_from_chars(&sub))
    }
}

/// The source that a metadata `source` field and manifest path describe.
pub open spec fn source_of_metadata(
    source: Option<Seq<char>>,
    manifest_path: Seq<char>,
    workspace_root: Seq<char>,
) -> Result<Option<SourceView>, ErrorView> {
    match source {
        None => if manifest_path.len() == 0 {
            Ok(None)
        } else {
            let crate_dir = match path_parent(manifest_path) {
                Some(d) => d,
                None => "."@,
            };
            let rel = match path_strip_prefix(crate_dir, workspace_root) {
                Some(r) => r,
                None => crate_dir,
            };
            Ok(Some(SourceView::Local { path: if rel.len() == 0 { "."@ } else { rel } }))
        },
        Some(s) => if "registry+"@.is_prefix_of(s) {
            let url = s.skip("registry+"@.len() as int);
            if url == "https://github.com/rust-lang/crates.io-index"@ {
                Ok(Some(SourceView::CratesIo))
            } else {
                Ok(Some(SourceView::Registry { index: url }))
            }
        } else if "git+"@.is_prefix_of(s) {
            match git_url_parts(s) {
                Some((url, _, fragment)) => Ok(
                    Some(
                        SourceView::Git {
                            url,
                            rev: fragment,
                            sub_dir: git_subdir(manifest_path),
                            sha256: None,
                        },
                    ),
                ),
                None => Err(ErrorView::MalformedGitSource(s)),
            }
        } else {
            Err(ErrorView::UnknownSourceType(s))
        },
    }
}

/// The view of an optional `&str`.
pub open spec fn opt_str_view(o: Option<&str>) -> Option<Seq<char>> {
    match o {
        Some(s) => Some(s@),
        None => None,
    }
}

/// Parse a source string from cargo metadata into a [`NixSource`].
///
/// A package without a source is local: its path is the manifest's
/// directory relative to the workspace root (`.` for the root itself); with
/// no manifest path either, there is no source (`Ok(None)`). For git
/// dependencies the commit is the fragment and the subdirectory comes from the
/// manifest path (see [`compute_git_subdir`]). Every known source gives
/// `Ok(Some(..))`; an unknown or malformed one gives an error.
pub fn parse_source(source: Option<&str>, manifest_path: &str, workspace_root: &str) -> (r: Result<
    Option<NixSource>,
    Error,
>)
    ensures
        match source_of_metadata(opt_str_view(source), manifest_path@, workspace_root@) {
            Ok(Some(sv)) => r matches Ok(Some(ns)) && ns@ == sv,
            Ok(None) => r matches Ok(None),
            Err(ev) => r matches Err(e) && e@ == ev,
        },
{
    match source {
        None => {
            if chars_of(manifest_path).len() == 0 {
                return Ok(None);
            }
            let crate_dir = match parent_of(manifest_path) {
                Some(d) => d,
                None => to_owned("."),
            };
            let rel = match strip_path_prefix(crate_dir.as_str(), workspace_root) {
                Some(r) => r,
                None => crate_dir,
            };
            let path = if rel.as_str().is_empty() {
                to_owned(".")
            } else {
                rel
            };
            Ok(Some(NixSource::Local { path }))
        },
        Some(s) => {
            if starts_with(s, "registry+") {
                let v = chars_of(s);
                let pre = chars_of("registry+");
                let url = subvec(&v, pre.len(), v.len());
                proof {
                    assert(url@ =~= s@.skip("registry+"@.len() as int));
                }
                let index = chars_of("https://github.com/rust-lang/crates.io-index");
                if chars_eq(&url, &index) {
                    Ok(Some(NixSource::CratesIo))
                } else {
                    Ok(Some(NixSource::Registry { index: string_from_chars(&url) }))
                }
            } else if starts_with(s, "git+") {
                match parse_git_url(s) {
                    Some(parsed) => {
                        let sub_dir = compute_git_subdir(manifest_path);
                        Ok(
                            Some(
                                NixSource::Git {
                                    url: parsed.url,
                                    rev: parsed.fragment,
                                    sub_dir,
                                    sha256: None,
                                },
                            ),
                        )
                    },
                    None => Err(Error::MalformedGitSource(to_owned(s))),
                }
            } else {
                Err(Error::UnknownSourceType(to_owned(s)))
            }
        },
    }
}

/// The source that a package ID encodes, when it can be told:
/// crates.io and other registries by their index, git by its URL and the
/// `?rev=` parameter (or a fragment that is a bare commit hash).
pub open spec fn source_of_pkg_id(pkg_id: Seq<char>) -> Option<SourceView> {
    if "registry+https://github.com/rust-lang/crates.io-index"@.is_prefix_of(pkg_id) {
        Some(SourceView::CratesIo)
    } else if "registry+"@.is_prefix_of(pkg_id) {
        Some(
            SourceView::Registry {
                index: before_first(pkg_id.skip("registry+"@.len() as int), '#'),
            },
        )
    } else if "git+"@.is_prefix_of(pkg_id) {
        match git_url_parts(pkg_id) {
            None => None,
            Some((url, rev_query, fragment)) => match rev_query {
                Some(rev) => Some(SourceView::Git { url, rev, sub_dir: None, sha256: None }),
                None => if !fragment.contains('@') {
                    Some(SourceView::Git { url, rev: fragment, sub_dir: None, sha256: None })
                } else {
                    None
                },
            },
        }
    } else {
        None
    }
}

/// Infer the source from a package ID when metadata does not give it.
///
/// - `registry+https://...#name@version` → crates.io or alternative registry
/// - `path+file:///...#version` → `None` (local)
/// - `git+https://...?rev=HASH#name@version` → git (rev from query param)
/// - `git+https://...#HASH` → git (rev from fragment)
pub fn infer_source_from_pkg_id(pkg_id: &str) -> (r: Option<NixSource>)
    ensures
        match source_of_pkg_id(pkg_id@) {
            Some(sv) => r matches Some(ns) && ns@ == sv,
            None => r is None,
        },
{
    if starts_with(pkg_id, "registry+https://github.com/rust-lang/crates.io-index") {
        Some(NixSource::CratesIo)
    } else if starts_with(pkg_id, "registry+") {
        let v = chars_of(pkg_id);
        let pre = chars_of("registry+");
        let rest = subvec(&v, pre.len(), v.len());
        proof {
            assert(rest@ =~= pkg_id@.skip("registry+"@.len() as int));
        }
        let index = match find_first_char(&rest, '#') {
            Some(h) => subvec(&rest, 0, h),
            None => rest,
        };
        Some(NixSource::Registry { index: string_from_chars(&index) })
    } else if starts_with(pkg_id, "git+") {
        let parsed = match parse_git_url(pkg_id) {
            Some(p) => p,
            None => {
                return None;
            },
        };
        let rev = match parsed.rev_query {
            Some(rev) => rev,
            None => {
                let frag = chars_of(parsed.fragment.as_str());
                if contains_char(&frag, '@') {
                    return None;
                }
                parsed.fragment
            },
        };
        Some(NixSource::Git { url: parsed.url, rev, sub_dir: None, sha256: None })
    } else {
        None
    }
}

// ---------------------------------------------------------------------------
// Laws of source strings
// ---------------------------------------------------------------------------

/// The parts of a `git+URL?query#fragment` string: the fragment is what
/// follows the last `#` and holds no `#`; the URL is what precedes the first
/// `?` before that `#`, so it never holds a `?`, whatever the query says.
/// A string with no `#` after `git+` has no parts.
pub proof fn law_git_url_parts_split_at_last_hash_then_first_query(s: Seq<char>)
    requires
        "git+"@.is_prefix_of(s),
    ensures
        git_url_parts(s) is Some <==> s.skip(4).contains('#'),
        git_url_parts(s) matches Some((url, _, fragment)) ==> {
            let url_part = s.subrange(4, s.len() - fragment.len() - 1);
            &&& s == "git+"@ + url_part + "#"@ + fragment
            &&& !fragment.contains('#')
            &&& url.is_prefix_of(url_part)
            &&& (url_part.len() == url.len() || url_part[url.len() as int] == '?')
            &&& !url.contains('?')
        },
{
    reveal_strlit("git+");
    reveal_strlit("#");
    let rest = s.skip(4);
    assert(strip_prefix(s, "git+"@) == Some(rest));
    if rest.contains('#') {
        let h = choose|i: int| is_last_index(rest, '#', i);
        let w = choose|i: int| 0 <= i < rest.len() && rest[i] == '#';
        lemma_last_index_exists(rest, '#', w);
        assert(is_last_index(rest, '#', h));
        let url_part = rest.take(h);
        let fragment = rest.skip(h + 1);
        assert(rsplit_once(rest, '#') == Some((url_part, fragment)));
        assert(s.subrange(4, s.len() - fragment.len() - 1) =~= url_part);
        assert(s =~= "git+"@ + url_part + "#"@ + fragment);
        assert(!fragment.contains('#')) by {
            if fragment.contains('#') {
                let j = choose|j: int| 0 <= j < fragment.len() && fragment[j] == '#';
                assert(rest[h + 1 + j] == '#');
            }
        }
        if url_part.contains('?') {
            let q = choose|i: int| is_first_index(url_part, '?', i);
            let w2 = choose|i: int| 0 <= i < url_part.len() && url_part[i] == '?';
            lemma_first_index_exists(url_part, '?', w2);
            assert(is_first_index(url_part, '?', q));
            let base = url_part.take(q);
            assert(split_once(url_part, '?') == Some((base, url_part.skip(q + 1))));
            assert(base.is_prefix_of(url_part));
            assert(!base.contains('?')) by {
                if base.contains('?') {
                    let j = choose|j: int| 0 <= j < base.len() && base[j] == '?';
                    assert(url_part[j] == '?');
                }
            }
        } else {
            assert(split_once(url_part, '?') is None);
            assert(url_part.is_prefix_of(url_part));
        }
    } else {
        assert(rsplit_once(rest, '#') is None);
    }
}

/// A git source of `cargo metadata` fetches from the URL before the query:
/// the source's URL holds no `?`, follows `git+` in the string and is
/// followed by the query or by the last `#`, and its revision is all that
/// follows the last `#`. A `git+` source with no `#` is malformed.
pub proof fn law_metadata_git_source_url_and_rev(source: Seq<char>, manifest_path: Seq<char>, workspace_root: Seq<char>)
    requires
        "git+"@.is_prefix_of(source),
    ensures
        !source.skip(4).contains('#') ==> source_of_metadata(Some(source), manifest_path, workspace_root) == Err::<
            Option<SourceView>,
            ErrorView,
        >(ErrorView::MalformedGitSource(source)),
        source.skip(4).contains('#') ==> (source_of_metadata(Some(source), manifest_path, workspace_root) matches Ok(
            Some(SourceView::Git { url, rev, sub_dir, sha256 }),
        ) && {
            let url_part = source.subrange(4, source.len() - rev.len() - 1);
            &&& source == "git+"@ + url_part + "#"@ + rev
            &&& !rev.contains('#')
            &&& url.is_prefix_of(url_part)
            &&& (url_part.len() == url.len() || url_part[url.len() as int] == '?')
            &&& !url.contains('?')
            &&& sha256 is None
        }),
{
    reveal_strlit("registry+");
    reveal_strlit("git+");
    assert("git+"@[0] == 'g' && "registry+"@[0] == 'r');
    assert(source.subrange(0, 4)[0] == source[0]);
    assert(source[0] == 'g');
    if "registry+"@.is_prefix_of(source) {
        assert(source.subrange(0, 9)[0] == source[0]);
    }
    law_git_url_parts_split_at_last_hash_then_first_query(source);
}

/// A package ID of a registry other than crates.io names its index by the
/// text between `registry+` and the first `#`: the index holds no `#`, follows
/// `registry+` in the ID, and is followed by `#` or by the end of the ID.
pub proof fn law_registry_index_of_pkg_id_stops_at_fragment(pkg_id: Seq<char>)
    requires
        "registry+"@.is_prefix_of(pkg_id),
        !"registry+https://github.com/rust-lang/crates.io-index"@.is_prefix_of(pkg_id),
    ensures
        source_of_pkg_id(pkg_id) matches Some(SourceView::Registry { index }) && {
            &&& !index.contains('#')
            &&& ("registry+"@ + index).is_prefix_of(pkg_id)
            &&& (pkg_id.len() == 9 + index.len() || pkg_id[9 + index.len() as int] == '#')
        },
{
    reveal_strlit("registry+");
    let rest = pkg_id.skip(9);
    if rest.contains('#') {
        let h = choose|i: int| is_first_index(rest, '#', i);
        let w = choose|i: int| 0 <= i < rest.len() && rest[i] == '#';
        lemma_first_index_exists(rest, '#', w);
        assert(is_first_index(rest, '#', h));
        let index = rest.take(h);
        assert(before_first(rest, '#') == index);
        assert(!index.contains('#')) by {
            if index.contains('#') {
                let j = choose|j: int| 0 <= j < index.len() && index[j] == '#';
                assert(rest[j] == '#');
            }
        }
        assert(("registry+"@ + index) =~= pkg_id.take(9 + h));
        assert(pkg_id[9 + h] == rest[h]);
    } else {
        assert(before_first(rest, '#') == rest);
        assert(("registry+"@ + rest) =~= pkg_id);
    }
}

/// The subdirectory of a git checkout is every path component between
/// `checkouts/<name>/<hash>/` and a final `Cargo.toml`, joined by `/`: with
/// one component `d` there it is `d`; a manifest directly in the checkout, or
/// a path that does not end in `Cargo.toml` below a checkout, has none.
/// `ci` is the first component that is `checkouts`.
pub proof fn law_git_subdir_is_the_path_below_the_checkout(manifest_path: Seq<char>, ci: int)
    ensures
        ({
            let parts = split_all(manifest_path, '/');
            let end = parts.len() - 1;
            let sub = join_with(parts.subrange(ci + 3, end), "/"@);
            is_first_index(parts, "checkouts"@, ci) ==> {
                &&& (end <= ci + 3 || parts[end] != "Cargo.toml"@) ==> git_subdir(manifest_path) is None
                &&& (end > ci + 3 && parts[end] == "Cargo.toml"@ && sub.len() > 0) ==> git_subdir(manifest_path)
                    == Some(sub)
                &&& (end == ci + 4 && parts[end] == "Cargo.toml"@ && parts[ci + 3].len() > 0) ==> git_subdir(
                    manifest_path,
                ) == Some(parts[ci + 3])
            }
        }),
        !split_all(manifest_path, '/').contains("checkouts"@) ==> git_subdir(manifest_path) is None,
{
    let parts = split_all(manifest_path, '/');
    lemma_split_all_nonempty(manifest_path, '/');
    if is_first_index(parts, "checkouts"@, ci) {
        let w = choose|i: int| is_first_index(parts, "checkouts"@, i);
        assert(parts.contains("checkouts"@));
        assert(is_first_index(parts, "checkouts"@, w));
        if w < ci {
            assert(parts[w] != "checkouts"@);
        }
        if w > ci {
            assert(parts[ci] != "checkouts"@);
        }
        assert(find_first(parts, "checkouts"@) == Some(ci));
        let end = parts.len() - 1;
        if end == ci + 4 {
            assert(parts.subrange(ci + 3, end) =~= seq![parts[ci + 3]]);
        }
    }
}

/// A package ID of a git dependency is fetched from the URL before the
/// query: its URL holds no `?` and follows `git+` in the ID, directly
/// followed by the query or by the last `#`.
pub proof fn law_pkg_id_git_url_stops_at_query(pkg_id: Seq<char>)
    ensures
        source_of_pkg_id(pkg_id) matches Some(SourceView::Git { url, .. }) ==> {
            let url_part = pkg_id.subrange(4, pkg_id.len() - git_url_parts(pkg_id).unwrap().2.len() - 1);
            &&& !url.contains('?')
            &&& ("git+"@ + url_part).is_prefix_of(pkg_id)
            &&& url.is_prefix_of(url_part)
            &&& (url_part.len() == url.len() || url_part[url.len() as int] == '?')
        },
{
    reveal_strlit("git+");
    if source_of_pkg_id(pkg_id) matches Some(SourceView::Git { url, .. }) {
        assert("git+"@.is_prefix_of(pkg_id));
        law_git_url_parts_split_at_last_hash_then_first_query(pkg_id);
        let fragment = git_url_parts(pkg_id).unwrap().2;
        let url_part = pkg_id.subrange(4, pkg_id.len() - fragment.len() - 1);
        assert(("git+"@ + url_part) =~= pkg_id.take(4 + url_part.len() as int));
    }
}

/// A registry source of `cargo metadata` is crates.io exactly when its URL
/// is crates.io's index; any other registry keeps its whole URL as index.
pub proof fn law_metadata_registry_source(source: Seq<char>, manifest_path: Seq<char>, workspace_root: Seq<char>)
    requires
        "registry+"@.is_prefix_of(source),
    ensures
        source == "registry+"@ + "https://github.com/rust-lang/crates.io-index"@ ==> source_of_metadata(
            Some(source),
            manifest_path,
            workspace_root,
        ) == Ok::<Option<SourceView>, ErrorView>(Some(SourceView::CratesIo)),
        source != "registry+"@ + "https://github.com/rust-lang/crates.io-index"@ ==> (source_of_metadata(
            Some(source),
            manifest_path,
            workspace_root,
        ) matches Ok(Some(SourceView::Registry { index })) && source == "registry+"@ + index),
{
    reveal_strlit("registry+");
    let crates_io = "https://github.com/rust-lang/crates.io-index"@;
    assert(source =~= "registry+"@ + source.skip(9));
    if source == "registry+"@ + crates_io {
        assert(source.skip(9) =~= crates_io);
    }
}

} // verus!
