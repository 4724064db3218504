//! Hashes of git sources: the ones that `crate-hashes.json` already knows,
//! and the `(url, rev)` checkouts that still have to be prefetched.
use vstd::prelude::*;

use crate::error::{Error, ErrorView};
use crate::merge::{first_unknown, is_first_unknown, lemma_first_unknown_at};
use crate::output::{crate_views, CrateView, NixBuildPlan, NixCrate, NixSource, SourceView};
use crate::strmap::StrMap;
use crate::source::{query_rev, rev_of_query};
use crate::text::{
    before_first, chars_of, find_first_char, opt_view, sorted_seq_of, split_once, str_eq,
    strictly_increasing, string_from_chars, subvec, to_owned, views,
};

verus! {

// ---------------------------------------------------------------------------
// crate-hashes.json
// ---------------------------------------------------------------------------

/// The URL and `rev` that a `crate-hashes.json` key names.
///
/// Keys read `{url}?rev={rev}#{crate}@{version}` or `{url}#{crate}@{version}`:
/// the URL part ends at the first `#`; its query, after the first `?`,
/// gives the `rev` parameter.
pub open spec fn hash_key_parts(key: Seq<char>) -> (Seq<char>, Option<Seq<char>>) {
    let url_part = before_first(key, '#');
    match split_once(url_part, '?') {
        Some((base, query)) => (base, query_rev(query)),
        None => (url_part, None),
    }
}

/// Parse a `crate-hashes.json` key into its URL and optional `rev`.
pub fn parse_crate_hash_key(key: &str) -> (r: Option<(String, Option<String>)>)
    ensures
        r matches Some(p) && (p.0@, opt_view(p.1)) == hash_key_parts(key@),
{
    let v = chars_of(key);
    let url_part = match find_first_char(&v, '#') {
        Some(h) => subvec(&v, 0, h),
        None => subvec(&v, 0, v.len()),
    };
    proof {
        assert(url_part@ =~= before_first(key@, '#'));
    }
    match find_first_char(&url_part, '?') {
        Some(q) => {
            let base = subvec(&url_part, 0, q);
            let query = subvec(&url_part, q + 1, url_part.len());
            proof {
                assert(base@ =~= url_part@.take(q as int));
                assert(query@ =~= url_part@.skip(q + 1));
            }
            Some((string_from_chars(&base), rev_of_query(&query)))
        },
        None => Some((string_from_chars(&url_part), None)),
    }
}

/// `(key, hash)` entries, each string taken by its view.
pub open spec fn hash_entries(hashes: Seq<(String, String)>) -> Seq<(Seq<char>, Seq<char>)> {
    hashes.map_values(|e: (String, String)| (e.0@, e.1@))
}

/// The hash of the first entry whose key names `url` at `rev`.
pub open spec fn rev_hash(hs: Seq<(Seq<char>, Seq<char>)>, url: Seq<char>, rev: Seq<char>) -> Option<Seq<char>>
    decreases hs.len(),
{
    if hs.len() == 0 {
        None
    } else if hash_key_parts(hs[0].0) == (url, Some(rev)) {
        Some(hs[0].1)
    } else {
        rev_hash(hs.drop_first(), url, rev)
    }
}

/// The hash of the first entry whose key names `url` without a `rev`.
pub open spec fn url_hash(hs: Seq<(Seq<char>, Seq<char>)>, url: Seq<char>) -> Option<Seq<char>>
    decreases hs.len(),
{
    if hs.len() == 0 {
        None
    } else if hash_key_parts(hs[0].0) == (url, None::<Seq<char>>) {
        Some(hs[0].1)
    } else {
        url_hash(hs.drop_first(), url)
    }
}

/// The known hash of the checkout of `url` at `rev`: an entry for that
/// revision first, else one for the URL alone.
pub open spec fn known_hash(hs: Seq<(Seq<char>, Seq<char>)>, url: Seq<char>, rev: Seq<char>) -> Option<Seq<char>> {
    match rev_hash(hs, url, rev) {
        Some(h) => Some(h),
        None => url_hash(hs, url),
    }
}

/// Whether a crate is a git source without a hash for which one is known.
pub open spec fn gets_known_hash(c: CrateView, hs: Seq<(Seq<char>, Seq<char>)>) -> bool {
    match c.source {
        Some(SourceView::Git { url, rev, sub_dir, sha256 }) => sha256 is None && known_hash(hs, url, rev) is Some,
        _ => false,
    }
}

/// A git source without a hash, with the known one filled in.
pub open spec fn with_known_hash(c: CrateView, hs: Seq<(Seq<char>, Seq<char>)>) -> CrateView {
    match c.source {
        Some(SourceView::Git { url, rev, sub_dir, sha256 }) => if sha256 is None && known_hash(hs, url, rev) is Some {
            CrateView {
                source: Some(SourceView::Git { url, rev, sub_dir, sha256: known_hash(hs, url, rev) }),
                ..c
            }
        } else {
            c
        },
        _ => c,
    }
}

/// The crates with the known hashes filled in.
pub open spec fn hashes_applied(m: Map<Seq<char>, CrateView>, hs: Seq<(Seq<char>, Seq<char>)>) -> Map<
    Seq<char>,
    CrateView,
> {
    Map::new(|k: Seq<char>| m.contains_key(k), |k: Seq<char>| with_known_hash(m[k], hs))
}

/// How many of the crates `keys` get a known hash.
pub open spec fn count_hashed(keys: Seq<Seq<char>>, m: Map<Seq<char>, CrateView>, hs: Seq<(Seq<char>, Seq<char>)>) -> nat
    decreases keys.len(),
{
    if keys.len() == 0 {
        0
    } else {
        count_hashed(keys.drop_last(), m, hs) + if gets_known_hash(m[keys.last()], hs) {
            1nat
        } else {
            0nat
        }
    }
}

/// Applying the known hashes never overwrites one: a crate whose git source
/// already has a hash, and a crate with another source, come out unchanged;
/// the others change only in the hash of their git source.
pub proof fn law_known_hashes_keep_existing(m: Map<Seq<char>, CrateView>, hs: Seq<(Seq<char>, Seq<char>)>)
    ensures
        forall|k: Seq<char>|
            #[trigger] hashes_applied(m, hs).contains_key(k) && !(m[k].source matches Some(
                SourceView::Git { sha256: None, .. },
            )) ==> hashes_applied(m, hs)[k] == m[k],
        forall|k: Seq<char>|
            #[trigger] hashes_applied(m, hs).contains_key(k) && gets_known_hash(m[k], hs) ==> hashes_applied(
                m,
                hs,
            )[k] == with_git_hash(m[k], known_hash(hs, m[k].source->Some_0->Git_url, m[k].source->Some_0->Git_rev)->Some_0),
{
}

/// The entries with their keys parsed: `(url, rev, hash)`.
pub open spec fn parsed_entries(hs: Seq<(Seq<char>, Seq<char>)>) -> Seq<(Seq<char>, Option<Seq<char>>, Seq<char>)> {
    hs.map_values(|e: (Seq<char>, Seq<char>)| (hash_key_parts(e.0).0, hash_key_parts(e.0).1, e.1))
}

/// The views of parsed entries.
pub open spec fn parsed_views(p: Seq<(String, Option<String>, String)>) -> Seq<(Seq<char>, Option<Seq<char>>, Seq<char>)> {
    p.map_values(|e: (String, Option<String>, String)| (e.0@, opt_view(e.1), e.2@))
}

/// Parses the key of every entry.
fn parse_entries(hashes: &[(String, String)]) -> (r: Vec<(String, Option<String>, String)>)
    ensures
        parsed_views(r@) == parsed_entries(hash_entries(hashes@)),
{
    let ghost hs = hash_entries(hashes@);
    let mut r: Vec<(String, Option<String>, String)> = Vec::new();
    let mut i: usize = 0;
    while i < hashes.len()
        invariant
            i <= hashes.len(),
            hs == hash_entries(hashes@),
            parsed_views(r@) == parsed_entries(hs).take(i as int),
        decreases hashes.len() - i,
    {
        let (url, rev) = match parse_crate_hash_key(hashes[i].0.as_str()) {
            Some(p) => p,
            None => {
                proof {
                    assert(false);
                }
                (String::new(), None)
            },
        };
        let ghost before = parsed_views(r@);
        let h = hashes[i].1.clone();
        let ghost e = (url@, opt_view(rev), h@);
        r.push((url, rev, h));
        proof {
            assert(hs[i as int] == (hashes@[i as int].0@, hashes@[i as int].1@));
            assert(parsed_views(r@) =~= before.push(e));
            assert(parsed_entries(hs)[i as int] == e);
            assert(parsed_views(r@) =~= parsed_entries(hs).take(i + 1));
        }
        i = i + 1;
    }
    proof {
        assert(parsed_entries(hs).take(i as int) =~= parsed_entries(hs));
    }
    r
}

/// The known hash of the checkout of `url` at `rev`.
fn find_known_hash(parsed: &Vec<(String, Option<String>, String)>, url: &str, rev: &str, Ghost(hs): Ghost<
    Seq<(Seq<char>, Seq<char>)>,
>) -> (r: Option<String>)
    requires
        parsed_views(parsed@) == parsed_entries(hs),
    ensures
        opt_view(r) == known_hash(hs, url@, rev@),
{
    let mut i: usize = 0;
    proof {
        assert(hs.skip(0) =~= hs);
        assert(parsed_views(parsed@).len() == parsed@.len());
        assert(parsed_entries(hs).len() == hs.len());
    }
    while i < parsed.len()
        invariant
            i <= parsed.len(),
            parsed@.len() == hs.len(),
            parsed_views(parsed@) == parsed_entries(hs),
            rev_hash(hs, url@, rev@) == rev_hash(hs.skip(i as int), url@, rev@),
        decreases parsed.len() - i,
    {
        proof {
            assert(hs.skip(i as int)[0] == hs[i as int]);
            assert(hs.skip(i as int).drop_first() =~= hs.skip(i + 1));
            assert(parsed_views(parsed@)[i as int] == parsed_entries(hs)[i as int]);
        }
        let e = &parsed[i];
        let hit = match &e.1 {
            Some(r) => str_eq(e.0.as_str(), url) && str_eq(r.as_str(), rev),
            None => false,
        };
        if hit {
            return Some(e.2.clone());
        }
        i = i + 1;
    }
    let mut j: usize = 0;
    proof {
        assert(hs.skip(0) =~= hs);
        assert(hs.skip(i as int).len() == 0);
    }
    while j < parsed.len()
        invariant
            j <= parsed.len(),
            parsed@.len() == hs.len(),
            parsed_views(parsed@) == parsed_entries(hs),
            rev_hash(hs, url@, rev@) is None,
            url_hash(hs, url@) == url_hash(hs.skip(j as int), url@),
        decreases parsed.len() - j,
    {
        proof {
            assert(hs.skip(j as int)[0] == hs[j as int]);
            assert(hs.skip(j as int).drop_first() =~= hs.skip(j + 1));
            assert(parsed_views(parsed@)[j as int] == parsed_entries(hs)[j as int]);
        }
        let e = &parsed[j];
        if e.1.is_none() && str_eq(e.0.as_str(), url) {
            return Some(e.2.clone());
        }
        j = j + 1;
    }
    proof {
        assert(hs.skip(j as int).len() == 0);
    }
    None
}

/// A crate with the known hash filled in, and whether one was.
fn fill_known_hash(c: NixCrate, parsed: &Vec<(String, Option<String>, String)>, Ghost(hs): Ghost<
    Seq<(Seq<char>, Seq<char>)>,
>) -> (r: (NixCrate, bool))
    requires
        parsed_views(parsed@) == parsed_entries(hs),
    ensures
        r.0@ == with_known_hash(c@, hs),
        r.1 == gets_known_hash(c@, hs),
{
    let found = match &c.source {
        Some(NixSource::Git { url, rev, sub_dir: _, sha256 }) => {
            if sha256.is_none() {
                find_known_hash(parsed, url.as_str(), rev.as_str(), Ghost(hs))
            } else {
                None
            }
        },
        _ => None,
    };
    match found {
        Some(h) => {
            let mut c = c;
            let src = c.source;
            c.source = match src {
                Some(NixSource::Git { url, rev, sub_dir, sha256: _ }) => Some(
                    NixSource::Git { url, rev, sub_dir, sha256: Some(h) },
                ),
                other => other,
            };
            (c, true)
        },
        None => (c, false),
    }
}

/// Fill in the hashes of git sources that `crate-hashes.json` knows.
///
/// `hashes` holds the file's `(key, SRI hash)` entries in key order. A git
/// source without a hash takes the hash of the first entry for its URL and
/// revision, else of the first entry for its URL alone; a source that has a
/// hash keeps it. Returns how many sources were filled in.
pub fn apply_crate_hashes(plan: &mut NixBuildPlan, hashes: &[(String, String)]) -> (applied: usize)
    ensures
        final(plan)@ == (crate::output::PlanView {
            crates: hashes_applied(old(plan)@.crates, hash_entries(hashes@)),
            ..old(plan)@
        }),
        applied == count_hashed(sorted_seq_of(old(plan)@.crates.dom()), old(plan)@.crates, hash_entries(hashes@)),
{
    let ghost hs = hash_entries(hashes@);
    let ghost m0 = crate_views(plan.crates@);
    plan.crates.keys_are_sorted();
    proof {
        plan.crates.lemma_pairs_are_sorted_map();
        assert(m0.dom() =~= plan.crates@.dom());
    }
    let ghost keys = plan.crates.keys();
    let ghost pairs0 = plan.crates.pairs();
    let parsed = parse_entries(hashes);
    let mut applied: usize = 0;
    let mut i: usize = 0;
    while i < plan.crates.len()
        invariant
            i <= plan.crates.pairs().len(),
            plan.crates.pairs().len() == pairs0.len(),
            plan.crates.keys() == keys,
            keys == sorted_seq_of(m0.dom()),
            strictly_increasing(keys),
            keys.to_set() == m0.dom(),
            parsed_views(parsed@) == parsed_entries(hs),
            forall|j: int| 0 <= j < pairs0.len() ==> #[trigger] m0[pairs0[j].0] == pairs0[j].1@,
            forall|j: int| 0 <= j < pairs0.len() ==> pairs0[j].0 == #[trigger] keys[j],
            forall|j: int|
                0 <= j < pairs0.len() ==> (#[trigger] plan.crates.pairs()[j]).0 == pairs0[j].0 && plan.crates.pairs()[j].1@
                    == if j < i {
                    with_known_hash(pairs0[j].1@, hs)
                } else {
                    pairs0[j].1@
                },
            applied <= i,
            applied == count_hashed(keys.take(i as int), m0, hs),
            plan.version == old(plan).version,
            plan.workspace_root == old(plan).workspace_root,
            plan.roots == old(plan).roots,
            plan.workspace_members == old(plan).workspace_members,
            plan.target == old(plan).target,
            plan.cargo_lock_hash == old(plan).cargo_lock_hash,
            plan.inputs_hash == old(plan).inputs_hash,
        decreases pairs0.len() - i,
    {
        proof {
            assert(keys.take(i + 1).drop_last() =~= keys.take(i as int));
            assert(keys.take(i + 1).last() == keys[i as int]);
            assert(plan.crates.pairs()[i as int].1@ == pairs0[i as int].1@);
        }
        let c = plan.crates.replace_value_at(i, NixCrate::default());
        let (c, filled) = fill_known_hash(c, &parsed, Ghost(hs));
        plan.crates.replace_value_at(i, c);
        if filled {
            applied = applied + 1;
        }
        i = i + 1;
    }
    proof {
        assert(keys.take(i as int) =~= keys);
        plan.crates.lemma_pairs_are_sorted_map();
        let m1 = crate_views(plan.crates@);
        assert(m1 =~= hashes_applied(m0, hs)) by {
            assert(m1.dom() =~= m0.dom());
            assert forall|k: Seq<char>| #[trigger] m1.contains_key(k) implies m1[k] == hashes_applied(m0, hs)[k] by {
                assert(keys.to_set().contains(k));
                let j = choose|j: int| 0 <= j < keys.len() && keys[j] == k;
                assert(plan.crates.pairs()[j].0 == k);
                assert(plan.crates@[plan.crates.pairs()[j].0] == plan.crates.pairs()[j].1);
                assert(m0[pairs0[j].0] == pairs0[j].1@);
            }
        }
    }
    applied
}

/// The string-to-string JSON object that `text` holds, as its `(key, value)`
/// pairs in key order, each key once; `None` where `text` is no such object.
pub uninterp spec fn json_string_pairs(text: Seq<char>) -> Option<Seq<(Seq<char>, Seq<char>)>>;

/// Parses `text` with `serde_json::from_str` into a
/// `BTreeMap<String, String>` and hands out its entries, which a `BTreeMap`
/// walks in key order. The contract claims only that the outcome is the one
/// that [`json_string_pairs`] names for the text: the JSON grammar itself is
/// not stated here.
#[verifier::external_body]
fn parse_json_string_map(text: &str) -> (r: Option<Vec<(String, String)>>)
    ensures
        match r {
            None => json_string_pairs(text@) is None,
            Some(v) => json_string_pairs(text@) == Some(hash_entries(v@)),
        },
{
    match serde_json::from_str::<std::collections::BTreeMap<String, String>>(text) {
        Ok(m) => Some(m.into_iter().collect()),
        Err(_) => None,
    }
}

/// Fill in the hashes of git sources from the text of `crate-hashes.json`.
///
/// The text is a JSON object from keys to SRI hashes. Where it is not one,
/// nothing changes and the result is `None`; else its entries are applied
/// as [`apply_crate_hashes`] does and the result is how many sources were
/// filled in.
pub fn apply_crate_hashes_text(plan: &mut NixBuildPlan, text: &str) -> (r: Option<usize>)
    ensures
        match json_string_pairs(text@) {
            None => r is None && final(plan)@ == old(plan)@,
            Some(hs) => r is Some && r->0 == count_hashed(sorted_seq_of(old(plan)@.crates.dom()), old(plan)@.crates, hs)
                && final(plan)@ == (crate::output::PlanView {
                crates: hashes_applied(old(plan)@.crates, hs),
                ..old(plan)@
            }),
        },
{
    match parse_json_string_map(text) {
        None => None,
        Some(entries) => Some(apply_crate_hashes(plan, entries.as_slice())),
    }
}

// ---------------------------------------------------------------------------
// Prefetching
// ---------------------------------------------------------------------------

/// One git checkout to prefetch, with the crates that come from it.
#[derive(Debug)]
pub struct GitPrefetch {
    pub url: String,
    pub rev: String,
    /// The package IDs of the crates from this checkout, in ascending order.
    pub pkg_ids: Vec<String>,
}

/// A prefetch request by `(url, rev, package IDs)`.
pub type PrefetchView = (Seq<char>, Seq<char>, Seq<Seq<char>>);

/// The view of a prefetch request.
pub open spec fn prefetch_view(g: GitPrefetch) -> PrefetchView {
    (g.url@, g.rev@, views(g.pkg_ids@))
}

/// The views of prefetch requests.
pub open spec fn prefetch_views(s: Seq<GitPrefetch>) -> Seq<PrefetchView> {
    s.map_values(|g: GitPrefetch| prefetch_view(g))
}

/// A git source of `url` at `rev` without a hash.
pub open spec fn pending_at(c: CrateView, url: Seq<char>, rev: Seq<char>) -> bool {
    match c.source {
        Some(SourceView::Git { url: u, rev: r, sub_dir, sha256 }) => sha256 is None && u == url && r == rev,
        _ => false,
    }
}

/// The crates among `keys` that wait for the checkout of `url` at `rev`, in order.
pub open spec fn pending_ids(keys: Seq<Seq<char>>, m: Map<Seq<char>, CrateView>, url: Seq<char>, rev: Seq<char>) -> Seq<
    Seq<char>,
>
    decreases keys.len(),
{
    if keys.len() == 0 {
        Seq::empty()
    } else {
        let prev = pending_ids(keys.drop_last(), m, url, rev);
        if pending_at(m[keys.last()], url, rev) {
            prev.push(keys.last())
        } else {
            prev
        }
    }
}

/// The URLs with a checkout to prefetch.
pub open spec fn pending_urls(keys: Seq<Seq<char>>, m: Map<Seq<char>, CrateView>) -> Set<Seq<char>> {
    Set::new(|u: Seq<char>| exists|r: Seq<char>| #[trigger] pending_ids(keys, m, u, r).len() > 0)
}

/// The revisions of `url` to prefetch.
pub open spec fn pending_revs(keys: Seq<Seq<char>>, m: Map<Seq<char>, CrateView>, url: Seq<char>) -> Set<Seq<char>> {
    Set::new(|r: Seq<char>| pending_ids(keys, m, url, r).len() > 0)
}

/// The requests of the URLs `urls`, URL after URL, each URL's revisions in
/// ascending order.
pub open spec fn requests_for(urls: Seq<Seq<char>>, keys: Seq<Seq<char>>, m: Map<Seq<char>, CrateView>) -> Seq<
    PrefetchView,
>
    decreases urls.len(),
{
    if urls.len() == 0 {
        Seq::empty()
    } else {
        let u = urls.last();
        requests_for(urls.drop_last(), keys, m) + sorted_seq_of(pending_revs(keys, m, u)).map_values(
            |r: Seq<char>| (u, r, pending_ids(keys, m, u, r)),
        )
    }
}

/// Every `(url, rev)` checkout that some crate without a hash waits for,
/// once, in ascending order of URL then revision, with its crates.
pub open spec fn prefetch_requests(m: Map<Seq<char>, CrateView>) -> Seq<PrefetchView> {
    let keys = sorted_seq_of(m.dom());
    requests_for(sorted_seq_of(pending_urls(keys, m)), keys, m)
}

/// No two requests are for the same `(url, rev)` checkout.
pub open spec fn distinct_checkouts(pv: Seq<PrefetchView>) -> bool {
    forall|a: int, b: int|
        0 <= a < b < pv.len() ==> (#[trigger] pv[a].0, pv[a].1) != (#[trigger] pv[b].0, pv[b].1)
}

/// Every package ID of a request names a crate of `m` whose git source is
/// that request's checkout and has no hash.
pub open spec fn all_pending(pv: Seq<PrefetchView>, m: Map<Seq<char>, CrateView>) -> bool {
    forall|j: int, t: int|
        0 <= j < pv.len() && 0 <= t < pv[j].2.len() ==> m.contains_key(#[trigger] pv[j].2[t]) && pending_at(
            m[pv[j].2[t]],
            pv[j].0,
            pv[j].1,
        )
}

/// The entries of [`pending_ids`] are keys that wait for that checkout.
proof fn lemma_pending_ids(keys: Seq<Seq<char>>, m: Map<Seq<char>, CrateView>, url: Seq<char>, rev: Seq<char>)
    ensures
        forall|t: int|
            0 <= t < pending_ids(keys, m, url, rev).len() ==> keys.contains(#[trigger] pending_ids(keys, m, url, rev)[t])
                && pending_at(m[pending_ids(keys, m, url, rev)[t]], url, rev),
    decreases keys.len(),
{
    if keys.len() > 0 {
        let d = keys.drop_last();
        lemma_pending_ids(d, m, url, rev);
        let prev = pending_ids(d, m, url, rev);
        assert forall|t: int| 0 <= t < prev.len() implies keys.contains(#[trigger] prev[t]) by {
            let k = choose|k: int| 0 <= k < d.len() && d[k] == prev[t];
            assert(keys[k] == prev[t]);
        }
        if pending_at(m[keys.last()], url, rev) {
            let e = keys.last();
            assert forall|t: int| 0 <= t < prev.len() + 1 implies keys.contains(#[trigger] prev.push(e)[t])
                && pending_at(m[prev.push(e)[t]], url, rev) by {
                if t < prev.len() {
                    assert(prev.push(e)[t] == prev[t]);
                } else {
                    assert(keys[keys.len() - 1] == e);
                }
            }
        }
    }
}

/// The entries of a strictly increasing sequence are distinct.
proof fn lemma_increasing_distinct(s: Seq<Seq<char>>, a: int, b: int)
    requires
        strictly_increasing(s),
        0 <= a < b < s.len(),
    ensures
        s[a] != s[b],
{
    crate::text::lemma_seq_lt_irreflexive(s[a]);
}

/// The `(url, rev)` of a crate's git source that has no hash.
fn pending_source(c: &NixCrate) -> (r: Option<(&String, &String)>)
    ensures
        match r {
            Some((u, v)) => pending_at(c@, u@, v@) && forall|a: Seq<char>, b: Seq<char>|
                #[trigger] pending_at(c@, a, b) ==> a == u@ && b == v@,
            None => forall|a: Seq<char>, b: Seq<char>| !#[trigger] pending_at(c@, a, b),
        },
{
    match &c.source {
        Some(NixSource::Git { url, rev, sub_dir: _, sha256 }) => {
            if sha256.is_none() {
                Some((url, rev))
            } else {
                None
            }
        },
        _ => None,
    }
}

/// The checkouts to prefetch, deduplicated by `(url, rev)`, so that each
/// git repository is fetched at most once however many crates come from it.
pub fn git_prefetch_requests(plan: &NixBuildPlan) -> (r: Vec<GitPrefetch>)
    ensures
        prefetch_views(r@) == prefetch_requests(crate_views(plan.crates@)),
        distinct_checkouts(prefetch_views(r@)),
        all_pending(prefetch_views(r@), crate_views(plan.crates@)),
{
    let ghost m = crate_views(plan.crates@);
    let crates = &plan.crates;
    crates.keys_are_sorted();
    proof {
        crates.lemma_pairs_are_sorted_map();
        assert(m.dom() =~= crates@.dom());
    }
    let ghost keys = crates.keys();
    // url -> rev -> package IDs
    let mut groups: StrMap<StrMap<Vec<String>>> = StrMap::new();
    let mut i: usize = 0;
    while i < crates.len()
        invariant
            i <= crates.pairs().len(),
            keys == crates.keys(),
            m == crate_views(crates@),
            forall|j: int| 0 <= j < crates.pairs().len() ==> #[trigger] crates@[crates.pairs()[j].0] == crates.pairs()[j].1,
            forall|u: Seq<char>|
                #![trigger groups@.contains_key(u)]
                groups@.contains_key(u) <==> exists|r: Seq<char>| #[trigger] pending_ids(keys.take(i as int), m, u, r).len() > 0,
            forall|u: Seq<char>, r: Seq<char>|
                #![trigger groups@[u]@.contains_key(r)]
                groups@.contains_key(u) ==> (groups@[u]@.contains_key(r) <==> pending_ids(keys.take(i as int), m, u, r).len() > 0),
            forall|u: Seq<char>, r: Seq<char>|
                #![trigger groups@[u]@[r]]
                groups@.contains_key(u) && groups@[u]@.contains_key(r) ==> views(groups@[u]@[r]@) == pending_ids(
                    keys.take(i as int),
                    m,
                    u,
                    r,
                ),
        decreases crates.pairs().len() - i,
    {
        let id = crates.key_at(i);
        let c = crates.value_at(i);
        let ghost k = keys[i as int];
        let ghost prev_keys = keys.take(i as int);
        let ghost next_keys = keys.take(i + 1);
        proof {
            assert(next_keys.drop_last() =~= prev_keys);
            assert(next_keys.last() == k);
            assert(k == crates.pairs()[i as int].0);
            assert(k == id@);
            assert(m[k] == c@);
        }
        match pending_source(c) {
            Some((url, rev)) => {
                let ghost (uu, rr) = (url@, rev@);
                proof {
                    assert forall|u: Seq<char>, r: Seq<char>| #[trigger] pending_ids(next_keys, m, u, r) == if u == uu && r == rr {
                        pending_ids(prev_keys, m, u, r).push(k)
                    } else {
                        pending_ids(prev_keys, m, u, r)
                    } by {}
                }
                match groups.index_of(url.as_str()) {
                    Some(ui) => {
                        groups.keys_are_sorted();
                        proof {
                            groups.lemma_pair_in_view(ui as int);
                        }
                        let mut inner = groups.replace_value_at(ui, StrMap::new());
                        let ghost inner0 = inner@;
                        match inner.index_of(rev.as_str()) {
                            Some(ri) => {
                                inner.keys_are_sorted();
                                proof {
                                    inner.lemma_pair_in_view(ri as int);
                                }
                                let mut v = inner.replace_value_at(ri, Vec::new());
                                let ghost before = views(v@);
                                v.push(id.clone());
                                proof {
                                    assert(views(v@) =~= before.push(k));
                                }
                                inner.replace_value_at(ri, v);
                            },
                            None => {
                                let mut v: Vec<String> = Vec::new();
                                v.push(id.clone());
                                proof {
                                    assert(pending_ids(prev_keys, m, uu, rr).len() == 0);
                                    assert(pending_ids(prev_keys, m, uu, rr) =~= Seq::<Seq<char>>::empty());
                                    assert(views(v@) =~= seq![k]);
                                }
                                inner.insert(rev.clone(), v);
                            },
                        }
                        groups.replace_value_at(ui, inner);
                        proof {
                            assert forall|u: Seq<char>|
                                #![trigger groups@.contains_key(u)]
                                groups@.contains_key(u) <==> exists|r: Seq<char>| #[trigger] pending_ids(next_keys, m, u, r).len() > 0 by {
                                if u == uu {
                                    assert(pending_ids(next_keys, m, u, rr).len() > 0);
                                } else if groups@.contains_key(u) {
                                    let r = choose|r: Seq<char>| #[trigger] pending_ids(prev_keys, m, u, r).len() > 0;
                                    assert(pending_ids(next_keys, m, u, r).len() > 0);
                                } else if exists|r: Seq<char>| #[trigger] pending_ids(next_keys, m, u, r).len() > 0 {
                                    let r = choose|r: Seq<char>| #[trigger] pending_ids(next_keys, m, u, r).len() > 0;
                                    assert(pending_ids(prev_keys, m, u, r).len() > 0);
                                }
                            }
                        }
                    },
                    None => {
                        let mut inner: StrMap<Vec<String>> = StrMap::new();
                        let mut v: Vec<String> = Vec::new();
                        v.push(id.clone());
                        proof {
                            assert(pending_ids(prev_keys, m, uu, rr).len() == 0);
                            assert(pending_ids(prev_keys, m, uu, rr) =~= Seq::<Seq<char>>::empty());
                            assert(views(v@) =~= seq![k]);
                        }
                        inner.insert(rev.clone(), v);
                        proof {
                            assert forall|r: Seq<char>| #[trigger] pending_ids(prev_keys, m, uu, r).len() == 0 by {
                                if pending_ids(prev_keys, m, uu, r).len() > 0 {
                                    assert(groups@.contains_key(uu));
                                }
                            }
                        }
                        groups.insert(url.clone(), inner);
                        proof {
                            assert forall|u: Seq<char>|
                                #![trigger groups@.contains_key(u)]
                                groups@.contains_key(u) <==> exists|r: Seq<char>| #[trigger] pending_ids(next_keys, m, u, r).len() > 0 by {
                                if u == uu {
                                    assert(pending_ids(next_keys, m, u, rr).len() > 0);
                                } else if groups@.contains_key(u) {
                                    let r = choose|r: Seq<char>| #[trigger] pending_ids(prev_keys, m, u, r).len() > 0;
                                    assert(pending_ids(next_keys, m, u, r).len() > 0);
                                } else if exists|r: Seq<char>| #[trigger] pending_ids(next_keys, m, u, r).len() > 0 {
                                    let r = choose|r: Seq<char>| #[trigger] pending_ids(next_keys, m, u, r).len() > 0;
                                    assert(pending_ids(prev_keys, m, u, r).len() > 0);
                                }
                            }
                        }
                    },
                }
            },
            None => {
                proof {
                    assert forall|u: Seq<char>, r: Seq<char>| #[trigger] pending_ids(next_keys, m, u, r) == pending_ids(
                        prev_keys,
                        m,
                        u,
                        r,
                    ) by {}
                    assert forall|u: Seq<char>|
                        #![trigger groups@.contains_key(u)]
                        groups@.contains_key(u) <==> exists|r: Seq<char>| #[trigger] pending_ids(next_keys, m, u, r).len() > 0 by {
                        if groups@.contains_key(u) {
                            let r = choose|r: Seq<char>| #[trigger] pending_ids(prev_keys, m, u, r).len() > 0;
                            assert(pending_ids(next_keys, m, u, r).len() > 0);
                        } else if exists|r: Seq<char>| #[trigger] pending_ids(next_keys, m, u, r).len() > 0 {
                            let r = choose|r: Seq<char>| #[trigger] pending_ids(next_keys, m, u, r).len() > 0;
                            assert(pending_ids(prev_keys, m, u, r).len() > 0);
                        }
                    }
                }
            },
        }
        i = i + 1;
    }
    proof {
        assert(keys.take(i as int) =~= keys);
        assert(keys == sorted_seq_of(m.dom()));
    }
    groups.keys_are_sorted();
    proof {
        groups.lemma_pairs_are_sorted_map();
        assert(groups@.dom() =~= pending_urls(keys, m));
    }
    let ghost urls = groups.keys();
    proof {
        crates.lemma_pairs_are_sorted_map();
        assert(keys.to_set() =~= m.dom());
    }
    let mut requests: Vec<GitPrefetch> = Vec::new();
    let mut ui: usize = 0;
    proof {
        assert(urls.take(0) =~= Seq::<Seq<char>>::empty());
        assert(prefetch_views(requests@) =~= Seq::<PrefetchView>::empty());
    }
    while ui < groups.len()
        invariant
            ui <= groups.pairs().len(),
            urls == groups.keys(),
            forall|j: int| 0 <= j < groups.pairs().len() ==> #[trigger] groups@[groups.pairs()[j].0] == groups.pairs()[j].1,
            forall|u: Seq<char>, r: Seq<char>|
                #![trigger groups@[u]@.contains_key(r)]
                groups@.contains_key(u) ==> (groups@[u]@.contains_key(r) <==> pending_ids(keys, m, u, r).len() > 0),
            forall|u: Seq<char>, r: Seq<char>|
                #![trigger groups@[u]@[r]]
                groups@.contains_key(u) && groups@[u]@.contains_key(r) ==> views(groups@[u]@[r]@) == pending_ids(keys, m, u, r),
            prefetch_views(requests@) == requests_for(urls.take(ui as int), keys, m),
            strictly_increasing(urls),
            keys.to_set() == m.dom(),
            forall|j: int|
                0 <= j < prefetch_views(requests@).len() ==> urls.take(ui as int).contains(
                    (#[trigger] prefetch_views(requests@)[j]).0,
                ),
            distinct_checkouts(prefetch_views(requests@)),
            all_pending(prefetch_views(requests@), m),
        decreases groups.pairs().len() - ui,
    {
        let url = groups.key_at(ui);
        let inner = groups.value_at(ui);
        let ghost u = url@;
        let ghost done = prefetch_views(requests@);
        proof {
            assert(urls[ui as int] == u);
            assert(groups@[u] == *inner);
            assert(groups@.contains_key(u));
        }
        inner.keys_are_sorted();
        proof {
            inner.lemma_pairs_are_sorted_map();
            assert(inner@.dom() =~= pending_revs(keys, m, u));
        }
        let ghost revs = inner.keys();
        let mut ri: usize = 0;
        proof {
            assert(prefetch_views(requests@) =~= done + revs.take(0).map_values(
                |r: Seq<char>| (u, r, pending_ids(keys, m, u, r)),
            ));
        }
        while ri < inner.len()
            invariant
                ri <= inner.pairs().len(),
                revs == inner.keys(),
                url@ == u,
                groups@.contains_key(u),
                groups@[u] == *inner,
                forall|j: int| 0 <= j < inner.pairs().len() ==> #[trigger] inner@[inner.pairs()[j].0] == inner.pairs()[j].1,
                forall|u: Seq<char>, r: Seq<char>|
                    #![trigger groups@[u]@[r]]
                    groups@.contains_key(u) && groups@[u]@.contains_key(r) ==> views(groups@[u]@[r]@) == pending_ids(keys, m, u, r),
                prefetch_views(requests@) == done + revs.take(ri as int).map_values(
                    |r: Seq<char>| (u, r, pending_ids(keys, m, u, r)),
                ),
                strictly_increasing(urls),
                strictly_increasing(revs),
                ui < urls.len(),
                urls[ui as int] == u,
                keys.to_set() == m.dom(),
                forall|j: int|
                    0 <= j < prefetch_views(requests@).len() ==> urls.take(ui as int).contains(
                        (#[trigger] prefetch_views(requests@)[j]).0,
                    ) || (prefetch_views(requests@)[j].0 == u && revs.take(ri as int).contains(
                        prefetch_views(requests@)[j].1,
                    )),
                distinct_checkouts(prefetch_views(requests@)),
                all_pending(prefetch_views(requests@), m),
            decreases inner.pairs().len() - ri,
        {
            let rev = inner.key_at(ri);
            let ids = inner.value_at(ri);
            proof {
                assert(revs[ri as int] == rev@);
                assert(inner@[rev@] == *ids);
                assert(inner@.contains_key(rev@));
                assert(views(ids@) == pending_ids(keys, m, u, rev@));
            }
            let g = GitPrefetch { url: url.clone(), rev: rev.clone(), pkg_ids: crate::text::clone_strings(ids) };
            let ghost before = prefetch_views(requests@);
            requests.push(g);
            proof {
                assert(prefetch_views(requests@) =~= before.push(prefetch_view(g)));
                let pv = prefetch_views(requests@);
                let n = before.len();
                assert(pv[n as int] == (u, rev@, pending_ids(keys, m, u, rev@)));
                assert forall|j: int| 0 <= j < n implies (#[trigger] pv[j].0, pv[j].1) != (u, rev@) by {
                    assert(pv[j] == before[j]);
                    if urls.take(ui as int).contains(before[j].0) {
                        let k = choose|k: int| 0 <= k < ui && urls.take(ui as int)[k] == before[j].0;
                        lemma_increasing_distinct(urls, k, ui as int);
                    } else {
                        let k = choose|k: int| 0 <= k < ri && revs.take(ri as int)[k] == before[j].1;
                        lemma_increasing_distinct(revs, k, ri as int);
                    }
                }
                assert forall|a: int, b: int| 0 <= a < b < pv.len() implies (#[trigger] pv[a].0, pv[a].1) != (
                    #[trigger] pv[b].0,
                    pv[b].1,
                ) by {
                    assert(pv[a] == before[a]);
                    if b < n {
                        assert(pv[b] == before[b]);
                    }
                }
                assert forall|j: int|
                    0 <= j < pv.len() implies urls.take(ui as int).contains((#[trigger] pv[j]).0) || (pv[j].0 == u
                    && revs.take(ri + 1).contains(pv[j].1)) by {
                    if j < n {
                        assert(pv[j] == before[j]);
                        if !urls.take(ui as int).contains(before[j].0) {
                            let k = choose|k: int| 0 <= k < ri && revs.take(ri as int)[k] == before[j].1;
                            assert(revs.take(ri + 1)[k] == before[j].1);
                        }
                    } else {
                        assert(revs.take(ri + 1)[ri as int] == rev@);
                    }
                }
                lemma_pending_ids(keys, m, u, rev@);
                assert forall|j: int, t: int| 0 <= j < pv.len() && 0 <= t < pv[j].2.len() implies m.contains_key(
                    #[trigger] pv[j].2[t],
                ) && pending_at(m[pv[j].2[t]], pv[j].0, pv[j].1) by {
                    if j < n {
                        assert(pv[j] == before[j]);
                    } else {
                        assert(keys.contains(pv[j].2[t]));
                        assert(keys.to_set().contains(pv[j].2[t]));
                    }
                }
                assert(revs.take(ri + 1).map_values(|r: Seq<char>| (u, r, pending_ids(keys, m, u, r)))
                    =~= revs.take(ri as int).map_values(|r: Seq<char>| (u, r, pending_ids(keys, m, u, r))).push(
                    (u, rev@, pending_ids(keys, m, u, rev@)),
                ));
            }
            ri = ri + 1;
        }
        proof {
            assert(urls.take(ui + 1).drop_last() =~= urls.take(ui as int));
            assert(urls.take(ui + 1).last() == u);
            let pv = prefetch_views(requests@);
            assert forall|j: int| 0 <= j < pv.len() implies urls.take(ui + 1).contains((#[trigger] pv[j]).0) by {
                if urls.take(ui as int).contains(pv[j].0) {
                    let k = choose|k: int| 0 <= k < ui && urls.take(ui as int)[k] == pv[j].0;
                    assert(urls.take(ui + 1)[k] == pv[j].0);
                } else {
                    assert(urls.take(ui + 1)[ui as int] == pv[j].0);
                }
            }
            assert(revs.take(ri as int) =~= revs);
            assert(revs == sorted_seq_of(pending_revs(keys, m, u)));
        }
        ui = ui + 1;
    }
    proof {
        assert(urls.take(ui as int) =~= urls);
        assert(urls == sorted_seq_of(pending_urls(keys, m)));
    }
    requests
}

/// A crate whose git source has the hash `h`.
pub open spec fn with_git_hash(c: CrateView, h: Seq<char>) -> CrateView {
    match c.source {
        Some(SourceView::Git { url, rev, sub_dir, sha256 }) => CrateView {
            source: Some(SourceView::Git { url, rev, sub_dir, sha256: Some(h) }),
            ..c
        },
        _ => c,
    }
}

/// The crates with the git sources of `ids` given the hash `h`.
pub open spec fn hash_set_for(m: Map<Seq<char>, CrateView>, ids: Seq<Seq<char>>, h: Seq<char>) -> Map<
    Seq<char>,
    CrateView,
> {
    Map::new(
        |k: Seq<char>| m.contains_key(k),
        |k: Seq<char>|
            if ids.contains(k) {
                with_git_hash(m[k], h)
            } else {
                m[k]
            },
    )
}

/// A crate whose git source has the hash `h`.
fn set_git_hash(c: NixCrate, h: &str) -> (r: NixCrate)
    ensures
        r@ == with_git_hash(c@, h@),
{
    let mut c = c;
    let src = c.source;
    c.source = match src {
        Some(NixSource::Git { url, rev, sub_dir, sha256: _ }) => Some(
            NixSource::Git { url, rev, sub_dir, sha256: Some(to_owned(h)) },
        ),
        other => other,
    };
    c
}

/// Record the hash of a prefetched checkout on the git sources of the
/// crates `pkg_ids` that come from it.
///
/// Fails at the first package ID that the plan does not hold; the crates
/// before it have their hash by then.
pub fn apply_prefetched_hash(plan: &mut NixBuildPlan, pkg_ids: &[String], sha256: &str) -> (r: Result<(), Error>)
    ensures
        match first_unknown(views(pkg_ids@), old(plan)@.crates.dom()) {
            None => r is Ok && final(plan)@ == (crate::output::PlanView {
                crates: hash_set_for(old(plan)@.crates, views(pkg_ids@), sha256@),
                ..old(plan)@
            }),
            Some(i) => r matches Err(e) && e@ == ErrorView::MissingPlanEntry(views(pkg_ids@)[i]) && final(plan)@
                == (crate::output::PlanView {
                crates: hash_set_for(old(plan)@.crates, views(pkg_ids@).take(i), sha256@),
                ..old(plan)@
            }),
        },
{
    let ghost ids = views(pkg_ids@);
    let ghost m0 = crate_views(plan.crates@);
    let ghost h = sha256@;
    let mut i: usize = 0;
    proof {
        assert(crate_views(plan.crates@) =~= hash_set_for(m0, ids.take(0), h));
    }
    while i < pkg_ids.len()
        invariant
            i <= pkg_ids.len(),
            ids == views(pkg_ids@),
            h == sha256@,
            m0 == crate_views(old(plan).crates@),
            crate_views(plan.crates@) == hash_set_for(m0, ids.take(i as int), h),
            forall|j: int| 0 <= j < i ==> m0.contains_key(#[trigger] ids[j]),
            plan.version == old(plan).version,
            plan.workspace_root == old(plan).workspace_root,
            plan.roots == old(plan).roots,
            plan.workspace_members == old(plan).workspace_members,
            plan.target == old(plan).target,
            plan.cargo_lock_hash == old(plan).cargo_lock_hash,
            plan.inputs_hash == old(plan).inputs_hash,
        decreases pkg_ids.len() - i,
    {
        let id = &pkg_ids[i];
        proof {
            assert(ids[i as int] == id@);
            assert(ids.take(i + 1) =~= ids.take(i as int).push(id@));
        }
        match plan.crates.index_of(id.as_str()) {
            None => {
                proof {
                    assert(crate_views(plan.crates@).contains_key(id@) == plan.crates@.contains_key(id@));
                    assert(!m0.contains_key(id@));
                    assert(is_first_unknown(ids, m0.dom(), i as int));
                    lemma_first_unknown_at(ids, m0.dom(), i as int);
                    assert(m0.dom() == old(plan)@.crates.dom());
                }
                return Err(Error::MissingPlanEntry(id.clone()));
            },
            Some(idx) => {
                plan.crates.keys_are_sorted();
                proof {
                    plan.crates.lemma_pair_in_view(idx as int);
                }
                let ghost cur = crate_views(plan.crates@);
                let ghost raw = plan.crates@;
                proof {
                    assert(cur.contains_key(id@));
                    assert(m0.contains_key(id@));
                }
                let c = plan.crates.replace_value_at(idx, NixCrate::default());
                proof {
                    assert(c@ == cur[id@]);
                    assert(with_git_hash(c@, h) == with_git_hash(m0[id@], h));
                }
                let c = set_git_hash(c, sha256);
                plan.crates.replace_value_at(idx, c);
                proof {
                    let m1 = crate_views(plan.crates@);
                    assert(m1[id@] == c@);
                    assert(m1 =~= hash_set_for(m0, ids.take(i + 1), h)) by {
                        assert forall|k: Seq<char>| #[trigger] m1.contains_key(k) implies m1[k] == hash_set_for(
                            m0,
                            ids.take(i + 1),
                            h,
                        )[k] by {
                            if k != id@ {
                                assert(plan.crates@[k] == raw[k]);
                                assert(m1[k] == cur[k]);
                                assert(ids.take(i + 1).contains(k) == ids.take(i as int).contains(k));
                            } else {
                                assert(ids.take(i + 1)[i as int] == k);
                                assert(ids.take(i + 1).contains(k));
                            }
                        }
                    }
                }
            },
        }
        i = i + 1;
    }
    proof {
        assert(ids.take(i as int) =~= ids);
        assert(m0.dom() == old(plan)@.crates.dom());
        if exists|j: int| 0 <= j < ids.len() && !m0.dom().contains(#[trigger] ids[j]) {
            let j = choose|j: int| 0 <= j < ids.len() && !m0.dom().contains(#[trigger] ids[j]);
            assert(m0.contains_key(ids[j]));
        }
    }
    Ok(())
}

/// The crate names of the package IDs that the plan holds, in order.
pub open spec fn crate_names_in(ids: Seq<Seq<char>>, m: Map<Seq<char>, CrateView>) -> Seq<Seq<char>>
    decreases ids.len(),
{
    if ids.len() == 0 {
        Seq::empty()
    } else {
        let prev = crate_names_in(ids.drop_last(), m);
        if m.contains_key(ids.last()) {
            prev.push(m[ids.last()].crate_name)
        } else {
            prev
        }
    }
}

/// The crate names of the package IDs that the plan holds, in order.
pub fn crate_names_of(plan: &NixBuildPlan, pkg_ids: &[String]) -> (r: Vec<String>)
    ensures
        views(r@) == crate_names_in(views(pkg_ids@), crate_views(plan.crates@)),
{
    let ghost ids = views(pkg_ids@);
    let ghost m = crate_views(plan.crates@);
    let mut r: Vec<String> = Vec::new();
    let mut i: usize = 0;
    while i < pkg_ids.len()
        invariant
            i <= pkg_ids.len(),
            ids == views(pkg_ids@),
            m == crate_views(plan.crates@),
            views(r@) == crate_names_in(ids.take(i as int), m),
        decreases pkg_ids.len() - i,
    {
        proof {
            assert(ids.take(i + 1).drop_last() =~= ids.take(i as int));
            assert(ids.take(i + 1).last() == pkg_ids@[i as int]@);
        }
        match plan.crates.get(pkg_ids[i].as_str()) {
            Some(c) => {
                let ghost before = views(r@);
                r.push(c.crate_name.clone());
                proof {
                    assert(views(r@) =~= before.push(c.crate_name@));
                }
            },
            None => {},
        }
        i = i + 1;
    }
    proof {
        assert(ids.take(i as int) =~= ids);
    }
    r
}

/// How many bytes `c` takes in UTF-8.
pub open spec fn utf8_len(c: char) -> nat {
    if (c as u32) < 0x80 {
        1
    } else if (c as u32) < 0x800 {
        2
    } else if (c as u32) < 0x10000 {
        3
    } else {
        4
    }
}

/// How many bytes `s` takes in UTF-8.
pub open spec fn utf8_bytes(s: Seq<char>) -> nat
    decreases s.len(),
{
    if s.len() == 0 {
        0
    } else {
        utf8_bytes(s.drop_last()) + utf8_len(s.last())
    }
}

/// A longer prefix of a string takes more bytes.
pub proof fn lemma_utf8_bytes_grow(s: Seq<char>, i: int, j: int)
    requires
        0 <= i < j <= s.len(),
    ensures
        utf8_bytes(s.take(i)) < utf8_bytes(s.take(j)),
    decreases j - i,
{
    assert(s.take(j).drop_last() =~= s.take(j - 1));
    if i < j - 1 {
        lemma_utf8_bytes_grow(s, i, j - 1);
    }
}

/// Whether byte `n` of `s` in UTF-8 falls between two characters.
pub open spec fn is_char_boundary_at(s: Seq<char>, n: nat) -> bool {
    exists|k: int| 0 <= k <= s.len() && #[trigger] utf8_bytes(s.take(k)) == n
}

/// A revision shortened to its first twelve bytes, or all of it when it is
/// no longer than that.
pub open spec fn short_rev_of(rev: Seq<char>) -> Seq<char> {
    if utf8_bytes(rev) > 12 {
        rev.take(choose|k: int| 0 <= k <= rev.len() && #[trigger] utf8_bytes(rev.take(k)) == 12)
    } else {
        rev
    }
}

/// A revision shortened for progress messages: its first twelve bytes.
///
/// A longer revision must break between two characters at byte twelve.
pub fn short_rev(rev: &str) -> (r: String)
    requires
        utf8_bytes(rev@) > 12 ==> is_char_boundary_at(rev@, 12),
    ensures
        r@ == short_rev_of(rev@),
{
    let v = chars_of(rev);
    let mut bytes: usize = 0;
    let mut i: usize = 0;
    while i < v.len()
        invariant
            v@ == rev@,
            utf8_bytes(rev@) > 12 ==> is_char_boundary_at(rev@, 12),
            i <= v.len(),
            bytes == utf8_bytes(v@.take(i as int)),
            bytes <= 12,
        decreases v.len() - i,
    {
        let c = v[i];
        let width: usize = if (c as u32) < 0x80 {
            1
        } else if (c as u32) < 0x800 {
            2
        } else if (c as u32) < 0x10000 {
            3
        } else {
            4
        };
        proof {
            assert(v@.take(i + 1).drop_last() =~= v@.take(i as int));
        }
        if bytes + width > 12 {
            proof {
                let s = rev@;
                if i + 1 < s.len() {
                    lemma_utf8_bytes_grow(s, i + 1, s.len() as int);
                }
                assert(s.take(s.len() as int) =~= s);
                assert(utf8_bytes(s) > 12);
                assert(is_char_boundary_at(s, 12));
                let k = choose|k: int| 0 <= k <= s.len() && #[trigger] utf8_bytes(s.take(k)) == 12;
                if k < i {
                    lemma_utf8_bytes_grow(s, k, i as int);
                } else if k > i {
                    if k > i + 1 {
                        lemma_utf8_bytes_grow(s, i + 1, k);
                    }
                }
                assert(k == i);
            }
            let r = subvec(&v, 0, i);
            proof {
                assert(r@ =~= rev@.take(i as int));
            }
            return string_from_chars(&r);
        }
        bytes = bytes + width;
        i = i + 1;
    }
    proof {
        assert(v@.take(i as int) =~= rev@);
    }
    to_owned(rev)
}

} // verus!
