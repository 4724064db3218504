//! File system paths, taken as text. The path operations themselves are
//! std's: each result is named by what `std::path::Path` returns for the
//! given text, and the library's contracts speak of those names.
use vstd::prelude::*;

use crate::text::opt_view;

verus! {

/// The text of `Path::new(p).parent()`.
pub uninterp spec fn path_parent(p: Seq<char>) -> Option<Seq<char>>;

/// The text of `Path::new(p).strip_prefix(base)`, `None` where it fails.
pub uninterp spec fn path_strip_prefix(p: Seq<char>, base: Seq<char>) -> Option<Seq<char>>;

/// The text of `Path::new(p).join(q)`.
pub uninterp spec fn path_join(p: Seq<char>, q: Seq<char>) -> Seq<char>;

/// Calls `std::path::Path::parent`; claims that the text it returns is
/// [`path_parent`] of the argument's text (a path made from a `&str` is valid
/// UTF-8, so its parent converts back without loss).
#[verifier::external_body]
pub(crate) fn parent_of(p: &str) -> (r: Option<String>)
    ensures
        opt_view(r) == path_parent(p@),
{
    match std::path::Path::new(p).parent() {
        Some(q) => Some(q.to_string_lossy().into_owned()),
        None => None,
    }
}

/// Calls `std::path::Path::strip_prefix`; claims that the text it returns,
/// or `None` on its error, is [`path_strip_prefix`] of the arguments' texts.
#[verifier::external_body]
pub(crate) fn strip_path_prefix(p: &str, base: &str) -> (r: Option<String>)
    ensures
        opt_view(r) == path_strip_prefix(p@, base@),
{
    match std::path::Path::new(p).strip_prefix(base) {
        Ok(q) => Some(q.to_string_lossy().into_owned()),
        Err(_) => None,
    }
}

/// Calls `std::path::Path::join`; claims that the text it returns is
/// [`path_join`] of the arguments' texts.
#[verifier::external_body]
pub(crate) fn join_path(p: &str, q: &str) -> (r: String)
    ensures
        r@ == path_join(p@, q@),
{
    std::path::Path::new(p).join(q).to_string_lossy().into_owned()
}

} // verus!
