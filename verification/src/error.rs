//! The errors of this library.
use vstd::prelude::*;

use crate::text::{append, dec_str, decimal, join_strings, join_with, views};

verus! {

/// Why building a plan or reading one of its inputs failed.
#[derive(Debug)]
pub enum Error {
    /// A metadata source string of a kind this library does not know.
    UnknownSourceType(String),
    /// A `git+` source string without a `#` fragment.
    MalformedGitSource(String),
    /// A package ID without a `#` separator.
    MissingHashSeparator(String),
    /// A package ID from which no crate name can be taken.
    MissingCrateName(String),
    /// Dependency edges that name crates not in the plan, each by
    /// (crate name, package ID, missing package ID).
    DanglingReferences(Vec<(String, String, String)>),
    /// A `--members` name that is not a workspace member; the valid names follow.
    UnknownWorkspaceMember(String, Vec<String>),
    /// A package ID that the plan was asked to update but does not hold.
    MissingPlanEntry(String),
    /// Two command-line options that may not be given together.
    ConflictingFlags(String, String),
}

/// Triples of strings, each taken by its view.
pub open spec fn ref_views(s: Seq<(String, String, String)>) -> Seq<(Seq<char>, Seq<char>, Seq<char>)> {
    s.map_values(|t: (String, String, String)| (t.0@, t.1@, t.2@))
}

/// An error, with every string taken by its view.
pub enum ErrorView {
    UnknownSourceType(Seq<char>),
    MalformedGitSource(Seq<char>),
    MissingHashSeparator(Seq<char>),
    MissingCrateName(Seq<char>),
    DanglingReferences(Seq<(Seq<char>, Seq<char>, Seq<char>)>),
    UnknownWorkspaceMember(Seq<char>, Seq<Seq<char>>),
    MissingPlanEntry(Seq<char>),
    ConflictingFlags(Seq<char>, Seq<char>),
}

impl View for Error {
    type V = ErrorView;

    open spec fn view(&self) -> ErrorView {
        match self {
            Error::UnknownSourceType(s) => ErrorView::UnknownSourceType(s@),
            Error::MalformedGitSource(s) => ErrorView::MalformedGitSource(s@),
            Error::MissingHashSeparator(s) => ErrorView::MissingHashSeparator(s@),
            Error::MissingCrateName(s) => ErrorView::MissingCrateName(s@),
            Error::DanglingReferences(v) => ErrorView::DanglingReferences(ref_views(v@)),
            Error::UnknownWorkspaceMember(s, v) => ErrorView::UnknownWorkspaceMember(s@, views(v@)),
            Error::MissingPlanEntry(s) => ErrorView::MissingPlanEntry(s@),
            Error::ConflictingFlags(a, b) => ErrorView::ConflictingFlags(a@, b@),
        }
    }
}

/// The text of an error.
pub open spec fn message_of(e: ErrorView) -> Seq<char> {
    match e {
        ErrorView::UnknownSourceType(s) => "unknown source type: "@ + s,
        ErrorView::MalformedGitSource(s) => "malformed git source URL: "@ + s,
        ErrorView::MissingHashSeparator(id) => "malformed package ID (no '#' separator): "@ + id,
        ErrorView::MissingCrateName(id) => "malformed package ID (no crate name): "@ + id,
        ErrorView::DanglingReferences(refs) => dec_str(refs.len())
            + " dependencies reference crates not in the build plan (likely a missing crate kind \u{2014} see unit2nix bug tracker)"@,
        ErrorView::UnknownWorkspaceMember(name, valid) => "unknown workspace member '"@ + name
            + "'. Valid members: "@ + join_with(valid, ", "@),
        ErrorView::MissingPlanEntry(id) => "internal error: pkg_id "@ + id
            + " missing from build plan during prefetch"@,
        ErrorView::ConflictingFlags(a, b) => a + " and "@ + b + " cannot be used together"@,
    }
}

impl Error {
    /// The text of the error, as it is shown to the user.
    pub fn message(&self) -> (r: String)
        ensures
            r@ == message_of(self@),
    {
        let mut r = String::new();
        match self {
            Error::UnknownSourceType(s) => {
                append(&mut r, "unknown source type: ");
                append(&mut r, s.as_str());
            },
            Error::MalformedGitSource(s) => {
                append(&mut r, "malformed git source URL: ");
                append(&mut r, s.as_str());
            },
            Error::MissingHashSeparator(id) => {
                append(&mut r, "malformed package ID (no '#' separator): ");
                append(&mut r, id.as_str());
            },
            Error::MissingCrateName(id) => {
                append(&mut r, "malformed package ID (no crate name): ");
                append(&mut r, id.as_str());
            },
            Error::DanglingReferences(refs) => {
                proof {
                    assert(ref_views(refs@).len() == refs@.len());
                }
                append(&mut r, decimal(refs.len()).as_str());
                append(
                    &mut r,
                    " dependencies reference crates not in the build plan (likely a missing crate kind \u{2014} see unit2nix bug tracker)",
                );
            },
            Error::UnknownWorkspaceMember(name, valid) => {
                append(&mut r, "unknown workspace member '");
                append(&mut r, name.as_str());
                append(&mut r, "'. Valid members: ");
                append(&mut r, join_strings(valid, ", ").as_str());
            },
            Error::MissingPlanEntry(id) => {
                append(&mut r, "internal error: pkg_id ");
                append(&mut r, id.as_str());
                append(&mut r, " missing from build plan during prefetch");
            },
            Error::ConflictingFlags(a, b) => {
                append(&mut r, a.as_str());
                append(&mut r, " and ");
                append(&mut r, b.as_str());
                append(&mut r, " cannot be used together");
            },
        }
        proof {
            assert(r@ =~= message_of(self@));
        }
        r
    }
}

} // verus!
