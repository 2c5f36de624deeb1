//! File-system path arithmetic (`std::path`) on UTF-8 text. What the
//! standard library computes is named here, not restated; the library's
//! own path rules are stated over these names.

use vstd::prelude::*;

verus! {

/// `Path::file_name` of `p`.
pub uninterp spec fn file_name_of(p: Seq<char>) -> Option<Seq<char>>;

/// `Path::file_stem` of `p`.
pub uninterp spec fn file_stem_of(p: Seq<char>) -> Option<Seq<char>>;

/// `Path::parent` of `p`.
pub uninterp spec fn parent_of(p: Seq<char>) -> Option<Seq<char>>;

/// `Path::join` of `base` and `rest`.
pub uninterp spec fn joined(base: Seq<char>, rest: Seq<char>) -> Seq<char>;

pub open spec fn opt_text(o: Option<String>) -> Option<Seq<char>> {
    match o {
        Some(s) => Some(s@),
        None => None,
    }
}

/// `Path::new(p).file_name()`; a component of UTF-8 text is UTF-8, so
/// the lossy conversion is exact.
#[verifier::external_body]
pub(crate) fn file_name(p: &str) -> (r: Option<String>)
    ensures
        opt_text(r) == file_name_of(p@),
{
    match std::path::Path::new(p).file_name() {
        Some(n) => Some(n.to_string_lossy().into_owned()),
        None => None,
    }
}

/// `Path::new(p).file_stem()`.
#[verifier::external_body]
pub(crate) fn file_stem(p: &str) -> (r: Option<String>)
    ensures
        opt_text(r) == file_stem_of(p@),
{
    match std::path::Path::new(p).file_stem() {
        Some(n) => Some(n.to_string_lossy().into_owned()),
        None => None,
    }
}

/// `Path::new(p).parent()`.
#[verifier::external_body]
pub(crate) fn parent(p: &str) -> (r: Option<String>)
    ensures
        opt_text(r) == parent_of(p@),
{
    match std::path::Path::new(p).parent() {
        Some(n) => Some(n.to_string_lossy().into_owned()),
        None => None,
    }
}

/// `Path::new(base).join(rest)`.
#[verifier::external_body]
pub(crate) fn join(base: &str, rest: &str) -> (r: String)
    ensures
        r@ == joined(base@, rest@),
{
    std::path::Path::new(base).join(rest).to_string_lossy().into_owned()
}

/// `Path::starts_with`: `base` is a whole-component prefix of `p`.
pub uninterp spec fn path_under(p: Seq<char>, base: Seq<char>) -> bool;

/// `Path::new(p).starts_with(base)`.
#[verifier::external_body]
pub(crate) fn starts_with_path(p: &str, base: &str) -> (r: bool)
    ensures
        r == path_under(p@, base@),
{
    std::path::Path::new(p).starts_with(base)
}

} // verus!
