//! File system paths, held as text. Absoluteness follows Unix: a path is
//! absolute when it starts with `/`. Parent, join and file name are what
//! `std::path::Path` computes; relative paths between two directories are
//! what the `pathdiff` crate computes.

use vstd::prelude::*;
use vstd::string::*;

verus! {

/// A path is absolute when it starts at the root, `/`.
pub open spec fn is_absolute_path(p: Seq<char>) -> bool {
    p.len() > 0 && p[0] == '/'
}

/// Whether `p` is absolute (`Path::is_absolute` on Unix).
pub fn is_absolute(p: &str) -> (r: bool)
    ensures
        r == is_absolute_path(p@),
{
    if p.is_empty() {
        false
    } else {
        p.get_char(0) == '/'
    }
}

/// What `Path::parent` gives for the path `p`.
pub uninterp spec fn path_parent(p: Seq<char>) -> Option<Seq<char>>;

/// What `Path::join` gives for `base` joined with `rel`.
pub uninterp spec fn path_join(base: Seq<char>, rel: Seq<char>) -> Seq<char>;

/// What `Path::file_name` gives for the path `p`.
pub uninterp spec fn path_file_name(p: Seq<char>) -> Option<Seq<char>>;

/// What `pathdiff::diff_paths` gives for the path `path` relative to `base`.
pub uninterp spec fn path_diff(path: Seq<char>, base: Seq<char>) -> Option<Seq<char>>;

/// Calls `std::path::Path::parent`. Trusted: the result is [`path_parent`]
/// of the argument.
#[verifier::external_body]
pub(crate) fn parent(p: &str) -> (r: Option<String>)
    ensures
        r is Some <==> path_parent(p@) is Some,
        r matches Some(q) ==> path_parent(p@) == Some(q@),
{
    match std::path::Path::new(p).parent() {
        Some(q) => Some(q.to_string_lossy().into_owned()),
        None => None,
    }
}

/// Calls `std::path::Path::join`. Trusted: the result is [`path_join`] of
/// the arguments and, as the documentation of `join` and `is_absolute` says,
/// is `rel` itself when `rel` is absolute.
#[verifier::external_body]
pub(crate) fn join(base: &str, rel: &str) -> (r: String)
    ensures
        r@ == path_join(base@, rel@),
        is_absolute_path(rel@) ==> r@ == rel@,
{
    std::path::Path::new(base).join(rel).to_string_lossy().into_owned()
}

/// Calls `std::path::Path::file_name`. Trusted: the result is
/// [`path_file_name`] of the argument.
#[verifier::external_body]
pub(crate) fn file_name(p: &str) -> (r: Option<String>)
    ensures
        r is Some <==> path_file_name(p@) is Some,
        r matches Some(n) ==> path_file_name(p@) == Some(n@),
{
    match std::path::Path::new(p).file_name() {
        Some(n) => Some(n.to_string_lossy().into_owned()),
        None => None,
    }
}

/// Calls `pathdiff::diff_paths(path, base)`. Trusted: the result is
/// [`path_diff`] of the arguments; as its source shows, an absolute `path`
/// against a relative `base` gives `path` itself, and a relative `path`
/// against an absolute `base` gives `None`.
#[verifier::external_body]
pub(crate) fn diff_paths(path: &str, base: &str) -> (r: Option<String>)
    ensures
        r is Some <==> path_diff(path@, base@) is Some,
        r matches Some(d) ==> path_diff(path@, base@) == Some(d@),
        is_absolute_path(path@) && !is_absolute_path(base@) ==> r is Some,
        r matches Some(d) ==> (is_absolute_path(path@) && !is_absolute_path(base@) ==> d@ == path@),
        !is_absolute_path(path@) && is_absolute_path(base@) ==> r is None,
{
    match pathdiff::diff_paths(path, base) {
        Some(d) => Some(d.to_string_lossy().into_owned()),
        None => None,
    }
}

/// `Some(parent)`, or the path unchanged where it has no parent: what
/// `PathBuf::pop` leaves behind.
pub open spec fn popped(p: Seq<char>) -> Seq<char> {
    match path_parent(p) {
        Some(q) => q,
        None => p,
    }
}

/// `PathBuf::pop`: the path truncated to its parent, unchanged when it has none.
pub fn pop(p: &str) -> (r: String)
    ensures
        r@ == popped(p@),
{
    match parent(p) {
        Some(q) => q,
        None => String::from_str(p),
    }
}

} // verus!
