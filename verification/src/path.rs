//! The two path operations that the reader and the picker use, as the
//! standard library's `Path` performs them on the text of a path.
use vstd::prelude::*;

verus! {

/// The last component of the path `path` (`Path::file_name`), if it has one.
pub uninterp spec fn path_file_name(path: Seq<char>) -> Option<Seq<char>>;

/// `Path::file_name`: the final component of `path`, `None` when the path
/// ends in `..` or is a root or empty. `Path` reads the text of the path by
/// the separator rules of the platform the program is built for, and by
/// nothing else.
#[verifier::external_body]
pub(crate) fn file_name(path: &str) -> (r: Option<String>)
    ensures
        r matches Some(n) ==> path_file_name(path@) == Some(n@),
        r is None ==> path_file_name(path@) is None,
{
    match std::path::Path::new(path).file_name() {
        Some(n) => Some(n.to_string_lossy().to_string()),
        None => None,
    }
}

/// The path without its last component (`Path::parent`), if it has one.
pub uninterp spec fn path_parent(path: Seq<char>) -> Option<Seq<char>>;

/// `Path::parent`: `path` without its final component, `None` when the
/// path is a root or empty. Like `file_name`, it depends on the text of the
/// path and the separator rules of the platform the program is built for.
#[verifier::external_body]
pub(crate) fn parent(path: &str) -> (r: Option<String>)
    ensures
        r matches Some(p) ==> path_parent(path@) == Some(p@),
        r is None ==> path_parent(path@) is None,
{
    match std::path::Path::new(path).parent() {
        Some(p) => Some(p.to_string_lossy().to_string()),
        None => None,
    }
}

/// Whether two paths name the same path as `Path` compares them: component
/// by component, so that `a//b` and `a/b` are the same path.
pub uninterp spec fn same_path(a: Seq<char>, b: Seq<char>) -> bool;

/// `Path::eq`: whether the paths `a` and `b` have the same components (the
/// separator rules of the platform the program is built for decide the
/// components). Equal texts are the same path.
#[verifier::external_body]
pub(crate) fn paths_equal(a: &str, b: &str) -> (r: bool)
    ensures
        r == same_path(a@, b@),
        a@ == b@ ==> r,
{
    std::path::Path::new(a) == std::path::Path::new(b)
}

} // verus!
