//! File-system paths and I/O errors as the library carries them: opaque
//! values of the standard library, read through a few named functions.

use std::path::PathBuf;
use vstd::prelude::*;

verus! {

#[verifier::external_type_specification]
#[verifier::external_body]
pub struct ExPathBuf(std::path::PathBuf);

#[verifier::external_type_specification]
#[verifier::external_body]
pub struct ExIoError(std::io::Error);

/// The text that `Path::display` shows for a path.
pub uninterp spec fn path_text(p: PathBuf) -> Seq<char>;

/// The final component of a path as `Path::file_name` gives it, where it is
/// valid Unicode.
pub uninterp spec fn path_file_name(p: PathBuf) -> Option<Seq<char>>;

/// Whether two paths are equal as `PathBuf` compares them, component by
/// component.
pub uninterp spec fn paths_equal(a: PathBuf, b: PathBuf) -> bool;

/// `Path::display`, collected into a `String`: the text of the path.
#[verifier::external_body]
pub(crate) fn path_display(p: &PathBuf) -> (r: String)
    ensures
        r@ == path_text(*p),
{
    p.display().to_string()
}

/// `PathBuf::from` on text: a path that displays as that text.
#[verifier::external_body]
pub(crate) fn path_from_text(s: &str) -> (r: PathBuf)
    ensures
        path_text(r) == s@,
{
    PathBuf::from(s)
}

/// `PathBuf::eq`: whether the two paths have the same components.
#[verifier::external_body]
pub(crate) fn path_eq(a: &PathBuf, b: &PathBuf) -> (r: bool)
    ensures
        r == paths_equal(*a, *b),
{
    a == b
}

/// `PathBuf::clone`: the copy is the same path.
pub assume_specification[ <std::path::PathBuf as Clone>::clone ](p: &PathBuf) -> (r: PathBuf)
    ensures
        r == *p,
;

/// `Path::file_name` followed by `OsStr::to_str`: the final component of the
/// path as text, `None` where the path ends in `..` or the name is not valid
/// Unicode.
#[verifier::external_body]
pub(crate) fn file_name_text(p: &PathBuf) -> (r: Option<String>)
    ensures
        match r {
            Some(s) => path_file_name(*p) == Some(s@),
            None => path_file_name(*p) is None,
        },
{
    Some(p.file_name()?.to_str()?.to_owned())
}

/// `io::Error`'s `Display`, collected into a `String`. The text comes from
/// the operating system, so nothing is stated of it.
#[verifier::external_body]
pub(crate) fn io_error_display(e: &std::io::Error) -> (r: String) {
    e.to_string()
}

} // verus!
