//! Paths of the standard library and the `path-clean` crate, as far as the
//! path types of this library meet them.
//!
//! The contracts in this file are taken from the documentation of the
//! functions they stand for; they are believed, not proved.

use vstd::prelude::*;
use std::path::PathBuf;
use crate::components::is_absolute;

verus! {

/// `std::path::PathBuf`. Nothing of it is seen here but what the contracts
/// below say.
#[verifier::external_type_specification]
#[verifier::external_body]
pub struct ExPathBuf(PathBuf);

/// The text of a path of the standard library, where the path is valid
/// Unicode.
pub uninterp spec fn path_buf_text(path: PathBuf) -> Option<Seq<char>>;

/// What `path_clean::clean` makes of a path: the shortest text that names the
/// same place, found without looking at the file system. Repeated separators
/// and `.` go, `..` takes the name before it with it, `..` at the root goes,
/// and what would be empty is `.`.
pub uninterp spec fn cleaned_path(path: Seq<char>) -> Seq<char>;

/// `Path::to_str`: the text of the path, where it is valid Unicode.
#[verifier::external_body]
pub(crate) fn path_buf_to_str(path: &PathBuf) -> (text: Option<String>)
    ensures
        text.is_some() == path_buf_text(*path).is_some(),
        text.is_some() ==> text.unwrap()@ == path_buf_text(*path).unwrap(),
{
    path.to_str().map(|text| text.to_string())
}

/// `Path::to_string_lossy`: the text of the path, with a replacement
/// character wherever it is not valid Unicode.
#[verifier::external_body]
pub(crate) fn path_buf_to_string_lossy(path: &PathBuf) -> (text: String)
    ensures
        path_buf_text(*path).is_some() ==> text@ == path_buf_text(*path).unwrap(),
{
    path.to_string_lossy().into_owned()
}

/// `Path::is_absolute`: on this system a path is absolute where it starts with
/// the root.
#[verifier::external_body]
pub(crate) fn path_buf_is_absolute(path: &PathBuf) -> (absolute: bool)
    ensures
        path_buf_text(*path).is_some() ==> absolute == is_absolute(path_buf_text(*path).unwrap()),
{
    path.is_absolute()
}

/// `PathBuf::from`: the path with the given text.
#[verifier::external_body]
pub(crate) fn path_buf_from(text: &str) -> (path: PathBuf)
    ensures
        path_buf_text(path) == Some(text@),
{
    PathBuf::from(text)
}

/// `path_clean::clean`. A cleaned path is absolute where the path was.
#[verifier::external_body]
pub(crate) fn clean_path(path: &str) -> (cleaned: String)
    ensures
        cleaned@ == cleaned_path(path@),
        is_absolute(path@) ==> is_absolute(cleaned@),
{
    path_clean::clean(path).to_string_lossy().into_owned()
}

} // verus!
