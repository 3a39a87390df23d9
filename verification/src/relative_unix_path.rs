//! Relative paths written with `/`, as they stand in files that are shared
//! between systems.

use vstd::prelude::*;
use crate::components::{is_absolute, text_is_absolute};
use crate::path_error::{PathError, PathErrorView};

verus! {

/// A relative path with `/` between its segments.
#[derive(Debug, PartialEq, Eq, Hash)]
pub struct RelativeUnixPath {
    path: String,
}

impl View for RelativeUnixPath {
    type V = Seq<char>;

    closed spec fn view(&self) -> Seq<char> {
        self.path@
    }
}

impl RelativeUnixPath {
    /// The path with the text `path`, which must not be absolute.
    pub fn new(path: &str) -> (result: Result<RelativeUnixPath, PathError>)
        ensures
            match result {
                Ok(unix) => !is_absolute(path@) && unix@ == path@,
                Err(error) => is_absolute(path@) && error@ == PathErrorView::NotRelative(path@),
            },
    {
        if text_is_absolute(path) {
            Err(PathError::NotRelative(String::from_str(path)))
        } else {
            Ok(RelativeUnixPath { path: String::from_str(path) })
        }
    }

    /// The text of the path.
    pub fn as_str(&self) -> (text: &str)
        ensures
            text@ == self@,
    {
        self.path.as_str()
    }
}

} // verus!
