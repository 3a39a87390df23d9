//! What can be wrong with a path.

use vstd::prelude::*;

verus! {

/// The view of a [`PathError`].
pub enum PathErrorView {
    InvalidUnicode(Seq<char>),
    NotAbsolute(Seq<char>),
    NotRelative(Seq<char>),
    NotParent(Seq<char>, Seq<char>),
    MalformedPath(Seq<char>),
    WindowsUnsafePath(Seq<char>),
}

/// Why a path was refused. Each variant holds the path, `NotParent` the
/// supposed parent and then the path.
#[derive(Debug, PartialEq, Eq)]
pub enum PathError {
    InvalidUnicode(String),
    NotAbsolute(String),
    NotRelative(String),
    NotParent(String, String),
    MalformedPath(String),
    WindowsUnsafePath(String),
}

impl View for PathError {
    type V = PathErrorView;

    open spec fn view(&self) -> PathErrorView {
        match self {
            PathError::InvalidUnicode(path) => PathErrorView::InvalidUnicode(path@),
            PathError::NotAbsolute(path) => PathErrorView::NotAbsolute(path@),
            PathError::NotRelative(path) => PathErrorView::NotRelative(path@),
            PathError::NotParent(parent, path) => PathErrorView::NotParent(parent@, path@),
            PathError::MalformedPath(path) => PathErrorView::MalformedPath(path@),
            PathError::WindowsUnsafePath(path) => PathErrorView::WindowsUnsafePath(path@),
        }
    }
}

/// The sentence that tells a user of the error.
pub open spec fn error_message(error: PathErrorView) -> Seq<char> {
    match error {
        PathErrorView::InvalidUnicode(path) => "Path is non-UTF-8: "@ + path,
        PathErrorView::NotAbsolute(path) => "Path is not absolute: "@ + path,
        PathErrorView::NotRelative(path) => "Path is not relative: "@ + path,
        PathErrorView::NotParent(parent, path) => "Path "@ + parent + " is not parent of "@ + path,
        PathErrorView::MalformedPath(path) => "path is malformed: "@ + path,
        PathErrorView::WindowsUnsafePath(path) => "Path is not safe for windows: "@ + path,
    }
}

impl PathError {
    /// The sentence that tells a user of the error.
    pub fn to_string(&self) -> (message: String)
        ensures
            message@ == error_message(self@),
    {
        match self {
            PathError::InvalidUnicode(path) => {
                String::from_str("Path is non-UTF-8: ").concat(path.as_str())
            },
            PathError::NotAbsolute(path) => {
                String::from_str("Path is not absolute: ").concat(path.as_str())
            },
            PathError::NotRelative(path) => {
                String::from_str("Path is not relative: ").concat(path.as_str())
            },
            PathError::NotParent(parent, path) => {
                String::from_str("Path ").concat(parent.as_str()).concat(
                    " is not parent of ",
                ).concat(path.as_str())
            },
            PathError::MalformedPath(path) => {
                String::from_str("path is malformed: ").concat(path.as_str())
            },
            PathError::WindowsUnsafePath(path) => {
                String::from_str("Path is not safe for windows: ").concat(path.as_str())
            },
        }
    }
}

} // verus!
