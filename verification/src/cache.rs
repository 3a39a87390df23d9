//! What a caller of the cache of build outputs is told. The cache itself is
//! not part of this library: it is asked, and what it answers is put into the
//! shape that the caller expects.

use vstd::prelude::*;
use crate::absolute_system_path::AbsoluteSystemPath;
use crate::anchored_system_path_buf::AnchoredSystemPathBuf;
use crate::components::is_absolute;
use crate::text::texts;

verus! {

/// The answer to a request for the outputs of a task.
#[derive(Debug, PartialEq, Eq)]
pub enum RetrieveResponse {
    /// The files that were restored, as seen from the root of the repository,
    /// and the time that the task took when its outputs were made.
    Files { files: Vec<String>, duration: u64 },
    /// Why nothing was restored.
    Error(String),
}

/// The view of a [`RetrieveResponse`].
pub enum ResponseView {
    Files { files: Seq<Seq<char>>, duration: u64 },
    Error(Seq<char>),
}

impl View for RetrieveResponse {
    type V = ResponseView;

    open spec fn view(&self) -> ResponseView {
        match self {
            RetrieveResponse::Files { files, duration } => ResponseView::Files {
                files: texts(files@),
                duration: *duration,
            },
            RetrieveResponse::Error(message) => ResponseView::Error(message@),
        }
    }
}

/// What a list of anchored paths holds.
pub open spec fn anchored_texts(paths: Seq<AnchoredSystemPathBuf>) -> Seq<Seq<char>> {
    Seq::new(paths.len(), |i: int| paths[i]@)
}

/// The root of the repository that a cache is made for, which must be an
/// absolute path; the answer to give otherwise.
pub fn build_http_cache(repo_root: &str) -> (result: Result<AbsoluteSystemPath, RetrieveResponse>)
    ensures
        match result {
            Ok(root) => is_absolute(repo_root@) && root@ == repo_root@,
            Err(response) => !is_absolute(repo_root@) && response@ == ResponseView::Error(
                "repo_root is not absolute path"@,
            ),
        },
{
    match AbsoluteSystemPath::new(repo_root) {
        Ok(root) => Ok(root),
        Err(_) => Err(RetrieveResponse::Error(String::from_str("repo_root is not absolute path"))),
    }
}

/// The answer to a request, given what the cache said: the files it restored
/// with the time it recorded, or its error.
pub fn retrieve(outcome: Result<(Vec<AnchoredSystemPathBuf>, u64), String>) -> (response:
    RetrieveResponse)
    ensures
        response@ == match outcome {
            Ok(restored) => ResponseView::Files {
                files: anchored_texts(restored.0@),
                duration: restored.1,
            },
            Err(error) => ResponseView::Error(error@),
        },
{
    match outcome {
        Ok(restored) => {
            let file_paths = restored.0;
            let mut files: Vec<String> = Vec::new();
            let mut i: usize = 0;
            while i < file_paths.len()
                invariant
                    i <= file_paths@.len(),
                    files@.len() == i,
                    forall|j: int| 0 <= j < i ==> files@[j]@ == file_paths@[j]@,
                decreases file_paths@.len() - i,
            {
                match file_paths[i].to_str() {
                    Ok(path_str) => {
                        files.push(String::from_str(path_str));
                    },
                    Err(error) => {
                        return RetrieveResponse::Error(error.to_string());
                    },
                }
                i += 1;
            }
            assert(texts(files@) =~= anchored_texts(file_paths@));
            RetrieveResponse::Files { files, duration: restored.1 }
        },
        Err(error) => RetrieveResponse::Error(error),
    }
}

} // verus!
