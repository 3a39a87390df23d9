//! Paths inside the bundler's file system: text with `/` between the
//! segments, relative to the root of the file system.

use vstd::prelude::*;
use crate::text::{chars_of, string_of_range, has_prefix, last_index, last_index_of, starts_with,
    lemma_last_index_of};

verus! {

/// `name` below `base`. An empty side leaves the other as it is.
pub open spec fn joined(base: Seq<char>, name: Seq<char>) -> Seq<char> {
    if base.len() == 0 {
        name
    } else if name.len() == 0 {
        base
    } else {
        base + seq!['/'] + name
    }
}

/// The directory that holds `path`: what stands before the last `/`, and the
/// root where there is none.
pub open spec fn parent_of(path: Seq<char>) -> Seq<char> {
    let slash = last_index_of(path, '/');
    if slash < 0 {
        Seq::empty()
    } else {
        path.subrange(0, slash)
    }
}

/// The last segment of `path`.
pub open spec fn file_name_of(path: Seq<char>) -> Seq<char> {
    path.subrange(last_index_of(path, '/') + 1, path.len() as int)
}

/// Whether the last segment of `path` has an extension: a `.` that is not the
/// first character of the segment.
pub open spec fn has_extension(path: Seq<char>) -> bool {
    let dot = last_index_of(path, '.');
    let slash = last_index_of(path, '/');
    dot > 0 && dot > slash + 1
}

/// What follows the last `.` of the last segment.
pub open spec fn extension_of(path: Seq<char>) -> Option<Seq<char>> {
    if has_extension(path) {
        Some(path.subrange(last_index_of(path, '.') + 1, path.len() as int))
    } else {
        None
    }
}

/// The last segment of `path` without its extension and the `.` before it.
pub open spec fn file_stem_of(path: Seq<char>) -> Seq<char> {
    if has_extension(path) {
        path.subrange(last_index_of(path, '/') + 1, last_index_of(path, '.'))
    } else {
        file_name_of(path)
    }
}

/// The path that leads from `base` to `inner`, where `inner` lies below
/// `base`. Everything lies below the root; nothing lies below itself.
pub open spec fn path_to(base: Seq<char>, inner: Seq<char>) -> Option<Seq<char>> {
    if !starts_with(inner, base) {
        None
    } else if base.len() == 0 {
        Some(inner)
    } else if inner.len() > base.len() && inner[base.len() as int] == '/' {
        Some(inner.subrange(base.len() as int + 1, inner.len() as int))
    } else {
        None
    }
}

/// A path in the bundler's file system.
#[derive(Debug, PartialEq, Eq, PartialOrd, Ord, Hash)]
pub struct FileSystemPath {
    pub path: String,
}

impl Clone for FileSystemPath {
    fn clone(&self) -> (result: FileSystemPath)
        ensures
            result@ == self@,
    {
        FileSystemPath { path: self.path.clone() }
    }
}

impl View for FileSystemPath {
    type V = Seq<char>;

    open spec fn view(&self) -> Seq<char> {
        self.path@
    }
}

impl FileSystemPath {
    /// The path with the text `path`.
    pub fn new(path: &str) -> (result: FileSystemPath)
        ensures
            result@ == path@,
    {
        FileSystemPath { path: String::from_str(path) }
    }

    /// The root of the file system.
    pub fn root() -> (result: FileSystemPath)
        ensures
            result@ == Seq::<char>::empty(),
    {
        FileSystemPath { path: String::new() }
    }

    /// The text of the path.
    pub fn as_str(&self) -> (text: &str)
        ensures
            text@ == self@,
    {
        self.path.as_str()
    }

    /// Whether the two paths are the same.
    pub fn same(&self, other: &FileSystemPath) -> (same: bool)
        ensures
            same == (self@ == other@),
    {
        self.path == other.path
    }

    /// The path of `name` below this one.
    pub fn join(&self, name: &str) -> (result: FileSystemPath)
        ensures
            result@ == joined(self@, name@),
    {
        if self.path.as_str().unicode_len() == 0 {
            FileSystemPath { path: String::from_str(name) }
        } else if name.unicode_len() == 0 {
            FileSystemPath { path: self.path.clone() }
        } else {
            let mut path = self.path.clone();
            path.push('/');
            path.append(name);
            assert(path@ == self@ + seq!['/'] + name@);
            FileSystemPath { path }
        }
    }

    /// The directory that holds this path.
    pub fn parent(&self) -> (result: FileSystemPath)
        ensures
            result@ == parent_of(self@),
    {
        let chars = chars_of(self.path.as_str());
        match last_index(&chars, '/') {
            Some(slash) => {
                proof {
                    lemma_last_index_of(chars@, '/');
                }
                FileSystemPath { path: string_of_range(&chars, 0, slash) }
            },
            None => FileSystemPath { path: String::new() },
        }
    }

    /// The last segment of this path.
    pub fn file_name(&self) -> (name: String)
        ensures
            name@ == file_name_of(self@),
    {
        let chars = chars_of(self.path.as_str());
        proof {
            lemma_last_index_of(chars@, '/');
        }
        let from = match last_index(&chars, '/') {
            Some(slash) => slash + 1,
            None => 0,
        };
        string_of_range(&chars, from, chars.len())
    }

    /// The extension of the last segment, where it has one.
    pub fn extension(&self) -> (ext: Option<String>)
        ensures
            ext.is_some() == extension_of(self@).is_some(),
            ext.is_some() ==> ext.unwrap()@ == extension_of(self@).unwrap(),
    {
        let chars = chars_of(self.path.as_str());
        proof {
            lemma_last_index_of(chars@, '/');
            lemma_last_index_of(chars@, '.');
        }
        match last_index(&chars, '.') {
            None => None,
            Some(dot) => {
                let after_slash = match last_index(&chars, '/') {
                    Some(slash) => slash + 1,
                    None => 0,
                };
                if dot > 0 && dot > after_slash {
                    Some(string_of_range(&chars, dot + 1, chars.len()))
                } else {
                    None
                }
            },
        }
    }

    /// The last segment of this path without its extension.
    pub fn file_stem(&self) -> (stem: String)
        ensures
            stem@ == file_stem_of(self@),
    {
        let chars = chars_of(self.path.as_str());
        let len = chars.len();
        proof {
            lemma_last_index_of(chars@, '/');
            lemma_last_index_of(chars@, '.');
        }
        let after_slash = match last_index(&chars, '/') {
            Some(slash) => slash + 1,
            None => 0,
        };
        match last_index(&chars, '.') {
            Some(dot) => {
                if dot > 0 && dot > after_slash {
                    string_of_range(&chars, after_slash, dot)
                } else {
                    string_of_range(&chars, after_slash, chars.len())
                }
            },
            None => string_of_range(&chars, after_slash, chars.len()),
        }
    }

    /// The path that leads from this path to `inner`, where `inner` lies below
    /// this path.
    pub fn get_path_to(&self, inner: &FileSystemPath) -> (rest: Option<String>)
        ensures
            rest.is_some() == path_to(self@, inner@).is_some(),
            rest.is_some() ==> rest.unwrap()@ == path_to(self@, inner@).unwrap(),
    {
        let base = chars_of(self.path.as_str());
        let target = chars_of(inner.path.as_str());
        if !has_prefix(&target, &base) {
            None
        } else if base.len() == 0 {
            Some(inner.path.clone())
        } else if target.len() > base.len() && target[base.len()] == '/' {
            Some(string_of_range(&target, base.len() + 1, target.len()))
        } else {
            None
        }
    }
}

} // verus!
