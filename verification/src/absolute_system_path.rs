//! Absolute paths of the system this library runs on.

use vstd::prelude::*;
use std::path::PathBuf;
use crate::anchored_system_path_buf::{AnchoredSystemPathBuf, anchored_between, leads_up,
    relative_text};
use crate::components::{ComponentView, PathComponent, component_views, components_of,
    components_text, is_absolute, join_text, parse_components, path_join, text_is_absolute,
    text_of_components};
use crate::path_error::{PathError, PathErrorView};
use crate::relative_unix_path::RelativeUnixPath;
use crate::std_path::{clean_path, cleaned_path, path_buf_from, path_buf_text, path_buf_to_str,
    path_buf_to_string_lossy};

verus! {

/// `components` with `.` left out and each `..` taking the component before it
/// with it.
pub open spec fn collapsed(components: Seq<ComponentView>) -> Seq<ComponentView>
    decreases components.len(),
{
    if components.len() == 0 {
        Seq::empty()
    } else {
        let before = collapsed(components.drop_last());
        match components.last() {
            ComponentView::CurDir => before,
            ComponentView::ParentDir => if before.len() > 0 {
                before.drop_last()
            } else {
                before
            },
            other => before.push(other),
        }
    }
}

/// No `..` of `components` climbs above the root.
pub open spec fn stays_rooted(components: Seq<ComponentView>) -> bool {
    collapsed(components).len() > 0 && collapsed(components)[0] == ComponentView::RootDir
}

/// `segments` with a separator between each two.
pub open spec fn joined_segments(segments: Seq<Seq<char>>) -> Seq<char>
    decreases segments.len(),
{
    if segments.len() == 0 {
        Seq::empty()
    } else if segments.len() == 1 {
        segments[0]
    } else {
        joined_segments(segments.drop_last()) + seq!['/'] + segments.last()
    }
}

/// What a list of string slices holds.
pub open spec fn slice_texts(slices: Seq<&str>) -> Seq<Seq<char>> {
    Seq::new(slices.len(), |i: int| slices[i]@)
}

/// The components of the directory that holds a path with the components
/// `components`; none where the path ends in the root or has no component.
pub open spec fn parent_components(components: Seq<ComponentView>) -> Option<Seq<ComponentView>> {
    if components.len() == 0 || components.last() == ComponentView::RootDir {
        None
    } else {
        Some(components.drop_last())
    }
}

/// A path made of components of which the first is the root is absolute.
pub proof fn lemma_rooted_text_is_absolute(components: Seq<ComponentView>)
    requires
        components.len() > 0,
        components[0] == ComponentView::RootDir,
    ensures
        is_absolute(components_text(components)),
    decreases components.len(),
{
    if components.len() == 1 {
        assert(components.drop_last().len() == 0);
        assert(components_text(components.drop_last()) =~= Seq::<char>::empty());
        assert(components.last() == ComponentView::RootDir);
    } else {
        lemma_rooted_text_is_absolute(components.drop_last());
    }
}

/// A path that is known to be absolute.
#[derive(Debug, PartialEq, Eq, Hash)]
pub struct AbsoluteSystemPath {
    path: String,
}

impl View for AbsoluteSystemPath {
    type V = Seq<char>;

    closed spec fn view(&self) -> Seq<char> {
        self.path@
    }
}

impl Clone for AbsoluteSystemPath {
    fn clone(&self) -> (result: AbsoluteSystemPath)
        ensures
            result@ == self@,
    {
        proof {
            use_type_invariant(self);
        }
        AbsoluteSystemPath { path: self.path.clone() }
    }
}

impl AbsoluteSystemPath {
    #[verifier::type_invariant]
    spec fn absolute(&self) -> bool {
        is_absolute(self.path@)
    }

    /// The path with the text `value`, which must be absolute. The text is
    /// taken as it is.
    pub fn new(value: &str) -> (result: Result<AbsoluteSystemPath, PathError>)
        ensures
            match result {
                Ok(path) => is_absolute(value@) && path@ == value@,
                Err(error) => !is_absolute(value@) && error@ == PathErrorView::NotAbsolute(
                    value@,
                ),
            },
    {
        if !text_is_absolute(value) {
            return Err(PathError::NotAbsolute(String::from_str(value)));
        }
        Ok(AbsoluteSystemPath { path: String::from_str(value) })
    }

    /// The path that `path` holds, which must be valid Unicode and absolute.
    pub fn from_std_path(path: &PathBuf) -> (result: Result<AbsoluteSystemPath, PathError>)
        ensures
            match path_buf_text(*path) {
                Some(text) => match result {
                    Ok(absolute) => is_absolute(text) && absolute@ == text,
                    Err(error) => !is_absolute(text) && error@ == PathErrorView::NotAbsolute(text),
                },
                None => result.is_err() && result.unwrap_err() is InvalidUnicode,
            },
    {
        match path_buf_to_str(path) {
            Some(text) => AbsoluteSystemPath::new(text.as_str()),
            None => Err(PathError::InvalidUnicode(path_buf_to_string_lossy(path))),
        }
    }

    /// This path as a path of the standard library.
    pub fn as_path(&self) -> (path: PathBuf)
        ensures
            path_buf_text(path) == Some(self@),
    {
        path_buf_from(self.path.as_str())
    }

    /// The text of the path.
    pub fn as_str(&self) -> (text: &str)
        ensures
            text@ == self@,
            is_absolute(text@),
    {
        proof {
            use_type_invariant(self);
        }
        self.path.as_str()
    }

    /// The text of the path.
    pub fn to_string(&self) -> (text: String)
        ensures
            text@ == self@,
    {
        self.path.clone()
    }

    /// The cleaned path of `segment` below this path.
    pub fn join_component(&self, segment: &str) -> (joined: AbsoluteSystemPath)
        ensures
            joined@ == cleaned_path(path_join(self@, segment@)),
    {
        proof {
            use_type_invariant(self);
        }
        let raw = join_text(self.path.as_str(), segment);
        AbsoluteSystemPath { path: clean_path(raw.as_str()) }
    }

    /// The cleaned path of `segments`, one below the other, below this path.
    pub fn join_components(&self, segments: &[&str]) -> (joined: AbsoluteSystemPath)
        ensures
            joined@ == cleaned_path(
                path_join(self@, joined_segments(slice_texts(segments@))),
            ),
    {
        proof {
            use_type_invariant(self);
        }
        let mut tail = String::new();
        let mut i: usize = 0;
        assert(slice_texts(segments@).subrange(0, 0) =~= Seq::<Seq<char>>::empty());
        while i < segments.len()
            invariant
                i <= segments@.len(),
                tail@ == joined_segments(slice_texts(segments@).subrange(0, i as int)),
            decreases segments@.len() - i,
        {
            proof {
                let upto = slice_texts(segments@).subrange(0, i + 1);
                assert(upto.drop_last() =~= slice_texts(segments@).subrange(0, i as int));
                assert(upto.last() == segments@[i as int]@);
                if i == 0 {
                    assert(tail@ + segments@[0]@ =~= upto[0]);
                }
            }
            if i > 0 {
                tail.push('/');
            }
            tail.append(segments[i]);
            i += 1;
        }
        assert(slice_texts(segments@).subrange(0, i as int) =~= slice_texts(segments@));
        let raw = join_text(self.path.as_str(), tail.as_str());
        AbsoluteSystemPath { path: clean_path(raw.as_str()) }
    }

    /// The cleaned path of `unix_path` below this path.
    pub fn join_unix_path(&self, unix_path: &RelativeUnixPath) -> (result: Result<
        AbsoluteSystemPath,
        PathError,
    >)
        ensures
            result.is_ok(),
            result.unwrap()@ == cleaned_path(path_join(self@, unix_path@)),
    {
        proof {
            use_type_invariant(self);
        }
        let raw = join_text(self.path.as_str(), unix_path.as_str());
        Ok(AbsoluteSystemPath { path: clean_path(raw.as_str()) })
    }

    /// The path that leads from this path to `path`, which must lie below it.
    pub fn anchor(&self, path: &AbsoluteSystemPath) -> (result: Result<
        AnchoredSystemPathBuf,
        PathError,
    >)
        ensures
            match anchored_between(self@, path@) {
                Some(text) => result.is_ok() && result.unwrap()@ == text,
                None => result.is_err() && result.unwrap_err()@ == PathErrorView::NotParent(
                    self@,
                    path@,
                ),
            },
    {
        AnchoredSystemPathBuf::new(self, path)
    }

    /// The path of `path` below this path.
    pub fn resolve(&self, path: &AnchoredSystemPathBuf) -> (resolved: AbsoluteSystemPath)
        ensures
            resolved@ == path_join(self@, path@),
    {
        proof {
            use_type_invariant(self);
        }
        AbsoluteSystemPath { path: join_text(self.path.as_str(), path.as_str()) }
    }

    /// The components of the path. The first is the root.
    pub fn components(&self) -> (components: Vec<PathComponent>)
        ensures
            component_views(components@) == components_of(self@),
            components@.len() > 0,
            components@[0]@ == ComponentView::RootDir,
    {
        proof {
            use_type_invariant(self);
        }
        let components = parse_components(self.path.as_str());
        assert(component_views(components@)[0] == ComponentView::RootDir);
        components
    }

    /// The path without `.` and `..`: each `..` takes the component before it
    /// with it. The path must not climb above the root.
    pub fn collapse(&self) -> (result: AbsoluteSystemPath)
        requires
            stays_rooted(components_of(self@)),
        ensures
            result@ == components_text(collapsed(components_of(self@))),
    {
        let components = self.components();
        let mut stack: Vec<PathComponent> = Vec::new();
        let mut i: usize = 0;
        assert(component_views(components@).subrange(0, 0) =~= Seq::<ComponentView>::empty());
        assert(component_views(stack@) =~= Seq::<ComponentView>::empty());
        while i < components.len()
            invariant
                i <= components@.len(),
                component_views(stack@) == collapsed(
                    component_views(components@).subrange(0, i as int),
                ),
            decreases components@.len() - i,
        {
            let ghost before = component_views(stack@);
            proof {
                let upto = component_views(components@).subrange(0, i + 1);
                assert(upto.drop_last() =~= component_views(components@).subrange(0, i as int));
                assert(upto.last() == components@[i as int]@);
            }
            match &components[i] {
                PathComponent::CurDir => {},
                PathComponent::ParentDir => {
                    if stack.len() > 0 {
                        stack.pop();
                        assert(component_views(stack@) =~= before.drop_last());
                    }
                },
                other => {
                    stack.push(other.clone());
                    assert(component_views(stack@) =~= before.push(components@[i as int]@));
                },
            }
            i += 1;
        }
        assert(component_views(components@).subrange(0, i as int) =~= component_views(
            components@,
        ));
        proof {
            lemma_rooted_text_is_absolute(component_views(stack@));
        }
        AbsoluteSystemPath { path: text_of_components(&stack) }
    }

    /// Whether `other` lies at or below this path: whether the way from this
    /// path to `other`, both collapsed, does not start with `..`. Neither path
    /// may climb above the root.
    pub fn contains(&self, other: &AbsoluteSystemPath) -> (inside: bool)
        requires
            stays_rooted(components_of(self@)),
            stays_rooted(components_of(other@)),
        ensures
            inside == !leads_up(
                cleaned_path(
                    relative_text(
                        components_text(collapsed(components_of(self@))),
                        components_text(collapsed(components_of(other@))),
                    ),
                ),
            ),
    {
        let this = self.collapse();
        let that = other.collapse();
        let relative = AnchoredSystemPathBuf::relative_path_between(&this, &that);
        !relative.starts_with_parent_dir()
    }

    /// The directory that holds this path; none for the root.
    pub fn parent(&self) -> (parent: Option<AbsoluteSystemPath>)
        ensures
            match parent_components(components_of(self@)) {
                Some(components) => parent.is_some() && parent.unwrap()@ == components_text(
                    components,
                ),
                None => parent.is_none(),
            },
    {
        let mut components = self.components();
        if components.len() == 1 {
            return None;
        }
        let ghost all = component_views(components@);
        assert(all[all.len() - 1] != ComponentView::RootDir) by {
            lemma_root_only_first(self@, all.len() - 1);
        }
        components.pop();
        assert(component_views(components@) =~= all.drop_last());
        proof {
            lemma_rooted_text_is_absolute(component_views(components@));
        }
        Some(AbsoluteSystemPath { path: text_of_components(&components) })
    }
}

/// Only the first component of a path can be the root.
pub proof fn lemma_root_only_first(path: Seq<char>, i: int)
    requires
        0 < i < components_of(path).len(),
    ensures
        components_of(path)[i] != ComponentView::RootDir,
{
    let segments = crate::components::split_segments(path);
    lemma_segments_hold_no_root(segments);
    if is_absolute(path) {
        assert(components_of(path)[i] == crate::components::segment_components(segments)[i - 1]);
    }
}

proof fn lemma_segments_hold_no_root(segments: Seq<Seq<char>>)
    ensures
        forall|i: int|
            0 <= i < crate::components::segment_components(segments).len()
                ==> #[trigger] crate::components::segment_components(segments)[i]
                != ComponentView::RootDir,
    decreases segments.len(),
{
    if segments.len() > 0 {
        lemma_segments_hold_no_root(segments.drop_last());
    }
}

} // verus!
