//! Paths that are meant relative to some anchor, most often the root of a
//! repository.

use vstd::prelude::*;
use std::path::PathBuf;
use crate::absolute_system_path::AbsoluteSystemPath;
use crate::components::{ComponentView, PathComponent, component_views, components_of,
    components_text, is_absolute, join_text, parse_components, path_join, text_of_components};
use crate::path_error::{PathError, PathErrorView};
use crate::relative_unix_path::RelativeUnixPath;
use crate::std_path::{clean_path, cleaned_path, path_buf_from, path_buf_is_absolute,
    path_buf_text, path_buf_to_str, path_buf_to_string_lossy};
use crate::text::{chars_of, ends_with, has_prefix, has_suffix, has_within, occurs_in,
    same_chars, starts_with, string_of_range};

verus! {

/// The path that leads from `root` to `path`, where the components of `path`
/// start with those of `root`.
pub open spec fn anchored_between(root: Seq<char>, path: Seq<char>) -> Option<Seq<char>> {
    let above = components_of(root);
    let all = components_of(path);
    if above.len() <= all.len() && all.subrange(0, above.len() as int) == above {
        Some(components_text(all.subrange(above.len() as int, all.len() as int)))
    } else {
        None
    }
}

/// The number of components with which both `a` and `b` start.
pub open spec fn common_prefix_len(a: Seq<ComponentView>, b: Seq<ComponentView>) -> nat
    decreases a.len(),
{
    if a.len() == 0 || b.len() == 0 || a[0] != b[0] {
        0
    } else {
        1 + common_prefix_len(a.drop_first(), b.drop_first())
    }
}

/// `components` without the root at their start.
pub open spec fn without_root(components: Seq<ComponentView>) -> Seq<ComponentView> {
    if components.len() > 0 && components[0] == ComponentView::RootDir {
        components.drop_first()
    } else {
        components
    }
}

/// The components of the way from `start` to `end`: a `..` for each component
/// of `start` that `end` does not share, then the components of `end` that
/// `start` does not share.
pub open spec fn relative_components(
    start: Seq<ComponentView>,
    end: Seq<ComponentView>,
) -> Seq<ComponentView> {
    let these = without_root(start);
    let others = without_root(end);
    let shared = common_prefix_len(these, others);
    Seq::new((these.len() - shared) as nat, |i: int| ComponentView::ParentDir) + others.subrange(
        shared as int,
        others.len() as int,
    )
}

/// The text of the way from the path `start` to the path `end`, before it is
/// cleaned.
pub open spec fn relative_text(start: Seq<char>, end: Seq<char>) -> Seq<char> {
    components_text(relative_components(components_of(start), components_of(end)))
}

/// The first component of `path` is `..`.
pub open spec fn leads_up(path: Seq<char>) -> bool {
    components_of(path).len() > 0 && components_of(path)[0] == ComponentView::ParentDir
}

/// `name` is the text of an anchored path: not empty, not `.` or `..`, not
/// starting with `/`, `./` or `../`, not ending with `/.` or `/..`, and
/// without `//`, `/./` and `/../`.
pub open spec fn well_formed(name: Seq<char>) -> bool {
    &&& name.len() > 0
    &&& name != "."@
    &&& name != ".."@
    &&& !starts_with(name, "/"@)
    &&& !starts_with(name, "./"@)
    &&& !starts_with(name, "../"@)
    &&& !ends_with(name, "/."@)
    &&& !ends_with(name, "/.."@)
    &&& !occurs_in(name, "//"@)
    &&& !occurs_in(name, "/./"@)
    &&& !occurs_in(name, "/../"@)
}

/// `name` can be the text of a path on Windows too: not empty and without `\`.
pub open spec fn windows_safe(name: Seq<char>) -> bool {
    name.len() > 0 && !name.contains('\\')
}

/// `path` without one `/` at its end.
pub open spec fn without_trailing_slash(path: Seq<char>) -> Seq<char> {
    if path.len() > 0 && path.last() == '/' {
        path.drop_last()
    } else {
        path
    }
}

/// What `check_path` found of a name.
#[derive(Clone, Copy, Debug, PartialEq, Eq)]
pub struct PathValidation {
    pub well_formed: bool,
    pub windows_safe: bool,
}

/// Tells whether `name` can be the text of an anchored path, and whether it
/// can be one on Windows.
pub fn check_path(name: &str) -> (validation: PathValidation)
    ensures
        validation.well_formed == well_formed(name@),
        validation.windows_safe == windows_safe(name@),
{
    let chars = chars_of(name);
    if chars.len() == 0 {
        return PathValidation { well_formed: false, windows_safe: false };
    }
    let starts = has_prefix(&chars, &chars_of("/")) || has_prefix(&chars, &chars_of("./"))
        || has_prefix(&chars, &chars_of("../"));
    let ends = has_suffix(&chars, &chars_of("/.")) || has_suffix(&chars, &chars_of("/.."));
    let holds = has_within(&chars, &chars_of("//")) || has_within(&chars, &chars_of("/./"))
        || has_within(&chars, &chars_of("/../"));
    let dots = same_chars(&chars, &chars_of(".")) || same_chars(&chars, &chars_of(".."));
    let mut safe = true;
    let mut i: usize = 0;
    while i < chars.len()
        invariant
            i <= chars@.len(),
            safe == (forall|j: int| 0 <= j < i ==> chars@[j] != '\\'),
        decreases chars@.len() - i,
    {
        if chars[i] == '\\' {
            safe = false;
        }
        i += 1;
    }
    PathValidation { well_formed: !(dots || starts || ends || holds), windows_safe: safe }
}

/// The common prefix of `a` and `b` ends where one of them ends or where they
/// differ.
proof fn lemma_common_prefix_step(a: Seq<ComponentView>, b: Seq<ComponentView>, i: int)
    requires
        0 <= i <= a.len(),
        i <= b.len(),
        forall|j: int| 0 <= j < i ==> a[j] == b[j],
    ensures
        common_prefix_len(a, b) == i + common_prefix_len(
            a.subrange(i, a.len() as int),
            b.subrange(i, b.len() as int),
        ),
    decreases i,
{
    if i == 0 {
        assert(a.subrange(0, a.len() as int) =~= a);
        assert(b.subrange(0, b.len() as int) =~= b);
    } else {
        assert(a[0] == b[0]);
        let a1 = a.drop_first();
        let b1 = b.drop_first();
        assert forall|j: int| 0 <= j < i - 1 implies a1[j] == b1[j] by {
            assert(a[j + 1] == b[j + 1]);
        }
        lemma_common_prefix_step(a1, b1, i - 1);
        assert(a1.subrange(i - 1, a1.len() as int) =~= a.subrange(i, a.len() as int));
        assert(b1.subrange(i - 1, b1.len() as int) =~= b.subrange(i, b.len() as int));
    }
}

/// A path that is meant relative to an anchor. Its text is not checked
/// unless the function that makes it says so.
#[derive(Debug, PartialEq, Eq, PartialOrd, Ord, Hash, Default)]
pub struct AnchoredSystemPathBuf {
    path: String,
}

impl View for AnchoredSystemPathBuf {
    type V = Seq<char>;

    closed spec fn view(&self) -> Seq<char> {
        self.path@
    }
}

impl Clone for AnchoredSystemPathBuf {
    fn clone(&self) -> (result: AnchoredSystemPathBuf)
        ensures
            result@ == self@,
    {
        AnchoredSystemPathBuf { path: self.path.clone() }
    }
}

impl AnchoredSystemPathBuf {
    /// The path with the text `path`, which must not be absolute.
    pub fn try_from(path: &str) -> (result: Result<AnchoredSystemPathBuf, PathError>)
        ensures
            match result {
                Ok(anchored) => !is_absolute(path@) && anchored@ == path@,
                Err(error) => is_absolute(path@) && error@ == PathErrorView::NotRelative(path@),
            },
    {
        if crate::components::text_is_absolute(path) {
            return Err(PathError::NotRelative(String::from_str(path)));
        }
        Ok(AnchoredSystemPathBuf { path: String::from_str(path) })
    }

    /// The path that `path` holds, which must be relative and valid Unicode.
    pub fn from_path_buf(path: &PathBuf) -> (result: Result<AnchoredSystemPathBuf, PathError>)
        ensures
            match path_buf_text(*path) {
                Some(text) => match result {
                    Ok(anchored) => !is_absolute(text) && anchored@ == text,
                    Err(error) => is_absolute(text) && error@ == PathErrorView::NotRelative(text),
                },
                None => result.is_err() && (result.unwrap_err() is NotRelative
                    || result.unwrap_err() is InvalidUnicode),
            },
    {
        if path_buf_is_absolute(path) {
            return Err(PathError::NotRelative(path_buf_to_string_lossy(path)));
        }
        match path_buf_to_str(path) {
            Some(text) => Ok(AnchoredSystemPathBuf { path: text }),
            None => Err(PathError::InvalidUnicode(path_buf_to_string_lossy(path))),
        }
    }

    /// The path that leads from `root` to `path`, which must lie below it.
    pub fn new(root: &AbsoluteSystemPath, path: &AbsoluteSystemPath) -> (result: Result<
        AnchoredSystemPathBuf,
        PathError,
    >)
        ensures
            match anchored_between(root@, path@) {
                Some(text) => result.is_ok() && result.unwrap()@ == text,
                None => result.is_err() && result.unwrap_err()@ == PathErrorView::NotParent(
                    root@,
                    path@,
                ),
            },
    {
        let above = root.components();
        let all = path.components();
        let ghost above_views = component_views(above@);
        let ghost all_views = component_views(all@);
        if above.len() > all.len() {
            return Err(PathError::NotParent(root.to_string(), path.to_string()));
        }
        let mut i: usize = 0;
        while i < above.len()
            invariant
                i <= above@.len() <= all@.len(),
                above_views == component_views(above@),
                all_views == component_views(all@),
                above_views == components_of(root@),
                all_views == components_of(path@),
                forall|j: int| 0 <= j < i ==> above_views[j] == all_views[j],
            decreases above@.len() - i,
        {
            if !above[i].same(&all[i]) {
                assert(all_views.subrange(0, above_views.len() as int)[i as int]
                    != above_views[i as int]);
                return Err(PathError::NotParent(root.to_string(), path.to_string()));
            }
            i += 1;
        }
        assert(all_views.subrange(0, above_views.len() as int) =~= above_views);
        let mut rest: Vec<PathComponent> = Vec::new();
        let mut k: usize = above.len();
        while k < all.len()
            invariant
                above@.len() <= k <= all@.len(),
                all_views == component_views(all@),
                component_views(rest@) == all_views.subrange(above@.len() as int, k as int),
            decreases all@.len() - k,
        {
            let ghost before = component_views(rest@);
            rest.push(all[k].clone());
            assert(component_views(rest@) =~= before.push(all@[k as int]@));
            assert(component_views(rest@) =~= all_views.subrange(above@.len() as int, k + 1));
            k += 1;
        }
        Ok(AnchoredSystemPathBuf { path: text_of_components(&rest) })
    }

    /// Takes the last component off the path. Returns false, and changes
    /// nothing, where the path has no component or ends in the root.
    pub fn pop(&mut self) -> (popped: bool)
        ensures
            popped == (components_of(old(self)@).len() > 0 && components_of(
                old(self)@,
            ).last() != ComponentView::RootDir),
            final(self)@ == if popped {
                components_text(components_of(old(self)@).drop_last())
            } else {
                old(self)@
            },
    {
        let mut components = parse_components(self.path.as_str());
        let ghost all = component_views(components@);
        if components.len() == 0 {
            return false;
        }
        let last = components.len() - 1;
        assert(all[last as int] == components@[last as int]@);
        match &components[last] {
            PathComponent::RootDir => {
                return false;
            },
            _ => {},
        }
        components.pop();
        assert(component_views(components@) =~= all.drop_last());
        self.path = text_of_components(&components);
        true
    }

    /// The cleaned way from `start` to `end`: up from `start` to where the two
    /// part, then down to `end`.
    pub fn relative_path_between(start: &AbsoluteSystemPath, end: &AbsoluteSystemPath) -> (result:
        AnchoredSystemPathBuf)
        ensures
            result@ == cleaned_path(relative_text(start@, end@)),
    {
        let these = start.components();
        let others = end.components();
        let ghost these_views = without_root(component_views(these@));
        let ghost other_views = without_root(component_views(others@));
        assert(these_views =~= component_views(these@).subrange(1, these@.len() as int));
        assert(other_views =~= component_views(others@).subrange(1, others@.len() as int));
        // Both lists start with the root, which takes no part.
        let mut next: usize = 1;
        while next < these.len() && next < others.len() && these[next].same(&others[next])
            invariant
                1 <= next <= these@.len(),
                next <= others@.len(),
                these_views == component_views(these@).subrange(1, these@.len() as int),
                other_views == component_views(others@).subrange(1, others@.len() as int),
                forall|j: int| 0 <= j < next - 1 ==> these_views[j] == other_views[j],
            decreases these@.len() - next,
        {
            assert(these_views[next - 1] == these@[next as int]@);
            assert(other_views[next - 1] == others@[next as int]@);
            next += 1;
        }
        let shared = next - 1;
        proof {
            lemma_common_prefix_step(these_views, other_views, shared as int);
            let a = these_views.subrange(shared as int, these_views.len() as int);
            let b = other_views.subrange(shared as int, other_views.len() as int);
            if a.len() > 0 && b.len() > 0 {
                assert(a[0] == these@[shared + 1]@);
                assert(b[0] == others@[shared + 1]@);
            }
            assert(common_prefix_len(a, b) == 0);
        }
        let mut way: Vec<PathComponent> = Vec::new();
        let climb = these.len() - 1 - shared;
        let mut i: usize = 0;
        assert(component_views(way@) =~= Seq::new(0, |i: int| ComponentView::ParentDir));
        while i < climb
            invariant
                i <= climb,
                component_views(way@) == Seq::new(i as nat, |i: int| ComponentView::ParentDir),
            decreases climb - i,
        {
            let ghost before = component_views(way@);
            way.push(PathComponent::ParentDir);
            assert(component_views(way@) =~= before.push(ComponentView::ParentDir));
            assert(component_views(way@) =~= Seq::new(
                (i + 1) as nat,
                |i: int| ComponentView::ParentDir,
            ));
            i += 1;
        }
        let ghost up = component_views(way@);
        let mut k: usize = shared + 1;
        assert(component_views(way@) =~= up + other_views.subrange(shared as int, shared as int));
        while k < others.len()
            invariant
                shared + 1 <= k <= others@.len(),
                other_views == component_views(others@).subrange(1, others@.len() as int),
                component_views(way@) == up + other_views.subrange(shared as int, k - 1),
            decreases others@.len() - k,
        {
            let ghost before = component_views(way@);
            way.push(others[k].clone());
            assert(component_views(way@) =~= before.push(others@[k as int]@));
            assert(component_views(way@) =~= up + other_views.subrange(shared as int, k as int));
            k += 1;
        }
        assert(component_views(way@) =~= relative_components(
            components_of(start@),
            components_of(end@),
        ));
        let raw = text_of_components(&way);
        AnchoredSystemPathBuf { path: clean_path(raw.as_str()) }
    }

    /// The path with the text `raw`, which is not checked.
    pub fn from_raw(raw: &str) -> (result: Result<AnchoredSystemPathBuf, PathError>)
        ensures
            result.is_ok(),
            result.unwrap()@ == raw@,
    {
        Ok(AnchoredSystemPathBuf { path: String::from_str(raw) })
    }

    /// The text of the path.
    pub fn as_str(&self) -> (text: &str)
        ensures
            text@ == self@,
    {
        self.path.as_str()
    }

    /// The anchored path that `path` holds: its text must be valid Unicode and
    /// well formed, and is taken without a `/` at its end.
    pub fn from_system_path(path: &PathBuf) -> (result: Result<AnchoredSystemPathBuf, PathError>)
        ensures
            match path_buf_text(*path) {
                Some(text) => match result {
                    Ok(anchored) => well_formed(text) && anchored@ == without_trailing_slash(text),
                    Err(error) => !well_formed(text) && error@ == PathErrorView::MalformedPath(
                        text,
                    ),
                },
                None => result.is_err() && result.unwrap_err() is InvalidUnicode,
            },
    {
        match path_buf_to_str(path) {
            None => Err(PathError::InvalidUnicode(path_buf_to_string_lossy(path))),
            Some(text) => AnchoredSystemPathBuf::from_system_text(text.as_str()),
        }
    }

    /// The anchored path with the text `text`, which must be well formed; a `/`
    /// at its end is left out.
    pub fn from_system_text(text: &str) -> (result: Result<AnchoredSystemPathBuf, PathError>)
        ensures
            match result {
                Ok(anchored) => well_formed(text@) && anchored@ == without_trailing_slash(text@),
                Err(error) => !well_formed(text@) && error@ == PathErrorView::MalformedPath(text@),
            },
    {
        let validation = check_path(text);
        if !validation.well_formed {
            return Err(PathError::MalformedPath(String::from_str(text)));
        }
        let chars = chars_of(text);
        let len = chars.len();
        let end = if len > 0 && chars[len - 1] == '/' {
            len - 1
        } else {
            len
        };
        let path = string_of_range(&chars, 0, end);
        assert(path@ =~= without_trailing_slash(text@));
        Ok(AnchoredSystemPathBuf { path })
    }

    /// This path as a path of the standard library.
    pub fn as_path(&self) -> (path: PathBuf)
        ensures
            path_buf_text(path) == Some(self@),
    {
        path_buf_from(self.path.as_str())
    }

    /// The text of the path. A path of this type always has one.
    pub fn to_str(&self) -> (result: Result<&str, PathError>)
        ensures
            result.is_ok(),
            result.unwrap()@ == self@,
    {
        Ok(self.path.as_str())
    }

    /// This path with `/` between its segments.
    pub fn to_unix(&self) -> (result: Result<RelativeUnixPath, PathError>)
        ensures
            match result {
                Ok(unix) => !is_absolute(self@) && unix@ == self@,
                Err(error) => is_absolute(self@) && error@ == PathErrorView::NotRelative(self@),
            },
    {
        RelativeUnixPath::new(self.path.as_str())
    }

    /// Puts `path` below this path; an absolute `path` takes its place.
    pub fn push(&mut self, path: &str)
        ensures
            final(self)@ == path_join(old(self)@, path@),
    {
        self.path = join_text(self.path.as_str(), path);
    }

    /// Whether the first component of the path is `..`.
    pub fn starts_with_parent_dir(&self) -> (up: bool)
        ensures
            up == leads_up(self@),
    {
        let components = parse_components(self.path.as_str());
        if components.len() == 0 {
            return false;
        }
        assert(component_views(components@)[0] == components@[0]@);
        match &components[0] {
            PathComponent::ParentDir => true,
            _ => false,
        }
    }
}

} // verus!
