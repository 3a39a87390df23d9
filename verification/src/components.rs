//! The components of a system path: the root, `.`, `..` and names, as they
//! stand between separators. Separators are `/`.

use vstd::prelude::*;
use crate::text::{chars_of, string_of, same_chars};

verus! {

/// The view of a [`PathComponent`].
pub enum ComponentView {
    RootDir,
    CurDir,
    ParentDir,
    Normal(Seq<char>),
}

/// One component of a path.
#[derive(Debug, PartialEq, Eq, Hash)]
pub enum PathComponent {
    /// The root, at the start of an absolute path.
    RootDir,
    /// `.` at the start of a relative path.
    CurDir,
    /// `..`.
    ParentDir,
    /// A name.
    Normal(String),
}

impl View for PathComponent {
    type V = ComponentView;

    open spec fn view(&self) -> ComponentView {
        match self {
            PathComponent::RootDir => ComponentView::RootDir,
            PathComponent::CurDir => ComponentView::CurDir,
            PathComponent::ParentDir => ComponentView::ParentDir,
            PathComponent::Normal(name) => ComponentView::Normal(name@),
        }
    }
}

impl Clone for PathComponent {
    fn clone(&self) -> (result: PathComponent)
        ensures
            result@ == self@,
    {
        match self {
            PathComponent::RootDir => PathComponent::RootDir,
            PathComponent::CurDir => PathComponent::CurDir,
            PathComponent::ParentDir => PathComponent::ParentDir,
            PathComponent::Normal(name) => PathComponent::Normal(name.clone()),
        }
    }
}

impl PathComponent {
    /// Whether the two components are the same.
    pub fn same(&self, other: &PathComponent) -> (same: bool)
        ensures
            same == (self@ == other@),
    {
        match self {
            PathComponent::RootDir => match other {
                PathComponent::RootDir => true,
                _ => false,
            },
            PathComponent::CurDir => match other {
                PathComponent::CurDir => true,
                _ => false,
            },
            PathComponent::ParentDir => match other {
                PathComponent::ParentDir => true,
                _ => false,
            },
            PathComponent::Normal(a) => match other {
                PathComponent::Normal(b) => {
                    let same = *a == *b;
                    assert(same == (a@ == b@));
                    same
                },
                _ => false,
            },
        }
    }

    /// The text of the component.
    pub fn as_str(&self) -> (text: &str)
        ensures
            text@ == component_text(self@),
    {
        proof {
            reveal_strlit("/");
            reveal_strlit(".");
            reveal_strlit("..");
        }
        match self {
            PathComponent::RootDir => {
                assert("/"@ =~= seq!['/']);
                "/"
            },
            PathComponent::CurDir => {
                assert("."@ =~= seq!['.']);
                "."
            },
            PathComponent::ParentDir => {
                assert(".."@ =~= seq!['.', '.']);
                ".."
            },
            PathComponent::Normal(name) => name.as_str(),
        }
    }
}

/// What a list of components holds.
pub open spec fn component_views(components: Seq<PathComponent>) -> Seq<ComponentView> {
    Seq::new(components.len(), |i: int| components[i]@)
}

/// A path is absolute where it starts with a separator.
pub open spec fn is_absolute(path: Seq<char>) -> bool {
    path.len() > 0 && path[0] == '/'
}

/// What stands between the separators of `path`, empty pieces included.
pub open spec fn split_segments(path: Seq<char>) -> Seq<Seq<char>>
    decreases path.len(),
{
    if path.len() == 0 {
        seq![Seq::empty()]
    } else {
        let before = split_segments(path.drop_last());
        if path.last() == '/' {
            before.push(Seq::empty())
        } else {
            before.update(before.len() - 1, before.last().push(path.last()))
        }
    }
}

/// The components that the segments of a path stand for. An empty segment is
/// none; `.` is one only as the very first segment.
pub open spec fn segment_components(segments: Seq<Seq<char>>) -> Seq<ComponentView>
    decreases segments.len(),
{
    if segments.len() == 0 {
        Seq::empty()
    } else {
        let before = segment_components(segments.drop_last());
        let segment = segments.last();
        if segment.len() == 0 {
            before
        } else if segment == seq!['.'] {
            if segments.len() == 1 {
                before.push(ComponentView::CurDir)
            } else {
                before
            }
        } else if segment == seq!['.', '.'] {
            before.push(ComponentView::ParentDir)
        } else {
            before.push(ComponentView::Normal(segment))
        }
    }
}

/// The components of `path`.
pub open spec fn components_of(path: Seq<char>) -> Seq<ComponentView> {
    if is_absolute(path) {
        seq![ComponentView::RootDir] + segment_components(split_segments(path))
    } else {
        segment_components(split_segments(path))
    }
}

/// The text of a component.
pub open spec fn component_text(component: ComponentView) -> Seq<char> {
    match component {
        ComponentView::RootDir => seq!['/'],
        ComponentView::CurDir => seq!['.'],
        ComponentView::ParentDir => seq!['.', '.'],
        ComponentView::Normal(name) => name,
    }
}

/// `path` below `base`: an absolute `path` stands for itself; otherwise it
/// follows `base`, after a separator where `base` does not end with one.
pub open spec fn path_join(base: Seq<char>, path: Seq<char>) -> Seq<char> {
    if is_absolute(path) {
        path
    } else if base.len() == 0 || base.last() == '/' {
        base + path
    } else {
        base + seq!['/'] + path
    }
}

/// The path made of `components`, one joined to the other.
pub open spec fn components_text(components: Seq<ComponentView>) -> Seq<char>
    decreases components.len(),
{
    if components.len() == 0 {
        Seq::empty()
    } else {
        path_join(components_text(components.drop_last()), component_text(components.last()))
    }
}

/// What a list of lists of characters holds.
pub open spec fn char_lists(lists: Seq<Vec<char>>) -> Seq<Seq<char>> {
    Seq::new(lists.len(), |i: int| lists[i]@)
}

/// Splits `path` at its separators.
pub fn split(path: &Vec<char>) -> (segments: Vec<Vec<char>>)
    ensures
        char_lists(segments@) == split_segments(path@),
        segments@.len() > 0,
{
    let mut segments: Vec<Vec<char>> = Vec::new();
    segments.push(Vec::new());
    assert(path@.subrange(0, 0) =~= Seq::<char>::empty());
    assert(char_lists(segments@) =~= seq![Seq::<char>::empty()]);
    let mut i: usize = 0;
    while i < path.len()
        invariant
            i <= path@.len(),
            segments@.len() > 0,
            char_lists(segments@) == split_segments(path@.subrange(0, i as int)),
        decreases path@.len() - i,
    {
        let ghost before = char_lists(segments@);
        let c = path[i];
        proof {
            let upto = path@.subrange(0, i + 1);
            assert(upto.drop_last() =~= path@.subrange(0, i as int));
            assert(upto.last() == c);
        }
        if c == '/' {
            segments.push(Vec::new());
            assert(char_lists(segments@) =~= before.push(Seq::empty()));
        } else {
            let last = segments.len() - 1;
            segments[last].push(c);
            assert(char_lists(segments@) =~= before.update(
                before.len() - 1,
                before.last().push(c),
            ));
        }
        i += 1;
    }
    assert(path@.subrange(0, i as int) =~= path@);
    segments
}

/// The components of the path with the text `path`.
pub fn parse_components(path: &str) -> (components: Vec<PathComponent>)
    ensures
        component_views(components@) == components_of(path@),
{
    let chars = chars_of(path);
    let segments = split(&chars);
    let mut components: Vec<PathComponent> = Vec::new();
    let absolute = chars.len() > 0 && chars[0] == '/';
    if absolute {
        components.push(PathComponent::RootDir);
    }
    let ghost lead = component_views(components@);
    assert(lead =~= if absolute {
        seq![ComponentView::RootDir]
    } else {
        Seq::empty()
    });
    let mut dot: Vec<char> = Vec::new();
    dot.push('.');
    let mut dots: Vec<char> = Vec::new();
    dots.push('.');
    dots.push('.');
    assert(dot@ =~= seq!['.']);
    assert(dots@ =~= seq!['.', '.']);
    let mut k: usize = 0;
    assert(char_lists(segments@).subrange(0, 0) =~= Seq::<Seq<char>>::empty());
    assert(component_views(components@) =~= lead + Seq::<ComponentView>::empty());
    while k < segments.len()
        invariant
            k <= segments@.len(),
            dot@ == seq!['.'],
            dots@ == seq!['.', '.'],
            component_views(components@) == lead + segment_components(
                char_lists(segments@).subrange(0, k as int),
            ),
        decreases segments@.len() - k,
    {
        let ghost before = component_views(components@);
        let ghost parsed = segment_components(char_lists(segments@).subrange(0, k as int));
        let segment = &segments[k];
        proof {
            let upto = char_lists(segments@).subrange(0, k + 1);
            assert(upto.drop_last() =~= char_lists(segments@).subrange(0, k as int));
            assert(upto.last() == segment@);
        }
        if segment.len() == 0 {
        } else if same_chars(segment, &dot) {
            if k == 0 {
                components.push(PathComponent::CurDir);
                assert(component_views(components@) =~= lead + parsed.push(ComponentView::CurDir));
            }
        } else if same_chars(segment, &dots) {
            components.push(PathComponent::ParentDir);
            assert(component_views(components@) =~= before.push(ComponentView::ParentDir));
            assert(component_views(components@) =~= lead + parsed.push(ComponentView::ParentDir));
        } else {
            let name = string_of(segment);
            components.push(PathComponent::Normal(name));
            assert(component_views(components@) =~= before.push(ComponentView::Normal(segment@)));
            assert(component_views(components@) =~= lead + parsed.push(
                ComponentView::Normal(segment@),
            ));
        }
        k += 1;
    }
    assert(char_lists(segments@).subrange(0, k as int) =~= char_lists(segments@));
    components
}

/// Whether the path with the text `path` is absolute.
pub fn text_is_absolute(path: &str) -> (absolute: bool)
    ensures
        absolute == is_absolute(path@),
{
    path.unicode_len() > 0 && path.get_char(0) == '/'
}

/// The text of `path` below `base`.
pub fn join_text(base: &str, path: &str) -> (joined: String)
    ensures
        joined@ == path_join(base@, path@),
{
    if text_is_absolute(path) {
        return String::from_str(path);
    }
    let mut joined = String::from_str(base);
    let len = base.unicode_len();
    if len > 0 && base.get_char(len - 1) != '/' {
        joined.push('/');
    }
    joined.append(path);
    joined
}

/// The text of the path made of `components`.
pub fn text_of_components(components: &Vec<PathComponent>) -> (text: String)
    ensures
        text@ == components_text(component_views(components@)),
{
    let mut text = String::new();
    let mut i: usize = 0;
    assert(component_views(components@).subrange(0, 0) =~= Seq::<ComponentView>::empty());
    while i < components.len()
        invariant
            i <= components@.len(),
            text@ == components_text(component_views(components@).subrange(0, i as int)),
        decreases components@.len() - i,
    {
        proof {
            let upto = component_views(components@).subrange(0, i + 1);
            assert(upto.drop_last() =~= component_views(components@).subrange(0, i as int));
            assert(upto.last() == components@[i as int]@);
        }
        text = join_text(text.as_str(), components[i].as_str());
        i += 1;
    }
    assert(component_views(components@).subrange(0, i as int) =~= component_views(components@));
    text
}

} // verus!
