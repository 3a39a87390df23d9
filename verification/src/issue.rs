//! Where in a source an issue lies, and along which way of processing it was
//! found.

use vstd::prelude::*;
use crate::ident::{AssetIdent, ident_text};

verus! {

/// A place in a source: a line and a column, both counted from zero.
#[derive(Clone, Copy, Debug, PartialEq, Eq, Structural, Hash, PartialOrd, Ord)]
pub struct SourcePos {
    pub line: usize,
    pub column: usize,
}

impl Default for SourcePos {
    fn default() -> (pos: SourcePos)
        ensures
            pos == (SourcePos { line: 0, column: 0 }),
    {
        SourcePos { line: 0, column: 0 }
    }
}

impl SourcePos {
    /// The place after every other.
    pub fn max() -> (pos: SourcePos)
        ensures
            pos == (SourcePos { line: usize::MAX, column: usize::MAX }),
    {
        SourcePos { line: usize::MAX, column: usize::MAX }
    }
}

/// A line of a source, with the number of bytes that stand before it.
#[derive(Debug, PartialEq, Eq)]
pub struct FileLine {
    pub content: String,
    pub bytes_offset: usize,
}

/// Each line starts after the line before it.
pub open spec fn lines_ascend(lines: Seq<FileLine>) -> bool {
    forall|i: int, j: int|
        0 <= i < j < lines.len() ==> (#[trigger] lines[i]).bytes_offset < (
        #[trigger] lines[j]).bytes_offset
}

/// The number of lines that start before `offset`, among the first `upto`.
pub open spec fn lines_before(lines: Seq<FileLine>, offset: usize, upto: int) -> int
    decreases upto,
{
    if upto <= 0 {
        0
    } else if lines[upto - 1].bytes_offset < offset {
        lines_before(lines, offset, upto - 1) + 1
    } else {
        lines_before(lines, offset, upto - 1)
    }
}

/// The place of the byte at `offset`. A byte at which a line starts lies in
/// that line at column zero; any other in the last line that starts before it,
/// as far in as it lies behind that start; and a byte before every line in line
/// zero at its own offset.
pub open spec fn place_of(lines: Seq<FileLine>, offset: usize) -> SourcePos {
    let before = lines_before(lines, offset, lines.len() as int);
    if before < lines.len() && lines[before].bytes_offset == offset {
        SourcePos { line: before as usize, column: 0 }
    } else if before == 0 {
        SourcePos { line: 0, column: offset }
    } else {
        SourcePos {
            line: (before - 1) as usize,
            column: (offset - lines[before - 1].bytes_offset) as usize,
        }
    }
}

/// Among ascending lines those that start before `offset` are the first ones.
proof fn lemma_lines_before(lines: Seq<FileLine>, offset: usize, upto: int)
    requires
        lines_ascend(lines),
        0 <= upto <= lines.len(),
    ensures
        0 <= lines_before(lines, offset, upto) <= upto,
        forall|i: int|
            0 <= i < lines_before(lines, offset, upto) ==> (#[trigger] lines[i]).bytes_offset
                < offset,
        forall|i: int|
            lines_before(lines, offset, upto) <= i < upto ==> (#[trigger] lines[i]).bytes_offset
                >= offset,
    decreases upto,
{
    if upto > 0 {
        lemma_lines_before(lines, offset, upto - 1);
        let before = lines_before(lines, offset, upto - 1);
        if lines[upto - 1].bytes_offset < offset {
            if before < upto - 1 {
                assert(lines[before].bytes_offset >= offset);
                assert(lines[before].bytes_offset < lines[upto - 1].bytes_offset);
            }
            assert(before == upto - 1);
        }
    }
}

/// The place of the byte at `offset` in a source with the lines `lines`.
pub fn find_line_and_column(lines: &Vec<FileLine>, offset: usize) -> (pos: SourcePos)
    requires
        lines_ascend(lines@),
    ensures
        pos == place_of(lines@, offset),
{
    let mut low: usize = 0;
    let mut high: usize = lines.len();
    proof {
        lemma_lines_before(lines@, offset, lines@.len() as int);
    }
    while low < high
        invariant
            low <= high <= lines@.len(),
            forall|i: int| 0 <= i < low ==> (#[trigger] lines@[i]).bytes_offset < offset,
            forall|i: int| high <= i < lines@.len() ==> (#[trigger] lines@[i]).bytes_offset >= offset,
            lines_ascend(lines@),
        decreases high - low,
    {
        let mid = low + (high - low) / 2;
        if lines[mid].bytes_offset < offset {
            assert forall|i: int| 0 <= i < mid + 1 implies (#[trigger] lines@[i]).bytes_offset
                < offset by {
                if i < mid {
                    assert(lines@[i].bytes_offset < lines@[mid as int].bytes_offset);
                }
            }
            low = mid + 1;
        } else {
            assert forall|i: int| mid <= i < lines@.len() implies (
            #[trigger] lines@[i]).bytes_offset >= offset by {
                if mid < i {
                    assert(lines@[mid as int].bytes_offset < lines@[i].bytes_offset);
                }
            }
            high = mid;
        }
    }
    proof {
        let before = lines_before(lines@, offset, lines@.len() as int);
        if before < low {
            assert(lines@[before].bytes_offset < offset);
        }
        if low < before {
            assert(lines@[low as int].bytes_offset < offset);
        }
        assert(before == low);
    }
    if low < lines.len() && lines[low].bytes_offset == offset {
        SourcePos { line: low, column: 0 }
    } else if low == 0 {
        SourcePos { line: 0, column: offset }
    } else {
        assert(lines@[low - 1].bytes_offset < offset);
        SourcePos { line: low - 1, column: offset - lines[low - 1].bytes_offset }
    }
}

/// The part of an asset that an issue is about.
#[derive(Clone, Copy, Debug, PartialEq, Eq, Structural, Hash)]
pub struct IssueSource {
    /// The asset, by its name in the graph that holds it.
    pub asset: usize,
    pub start: SourcePos,
    pub end: SourcePos,
}

impl IssueSource {
    /// The part of `asset` from the byte at `start` to the byte at `end`.
    /// Where the asset has no lines, the part is all of it.
    pub fn from_byte_offset(
        asset: usize,
        lines: Option<&Vec<FileLine>>,
        start: usize,
        end: usize,
    ) -> (source: IssueSource)
        requires
            lines.is_some() ==> lines_ascend(lines.unwrap()@),
        ensures
            source.asset == asset,
            source.start == match lines {
                Some(lines) => place_of(lines@, start),
                None => SourcePos { line: 0, column: 0 },
            },
            source.end == match lines {
                Some(lines) => place_of(lines@, end),
                None => SourcePos { line: usize::MAX, column: usize::MAX },
            },
    {
        match lines {
            Some(lines) => IssueSource {
                asset,
                start: find_line_and_column(lines, start),
                end: find_line_and_column(lines, end),
            },
            None => IssueSource { asset, start: SourcePos::default(), end: SourcePos::max() },
        }
    }
}

/// What a file holds. A file that is not there is a content like any other,
/// so that an issue about it can still be shown.
#[derive(Debug, PartialEq, Eq)]
pub enum FileContent {
    Content(Vec<u8>),
    NotFound,
}

/// The view of a [`FileContent`].
pub enum FileContentView {
    Content(Seq<u8>),
    NotFound,
}

impl View for FileContent {
    type V = FileContentView;

    open spec fn view(&self) -> FileContentView {
        match self {
            FileContent::Content(bytes) => FileContentView::Content(bytes@),
            FileContent::NotFound => FileContentView::NotFound,
        }
    }
}

/// What an asset holds: a file, or a pointer to another place.
#[derive(Debug, PartialEq, Eq)]
pub enum AssetContent {
    File(FileContent),
    Redirect { target: String },
}

/// An asset as an issue shows it.
#[derive(Debug, PartialEq, Eq)]
pub struct PlainAsset {
    /// The text of the identity of the asset.
    pub ident: String,
    pub content: FileContent,
}

/// The part of an asset that an issue is about, as an issue shows it.
#[derive(Debug, PartialEq, Eq)]
pub struct PlainIssueSource {
    pub asset: PlainAsset,
    pub start: SourcePos,
    pub end: SourcePos,
}

/// What an issue shows of a content: a file as it is, and of anything else
/// that it is not there.
pub open spec fn shown_content(content: AssetContent) -> FileContentView {
    match content {
        AssetContent::File(file) => file@,
        AssetContent::Redirect { .. } => FileContentView::NotFound,
    }
}

impl PlainAsset {
    /// The asset with the identity `ident` and the content `content`, as an
    /// issue shows it.
    pub fn from_asset(ident: &AssetIdent, content: &AssetContent) -> (asset: PlainAsset)
        ensures
            asset.ident@ == ident_text(ident@),
            asset.content@ == shown_content(*content),
    {
        let shown = match content {
            AssetContent::File(FileContent::Content(bytes)) => {
                let mut copy: Vec<u8> = Vec::new();
                let mut i: usize = 0;
                while i < bytes.len()
                    invariant
                        i <= bytes@.len(),
                        copy@ == bytes@.subrange(0, i as int),
                    decreases bytes@.len() - i,
                {
                    copy.push(bytes[i]);
                    assert(copy@ =~= bytes@.subrange(0, i + 1));
                    i += 1;
                }
                assert(bytes@.subrange(0, i as int) =~= bytes@);
                FileContent::Content(copy)
            },
            AssetContent::File(FileContent::NotFound) => FileContent::NotFound,
            AssetContent::Redirect { .. } => FileContent::NotFound,
        };
        PlainAsset { ident: ident.to_string(), content: shown }
    }
}

impl IssueSource {
    /// This part of the asset with the identity `ident` and the content
    /// `content`, as an issue shows it.
    pub fn into_plain(&self, ident: &AssetIdent, content: &AssetContent) -> (source:
        PlainIssueSource)
        ensures
            source.asset.ident@ == ident_text(ident@),
            source.asset.content@ == shown_content(*content),
            source.start == self.start,
            source.end == self.end,
    {
        PlainIssueSource {
            asset: PlainAsset::from_asset(ident, content),
            start: self.start,
            end: self.end,
        }
    }
}

/// A step on the way along which an issue was found.
#[derive(Debug, PartialEq, Eq)]
pub struct IssueProcessingPathItem {
    /// The file that was worked on, if any.
    pub context: Option<String>,
    /// What was done.
    pub description: String,
}

/// The view of an [`IssueProcessingPathItem`].
pub struct ItemView {
    pub context: Option<Seq<char>>,
    pub description: Seq<char>,
}

impl View for IssueProcessingPathItem {
    type V = ItemView;

    open spec fn view(&self) -> ItemView {
        ItemView {
            context: match self.context {
                Some(context) => Some(context@),
                None => None,
            },
            description: self.description@,
        }
    }
}

impl Clone for IssueProcessingPathItem {
    fn clone(&self) -> (item: IssueProcessingPathItem)
        ensures
            item@ == self@,
    {
        IssueProcessingPathItem {
            context: match &self.context {
                Some(context) => Some(context.clone()),
                None => None,
            },
            description: self.description.clone(),
        }
    }
}

/// The text of a step: its description, after the file in round brackets
/// where there is a file.
pub open spec fn item_text(item: ItemView) -> Seq<char> {
    match item.context {
        Some(context) => context + " ("@ + item.description + ")"@,
        None => item.description,
    }
}

impl IssueProcessingPathItem {
    /// The text of the step.
    pub fn to_string(&self) -> (text: String)
        ensures
            text@ == item_text(self@),
    {
        match &self.context {
            Some(context) => {
                let mut text = context.clone();
                text.append(" (");
                text.append(self.description.as_str());
                text.append(")");
                text
            },
            None => self.description.clone(),
        }
    }
}

/// What a way holds: the views of its steps.
pub open spec fn path_views(path: Seq<IssueProcessingPathItem>) -> Seq<ItemView> {
    Seq::new(path.len(), |i: int| path[i]@)
}

/// What a list of ways holds; a way that does not lead to the issue is none.
pub open spec fn paths_views(paths: Seq<Option<Vec<IssueProcessingPathItem>>>) -> Seq<
    Option<Seq<ItemView>>,
> {
    Seq::new(
        paths.len(),
        |i: int|
            match paths[i] {
                Some(path) => Some(path_views(path@)),
                None => None,
            },
    )
}

/// `a` stands before `b` as in a dictionary, character by character.
pub open spec fn text_less(a: Seq<char>, b: Seq<char>) -> bool
    decreases a.len(),
{
    if b.len() == 0 {
        false
    } else if a.len() == 0 {
        true
    } else if a[0] != b[0] {
        a[0] < b[0]
    } else {
        text_less(a.drop_first(), b.drop_first())
    }
}

/// Of two ways of the same length `a` comes first: at the first step at which
/// their texts differ, the text of `a` stands before that of `b`.
pub open spec fn way_less(a: Seq<ItemView>, b: Seq<ItemView>) -> bool
    decreases a.len(),
{
    if a.len() == 0 || b.len() == 0 {
        false
    } else if item_text(a[0]) != item_text(b[0]) {
        text_less(item_text(a[0]), item_text(b[0]))
    } else {
        way_less(a.drop_first(), b.drop_first())
    }
}

/// The way `new` is to be taken in place of `old`: it is shorter, or as long
/// and first.
pub open spec fn way_better(old: Seq<ItemView>, new: Seq<ItemView>) -> bool {
    new.len() < old.len() || (new.len() == old.len() && way_less(new, old))
}

/// The best of `paths`: the first to which no later one is to be preferred.
pub open spec fn best_way(paths: Seq<Option<Seq<ItemView>>>) -> Option<Seq<ItemView>>
    decreases paths.len(),
{
    if paths.len() == 0 {
        None
    } else {
        match (best_way(paths.drop_last()), paths.last()) {
            (None, new) => new,
            (Some(old), None) => Some(old),
            (Some(old), Some(new)) => if way_better(old, new) {
                Some(new)
            } else {
                Some(old)
            },
        }
    }
}

/// The shortest way to an issue from a step with the ways `paths` below it:
/// the best of `paths`, after the step itself where there is one.
pub open spec fn shortest_way(item: Option<ItemView>, paths: Seq<Option<Seq<ItemView>>>) -> Option<
    Seq<ItemView>,
> {
    match best_way(paths) {
        Some(path) => match item {
            Some(item) => Some(seq![item] + path),
            None => Some(path),
        },
        None => None,
    }
}

/// The best way is one of the ways, and no way is shorter.
pub proof fn lemma_best_way(paths: Seq<Option<Seq<ItemView>>>)
    ensures
        best_way(paths).is_some() ==> paths.contains(best_way(paths)),
        best_way(paths).is_none() ==> forall|i: int|
            0 <= i < paths.len() ==> (#[trigger] paths[i]).is_none(),
        forall|i: int|
            0 <= i < paths.len() && (#[trigger] paths[i]).is_some() ==> best_way(paths).is_some()
                && best_way(paths).unwrap().len() <= paths[i].unwrap().len(),
    decreases paths.len(),
{
    if paths.len() > 0 {
        let rest = paths.drop_last();
        lemma_best_way(rest);
        let last = paths.len() - 1;
        assert(paths[last] == paths.last());
        if best_way(paths).is_some() {
            if best_way(paths) == paths.last() {
                assert(paths.contains(paths[last]));
            } else {
                assert(best_way(paths) == best_way(rest));
                let i = choose|i: int| 0 <= i < rest.len() && rest[i] == best_way(rest);
                assert(paths[i] == rest[i]);
            }
        }
        assert forall|i: int| 0 <= i < paths.len() && (#[trigger] paths[i]).is_some() implies best_way(
            paths,
        ).is_some() && best_way(paths).unwrap().len() <= paths[i].unwrap().len() by {
            if i < last {
                assert(rest[i] == paths[i]);
            }
        }
        if best_way(paths).is_none() {
            assert forall|i: int| 0 <= i < paths.len() implies (#[trigger] paths[i]).is_none() by {
                if i < last {
                    assert(rest[i] == paths[i]);
                }
            }
        }
    }
}

/// Whether `a` stands before `b` as in a dictionary.
fn less_text(a: &Vec<char>, b: &Vec<char>) -> (less: bool)
    ensures
        less == text_less(a@, b@),
{
    let mut i: usize = 0;
    assert(a@.subrange(0, a@.len() as int) =~= a@);
    assert(b@.subrange(0, b@.len() as int) =~= b@);
    while i < a.len() && i < b.len() && a[i] == b[i]
        invariant
            i <= a@.len(),
            i <= b@.len(),
            text_less(a@, b@) == text_less(
                a@.subrange(i as int, a@.len() as int),
                b@.subrange(i as int, b@.len() as int),
            ),
        decreases a@.len() - i,
    {
        proof {
            let x = a@.subrange(i as int, a@.len() as int);
            let y = b@.subrange(i as int, b@.len() as int);
            assert(x[0] == a@[i as int] && y[0] == b@[i as int]);
            assert(x.drop_first() =~= a@.subrange(i + 1, a@.len() as int));
            assert(y.drop_first() =~= b@.subrange(i + 1, b@.len() as int));
        }
        i += 1;
    }
    proof {
        let x = a@.subrange(i as int, a@.len() as int);
        let y = b@.subrange(i as int, b@.len() as int);
        if i < a@.len() && i < b@.len() {
            assert(x[0] == a@[i as int] && y[0] == b@[i as int]);
        }
    }
    if i >= b.len() {
        false
    } else if i >= a.len() {
        true
    } else {
        a[i] < b[i]
    }
}

/// Whether the way `new` is to be taken in place of `old`.
fn better_way(old: &Vec<IssueProcessingPathItem>, new: &Vec<IssueProcessingPathItem>) -> (better:
    bool)
    ensures
        better == way_better(path_views(old@), path_views(new@)),
{
    if new.len() < old.len() {
        return true;
    }
    if new.len() > old.len() {
        return false;
    }
    let ghost a = path_views(new@);
    let ghost b = path_views(old@);
    let mut i: usize = 0;
    assert(a.subrange(0, a.len() as int) =~= a);
    assert(b.subrange(0, b.len() as int) =~= b);
    while i < new.len()
        invariant
            i <= new@.len() == old@.len(),
            a == path_views(new@),
            b == path_views(old@),
            way_less(a, b) == way_less(
                a.subrange(i as int, a.len() as int),
                b.subrange(i as int, b.len() as int),
            ),
        decreases new@.len() - i,
    {
        let x = crate::text::chars_of(new[i].to_string().as_str());
        let y = crate::text::chars_of(old[i].to_string().as_str());
        proof {
            let p = a.subrange(i as int, a.len() as int);
            let q = b.subrange(i as int, b.len() as int);
            assert(p[0] == new@[i as int]@ && q[0] == old@[i as int]@);
            assert(p.drop_first() =~= a.subrange(i + 1, a.len() as int));
            assert(q.drop_first() =~= b.subrange(i + 1, b.len() as int));
        }
        if !crate::text::same_chars(&x, &y) {
            return less_text(&x, &y);
        }
        i += 1;
    }
    false
}

/// A step with the steps below it, from which ways to issues start.
#[derive(Debug, PartialEq, Eq)]
pub struct ItemIssueProcessingPath {
    /// The step itself, if it is to show in the ways.
    pub item: Option<IssueProcessingPathItem>,
    /// The steps below, by their names.
    pub children: Vec<usize>,
}

/// Puts the step that worked on `context` and did `description` above the
/// steps `children`, from which issues were taken. There is nothing to put it
/// above where no step has an issue.
pub fn attach_context(context: Option<String>, description: String, children: Vec<usize>) -> (path:
    Option<ItemIssueProcessingPath>)
    ensures
        path.is_some() == (children@.len() > 0),
        path.is_some() ==> path.unwrap().children == children && path.unwrap().item.is_some()
            && path.unwrap().item.unwrap().context == context
            && path.unwrap().item.unwrap().description == description,
{
    if children.len() == 0 {
        return None;
    }
    Some(
        ItemIssueProcessingPath {
            item: Some(IssueProcessingPathItem { context, description }),
            children,
        },
    )
}

/// As `attach_context`, for a step that worked on no file.
pub fn attach_description(description: String, children: Vec<usize>) -> (path: Option<
    ItemIssueProcessingPath,
>)
    ensures
        path.is_some() == (children@.len() > 0),
        path.is_some() ==> path.unwrap().children == children && path.unwrap().item.is_some()
            && path.unwrap().item.unwrap().context.is_none()
            && path.unwrap().item.unwrap().description == description,
{
    attach_context(None, description, children)
}

/// The shortest way to the issue `issue` from the place where the issue
/// `root` was reported: the empty way where the two are one issue, and none
/// otherwise.
pub fn root_shortest_path(root: usize, issue: usize) -> (shortest: Option<
    Vec<IssueProcessingPathItem>,
>)
    ensures
        shortest.is_some() == (root == issue),
        shortest.is_some() ==> shortest.unwrap()@.len() == 0,
{
    if root == issue {
        Some(Vec::new())
    } else {
        None
    }
}

/// The shortest way to an issue from the step `item`, given for each step
/// below it the shortest way from there: the shortest of those, and of ways of
/// one length the one whose steps come first as texts; after `item` itself
/// where there is one. There is none where no way leads to the issue.
pub fn shortest_path(
    item: Option<&IssueProcessingPathItem>,
    paths: &Vec<Option<Vec<IssueProcessingPathItem>>>,
) -> (shortest: Option<Vec<IssueProcessingPathItem>>)
    requires
        paths@.len() > 0,
    ensures
        shortest.is_some() == shortest_way(
            match item {
                Some(item) => Some(item@),
                None => None,
            },
            paths_views(paths@),
        ).is_some(),
        shortest.is_some() ==> path_views(shortest.unwrap()@) == shortest_way(
            match item {
                Some(item) => Some(item@),
                None => None,
            },
            paths_views(paths@),
        ).unwrap(),
{
    let ghost all = paths_views(paths@);
    let mut best: Option<usize> = None;
    let mut i: usize = 0;
    assert(all.subrange(0, 0) =~= Seq::<Option<Seq<ItemView>>>::empty());
    while i < paths.len()
        invariant
            i <= paths@.len(),
            all == paths_views(paths@),
            match best {
                Some(at) => at < i && paths@[at as int].is_some() && best_way(
                    all.subrange(0, i as int),
                ) == all[at as int],
                None => best_way(all.subrange(0, i as int)).is_none(),
            },
        decreases paths@.len() - i,
    {
        proof {
            let upto = all.subrange(0, i + 1);
            assert(upto.drop_last() =~= all.subrange(0, i as int));
            assert(upto.last() == all[i as int]);
        }
        match &paths[i] {
            Some(path) => {
                match best {
                    Some(at) => {
                        match &paths[at] {
                            Some(old) => {
                                if better_way(old, path) {
                                    best = Some(i);
                                }
                            },
                            None => {},
                        }
                    },
                    None => {
                        best = Some(i);
                    },
                }
            },
            None => {},
        }
        i += 1;
    }
    assert(all.subrange(0, i as int) =~= all);
    match best {
        Some(at) => {
            match &paths[at] {
                Some(path) => {
                    let mut shortest: Vec<IssueProcessingPathItem> = Vec::new();
                    match item {
                        Some(item) => {
                            shortest.push(item.clone());
                        },
                        None => {},
                    }
                    let ghost head = path_views(shortest@);
                    let mut k: usize = 0;
                    while k < path.len()
                        invariant
                            k <= path@.len(),
                            path_views(shortest@) == head + path_views(path@).subrange(0, k as int),
                        decreases path@.len() - k,
                    {
                        let ghost before = path_views(shortest@);
                        shortest.push(path[k].clone());
                        assert(path_views(shortest@) =~= before.push(path@[k as int]@));
                        assert(path_views(shortest@) =~= head + path_views(path@).subrange(
                            0,
                            k + 1,
                        ));
                        k += 1;
                    }
                    assert(path_views(path@).subrange(0, k as int) =~= path_views(path@));
                    proof {
                        match item {
                            Some(item) => {
                                assert(head =~= seq![item@]);
                            },
                            None => {
                                assert(head =~= Seq::<ItemView>::empty());
                                assert(head + path_views(path@) =~= path_views(path@));
                            },
                        }
                    }
                    Some(shortest)
                },
                None => None,
            }
        },
        None => None,
    }
}

} // verus!
