//! Issues as plain values: what is shown of an issue, and what goes into the
//! hash by which equal issues are told.

use vstd::prelude::*;
use crate::issue::{FileContent, FileContentView, IssueProcessingPathItem, ItemView, PlainAsset,
    PlainIssueSource, SourcePos, path_views};
use crate::severity::IssueSeverity;
use crate::text::{chars_of, string_of};

verus! {

/// An issue as the one who reports it gives it.
#[derive(Debug, PartialEq, Eq)]
pub struct Issue {
    pub severity: IssueSeverity,
    /// The file that the issue came from.
    pub context: String,
    /// The kind of work at which it came up, such as `parse`.
    pub category: String,
    /// One line that says what is wrong.
    pub title: String,
    /// What is wrong, at length.
    pub description: String,
    /// What only someone who asks for details wants to see.
    pub detail: String,
    pub documentation_link: String,
    pub source: Option<PlainIssueSource>,
    pub sub_issues: Vec<Issue>,
}

/// An issue as it is shown.
#[derive(Debug, PartialEq, Eq)]
pub struct PlainIssue {
    pub severity: IssueSeverity,
    pub context: String,
    pub category: String,
    pub title: String,
    pub description: String,
    pub detail: String,
    pub documentation_link: String,
    pub source: Option<PlainIssueSource>,
    pub sub_issues: Vec<PlainIssue>,
    /// The way along which the issue was found, where it is known.
    pub processing_path: Option<Vec<IssueProcessingPathItem>>,
}

/// Something that is written into the hash of an issue.
#[derive(Debug, PartialEq, Eq)]
pub enum HashWrite {
    Severity(IssueSeverity),
    Text(String),
    Byte(u8),
    Place(SourcePos),
    Count(usize),
    Way(Option<Vec<IssueProcessingPathItem>>),
}

/// The view of a [`HashWrite`].
pub enum HashWriteView {
    Severity(IssueSeverity),
    Text(Seq<char>),
    Byte(u8),
    Place(SourcePos),
    Count(usize),
    Way(Option<Seq<ItemView>>),
}

/// The view of a way that may not be known.
pub open spec fn way_view(way: Option<Vec<IssueProcessingPathItem>>) -> Option<Seq<ItemView>> {
    match way {
        Some(way) => Some(path_views(way@)),
        None => None,
    }
}

impl View for HashWrite {
    type V = HashWriteView;

    open spec fn view(&self) -> HashWriteView {
        match self {
            HashWrite::Severity(severity) => HashWriteView::Severity(*severity),
            HashWrite::Text(text) => HashWriteView::Text(text@),
            HashWrite::Byte(byte) => HashWriteView::Byte(*byte),
            HashWrite::Place(place) => HashWriteView::Place(*place),
            HashWrite::Count(count) => HashWriteView::Count(*count),
            HashWrite::Way(way) => HashWriteView::Way(way_view(*way)),
        }
    }
}

/// What a list of writes holds.
pub open spec fn write_views(writes: Seq<HashWrite>) -> Seq<HashWriteView> {
    Seq::new(writes.len(), |i: int| writes[i]@)
}

/// The view of a source that an issue may not have.
pub struct SourceView {
    pub ident: Seq<char>,
    pub content: FileContentView,
    pub start: SourcePos,
    pub end: SourcePos,
}

/// What is shown of the source of an issue.
pub open spec fn source_view(source: Option<PlainIssueSource>) -> Option<SourceView> {
    match source {
        Some(source) => Some(
            SourceView {
                ident: source.asset.ident@,
                content: source.asset.content@,
                start: source.start,
                end: source.end,
            },
        ),
        None => None,
    }
}

/// `text` with `/` in place of every `\`: paths of Windows, as they stand in
/// stack traces, are to hash like those of other systems.
pub open spec fn with_slashes(text: Seq<char>) -> Seq<char> {
    Seq::new(
        text.len(),
        |i: int|
            if text[i] == '\\' {
                '/'
            } else {
                text[i]
            },
    )
}

/// What an issue writes of itself: its severity and its texts, and of its
/// source whether it has one and, if so, where it starts and ends.
pub open spec fn own_writes(issue: PlainIssue) -> Seq<HashWriteView> {
    seq![
        HashWriteView::Severity(issue.severity),
        HashWriteView::Text(issue.context@),
        HashWriteView::Text(issue.category@),
        HashWriteView::Text(issue.title@),
        HashWriteView::Text(with_slashes(issue.description@)),
        HashWriteView::Text(issue.detail@),
        HashWriteView::Text(issue.documentation_link@),
    ] + match issue.source {
        Some(source) => seq![
            HashWriteView::Byte(1),
            HashWriteView::Place(source.start),
            HashWriteView::Place(source.end),
        ],
        None => seq![HashWriteView::Byte(0)],
    }
}

/// What goes into the hash of an issue. A full hash also takes the issues
/// below it, each in full, and the way along which the issue was found.
pub open spec fn hash_writes(issue: PlainIssue, full: bool) -> Seq<HashWriteView>
    decreases issue, 0nat,
{
    if full {
        own_writes(issue) + seq![HashWriteView::Count(issue.sub_issues@.len() as usize)]
            + sub_issue_writes(issue.sub_issues@, issue.sub_issues@.len()) + seq![
            HashWriteView::Way(way_view(issue.processing_path)),
        ]
    } else {
        own_writes(issue)
    }
}

/// What the first `count` of `issues` write, each in full.
pub open spec fn sub_issue_writes(issues: Seq<PlainIssue>, count: nat) -> Seq<HashWriteView>
    decreases issues, count,
{
    if count == 0 || count > issues.len() {
        Seq::empty()
    } else {
        sub_issue_writes(issues, (count - 1) as nat) + hash_writes(issues[count - 1], true)
    }
}

/// `plain` shows `issue`, found along `way`: the same severity, texts and
/// source, the issues below it shown without a way, and the way.
pub open spec fn shows(plain: PlainIssue, issue: Issue, way: Option<Seq<ItemView>>) -> bool
    decreases issue,
{
    &&& plain.severity == issue.severity
    &&& plain.context@ == issue.context@
    &&& plain.category@ == issue.category@
    &&& plain.title@ == issue.title@
    &&& plain.description@ == issue.description@
    &&& plain.detail@ == issue.detail@
    &&& plain.documentation_link@ == issue.documentation_link@
    &&& source_view(plain.source) == source_view(issue.source)
    &&& plain.sub_issues@.len() == issue.sub_issues@.len()
    &&& forall|i: int|
        0 <= i < issue.sub_issues@.len() ==> shows(
            #[trigger] plain.sub_issues@[i],
            issue.sub_issues@[i],
            None,
        )
    &&& way_view(plain.processing_path) == way
}

/// A copy of `text`.
fn copy_text(text: &String) -> (copy: String)
    ensures
        copy@ == text@,
{
    text.clone()
}

impl Issue {
    /// An issue that came from `context`, with what is said of every issue of
    /// which no more is known: it is an error, of no category, without
    /// details, without a link, without a source and with no issue below it.
    pub fn new(context: String, title: String, description: String) -> (issue: Issue)
        ensures
            issue.severity == IssueSeverity::Error,
            issue.context == context,
            issue.title == title,
            issue.description == description,
            issue.category@.len() == 0,
            issue.detail@.len() == 0,
            issue.documentation_link@.len() == 0,
            issue.source.is_none(),
            issue.sub_issues@.len() == 0,
    {
        Issue {
            severity: IssueSeverity::Error,
            context,
            category: String::new(),
            title,
            description,
            detail: String::new(),
            documentation_link: String::new(),
            source: None,
            sub_issues: Vec::new(),
        }
    }

    /// The issue as it is shown, found along `processing_path`. The issues
    /// below it are shown without a way.
    pub fn into_plain(&self, processing_path: Option<Vec<IssueProcessingPathItem>>) -> (plain:
        PlainIssue)
        ensures
            shows(plain, *self, way_view(processing_path)),
        decreases self,
    {
        let mut sub_issues: Vec<PlainIssue> = Vec::new();
        let mut i: usize = 0;
        while i < self.sub_issues.len()
            invariant
                i <= self.sub_issues@.len(),
                sub_issues@.len() == i,
                forall|j: int|
                    0 <= j < i ==> shows(#[trigger] sub_issues@[j], self.sub_issues@[j], None),
            decreases self.sub_issues@.len() - i,
        {
            let sub = self.sub_issues[i].into_plain(None);
            sub_issues.push(sub);
            i += 1;
        }
        PlainIssue {
            severity: self.severity,
            context: copy_text(&self.context),
            category: copy_text(&self.category),
            title: copy_text(&self.title),
            description: copy_text(&self.description),
            detail: copy_text(&self.detail),
            documentation_link: copy_text(&self.documentation_link),
            source: copy_source(&self.source),
            sub_issues,
            processing_path,
        }
    }
}

/// A copy of `source`.
fn copy_source(source: &Option<PlainIssueSource>) -> (copy: Option<PlainIssueSource>)
    ensures
        source_view(copy) == source_view(*source),
{
    match source {
        Some(source) => {
            let content = match &source.asset.content {
                FileContent::Content(bytes) => {
                    let mut copy: Vec<u8> = Vec::new();
                    let mut i: usize = 0;
                    while i < bytes.len()
                        invariant
                            i <= bytes@.len(),
                            copy@ == bytes@.subrange(0, i as int),
                        decreases bytes@.len() - i,
                    {
                        copy.push(bytes[i]);
                        assert(copy@ =~= bytes@.subrange(0, i + 1));
                        i += 1;
                    }
                    assert(bytes@.subrange(0, i as int) =~= bytes@);
                    FileContent::Content(copy)
                },
                FileContent::NotFound => FileContent::NotFound,
            };
            Some(
                PlainIssueSource {
                    asset: PlainAsset { ident: source.asset.ident.clone(), content },
                    start: source.start,
                    end: source.end,
                },
            )
        },
        None => None,
    }
}

/// `text` with `/` in place of every `\`.
fn slashed(text: &str) -> (result: String)
    ensures
        result@ == with_slashes(text@),
{
    let chars = chars_of(text);
    let mut result: Vec<char> = Vec::new();
    let mut i: usize = 0;
    while i < chars.len()
        invariant
            i <= chars@.len(),
            result@ == with_slashes(chars@).subrange(0, i as int),
        decreases chars@.len() - i,
    {
        let c = chars[i];
        result.push(if c == '\\' { '/' } else { c });
        assert(result@ =~= with_slashes(chars@).subrange(0, i + 1));
        i += 1;
    }
    assert(result@ =~= with_slashes(chars@));
    string_of(&result)
}

/// A copy of a way that may not be known.
fn copy_way(way: &Option<Vec<IssueProcessingPathItem>>) -> (copy: Option<
    Vec<IssueProcessingPathItem>,
>)
    ensures
        way_view(copy) == way_view(*way),
{
    match way {
        Some(way) => {
            let mut copy: Vec<IssueProcessingPathItem> = Vec::new();
            let mut i: usize = 0;
            while i < way.len()
                invariant
                    i <= way@.len(),
                    copy@.len() == i,
                    forall|j: int| 0 <= j < i ==> copy@[j]@ == way@[j]@,
                decreases way@.len() - i,
            {
                copy.push(way[i].clone());
                i += 1;
            }
            assert(path_views(copy@) =~= path_views(way@));
            Some(copy)
        },
        None => None,
    }
}

/// Writes into `hasher` what goes into the hash of `issue`.
pub fn hash_plain_issue(issue: &PlainIssue, hasher: &mut Vec<HashWrite>, full: bool)
    ensures
        write_views(final(hasher)@) == write_views(old(hasher)@) + hash_writes(*issue, full),
    decreases issue,
{
    let ghost start = write_views(hasher@);
    hasher.push(HashWrite::Severity(issue.severity));
    hasher.push(HashWrite::Text(copy_text(&issue.context)));
    hasher.push(HashWrite::Text(copy_text(&issue.category)));
    hasher.push(HashWrite::Text(copy_text(&issue.title)));
    hasher.push(HashWrite::Text(slashed(issue.description.as_str())));
    hasher.push(HashWrite::Text(copy_text(&issue.detail)));
    hasher.push(HashWrite::Text(copy_text(&issue.documentation_link)));
    match &issue.source {
        Some(source) => {
            hasher.push(HashWrite::Byte(1));
            hasher.push(HashWrite::Place(source.start));
            hasher.push(HashWrite::Place(source.end));
        },
        None => {
            hasher.push(HashWrite::Byte(0));
        },
    }
    assert(write_views(hasher@) =~= start + own_writes(*issue));
    if full {
        hasher.push(HashWrite::Count(issue.sub_issues.len()));
        let ghost head = write_views(hasher@);
        assert(head =~= start + own_writes(*issue) + seq![
            HashWriteView::Count(issue.sub_issues@.len() as usize),
        ]);
        let mut i: usize = 0;
        assert(write_views(hasher@) =~= head + sub_issue_writes(issue.sub_issues@, 0));
        while i < issue.sub_issues.len()
            invariant
                i <= issue.sub_issues@.len(),
                write_views(hasher@) == head + sub_issue_writes(issue.sub_issues@, i as nat),
            decreases issue.sub_issues@.len() - i,
        {
            let ghost before = write_views(hasher@);
            hash_plain_issue(&issue.sub_issues[i], hasher, true);
            assert(sub_issue_writes(issue.sub_issues@, (i + 1) as nat) == sub_issue_writes(
                issue.sub_issues@,
                i as nat,
            ) + hash_writes(issue.sub_issues@[i as int], true));
            assert(write_views(hasher@) =~= head + sub_issue_writes(
                issue.sub_issues@,
                (i + 1) as nat,
            ));
            i += 1;
        }
        let ghost subs = write_views(hasher@);
        hasher.push(HashWrite::Way(copy_way(&issue.processing_path)));
        assert(write_views(hasher@) =~= subs + seq![
            HashWriteView::Way(way_view(issue.processing_path)),
        ]);
        assert(write_views(hasher@) =~= start + hash_writes(*issue, full));
    }
}

/// The issues that were captured while something was computed.
#[derive(Debug, PartialEq, Eq)]
pub struct CapturedIssues {
    issues: Vec<Issue>,
}

impl CapturedIssues {
    /// The issues that were captured, in the order in which they were
    /// captured.
    pub closed spec fn issues(&self) -> Seq<Issue> {
        self.issues@
    }

    /// The captured issues `issues`.
    pub fn new(issues: Vec<Issue>) -> (captured: CapturedIssues)
        ensures
            captured.issues() == issues@,
    {
        CapturedIssues { issues }
    }

    /// Returns true if there are no issues.
    pub fn is_empty(&self) -> (empty: bool)
        ensures
            empty == (self.issues().len() == 0),
    {
        self.issues.len() == 0
    }

    /// Returns the number of issues.
    pub fn len(&self) -> (len: usize)
        ensures
            len == self.issues().len(),
    {
        self.issues.len()
    }

    /// The issues, in the order in which they were captured.
    pub fn iter(&self) -> (issues: &Vec<Issue>)
        ensures
            issues@ == self.issues(),
    {
        &self.issues
    }

    /// The issue at `index`.
    pub fn get(&self, index: usize) -> (issue: Option<&Issue>)
        ensures
            issue.is_some() == (index < self.issues().len()),
            issue.is_some() ==> *issue.unwrap() == self.issues()[index as int],
    {
        if index < self.issues.len() {
            Some(&self.issues[index])
        } else {
            None
        }
    }

    /// The issues as they are shown, each without a way, in the order in
    /// which they were captured.
    pub fn get_plain_issues(&self) -> (list: Vec<PlainIssue>)
        ensures
            list@.len() == self.issues().len(),
            forall|i: int|
                0 <= i < list@.len() ==> shows(#[trigger] list@[i], self.issues()[i], None),
    {
        let mut list: Vec<PlainIssue> = Vec::new();
        let mut i: usize = 0;
        while i < self.issues.len()
            invariant
                i <= self.issues().len(),
                list@.len() == i,
                forall|j: int| 0 <= j < i ==> shows(#[trigger] list@[j], self.issues()[j], None),
            decreases self.issues().len() - i,
        {
            list.push(self.issues[i].into_plain(None));
            i += 1;
        }
        list
    }
}

impl PlainIssue {
    /// What the hash is taken of by which issues that mean the same are
    /// found, such as one error in a file that two contexts compile. A full
    /// hash also takes the issues below this one and the way along which it
    /// was found, and so tells apart what came along different ways.
    pub fn internal_hash(&self, full: bool) -> (writes: Vec<HashWrite>)
        ensures
            write_views(writes@) == hash_writes(*self, full),
    {
        let mut writes: Vec<HashWrite> = Vec::new();
        assert(write_views(writes@) =~= Seq::<HashWriteView>::empty());
        hash_plain_issue(self, &mut writes, full);
        assert(Seq::<HashWriteView>::empty() + hash_writes(*self, full) =~= hash_writes(
            *self,
            full,
        ));
        writes
    }
}

} // verus!
