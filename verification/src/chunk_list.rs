//! The chunk list of development: the chunks of one entry as one unit with a
//! version, so that a client that runs can be told what has changed.

use vstd::prelude::*;
use indexmap::IndexMap;
use crate::fs_path::{FileSystemPath, path_to};
use crate::js::{json_string, json_string_list_pretty, json_string_of, write_string_list_pretty};
use crate::ordered::{content_entries, contents_get_index, contents_insert, contents_len,
    contents_new, group_entries, groups_get, groups_get_index, groups_insert, groups_len,
    groups_new, has_key, keys_distinct, lemma_with_entry, value_of, version_entries,
    versions_get, versions_get_index, versions_insert, versions_len, versions_new, with_entry};
use crate::text::texts;

verus! {

/// A content with a version. A content that can be merged names its merger;
/// contents with the same merger are versioned together.
#[derive(Clone, Copy, Debug, PartialEq, Eq, Hash)]
pub struct VersionedContent {
    pub version: u64,
    pub merger: Option<u64>,
}

/// Where a chunk list comes from.
#[derive(Clone, Copy, Debug, PartialEq, Eq, Structural, Hash)]
pub enum EcmascriptDevChunkListSource {
    /// The chunk list was there from the start, for an entry.
    Entry,
    /// The chunk list was made for a dynamic import.
    Dynamic,
}

/// A chunk of a chunk list: where it is written and what it holds.
#[derive(Debug)]
pub struct ChunkListMember {
    pub path: FileSystemPath,
    pub content: VersionedContent,
}

/// The chunks of one entry in development.
#[derive(Debug)]
pub struct EcmascriptDevChunkList {
    /// The root of what is served.
    pub output_root: FileSystemPath,
    /// Where the chunk list itself is written.
    pub path: FileSystemPath,
    pub chunks: Vec<ChunkListMember>,
    pub source: EcmascriptDevChunkListSource,
}

/// Why no content could be made for a chunk list.
#[derive(Debug, PartialEq, Eq)]
pub enum ChunkListError {
    /// The chunk list is not written below the output root.
    ListNotInOutputRoot,
    /// The chunk with this path is not written below the output root.
    ChunkNotInOutputRoot(String),
}

/// The view of a [`ChunkListError`].
pub enum ChunkListErrorView {
    ListNotInOutputRoot,
    ChunkNotInOutputRoot(Seq<char>),
}

impl View for ChunkListError {
    type V = ChunkListErrorView;

    open spec fn view(&self) -> ChunkListErrorView {
        match self {
            ChunkListError::ListNotInOutputRoot => ChunkListErrorView::ListNotInOutputRoot,
            ChunkListError::ChunkNotInOutputRoot(path) => ChunkListErrorView::ChunkNotInOutputRoot(
                path@,
            ),
        }
    }
}

impl ChunkListError {
    /// The sentence that tells a user of the error.
    pub fn to_string(&self) -> (message: String)
        ensures
            message@ == match self@ {
                ChunkListErrorView::ListNotInOutputRoot => "chunk list path not in output root"@,
                ChunkListErrorView::ChunkNotInOutputRoot(path) => "chunk path not in output root: "@
                    + path,
            },
    {
        match self {
            ChunkListError::ListNotInOutputRoot => String::from_str(
                "chunk list path not in output root",
            ),
            ChunkListError::ChunkNotInOutputRoot(path) => String::from_str(
                "chunk path not in output root: ",
            ).concat(path.as_str()),
        }
    }
}

/// A chunk as an entry: its path and its content.
pub type Entry = (Seq<char>, (u64, Option<u64>));

/// What the chunks of a chunk list hold.
pub open spec fn member_views(members: Seq<ChunkListMember>) -> Seq<Entry> {
    Seq::new(
        members.len(),
        |i: int| (members[i].path@, (members[i].content.version, members[i].content.merger)),
    )
}

/// Every member lies below `root`.
pub open spec fn all_inside(root: Seq<char>, members: Seq<Entry>) -> bool {
    forall|i: int| 0 <= i < members.len() ==> path_to(root, (#[trigger] members[i]).0).is_some()
}

/// The contents of `members` under their paths as seen from `root`, in the
/// order of the members. Of two members with one path the later content
/// stands, at the place of the earlier.
pub open spec fn relative_entries(root: Seq<char>, members: Seq<Entry>) -> Seq<Entry>
    decreases members.len(),
{
    if members.len() == 0 {
        Seq::empty()
    } else {
        with_entry(
            relative_entries(root, members.drop_last()),
            path_to(root, members.last().0).unwrap(),
            members.last().1,
        )
    }
}

/// The versions of the contents that cannot be merged, under their paths.
pub open spec fn by_path_of(entries: Seq<Entry>) -> Seq<(Seq<char>, u64)>
    decreases entries.len(),
{
    if entries.len() == 0 {
        Seq::empty()
    } else {
        let before = by_path_of(entries.drop_last());
        match entries.last().1.1 {
            Some(_) => before,
            None => with_entry(before, entries.last().0, entries.last().1.0),
        }
    }
}

/// The versions of the contents that `merger` merges, in the order of the
/// entries.
pub open spec fn merged_versions(entries: Seq<Entry>, merger: u64) -> Seq<u64>
    decreases entries.len(),
{
    if entries.len() == 0 {
        Seq::empty()
    } else {
        let before = merged_versions(entries.drop_last(), merger);
        if entries.last().1.1 == Some(merger) {
            before.push(entries.last().1.0)
        } else {
            before
        }
    }
}

/// For each merger, in the order in which the mergers first occur, the
/// versions of the contents that it merges.
pub open spec fn by_merger_of(entries: Seq<Entry>) -> Seq<(u64, Seq<u64>)>
    decreases entries.len(),
{
    if entries.len() == 0 {
        Seq::empty()
    } else {
        let before = by_merger_of(entries.drop_last());
        match entries.last().1.1 {
            Some(merger) => with_entry(before, merger, merged_versions(entries, merger)),
            None => before,
        }
    }
}

/// The view of an [`EcmascriptDevChunkListVersion`].
pub struct VersionView {
    pub by_path: Seq<(Seq<char>, u64)>,
    pub by_merger: Seq<(u64, Seq<u64>)>,
}

/// The version of a chunk list with the entries `entries`.
pub open spec fn version_of(entries: Seq<Entry>) -> VersionView {
    VersionView { by_path: by_path_of(entries), by_merger: by_merger_of(entries) }
}

/// The name under which a source is written.
pub open spec fn source_name(source: EcmascriptDevChunkListSource) -> Seq<char> {
    match source {
        EcmascriptDevChunkListSource::Entry => "entry"@,
        EcmascriptDevChunkListSource::Dynamic => "dynamic"@,
    }
}

/// The paths of `entries`, in their order.
pub open spec fn entry_paths(entries: Seq<Entry>) -> Seq<Seq<char>> {
    Seq::new(entries.len(), |i: int| entries[i].0)
}

/// What a chunk list tells of itself: its path, the paths of its chunks and
/// where it comes from.
pub open spec fn chunk_list_params(
    path: Seq<char>,
    chunks: Seq<Seq<char>>,
    source: EcmascriptDevChunkListSource,
) -> Seq<char> {
    "{\n  \"path\": "@ + json_string_of(path) + ",\n  \"chunks\": "@ + json_string_list_pretty(
        chunks,
        "  "@,
    ) + ",\n  \"source\": \""@ + source_name(source) + "\"\n}"@
}

/// The script of a chunk list. Chunks register themselves with
/// `TURBOPACK`, and so does the chunk list, as a chunk without modules; then
/// it registers what it tells of itself with `TURBOPACK_CHUNK_LISTS`.
pub open spec fn chunk_list_code(
    path: Seq<char>,
    chunks: Seq<Seq<char>>,
    source: EcmascriptDevChunkListSource,
) -> Seq<char> {
    "(globalThis.TURBOPACK = globalThis.TURBOPACK || []).push([\n    "@ + json_string_of(path)
        + ",\n    {},\n]);\n(globalThis.TURBOPACK_CHUNK_LISTS = globalThis.TURBOPACK_CHUNK_LISTS || []).push("@
        + chunk_list_params(path, chunks, source) + ");\n"@
}

/// The view of an [`EcmascriptDevChunkListContent`].
pub struct ContentView {
    pub chunk_list_path: Seq<char>,
    pub chunks_contents: Seq<Entry>,
    pub source: EcmascriptDevChunkListSource,
}

/// The contents of a chunk list.
pub struct EcmascriptDevChunkListContent {
    chunk_list_path: String,
    chunks_contents: IndexMap<String, (u64, Option<u64>)>,
    source: EcmascriptDevChunkListSource,
}

/// The version of a chunk list: the versions of the contents that cannot be
/// merged, each under its path, and for each merger the versions of the
/// contents that it merges.
pub struct EcmascriptDevChunkListVersion {
    by_path: IndexMap<String, u64>,
    by_merger: IndexMap<u64, Vec<u64>>,
}

impl View for EcmascriptDevChunkListContent {
    type V = ContentView;

    closed spec fn view(&self) -> ContentView {
        ContentView {
            chunk_list_path: self.chunk_list_path@,
            chunks_contents: content_entries(self.chunks_contents),
            source: self.source,
        }
    }
}

impl View for EcmascriptDevChunkListVersion {
    type V = VersionView;

    closed spec fn view(&self) -> VersionView {
        VersionView {
            by_path: version_entries(self.by_path),
            by_merger: group_entries(self.by_merger),
        }
    }
}

/// The entries of a chunk list have distinct paths.
pub proof fn lemma_relative_entries_distinct(root: Seq<char>, members: Seq<Entry>)
    ensures
        keys_distinct(relative_entries(root, members)),
    decreases members.len(),
{
    if members.len() > 0 {
        lemma_relative_entries_distinct(root, members.drop_last());
        lemma_with_entry(
            relative_entries(root, members.drop_last()),
            path_to(root, members.last().0).unwrap(),
            members.last().1,
        );
    }
}

impl EcmascriptDevChunkListContent {
    /// No two chunks have the same path.
    pub open spec fn wf(&self) -> bool {
        keys_distinct(self@.chunks_contents)
    }

    /// The contents of `chunk_list`: its path and the paths of its chunks as
    /// seen from the output root, the contents of the chunks, and where the
    /// chunk list comes from. The chunk list and each of its chunks must lie
    /// below the output root; the error names the first chunk that does not.
    pub fn new(chunk_list: &EcmascriptDevChunkList) -> (result: Result<
        EcmascriptDevChunkListContent,
        ChunkListError,
    >)
        ensures
            match result {
                Ok(content) => {
                    &&& path_to(chunk_list.output_root@, chunk_list.path@) == Some(
                        content@.chunk_list_path,
                    )
                    &&& all_inside(chunk_list.output_root@, member_views(chunk_list.chunks@))
                    &&& content@.chunks_contents == relative_entries(
                        chunk_list.output_root@,
                        member_views(chunk_list.chunks@),
                    )
                    &&& content@.source == chunk_list.source
                    &&& content.wf()
                },
                Err(error) => match error@ {
                    ChunkListErrorView::ListNotInOutputRoot => path_to(
                        chunk_list.output_root@,
                        chunk_list.path@,
                    ).is_none(),
                    ChunkListErrorView::ChunkNotInOutputRoot(path) => {
                        &&& path_to(chunk_list.output_root@, chunk_list.path@).is_some()
                        &&& exists|i: int|
                            0 <= i < chunk_list.chunks@.len() && path
                                == (#[trigger] chunk_list.chunks@[i]).path@ && path_to(
                                chunk_list.output_root@,
                                path,
                            ).is_none() && all_inside(
                                chunk_list.output_root@,
                                member_views(chunk_list.chunks@).subrange(0, i),
                            )
                    },
                },
            },
    {
        let ghost root = chunk_list.output_root@;
        let ghost members = member_views(chunk_list.chunks@);
        let chunk_list_path = match chunk_list.output_root.get_path_to(&chunk_list.path) {
            Some(path) => path,
            None => {
                return Err(ChunkListError::ListNotInOutputRoot);
            },
        };
        let mut chunks_contents = contents_new();
        let mut i: usize = 0;
        assert(members.subrange(0, 0) =~= Seq::<Entry>::empty());
        while i < chunk_list.chunks.len()
            invariant
                i <= chunk_list.chunks@.len(),
                root == chunk_list.output_root@,
                members == member_views(chunk_list.chunks@),
                path_to(root, chunk_list.path@) == Some(chunk_list_path@),
                all_inside(root, members.subrange(0, i as int)),
                content_entries(chunks_contents) == relative_entries(
                    root,
                    members.subrange(0, i as int),
                ),
            decreases chunk_list.chunks@.len() - i,
        {
            let chunk = &chunk_list.chunks[i];
            proof {
                let upto = members.subrange(0, i + 1);
                assert(upto.drop_last() =~= members.subrange(0, i as int));
                assert(upto.last() == members[i as int]);
            }
            match chunk_list.output_root.get_path_to(&chunk.path) {
                Some(path) => {
                    contents_insert(
                        &mut chunks_contents,
                        path,
                        (chunk.content.version, chunk.content.merger),
                    );
                },
                None => {
                    let error = ChunkListError::ChunkNotInOutputRoot(chunk.path.path.clone());
                    proof {
                        assert(chunk.path@ == chunk_list.chunks@[i as int].path@);
                    }
                    return Err(error);
                },
            }
            proof {
                let upto = members.subrange(0, i + 1);
                assert forall|j: int| 0 <= j < upto.len() implies path_to(
                    root,
                    (#[trigger] upto[j]).0,
                ).is_some() by {
                    if j < i {
                        assert(members.subrange(0, i as int)[j] == upto[j]);
                    }
                }
            }
            i += 1;
        }
        proof {
            assert(members.subrange(0, i as int) =~= members);
            lemma_relative_entries_distinct(root, members);
        }
        Ok(
            EcmascriptDevChunkListContent {
                chunk_list_path,
                chunks_contents,
                source: chunk_list.source,
            },
        )
    }

    /// The path of the chunk list as seen from the output root.
    pub fn chunk_list_path(&self) -> (path: &str)
        ensures
            path@ == self@.chunk_list_path,
    {
        self.chunk_list_path.as_str()
    }

    /// Where the chunk list comes from.
    pub fn source(&self) -> (source: EcmascriptDevChunkListSource)
        ensures
            source == self@.source,
    {
        self.source
    }

    /// The number of chunks.
    pub fn len(&self) -> (len: usize)
        ensures
            len == self@.chunks_contents.len(),
    {
        contents_len(&self.chunks_contents)
    }

    /// The paths of the chunks, in their order.
    pub fn chunk_paths(&self) -> (paths: Vec<String>)
        ensures
            texts(paths@) == entry_paths(self@.chunks_contents),
    {
        let len = contents_len(&self.chunks_contents);
        let mut paths: Vec<String> = Vec::new();
        let mut i: usize = 0;
        while i < len
            invariant
                len == self@.chunks_contents.len(),
                i <= len,
                paths@.len() == i,
                forall|j: int| 0 <= j < i ==> paths@[j]@ == self@.chunks_contents[j].0,
            decreases len - i,
        {
            match contents_get_index(&self.chunks_contents, i) {
                Some(entry) => {
                    paths.push(entry.0);
                },
                None => {
                    paths.push(String::new());
                },
            }
            i += 1;
        }
        assert(texts(paths@) =~= entry_paths(self@.chunks_contents));
        paths
    }

    /// Computes the version of this content.
    pub fn version(&self) -> (version: EcmascriptDevChunkListVersion)
        ensures
            version@ == version_of(self@.chunks_contents),
    {
        let ghost entries = self@.chunks_contents;
        let mut by_merger = groups_new();
        let mut by_path = versions_new();
        let len = contents_len(&self.chunks_contents);
        let mut i: usize = 0;
        assert(entries.subrange(0, 0) =~= Seq::<Entry>::empty());
        while i < len
            invariant
                len == entries.len(),
                i <= len,
                entries == self@.chunks_contents,
                version_entries(by_path) == by_path_of(entries.subrange(0, i as int)),
                group_entries(by_merger) == by_merger_of(entries.subrange(0, i as int)),
                keys_distinct(group_entries(by_merger)),
                forall|merger: u64|
                    value_of(group_entries(by_merger), merger) == (if merged_versions(
                        entries.subrange(0, i as int),
                        merger,
                    ).len() > 0 {
                        Some(merged_versions(entries.subrange(0, i as int), merger))
                    } else {
                        None
                    }),
            decreases len - i,
        {
            let ghost before = entries.subrange(0, i as int);
            let ghost upto = entries.subrange(0, i + 1);
            proof {
                assert(upto.drop_last() =~= before);
                assert(upto.last() == entries[i as int]);
            }
            match contents_get_index(&self.chunks_contents, i) {
                Some(entry) => {
                    let chunk_path = entry.0;
                    let content = entry.1;
                    match content.1 {
                        Some(merger) => {
                            let mut group = match groups_get(&by_merger, merger) {
                                Some(group) => group,
                                None => Vec::new(),
                            };
                            group.push(content.0);
                            let ghost old_groups = group_entries(by_merger);
                            let ghost merged = group@;
                            proof {
                                assert(merged =~= merged_versions(upto, merger));
                                lemma_with_entry(old_groups, merger, merged);
                            }
                            groups_insert(&mut by_merger, merger, group);
                            proof {
                                assert(group_entries(by_merger) == with_entry(
                                    old_groups,
                                    merger,
                                    merged,
                                ));
                                assert forall|other: u64|
                                    value_of(group_entries(by_merger), other) == (if merged_versions(
                                        upto,
                                        other,
                                    ).len() > 0 {
                                        Some(merged_versions(upto, other))
                                    } else {
                                        None
                                    }) by {
                                    if other != merger {
                                        assert(merged_versions(upto, other) == merged_versions(
                                            before,
                                            other,
                                        ));
                                        assert(value_of(group_entries(by_merger), other)
                                            == value_of(old_groups, other));
                                    }
                                }
                            }
                        },
                        None => {
                            versions_insert(&mut by_path, chunk_path, content.0);
                            proof {
                                assert forall|other: u64|
                                    merged_versions(upto, other) == merged_versions(
                                        before,
                                        other,
                                    ) by {}
                            }
                        },
                    }
                },
                None => {},
            }
            i += 1;
        }
        assert(entries.subrange(0, len as int) =~= entries);
        EcmascriptDevChunkListVersion { by_path, by_merger }
    }

    /// The script that registers the chunk list with the client that runs.
    pub fn code(&self) -> (code: String)
        ensures
            code@ == chunk_list_code(
                self@.chunk_list_path,
                entry_paths(self@.chunks_contents),
                self@.source,
            ),
    {
        let path = json_string(self.chunk_list_path.as_str());
        let chunks = self.chunk_paths();
        let mut code = String::from_str(
            "(globalThis.TURBOPACK = globalThis.TURBOPACK || []).push([\n    ",
        );
        code.append(path.as_str());
        code.append(
            ",\n    {},\n]);\n(globalThis.TURBOPACK_CHUNK_LISTS = globalThis.TURBOPACK_CHUNK_LISTS || []).push(",
        );
        code.append("{\n  \"path\": ");
        code.append(path.as_str());
        code.append(",\n  \"chunks\": ");
        code.append(write_string_list_pretty(&chunks, "  ").as_str());
        code.append(",\n  \"source\": \"");
        code.append(
            match self.source {
                EcmascriptDevChunkListSource::Entry => "entry",
                EcmascriptDevChunkListSource::Dynamic => "dynamic",
            },
        );
        code.append("\"\n}");
        code.append(");\n");
        assert(code@ =~= chunk_list_code(
            self@.chunk_list_path,
            entry_paths(self@.chunks_contents),
            self@.source,
        ));
        code
    }

    /// What is written out for the chunk list: its script.
    pub fn content(&self) -> (content: String)
        ensures
            content@ == chunk_list_code(
                self@.chunk_list_path,
                entry_paths(self@.chunks_contents),
                self@.source,
            ),
    {
        self.code()
    }
}

impl EcmascriptDevChunkListVersion {
    /// The version of the content at `path`, where the chunk list holds a
    /// content there that cannot be merged.
    pub fn path_version(&self, path: &str) -> (version: Option<u64>)
        ensures
            version == value_of(self@.by_path, path@),
    {
        versions_get(&self.by_path, path)
    }

    /// The versions of the contents that `merger` merges, where the chunk list
    /// holds such contents.
    pub fn merged_version(&self, merger: u64) -> (versions: Option<Vec<u64>>)
        ensures
            versions.is_some() == value_of(self@.by_merger, merger).is_some(),
            versions.is_some() ==> versions.unwrap()@ == value_of(self@.by_merger, merger).unwrap(),
    {
        groups_get(&self.by_merger, merger)
    }

    /// The number of contents that are versioned by their path.
    pub fn path_count(&self) -> (count: usize)
        ensures
            count == self@.by_path.len(),
    {
        versions_len(&self.by_path)
    }

    /// The number of mergers.
    pub fn merger_count(&self) -> (count: usize)
        ensures
            count == self@.by_merger.len(),
    {
        groups_len(&self.by_merger)
    }

    /// Whether the two versions are the same: the same versions under the same
    /// paths and the same mergers, in the same order.
    pub fn same(&self, other: &EcmascriptDevChunkListVersion) -> (same: bool)
        ensures
            same == (self@ == other@),
    {
        let paths = versions_len(&self.by_path);
        let mergers = groups_len(&self.by_merger);
        if paths != versions_len(&other.by_path) || mergers != groups_len(&other.by_merger) {
            return false;
        }
        let mut i: usize = 0;
        while i < paths
            invariant
                paths == self@.by_path.len() == other@.by_path.len(),
                i <= paths,
                forall|j: int| 0 <= j < i ==> self@.by_path[j] == other@.by_path[j],
            decreases paths - i,
        {
            match (versions_get_index(&self.by_path, i), versions_get_index(&other.by_path, i)) {
                (Some(a), Some(b)) => {
                    if a.0 != b.0 || a.1 != b.1 {
                        assert(self@.by_path[i as int] != other@.by_path[i as int]);
                        return false;
                    }
                },
                _ => {},
            }
            i += 1;
        }
        assert(self@.by_path =~= other@.by_path);
        let mut k: usize = 0;
        while k < mergers
            invariant
                mergers == self@.by_merger.len() == other@.by_merger.len(),
                self@.by_path == other@.by_path,
                k <= mergers,
                forall|j: int| 0 <= j < k ==> self@.by_merger[j] == other@.by_merger[j],
            decreases mergers - k,
        {
            match (groups_get_index(&self.by_merger, k), groups_get_index(&other.by_merger, k)) {
                (Some(a), Some(b)) => {
                    if a.0 != b.0 || !same_versions(&a.1, &b.1) {
                        assert(self@.by_merger[k as int] != other@.by_merger[k as int]);
                        return false;
                    }
                },
                _ => {},
            }
            k += 1;
        }
        assert(self@.by_merger =~= other@.by_merger);
        true
    }
}

/// Whether the two lists hold the same versions in the same order.
fn same_versions(a: &Vec<u64>, b: &Vec<u64>) -> (same: bool)
    ensures
        same == (a@ == b@),
{
    if a.len() != b.len() {
        return false;
    }
    let mut i: usize = 0;
    while i < a.len()
        invariant
            a@.len() == b@.len(),
            i <= a@.len(),
            forall|j: int| 0 <= j < i ==> a@[j] == b@[j],
        decreases a@.len() - i,
    {
        if a[i] != b[i] {
            return false;
        }
        i += 1;
    }
    assert(a@ =~= b@);
    true
}


/// In entries with distinct keys the last entry is found under its key, and
/// under every other key what the entries before it hold.
proof fn lemma_value_of_last<K, V>(entries: Seq<(K, V)>)
    requires
        keys_distinct(entries),
        entries.len() > 0,
    ensures
        keys_distinct(entries.drop_last()),
        !has_key(entries.drop_last(), entries.last().0),
        value_of(entries, entries.last().0) == Some(entries.last().1),
        forall|other: K|
            other != entries.last().0 ==> value_of(entries, other) == value_of(
                entries.drop_last(),
                other,
            ),
{
    let rest = entries.drop_last();
    let last = entries.len() - 1;
    assert forall|i: int, j: int| 0 <= i < j < rest.len() implies (#[trigger] rest[i]).0 != (
    #[trigger] rest[j]).0 by {
        assert(entries[i].0 != entries[j].0);
    }
    assert forall|i: int| 0 <= i < rest.len() implies (#[trigger] rest[i]).0
        != entries.last().0 by {
        assert(entries[i].0 != entries[last].0);
    }
    assert(entries[last].0 == entries.last().0);
    assert(has_key(entries, entries.last().0));
    let found = crate::ordered::index_of_key(entries, entries.last().0);
    if found != last {
        assert(entries[found].0 != entries[last].0);
    }
    assert forall|other: K| other != entries.last().0 implies value_of(entries, other)
        == value_of(rest, other) by {
        if has_key(entries, other) {
            let i = crate::ordered::index_of_key(entries, other);
            assert(rest[i] == entries[i]);
            assert(has_key(rest, other));
            let j = crate::ordered::index_of_key(rest, other);
            assert(rest[j] == entries[j]);
            if i < j {
                assert(entries[i].0 != entries[j].0);
            } else if j < i {
                assert(entries[j].0 != entries[i].0);
            }
        }
        if has_key(rest, other) {
            let j = crate::ordered::index_of_key(rest, other);
            assert(entries[j] == rest[j]);
            assert(has_key(entries, other));
        }
    }
}

/// Under a path the version of a chunk list holds the version of the content
/// at that path, where that content cannot be merged, and nothing otherwise.
pub proof fn lemma_by_path_value(entries: Seq<Entry>, path: Seq<char>)
    requires
        keys_distinct(entries),
    ensures
        keys_distinct(by_path_of(entries)),
        value_of(by_path_of(entries), path) == match value_of(entries, path) {
            Some(content) => match content.1 {
                Some(_) => None,
                None => Some(content.0),
            },
            None => None,
        },
    decreases entries.len(),
{
    if entries.len() == 0 {
        assert(!has_key(entries, path));
        assert(!has_key(by_path_of(entries), path));
    } else {
        let rest = entries.drop_last();
        let last = entries.last();
        lemma_value_of_last(entries);
        lemma_by_path_value(rest, path);
        lemma_by_path_value(rest, last.0);
        match last.1.1 {
            Some(_) => {
                if path == last.0 {
                    assert(value_of(rest, path) == None::<(u64, Option<u64>)>);
                }
            },
            None => {
                lemma_with_entry(by_path_of(rest), last.0, last.1.0);
            },
        }
    }
}

/// Under a merger the version of a chunk list holds the versions of the
/// contents that the merger merges, where there are any.
pub proof fn lemma_by_merger_value(entries: Seq<Entry>, merger: u64)
    ensures
        keys_distinct(by_merger_of(entries)),
        value_of(by_merger_of(entries), merger) == (if merged_versions(entries, merger).len() > 0 {
            Some(merged_versions(entries, merger))
        } else {
            None
        }),
    decreases entries.len(),
{
    if entries.len() == 0 {
        assert(!has_key(by_merger_of(entries), merger));
    } else {
        let rest = entries.drop_last();
        lemma_by_merger_value(rest, merger);
        match entries.last().1.1 {
            Some(own) => {
                lemma_with_entry(by_merger_of(rest), own, merged_versions(entries, own));
            },
            None => {},
        }
    }
}

/// Entries with the same mergers, and the same versions where there is a
/// merger, are merged alike.
proof fn lemma_merged_alike(a: Seq<Entry>, b: Seq<Entry>)
    requires
        a.len() == b.len(),
        forall|i: int|
            0 <= i < a.len() ==> (#[trigger] a[i]).1.1 == b[i].1.1 && (a[i].1.1.is_some()
                ==> a[i].1.0 == b[i].1.0),
    ensures
        by_merger_of(a) == by_merger_of(b),
        forall|merger: u64| merged_versions(a, merger) == merged_versions(b, merger),
    decreases a.len(),
{
    if a.len() > 0 {
        let last = a.len() - 1;
        assert(a[last].1.1 == b[last].1.1);
        assert forall|i: int| 0 <= i < a.drop_last().len() implies (#[trigger] a.drop_last()[i]).1.1
            == b.drop_last()[i].1.1 && (a.drop_last()[i].1.1.is_some() ==> a.drop_last()[i].1.0
            == b.drop_last()[i].1.0) by {
            assert(a[i].1.1 == b[i].1.1);
        }
        lemma_merged_alike(a.drop_last(), b.drop_last());
        assert(a.last().1.1 == b.last().1.1);
        assert forall|merger: u64| merged_versions(a, merger) == merged_versions(b, merger) by {
            assert(merged_versions(a.drop_last(), merger) == merged_versions(
                b.drop_last(),
                merger,
            ));
        }
    } else {
        assert forall|merger: u64| merged_versions(a, merger) == merged_versions(b, merger) by {
            assert(merged_versions(a, merger) =~= Seq::<u64>::empty());
            assert(merged_versions(b, merger) =~= Seq::<u64>::empty());
        }
    }
}

/// Entries with the same paths, and the same versions where there is no
/// merger, have the same versions by path.
proof fn lemma_by_path_alike(a: Seq<Entry>, b: Seq<Entry>)
    requires
        a.len() == b.len(),
        forall|i: int|
            0 <= i < a.len() ==> (#[trigger] a[i]).0 == b[i].0 && a[i].1.1 == b[i].1.1 && (
            a[i].1.1.is_none() ==> a[i].1.0 == b[i].1.0),
    ensures
        by_path_of(a) == by_path_of(b),
    decreases a.len(),
{
    if a.len() > 0 {
        let last = a.len() - 1;
        assert(a[last].0 == b[last].0);
        assert forall|i: int| 0 <= i < a.drop_last().len() implies (#[trigger] a.drop_last()[i]).0
            == b.drop_last()[i].0 && a.drop_last()[i].1.1 == b.drop_last()[i].1.1 && (
        a.drop_last()[i].1.1.is_none() ==> a.drop_last()[i].1.0 == b.drop_last()[i].1.0) by {
            assert(a[i].0 == b[i].0);
        }
        lemma_by_path_alike(a.drop_last(), b.drop_last());
    }
}

/// Another version at one place, under the merger `merger`, gives other merged
/// versions.
proof fn lemma_merged_versions_differ(a: Seq<Entry>, i: int, version: u64, merger: u64)
    requires
        0 <= i < a.len(),
        a[i].1.1 == Some(merger),
        a[i].1.0 != version,
    ensures
        merged_versions(a.update(i, (a[i].0, (version, Some(merger)))), merger) != merged_versions(
            a,
            merger,
        ),
        merged_versions(a.update(i, (a[i].0, (version, Some(merger)))), merger).len()
            == merged_versions(a, merger).len(),
        merged_versions(a, merger).len() > 0,
    decreases a.len(),
{
    let b = a.update(i, (a[i].0, (version, Some(merger))));
    let last = a.len() - 1;
    if i == last {
        assert(b.drop_last() =~= a.drop_last());
        let before = merged_versions(a.drop_last(), merger);
        assert(merged_versions(a, merger) == before.push(a[i].1.0));
        assert(merged_versions(b, merger) == before.push(version));
        assert(merged_versions(a, merger)[before.len() as int] == a[i].1.0);
        assert(merged_versions(b, merger)[before.len() as int] == version);
    } else {
        let a1 = a.drop_last();
        assert(b.drop_last() =~= a1.update(i, (a1[i].0, (version, Some(merger)))));
        assert(b.last() == a.last());
        lemma_merged_versions_differ(a1, i, version, merger);
        let x = merged_versions(a1, merger);
        let y = merged_versions(b.drop_last(), merger);
        if a.last().1.1 == Some(merger) {
            if x.push(a.last().1.0) == y.push(a.last().1.0) {
                assert(x.push(a.last().1.0).drop_last() =~= x);
                assert(y.push(a.last().1.0).drop_last() =~= y);
            }
        }
    }
}

/// Chunk lists with the same contents under the same paths have the same
/// version, whatever their own paths are and wherever they come from.
pub proof fn lemma_equal_contents_equal_versions(a: ContentView, b: ContentView)
    requires
        a.chunks_contents == b.chunks_contents,
    ensures
        version_of(a.chunks_contents) == version_of(b.chunks_contents),
{
}

/// Another version of one content that cannot be merged gives the chunk list
/// another version: under the path of that content stands the new version.
/// What stands under every other path, and for every merger, stays.
pub proof fn lemma_changed_content_changes_version(entries: Seq<Entry>, i: int, version: u64)
    requires
        keys_distinct(entries),
        0 <= i < entries.len(),
        entries[i].1.1.is_none(),
        entries[i].1.0 != version,
    ensures
        version_of(entries.update(i, (entries[i].0, (version, None)))) != version_of(entries),
        value_of(by_path_of(entries), entries[i].0) == Some(entries[i].1.0),
        value_of(by_path_of(entries.update(i, (entries[i].0, (version, None)))), entries[i].0)
            == Some(version),
        forall|path: Seq<char>|
            path != entries[i].0 ==> value_of(
                by_path_of(entries.update(i, (entries[i].0, (version, None)))),
                path,
            ) == value_of(by_path_of(entries), path),
        by_merger_of(entries.update(i, (entries[i].0, (version, None)))) == by_merger_of(entries),
{
    let key = entries[i].0;
    let changed = entries.update(i, (key, (version, None)));
    assert forall|a: int, b: int| 0 <= a < b < changed.len() implies (#[trigger] changed[a]).0 != (
    #[trigger] changed[b]).0 by {
        assert(entries[a].0 != entries[b].0);
    }
    lemma_found_at(entries, i);
    lemma_found_at(changed, i);
    lemma_by_path_value(entries, key);
    lemma_by_path_value(changed, key);
    assert forall|path: Seq<char>| path != key implies value_of(by_path_of(changed), path)
        == value_of(by_path_of(entries), path) by {
        lemma_by_path_value(entries, path);
        lemma_by_path_value(changed, path);
        if has_key(entries, path) {
            let j = crate::ordered::index_of_key(entries, path);
            lemma_found_at(entries, j);
            assert(changed[j] == entries[j]);
            lemma_found_at(changed, j);
        } else if has_key(changed, path) {
            let j = crate::ordered::index_of_key(changed, path);
            assert(entries[j].0 == path);
        }
    }
    lemma_merged_alike(changed, entries);
}

/// Another version of one content that is merged gives the chunk list another
/// version: the versions that its merger merges are others. What stands under
/// the paths stays.
pub proof fn lemma_changed_merged_content_changes_version(
    entries: Seq<Entry>,
    i: int,
    version: u64,
)
    requires
        0 <= i < entries.len(),
        entries[i].1.1.is_some(),
        entries[i].1.0 != version,
    ensures
        version_of(entries.update(i, (entries[i].0, (version, entries[i].1.1)))) != version_of(
            entries,
        ),
        value_of(
            by_merger_of(entries.update(i, (entries[i].0, (version, entries[i].1.1)))),
            entries[i].1.1.unwrap(),
        ) != value_of(by_merger_of(entries), entries[i].1.1.unwrap()),
        by_path_of(entries.update(i, (entries[i].0, (version, entries[i].1.1)))) == by_path_of(
            entries,
        ),
{
    let merger = entries[i].1.1.unwrap();
    let changed = entries.update(i, (entries[i].0, (version, Some(merger))));
    lemma_merged_versions_differ(entries, i, version, merger);
    lemma_by_merger_value(entries, merger);
    lemma_by_merger_value(changed, merger);
    lemma_by_path_alike(changed, entries);
}

/// In entries with distinct keys the entry at `i` is the one found under its
/// key.
proof fn lemma_found_at<K, V>(entries: Seq<(K, V)>, i: int)
    requires
        keys_distinct(entries),
        0 <= i < entries.len(),
    ensures
        has_key(entries, entries[i].0),
        value_of(entries, entries[i].0) == Some(entries[i].1),
{
    assert(has_key(entries, entries[i].0));
    let found = crate::ordered::index_of_key(entries, entries[i].0);
    if found < i {
        assert(entries[found].0 != entries[i].0);
    } else if i < found {
        assert(entries[i].0 != entries[found].0);
    }
}

} // verus!
