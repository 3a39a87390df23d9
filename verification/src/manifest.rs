//! Dynamic imports, split in two: a loader that is cheap to make and goes into
//! the chunk that imports, and a manifest that is made only when it is read
//! and lists the chunks that the import needs.

use vstd::prelude::*;
use crate::chunking_context::{BuildChunkingContext, ContextView, OutputAsset, OutputAssetView,
    asset_chunk, asset_in, asset_views, generated_all, group_chunks, output_path_of};
use crate::fs_path::path_to;
use crate::graph::{ChunkGraph, GraphView};
use crate::ident::{AssetIdent, IdentView, ident_text};
use crate::js::{json_string, json_string_list, json_string_of, write_string_list};
use crate::optimize::{lemma_optimized_keeps_chunks, lemma_optimized_local};
use crate::text::texts;
use crate::traversal::{lemma_parallel_chunks, lemma_parallel_chunks_local, parallel_chunks_of,
    reachable_from, reaches};

verus! {

/// What a loader needs to know of a chunk to load it.
#[derive(Debug, PartialEq, Eq)]
pub struct ChunkData {
    /// The path of the chunk as seen from the output root.
    pub path: String,
    /// The assets that the data of the chunk refers to.
    pub references: Vec<usize>,
}

/// The view of a [`ChunkData`].
pub struct ChunkDataView {
    pub path: Seq<char>,
    pub references: Seq<usize>,
}

impl View for ChunkData {
    type V = ChunkDataView;

    open spec fn view(&self) -> ChunkDataView {
        ChunkDataView { path: self.path@, references: self.references@ }
    }
}

/// What a list of chunk data holds.
pub open spec fn data_views(data: Seq<ChunkData>) -> Seq<ChunkDataView> {
    Seq::new(data.len(), |i: int| data[i]@)
}

/// Something that a loader refers to.
#[derive(Clone, Copy, Debug, PartialEq, Eq, Structural, Hash)]
pub enum AssetReference {
    /// A chunk of the manifest.
    ManifestLoaderChunk(usize),
    /// An asset that the data of a chunk of the manifest refers to.
    ChunkData(usize),
}

impl AssetReference {
    /// What the reference is, in words.
    pub fn description(&self) -> (description: &'static str)
        ensures
            description@ == match *self {
                AssetReference::ManifestLoaderChunk(_) => "manifest loader chunk"@,
                AssetReference::ChunkData(_) => "chunk data"@,
            },
    {
        match self {
            AssetReference::ManifestLoaderChunk(_) => "manifest loader chunk",
            AssetReference::ChunkData(_) => "chunk data",
        }
    }
}

/// Why a loader has no content.
#[derive(Debug, PartialEq, Eq)]
pub enum ManifestError {
    /// The module that is imported, named here by the text of its identity,
    /// cannot be an item of a script chunk.
    NotPlaceable(String),
}

impl ManifestError {
    /// The sentence that tells a user of the error.
    pub fn to_string(&self) -> (message: String)
        ensures
            message@ == "asset is not placeable in ecmascript chunk"@,
    {
        String::from_str("asset is not placeable in ecmascript chunk")
    }
}

/// `ident` with `modifier` after its modifiers.
pub open spec fn modified(ident: IdentView, modifier: Seq<char>) -> IdentView {
    IdentView { path: ident.path, modifiers: ident.modifiers.push(modifier) }
}

/// The identity of the manifest of the import of `asset`.
pub open spec fn manifest_ident_of(graph: GraphView, asset: usize) -> IdentView {
    modified(graph.modules[asset as int].ident, "manifest chunk"@)
}

/// The identity of the loader of the import of `asset`.
pub open spec fn loader_ident_of(graph: GraphView, asset: usize) -> IdentView {
    modified(manifest_ident_of(graph, asset), "loader"@)
}

/// The data of those of `assets` that are written below the output root, in
/// their order.
pub open spec fn chunks_data_of(
    context: ContextView,
    graph: GraphView,
    assets: Seq<OutputAssetView>,
) -> Seq<ChunkDataView>
    decreases assets.len(),
{
    if assets.len() == 0 {
        Seq::empty()
    } else {
        let before = chunks_data_of(context, graph, assets.drop_last());
        match path_to(context.output_root, output_path_of(context, graph, assets.last())) {
            Some(path) => before.push(
                ChunkDataView {
                    path,
                    references: graph.chunks[asset_chunk(assets.last()) as int].references,
                },
            ),
            None => before,
        }
    }
}

/// The paths of `data`, in their order.
pub open spec fn data_paths(data: Seq<ChunkDataView>) -> Seq<Seq<char>> {
    Seq::new(data.len(), |i: int| data[i].path)
}

/// The references of all of `data`, one list after the other.
pub open spec fn data_references(data: Seq<ChunkDataView>) -> Seq<AssetReference>
    decreases data.len(),
{
    if data.len() == 0 {
        Seq::empty()
    } else {
        data_references(data.drop_last()) + Seq::new(
            data.last().references.len(),
            |i: int| AssetReference::ChunkData(data.last().references[i]),
        )
    }
}

/// What a loader refers to: each chunk of the manifest, and then what the data
/// of those chunks refer to.
pub open spec fn loader_references_of(
    context: ContextView,
    graph: GraphView,
    assets: Seq<OutputAssetView>,
) -> Seq<AssetReference> {
    Seq::new(assets.len(), |i: int| AssetReference::ManifestLoaderChunk(asset_chunk(assets[i])))
        + data_references(chunks_data_of(context, graph, assets))
}

/// The script of a loader. When the import is reached it loads the chunks of
/// the manifest, asks the manifest for the chunks that the import needs,
/// loads those, and imports the module.
pub open spec fn loader_code(
    chunk_paths: Seq<Seq<char>>,
    item_id: Seq<char>,
    dynamic_id: Seq<char>,
) -> Seq<char> {
    "__turbopack_export_value__((__turbopack_import__) => {\n    return Promise.all("@
        + json_string_list(chunk_paths)
        + ".map((chunk) => __turbopack_load__(chunk))).then(() => {\n        return __turbopack_require__("@
        + json_string_of(item_id)
        + ");\n    }).then((chunks) => {\n        return Promise.all(chunks.map((chunk) => __turbopack_load__(chunk)));\n    }).then(() => {\n        return __turbopack_import__("@
        + json_string_of(dynamic_id) + ");\n    });\n});\n"@
}

/// The chunks of the manifest itself: the group of the chunk that holds it.
pub open spec fn manifest_chunks_of(graph: &ChunkGraph, chunk: usize) -> Seq<OutputAssetView> {
    generated_all(graph.kinds(), group_chunks(graph.edges(), graph.kinds(), seq![chunk]))
}

/// The content of the loader of a manifest that lies in the chunk `chunk`, for
/// the import of the module `asset`.
pub open spec fn loader_content_of(
    context: ContextView,
    graph: &ChunkGraph,
    asset: usize,
    chunk: usize,
) -> Seq<char> {
    loader_code(
        data_paths(chunks_data_of(context, graph@, manifest_chunks_of(graph, chunk))),
        ident_text(manifest_ident_of(graph@, asset)),
        ident_text(graph@.modules[asset as int].ident),
    )
}

/// The data of those of `assets` that are written below the output root of
/// `context`.
pub fn chunks_data_from(
    context: &BuildChunkingContext,
    graph: &ChunkGraph,
    assets: &Vec<OutputAsset>,
) -> (data: Vec<ChunkData>)
    requires
        forall|j: int| 0 <= j < assets@.len() ==> asset_in(graph@, (#[trigger] assets@[j])@),
    ensures
        data_views(data@) == chunks_data_of(context@, graph@, asset_views(assets@)),
{
    let ghost all = asset_views(assets@);
    let mut data: Vec<ChunkData> = Vec::new();
    let mut i: usize = 0;
    assert(all.subrange(0, 0) =~= Seq::<OutputAssetView>::empty());
    assert(data_views(data@) =~= Seq::<ChunkDataView>::empty());
    while i < assets.len()
        invariant
            i <= assets@.len(),
            all == asset_views(assets@),
            forall|j: int| 0 <= j < assets@.len() ==> asset_in(graph@, (#[trigger] assets@[j])@),
            data_views(data@) == chunks_data_of(context@, graph@, all.subrange(0, i as int)),
        decreases assets@.len() - i,
    {
        let ghost before = data_views(data@);
        let asset = &assets[i];
        proof {
            let upto = all.subrange(0, i + 1);
            assert(upto.drop_last() =~= all.subrange(0, i as int));
            assert(upto.last() == asset@);
            assert(asset_in(graph@, assets@[i as int]@));
        }
        let path = context.output_asset_path(graph, asset);
        match context.output_root().get_path_to(&path) {
            Some(path) => {
                let chunk = match asset {
                    OutputAsset::Chunk(chunk) => *chunk,
                    OutputAsset::EcmascriptChunk(chunk) => *chunk,
                    OutputAsset::Evaluate(evaluate) => evaluate.entry_chunk,
                };
                let references = copy_of(&graph.chunk(chunk).references);
                data.push(ChunkData { path, references });
                assert(data_views(data@) =~= before.push(
                    ChunkDataView {
                        path: path@,
                        references: graph@.chunks[chunk as int].references,
                    },
                ));
            },
            None => {},
        }
        i += 1;
    }
    assert(all.subrange(0, i as int) =~= all);
    data
}

/// What a manifest holds when it is read: the data of the chunks that the
/// import needs, and the name of the module that is imported.
#[derive(Debug, PartialEq, Eq)]
pub struct ManifestContent {
    pub chunks: Vec<ChunkData>,
    pub module_id: String,
}

/// The chunks that the import of the module `asset` needs: the group of its
/// root chunk.
pub open spec fn import_chunks_of(graph: &ChunkGraph, asset: usize) -> Seq<OutputAssetView> {
    generated_all(
        graph.kinds(),
        group_chunks(graph.edges(), graph.kinds(), seq![graph.roots()[asset as int]]),
    )
}

/// The manifest of a dynamic import: the chunks that the imported module
/// needs. They are found when they are first asked for, and kept.
pub struct ManifestChunkAsset {
    /// The module that is imported.
    asset: usize,
    /// The chunk that holds the manifest.
    chunk: usize,
    chunking_context: BuildChunkingContext,
    /// The chunks that the import needs, once they were asked for.
    chunks: Option<Vec<OutputAsset>>,
}

/// The view of a [`ManifestChunkAsset`].
pub struct ManifestView {
    pub asset: usize,
    pub chunk: usize,
    pub chunking_context: ContextView,
    pub chunks: Option<Seq<OutputAssetView>>,
}

impl View for ManifestChunkAsset {
    type V = ManifestView;

    closed spec fn view(&self) -> ManifestView {
        ManifestView {
            asset: self.asset,
            chunk: self.chunk,
            chunking_context: self.chunking_context@,
            chunks: match self.chunks {
                Some(chunks) => Some(asset_views(chunks@)),
                None => None,
            },
        }
    }
}

impl ManifestChunkAsset {
    /// The manifest names a module and a chunk of `graph`.
    pub open spec fn fits(&self, graph: &ChunkGraph) -> bool {
        self@.asset < graph.modules().len() && self@.chunk < graph.chunks().len()
    }

    /// The chunks that were found for the import, if any, are chunks of
    /// `graph`.
    pub open spec fn cache_fits(&self, graph: &ChunkGraph) -> bool {
        match self@.chunks {
            Some(chunks) => forall|j: int|
                0 <= j < chunks.len() ==> asset_in(graph@, #[trigger] chunks[j]),
            None => true,
        }
    }

    /// The manifest for the import of the module `asset`; the manifest itself
    /// lies in the chunk `chunk`. Nothing is computed yet.
    pub fn new(asset: usize, chunk: usize, chunking_context: BuildChunkingContext) -> (manifest:
        ManifestChunkAsset)
        ensures
            manifest@ == (ManifestView {
                asset,
                chunk,
                chunking_context: chunking_context@,
                chunks: None,
            }),
    {
        ManifestChunkAsset { asset, chunk, chunking_context, chunks: None }
    }

    /// The identity of the manifest: that of the imported module with the
    /// modifier `manifest chunk`.
    pub fn ident(&self, graph: &ChunkGraph) -> (ident: AssetIdent)
        requires
            self.fits(graph),
        ensures
            ident@ == manifest_ident_of(graph@, self@.asset),
    {
        graph.module(self.asset).ident.with_modifier("manifest chunk")
    }

    /// The context that the manifest was made for.
    pub fn chunking_context(&self) -> (context: &BuildChunkingContext)
        ensures
            context@ == self@.chunking_context,
    {
        &self.chunking_context
    }

    /// The root chunk of the imported module.
    pub fn entry_chunk(&self, graph: &ChunkGraph) -> (chunk: usize)
        requires
            graph.wf(),
            self.fits(graph),
        ensures
            chunk == graph.roots()[self@.asset as int],
            chunk < graph.chunks().len(),
    {
        graph.module(self.asset).root_chunk
    }

    /// Whether the chunks that the import needs were asked for.
    pub fn is_computed(&self) -> (computed: bool)
        ensures
            computed == self@.chunks.is_some(),
    {
        self.chunks.is_some()
    }

    /// Finds the chunks that the import needs, the group of the root chunk of
    /// the imported module, unless they were found before. Returns whether
    /// they were found now.
    pub fn compute_chunks(&mut self, graph: &ChunkGraph) -> (computed: bool)
        requires
            graph.wf(),
            old(self).fits(graph),
        ensures
            computed == old(self)@.chunks.is_none(),
            final(self)@.asset == old(self)@.asset,
            final(self)@.chunk == old(self)@.chunk,
            final(self)@.chunking_context == old(self)@.chunking_context,
            final(self)@.chunks == match old(self)@.chunks {
                Some(chunks) => Some(chunks),
                None => Some(import_chunks_of(graph, old(self)@.asset)),
            },
            old(self)@.chunks.is_none() ==> final(self).cache_fits(graph),
    {
        if self.chunks.is_some() {
            return false;
        }
        let entry = self.entry_chunk(graph);
        let chunks = self.chunking_context.chunk_group(graph, entry);
        self.chunks = Some(chunks);
        true
    }

    /// The chunks that the import needs, where they were asked for.
    pub fn chunks(&self) -> (chunks: Option<&Vec<OutputAsset>>)
        ensures
            chunks.is_some() == self@.chunks.is_some(),
            chunks.is_some() ==> asset_views(chunks.unwrap()@) == self@.chunks.unwrap(),
    {
        self.chunks.as_ref()
    }

    /// What the manifest holds when it is read: the data of the chunks that
    /// the import needs, which are found now unless they were found before,
    /// and the name of the imported module.
    pub fn content(&mut self, graph: &ChunkGraph) -> (content: ManifestContent)
        requires
            graph.wf(),
            old(self).fits(graph),
            old(self).cache_fits(graph),
        ensures
            final(self)@.asset == old(self)@.asset,
            final(self)@.chunk == old(self)@.chunk,
            final(self)@.chunking_context == old(self)@.chunking_context,
            final(self)@.chunks == match old(self)@.chunks {
                Some(chunks) => Some(chunks),
                None => Some(import_chunks_of(graph, old(self)@.asset)),
            },
            final(self).cache_fits(graph),
            data_views(content.chunks@) == chunks_data_of(
                old(self)@.chunking_context,
                graph@,
                final(self)@.chunks.unwrap(),
            ),
            content.module_id@ == ident_text(graph@.modules[old(self)@.asset as int].ident),
    {
        self.compute_chunks(graph);
        assert(self.cache_fits(graph));
        let module_id = graph.module(self.asset).ident.to_string();
        let chunks = match &self.chunks {
            Some(chunks) => {
                let ghost found = self@.chunks.unwrap();
                assert(found == asset_views(chunks@));
                assert forall|j: int| 0 <= j < chunks@.len() implies asset_in(
                    graph@,
                    (#[trigger] chunks@[j])@,
                ) by {
                    assert(asset_in(graph@, found[j]));
                }
                chunks_data_from(&self.chunking_context, graph, chunks)
            },
            None => Vec::new(),
        };
        ManifestContent { chunks, module_id }
    }

    /// Forgets the chunks that the import needs, so that they are found anew
    /// when they are next asked for.
    pub fn invalidate(&mut self)
        ensures
            final(self)@ == (ManifestView { chunks: None, ..old(self)@ }),
    {
        self.chunks = None;
    }

    /// The chunks of the manifest itself: the group of the chunk that holds
    /// it.
    pub fn manifest_chunks(&self, graph: &ChunkGraph) -> (assets: Vec<OutputAsset>)
        requires
            graph.wf(),
            self.fits(graph),
        ensures
            asset_views(assets@) == manifest_chunks_of(graph, self@.chunk),
            forall|j: int| 0 <= j < assets@.len() ==> asset_in(graph@, (#[trigger] assets@[j])@),
    {
        self.chunking_context.chunk_group(graph, self.chunk)
    }
}

/// The loader of a dynamic import. It lies in the chunk that imports, and
/// knows of the import only the manifest.
pub struct ManifestLoaderItem {
    manifest: ManifestChunkAsset,
}

impl View for ManifestLoaderItem {
    type V = ManifestView;

    closed spec fn view(&self) -> ManifestView {
        self.manifest@
    }
}

impl ManifestLoaderItem {
    /// The loader names a module and a chunk of `graph`.
    pub open spec fn fits(&self, graph: &ChunkGraph) -> bool {
        self@.asset < graph.modules().len() && self@.chunk < graph.chunks().len()
    }

    /// The loader of `manifest`.
    pub fn new(manifest: ManifestChunkAsset) -> (loader: ManifestLoaderItem)
        ensures
            loader@ == manifest@,
    {
        ManifestLoaderItem { manifest }
    }

    /// The manifest of the loader.
    pub fn manifest(&self) -> (manifest: &ManifestChunkAsset)
        ensures
            manifest@ == self@,
    {
        &self.manifest
    }

    /// The identity of the loader: that of the manifest with the modifier
    /// `loader`.
    pub fn asset_ident(&self, graph: &ChunkGraph) -> (ident: AssetIdent)
        requires
            self.fits(graph),
        ensures
            ident@ == loader_ident_of(graph@, self@.asset),
    {
        self.manifest.ident(graph).with_modifier("loader")
    }

    /// The context that the loader was made for.
    pub fn chunking_context(&self) -> (context: &BuildChunkingContext)
        ensures
            context@ == self@.chunking_context,
    {
        self.manifest.chunking_context()
    }

    /// The data of the chunks of the manifest that are written below the
    /// output root.
    pub fn chunks_data(&self, graph: &ChunkGraph) -> (data: Vec<ChunkData>)
        requires
            graph.wf(),
            self.fits(graph),
        ensures
            data_views(data@) == chunks_data_of(
                self@.chunking_context,
                graph@,
                manifest_chunks_of(graph, self@.chunk),
            ),
    {
        let chunks = self.manifest.manifest_chunks(graph);
        chunks_data_from(self.manifest.chunking_context(), graph, &chunks)
    }

    /// What the loader refers to: each chunk of the manifest, and what the
    /// data of those chunks refer to.
    pub fn references(&self, graph: &ChunkGraph) -> (references: Vec<AssetReference>)
        requires
            graph.wf(),
            self.fits(graph),
        ensures
            references@ == loader_references_of(
                self@.chunking_context,
                graph@,
                manifest_chunks_of(graph, self@.chunk),
            ),
    {
        let chunks = self.manifest.manifest_chunks(graph);
        let ghost all = asset_views(chunks@);
        let mut references: Vec<AssetReference> = Vec::new();
        let mut i: usize = 0;
        while i < chunks.len()
            invariant
                i <= chunks@.len(),
                all == asset_views(chunks@),
                references@ == Seq::new(
                    i as nat,
                    |k: int| AssetReference::ManifestLoaderChunk(asset_chunk(all[k])),
                ),
            decreases chunks@.len() - i,
        {
            let chunk = match &chunks[i] {
                OutputAsset::Chunk(chunk) => *chunk,
                OutputAsset::EcmascriptChunk(chunk) => *chunk,
                OutputAsset::Evaluate(evaluate) => evaluate.entry_chunk,
            };
            assert(chunk == asset_chunk(all[i as int]));
            references.push(AssetReference::ManifestLoaderChunk(chunk));
            assert(references@ =~= Seq::new(
                (i + 1) as nat,
                |k: int| AssetReference::ManifestLoaderChunk(asset_chunk(all[k])),
            ));
            i += 1;
        }
        let ghost first = references@;
        let data = self.chunks_data(graph);
        let ghost views = data_views(data@);
        let mut k: usize = 0;
        assert(views.subrange(0, 0) =~= Seq::<ChunkDataView>::empty());
        assert(references@ =~= first + data_references(views.subrange(0, 0)));
        while k < data.len()
            invariant
                k <= data@.len(),
                views == data_views(data@),
                references@ == first + data_references(views.subrange(0, k as int)),
            decreases data@.len() - k,
        {
            let ghost start = references@;
            let chunk_data = &data[k];
            proof {
                let upto = views.subrange(0, k + 1);
                assert(upto.drop_last() =~= views.subrange(0, k as int));
                assert(upto.last() == chunk_data@);
            }
            let mut r: usize = 0;
            while r < chunk_data.references.len()
                invariant
                    r <= chunk_data.references@.len(),
                    references@ == start + Seq::new(
                        r as nat,
                        |i: int| AssetReference::ChunkData(chunk_data.references@[i]),
                    ),
                decreases chunk_data.references@.len() - r,
            {
                references.push(AssetReference::ChunkData(chunk_data.references[r]));
                assert(references@ =~= start + Seq::new(
                    (r + 1) as nat,
                    |i: int| AssetReference::ChunkData(chunk_data.references@[i]),
                ));
                r += 1;
            }
            assert(references@ =~= first + data_references(views.subrange(0, k + 1)));
            k += 1;
        }
        assert(views.subrange(0, k as int) =~= views);
        assert(first =~= Seq::new(
            all.len(),
            |i: int| AssetReference::ManifestLoaderChunk(asset_chunk(all[i])),
        ));
        references
    }

    /// The script of the loader. The imported module must be one that can be
    /// an item of a script chunk.
    pub fn content(&self, graph: &ChunkGraph) -> (result: Result<String, ManifestError>)
        requires
            graph.wf(),
            self.fits(graph),
        ensures
            match result {
                Ok(code) => graph@.modules[self@.asset as int].placeable && code@
                    == loader_content_of(self@.chunking_context, graph, self@.asset, self@.chunk),
                Err(ManifestError::NotPlaceable(name)) => !graph@.modules[self@.asset as int].placeable
                    && name@ == ident_text(graph@.modules[self@.asset as int].ident),
            },
    {
        let data = self.chunks_data(graph);
        let mut paths: Vec<String> = Vec::new();
        let mut i: usize = 0;
        while i < data.len()
            invariant
                i <= data@.len(),
                paths@.len() == i,
                forall|j: int| 0 <= j < i ==> paths@[j]@ == data@[j].path@,
            decreases data@.len() - i,
        {
            paths.push(data[i].path.clone());
            i += 1;
        }
        assert(texts(paths@) =~= data_paths(data_views(data@)));
        let item_id = self.manifest.ident(graph).to_string();
        let module = graph.module(self.manifest.asset);
        if !module.placeable {
            return Err(ManifestError::NotPlaceable(module.ident.to_string()));
        }
        let dynamic_id = module.ident.to_string();
        let mut code = String::from_str(
            "__turbopack_export_value__((__turbopack_import__) => {\n    return Promise.all(",
        );
        code.append(write_string_list(&paths).as_str());
        code.append(
            ".map((chunk) => __turbopack_load__(chunk))).then(() => {\n        return __turbopack_require__(",
        );
        code.append(json_string(item_id.as_str()).as_str());
        code.append(
            ");\n    }).then((chunks) => {\n        return Promise.all(chunks.map((chunk) => __turbopack_load__(chunk)));\n    }).then(() => {\n        return __turbopack_import__(",
        );
        code.append(json_string(dynamic_id.as_str()).as_str());
        code.append(");\n    });\n});\n");
        Ok(code)
    }
}

/// A copy of `list`.
fn copy_of(list: &Vec<usize>) -> (copy: Vec<usize>)
    ensures
        copy@ == list@,
{
    let mut copy: Vec<usize> = Vec::new();
    let mut i: usize = 0;
    while i < list.len()
        invariant
            i <= list@.len(),
            copy@ == list@.subrange(0, i as int),
        decreases list@.len() - i,
    {
        copy.push(list[i]);
        assert(copy@ =~= list@.subrange(0, i + 1));
        i += 1;
    }
    assert(list@.subrange(0, i as int) =~= list@);
    copy
}


/// The data of output assets looks only at the chunks that the assets stand
/// for.
proof fn lemma_chunks_data_local(
    context: ContextView,
    graph: GraphView,
    other: GraphView,
    assets: Seq<OutputAssetView>,
)
    requires
        forall|i: int|
            0 <= i < assets.len() ==> graph.chunks[asset_chunk(#[trigger] assets[i]) as int]
                == other.chunks[asset_chunk(assets[i]) as int],
    ensures
        chunks_data_of(context, graph, assets) == chunks_data_of(context, other, assets),
    decreases assets.len(),
{
    if assets.len() > 0 {
        let rest = assets.drop_last();
        assert forall|i: int| 0 <= i < rest.len() implies graph.chunks[asset_chunk(
            #[trigger] rest[i],
        ) as int] == other.chunks[asset_chunk(rest[i]) as int] by {
            assert(rest[i] == assets[i]);
        }
        lemma_chunks_data_local(context, graph, other, rest);
        let last = assets[assets.len() - 1];
        assert(graph.chunks[asset_chunk(last) as int] == other.chunks[asset_chunk(last) as int]);
    }
}

/// A loader does not depend on what its import leads to. Of two graphs that
/// hold the same imported module and agree on every chunk that can be reached
/// from the chunk of the manifest, the loader has the same identity, the same
/// chunk data, the same references and the same content. What lies only
/// behind the imported module may differ: it shows in the chunks that the
/// manifest finds when it is read, and nowhere in the loader.
pub proof fn lemma_loader_isolated(
    context: ContextView,
    graph: &ChunkGraph,
    other: &ChunkGraph,
    asset: usize,
    chunk: usize,
)
    requires
        graph.wf(),
        other.wf(),
        graph.chunks().len() == other.chunks().len(),
        chunk < graph.chunks().len(),
        asset < graph.modules().len(),
        asset < other.modules().len(),
        graph@.modules[asset as int].ident == other@.modules[asset as int].ident,
        forall|x: usize|
            x < graph.chunks().len() && reaches(graph.edges(), chunk, x) ==> #[trigger] graph@.chunks[x as int]
                == other@.chunks[x as int],
    ensures
        loader_ident_of(graph@, asset) == loader_ident_of(other@, asset),
        manifest_chunks_of(graph, chunk) == manifest_chunks_of(other, chunk),
        chunks_data_of(context, graph@, manifest_chunks_of(graph, chunk)) == chunks_data_of(
            context,
            other@,
            manifest_chunks_of(other, chunk),
        ),
        loader_references_of(context, graph@, manifest_chunks_of(graph, chunk))
            == loader_references_of(context, other@, manifest_chunks_of(other, chunk)),
        loader_content_of(context, graph, asset, chunk) == loader_content_of(
            context,
            other,
            asset,
            chunk,
        ),
{
    let entries = seq![chunk];
    let edges = graph.edges();
    assert forall|x: usize|
        x < edges.len() && reachable_from(edges, entries, x) implies #[trigger] edges[x as int]
        == other.edges()[x as int] by {
        let i = choose|i: int| 0 <= i < entries.len() && #[trigger] reaches(edges, entries[i], x);
        assert(entries[i] == chunk);
        assert(graph@.chunks[x as int] == other@.chunks[x as int]);
    }
    lemma_parallel_chunks_local(edges, other.edges(), entries);
    lemma_parallel_chunks(edges, entries);
    let found = parallel_chunks_of(edges, entries);
    assert forall|i: int| 0 <= i < found.len() implies graph.kinds()[(#[trigger] found[i]) as int]
        == other.kinds()[found[i] as int] && graph@.chunks[found[i] as int]
        == other@.chunks[found[i] as int] by {
        assert(found.contains(found[i]));
        assert(reachable_from(edges, entries, found[i]));
        let k = choose|k: int|
            0 <= k < entries.len() && #[trigger] reaches(edges, entries[k], found[i]);
        assert(entries[k] == chunk);
        assert(graph@.chunks[found[i] as int] == other@.chunks[found[i] as int]);
    }
    lemma_optimized_local(graph.kinds(), other.kinds(), found);
    lemma_optimized_keeps_chunks(graph.kinds(), found);
    let group = group_chunks(edges, graph.kinds(), entries);
    assert(group == group_chunks(other.edges(), other.kinds(), entries));
    assert forall|i: int| 0 <= i < group.len() implies graph.kinds()[(#[trigger] group[i]) as int]
        == other.kinds()[group[i] as int] && graph@.chunks[group[i] as int]
        == other@.chunks[group[i] as int] by {
        assert(group.contains(group[i]));
        assert(found.contains(group[i]));
        let j = choose|j: int| 0 <= j < found.len() && found[j] == group[i];
        assert(graph@.chunks[found[j] as int] == other@.chunks[found[j] as int]);
    }
    let assets = manifest_chunks_of(graph, chunk);
    assert(assets =~= manifest_chunks_of(other, chunk));
    assert forall|i: int| 0 <= i < assets.len() implies graph@.chunks[asset_chunk(
        #[trigger] assets[i],
    ) as int] == other@.chunks[asset_chunk(assets[i]) as int] by {
        assert(asset_chunk(assets[i]) == group[i]);
    }
    lemma_chunks_data_local(context, graph@, other@, assets);
}

} // verus!
