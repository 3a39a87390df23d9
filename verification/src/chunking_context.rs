//! The chunking context for builds: where chunks and assets are written, which
//! assets may share a chunk, and which output assets make up a chunk group.

use vstd::prelude::*;
use crate::evaluatable_assets::{EvaluatableAssets, deduped, lemma_deduped};
use crate::fs_path::{FileSystemPath, file_stem_of, extension_of, joined, parent_of, path_to};
use crate::graph::{ChunkGraph, ChunkKind, GraphView};
use crate::ident::{AssetIdent, IdentView, output_name_of};
use crate::optimize::{get_optimized_chunks, kind_rank, lemma_optimized_idempotent,
    lemma_optimized_keeps_chunks, lemma_optimized_ranks, optimized};
use crate::ordered::{set_get_index, set_insert, set_items, set_len, set_new};
use crate::runtime::{Environment, RuntimeType};
use crate::text::{chars_of, has_prefix, has_within, occurs_in, starts_with, string_of_range};
use crate::traversal::{edges_wf, get_parallel_chunks, lemma_parallel_chunks,
    lemma_parallel_chunks_closed, lemma_reaches_self, nodes_in, parallel_chunks_of,
    reachable_from, reaches};

verus! {

/// The chunk that evaluates modules once the chunks of its group have loaded.
#[derive(Debug, PartialEq, Eq)]
pub struct EvaluateChunk {
    /// The chunk of the entry.
    pub entry_chunk: usize,
    /// The chunks of the group, in the order of emission.
    pub other_chunks: Vec<usize>,
    /// The modules to evaluate, in order.
    pub evaluatable_assets: Vec<usize>,
    /// The module whose value the chunk exports, if any.
    pub exported_module: Option<usize>,
}

/// The view of an [`EvaluateChunk`].
pub struct EvaluateChunkView {
    pub entry_chunk: usize,
    pub other_chunks: Seq<usize>,
    pub evaluatable_assets: Seq<usize>,
    pub exported_module: Option<usize>,
}

impl View for EvaluateChunk {
    type V = EvaluateChunkView;

    open spec fn view(&self) -> EvaluateChunkView {
        EvaluateChunkView {
            entry_chunk: self.entry_chunk,
            other_chunks: self.other_chunks@,
            evaluatable_assets: self.evaluatable_assets@,
            exported_module: self.exported_module,
        }
    }
}

/// Something that is written out for a chunk group.
#[derive(Debug, PartialEq, Eq)]
pub enum OutputAsset {
    /// A chunk that is written as it is.
    Chunk(usize),
    /// A script chunk, wrapped in what the runtime needs to register it.
    EcmascriptChunk(usize),
    /// The chunk that evaluates the modules of the group.
    Evaluate(EvaluateChunk),
}

/// The view of an [`OutputAsset`].
pub enum OutputAssetView {
    Chunk(usize),
    EcmascriptChunk(usize),
    Evaluate(EvaluateChunkView),
}

impl View for OutputAsset {
    type V = OutputAssetView;

    open spec fn view(&self) -> OutputAssetView {
        match self {
            OutputAsset::Chunk(chunk) => OutputAssetView::Chunk(*chunk),
            OutputAsset::EcmascriptChunk(chunk) => OutputAssetView::EcmascriptChunk(*chunk),
            OutputAsset::Evaluate(evaluate) => OutputAssetView::Evaluate(evaluate@),
        }
    }
}

/// What a list of output assets holds.
pub open spec fn asset_views(assets: Seq<OutputAsset>) -> Seq<OutputAssetView> {
    Seq::new(assets.len(), |i: int| assets[i]@)
}

/// The output asset for a chunk: a script chunk is wrapped, every other chunk
/// passes through.
pub open spec fn generated(kinds: Seq<ChunkKind>, chunk: usize) -> OutputAssetView {
    if kinds[chunk as int] == ChunkKind::Ecmascript {
        OutputAssetView::EcmascriptChunk(chunk)
    } else {
        OutputAssetView::Chunk(chunk)
    }
}

/// The output assets for `chunks`, in their order.
pub open spec fn generated_all(kinds: Seq<ChunkKind>, chunks: Seq<usize>) -> Seq<OutputAssetView> {
    Seq::new(chunks.len(), |i: int| generated(kinds, chunks[i]))
}

/// The chunks of the group of `entries`: those that load together with them,
/// in the order of emission.
pub open spec fn group_chunks(
    edges: Seq<Seq<usize>>,
    kinds: Seq<ChunkKind>,
    entries: Seq<usize>,
) -> Seq<usize> {
    optimized(kinds, parallel_chunks_of(edges, entries))
}

/// The root chunks of `modules`, in their order.
pub open spec fn roots_of(roots: Seq<usize>, modules: Seq<usize>) -> Seq<usize> {
    Seq::new(modules.len(), |i: int| roots[modules[i] as int])
}

/// The chunks from which the group of an evaluated entry is found: the root
/// chunks of the modules to run and then the chunk of the entry, each where it
/// first stands.
pub open spec fn evaluate_roots(roots: Seq<usize>, modules: Seq<usize>, entry_chunk: usize) -> Seq<
    usize,
> {
    deduped(roots_of(roots, modules).push(entry_chunk))
}

/// The output asset is made of chunks of `graph`.
pub open spec fn asset_in(graph: GraphView, asset: OutputAssetView) -> bool {
    match asset {
        OutputAssetView::Chunk(chunk) => chunk < graph.chunks.len(),
        OutputAssetView::EcmascriptChunk(chunk) => chunk < graph.chunks.len(),
        OutputAssetView::Evaluate(evaluate) => evaluate.entry_chunk < graph.chunks.len(),
    }
}

/// The chunk that an output asset stands for; for the chunk that evaluates,
/// the chunk of the entry.
pub open spec fn asset_chunk(asset: OutputAssetView) -> usize {
    match asset {
        OutputAssetView::Chunk(chunk) => chunk,
        OutputAssetView::EcmascriptChunk(chunk) => chunk,
        OutputAssetView::Evaluate(evaluate) => evaluate.entry_chunk,
    }
}

/// The identity of an output asset: that of its chunk; for the chunk that
/// evaluates, that of the chunk of the entry with a modifier of its own.
pub open spec fn output_ident_of(graph: GraphView, asset: OutputAssetView) -> IdentView {
    match asset {
        OutputAssetView::Evaluate(evaluate) => IdentView {
            path: graph.chunks[evaluate.entry_chunk as int].ident.path,
            modifiers: graph.chunks[evaluate.entry_chunk as int].ident.modifiers.push(
                "ecmascript build node evaluate chunk"@,
            ),
        },
        other => graph.chunks[asset_chunk(other) as int].ident,
    }
}

/// Where an output asset is written: a chunk that passes through, at its own
/// path; a script chunk and the chunk that evaluates, at their chunk path with
/// the extension `.js`.
pub open spec fn output_path_of(
    context: ContextView,
    graph: GraphView,
    asset: OutputAssetView,
) -> Seq<char> {
    match asset {
        OutputAssetView::Chunk(chunk) => graph.chunks[chunk as int].ident.path,
        other => chunk_path_of(context, output_ident_of(graph, other), ".js"@),
    }
}

/// The view of a [`BuildChunkingContext`].
pub struct ContextView {
    pub context_path: Seq<char>,
    pub output_root: Seq<char>,
    pub chunk_root_path: Seq<char>,
    pub asset_root_path: Seq<char>,
    pub layer: Option<Seq<char>>,
    pub environment: Environment,
    pub runtime_type: RuntimeType,
}

/// The name of the layer of a context; empty where it has none.
pub open spec fn layer_of(context: ContextView) -> Seq<char> {
    match context.layer {
        Some(layer) => layer,
        None => Seq::empty(),
    }
}

/// `context` with the layer `layer`; the empty name takes the layer away.
pub open spec fn with_layer_of(context: ContextView, layer: Seq<char>) -> ContextView {
    ContextView {
        layer: if layer.len() == 0 {
            None
        } else {
            Some(layer)
        },
        ..context
    }
}

/// Where the chunks of a context are written: the chunk root, or the
/// directory of the layer below it.
pub open spec fn layered_chunk_root(context: ContextView) -> Seq<char> {
    match context.layer {
        Some(layer) => joined(context.chunk_root_path, layer),
        None => context.chunk_root_path,
    }
}

/// The path of the chunk with the identity `ident` and the extension
/// `extension`.
pub open spec fn chunk_path_of(context: ContextView, ident: IdentView, extension: Seq<char>) -> Seq<
    char,
> {
    joined(layered_chunk_root(context), output_name_of(ident, context.context_path, extension))
}

/// The file name of a static asset: the stem of its source, the first eight
/// characters of the hash of its content, and the extension of its source
/// where it has one, with `.` between them.
pub open spec fn asset_name_of(content_hash: Seq<char>, source: Seq<char>) -> Seq<char> {
    let stamped = file_stem_of(source) + seq!['.'] + content_hash.subrange(0, 8);
    match extension_of(source) {
        Some(extension) => stamped + seq!['.'] + extension,
        None => stamped,
    }
}

/// The asset at `b` may share a chunk with the asset at `a`: `b` lies below
/// the directory of `a`, and the way down to it passes no `node_modules`.
pub open spec fn same_chunk_allowed(a: Seq<char>, b: Seq<char>) -> bool {
    match path_to(parent_of(a), b) {
        Some(way) => !starts_with(way, "node_modules/"@) && !occurs_in(way, "/node_modules/"@),
        None => false,
    }
}

/// Finding the group of a group finds nothing new. The chunks of the group of
/// `entries`, taken as entries, have a group of the same chunks, none twice;
/// both groups stand script chunks first, then style chunks, then the others;
/// and to order a group again changes nothing.
pub proof fn lemma_group_chunks_stable(
    edges: Seq<Seq<usize>>,
    kinds: Seq<ChunkKind>,
    entries: Seq<usize>,
)
    requires
        edges_wf(edges),
        nodes_in(edges, entries),
        kinds.len() == edges.len(),
    ensures
        group_chunks(edges, kinds, entries).no_duplicates(),
        nodes_in(edges, group_chunks(edges, kinds, entries)),
        group_chunks(edges, kinds, group_chunks(edges, kinds, entries)).no_duplicates(),
        forall|x: usize|
            group_chunks(edges, kinds, group_chunks(edges, kinds, entries)).contains(x)
                <==> group_chunks(edges, kinds, entries).contains(x),
        optimized(kinds, group_chunks(edges, kinds, entries)) == group_chunks(
            edges,
            kinds,
            entries,
        ),
        forall|i: int, j: int|
            0 <= i <= j < group_chunks(edges, kinds, entries).len() ==> kind_rank(
                kinds[group_chunks(edges, kinds, entries)[i] as int],
            ) <= kind_rank(kinds[group_chunks(edges, kinds, entries)[j] as int]),
{
    let found = parallel_chunks_of(edges, entries);
    let group = group_chunks(edges, kinds, entries);
    lemma_parallel_chunks(edges, entries);
    lemma_parallel_chunks_closed(edges, entries);
    lemma_optimized_keeps_chunks(kinds, found);
    lemma_optimized_idempotent(kinds, found);
    lemma_optimized_ranks(kinds, found);
    assert forall|i: int| 0 <= i < group.len() implies (#[trigger] group[i]) < edges.len() by {
        assert(group.contains(group[i]));
        assert(found.contains(group[i]));
        let j = choose|j: int| 0 <= j < found.len() && found[j] == group[i];
        assert(found[j] < edges.len());
    }
    let again = parallel_chunks_of(edges, group);
    lemma_parallel_chunks(edges, group);
    lemma_parallel_chunks(edges, found);
    lemma_optimized_keeps_chunks(kinds, again);
    assert forall|x: usize| optimized(kinds, again).contains(x) <==> group.contains(x) by {
        // Both walks find what can be reached, and the group holds what the
        // first walk found.
        assert(optimized(kinds, again).contains(x) <==> again.contains(x));
        assert(again.contains(x) <==> reachable_from(edges, group, x));
        assert(parallel_chunks_of(edges, found).contains(x) <==> reachable_from(edges, found, x));
        assert(parallel_chunks_of(edges, found).contains(x) <==> found.contains(x));
        assert(group.contains(x) <==> found.contains(x));
        if reachable_from(edges, group, x) {
            let i = choose|i: int| 0 <= i < group.len() && #[trigger] reaches(edges, group[i], x);
            assert(group.contains(group[i]));
            assert(found.contains(group[i]));
            let j = choose|j: int| 0 <= j < found.len() && found[j] == group[i];
            assert(reaches(edges, found[j], x));
            assert(reachable_from(edges, found, x));
        }
        if reachable_from(edges, found, x) {
            let j = choose|j: int| 0 <= j < found.len() && #[trigger] reaches(edges, found[j], x);
            assert(found.contains(found[j]));
            assert(group.contains(found[j]));
            let i = choose|i: int| 0 <= i < group.len() && group[i] == found[j];
            assert(reaches(edges, group[i], x));
            assert(reachable_from(edges, group, x));
        }
    }
}

/// Asking a context with a layer for its layer gives the name back, and the
/// empty name gives a context without a layer, whatever layer it had.
pub proof fn lemma_layer_round_trip(context: ContextView, layer: Seq<char>)
    ensures
        layer_of(with_layer_of(context, layer)) == layer,
        with_layer_of(context, Seq::empty()).layer.is_none(),
        context.layer.is_none() ==> with_layer_of(context, Seq::empty()) == context,
        with_layer_of(with_layer_of(context, layer), Seq::empty()) == with_layer_of(
            context,
            Seq::empty(),
        ),
{
    if layer.len() == 0 {
        assert(layer =~= Seq::<char>::empty());
    }
}

/// A chunking context for builds. It is a value: a context is never changed,
/// and a context with another layer is a new context.
#[derive(Debug, PartialEq, Eq, PartialOrd, Ord, Hash)]
pub struct BuildChunkingContext {
    /// This path is taken off the paths of chunks before their output names
    /// are made.
    context_path: FileSystemPath,
    /// The paths under which chunks and assets are asked for start here.
    output_root: FileSystemPath,
    /// Chunks are placed here.
    chunk_root_path: FileSystemPath,
    /// Static assets are placed here.
    asset_root_path: FileSystemPath,
    /// The name of the layer within this context.
    layer: Option<String>,
    /// The environment that chunks are evaluated in.
    environment: Environment,
    /// The kind of runtime to include in the output.
    runtime_type: RuntimeType,
}

/// A builder for a [`BuildChunkingContext`].
pub struct BuildChunkingContextBuilder {
    context: BuildChunkingContext,
}

impl View for BuildChunkingContext {
    type V = ContextView;

    closed spec fn view(&self) -> ContextView {
        ContextView {
            context_path: self.context_path@,
            output_root: self.output_root@,
            chunk_root_path: self.chunk_root_path@,
            asset_root_path: self.asset_root_path@,
            layer: match self.layer {
                Some(layer) => Some(layer@),
                None => None,
            },
            environment: self.environment,
            runtime_type: self.runtime_type,
        }
    }
}

impl View for BuildChunkingContextBuilder {
    type V = ContextView;

    closed spec fn view(&self) -> ContextView {
        self.context@
    }
}

impl Clone for BuildChunkingContext {
    fn clone(&self) -> (result: BuildChunkingContext)
        ensures
            result@ == self@,
    {
        BuildChunkingContext {
            context_path: self.context_path.clone(),
            output_root: self.output_root.clone(),
            chunk_root_path: self.chunk_root_path.clone(),
            asset_root_path: self.asset_root_path.clone(),
            layer: match &self.layer {
                Some(layer) => Some(layer.clone()),
                None => None,
            },
            environment: self.environment,
            runtime_type: self.runtime_type,
        }
    }
}

impl BuildChunkingContextBuilder {
    /// Sets the kind of runtime.
    pub fn runtime_type(self, runtime_type: RuntimeType) -> (builder: BuildChunkingContextBuilder)
        ensures
            builder@ == (ContextView { runtime_type, ..self@ }),
    {
        let mut context = self.context;
        context.runtime_type = runtime_type;
        BuildChunkingContextBuilder { context }
    }

    /// Builds the chunking context.
    pub fn build(self) -> (context: BuildChunkingContext)
        ensures
            context@ == self@,
    {
        self.context
    }
}

impl BuildChunkingContext {
    /// A builder for a context with the given paths and environment, without
    /// a layer and with the default runtime.
    pub fn builder(
        context_path: FileSystemPath,
        output_root: FileSystemPath,
        chunk_root_path: FileSystemPath,
        asset_root_path: FileSystemPath,
        environment: Environment,
    ) -> (builder: BuildChunkingContextBuilder)
        ensures
            builder@ == (ContextView {
                context_path: context_path@,
                output_root: output_root@,
                chunk_root_path: chunk_root_path@,
                asset_root_path: asset_root_path@,
                layer: None,
                environment,
                runtime_type: RuntimeType::Default,
            }),
    {
        BuildChunkingContextBuilder {
            context: BuildChunkingContext {
                context_path,
                output_root,
                chunk_root_path,
                asset_root_path,
                layer: None,
                environment,
                runtime_type: RuntimeType::default(),
            },
        }
    }

    /// Whether the two contexts are the same: contexts are values, and two
    /// with the same fields are one context.
    pub fn same(&self, other: &BuildChunkingContext) -> (same: bool)
        ensures
            same == (self@ == other@),
    {
        let layers = match &self.layer {
            Some(layer) => match &other.layer {
                Some(other_layer) => *layer == *other_layer,
                None => false,
            },
            None => other.layer.is_none(),
        };
        layers && self.context_path.same(&other.context_path) && self.output_root.same(
            &other.output_root,
        ) && self.chunk_root_path.same(&other.chunk_root_path) && self.asset_root_path.same(
            &other.asset_root_path,
        ) && self.environment == other.environment && self.runtime_type == other.runtime_type
    }

    /// The kind of runtime to include in output chunks.
    pub fn runtime_type(&self) -> (runtime_type: RuntimeType)
        ensures
            runtime_type == self@.runtime_type,
    {
        self.runtime_type
    }

    /// The path that is taken off the paths of chunks.
    pub fn context_path(&self) -> (path: &FileSystemPath)
        ensures
            path@ == self@.context_path,
    {
        &self.context_path
    }

    /// The root of what is written out.
    pub fn output_root(&self) -> (path: &FileSystemPath)
        ensures
            path@ == self@.output_root,
    {
        &self.output_root
    }

    /// The environment that chunks are evaluated in.
    pub fn environment(&self) -> (environment: Environment)
        ensures
            environment == self@.environment,
    {
        self.environment
    }

    /// The path at which the chunk with the identity `ident` is written with
    /// the extension `extension`.
    pub fn chunk_path(&self, ident: &AssetIdent, extension: &str) -> (path: FileSystemPath)
        ensures
            path@ == chunk_path_of(self@, ident@, extension@),
    {
        let name = ident.output_name(&self.context_path, extension);
        match &self.layer {
            Some(layer) => self.chunk_root_path.join(layer.as_str()).join(name.as_str()),
            None => self.chunk_root_path.join(name.as_str()),
        }
    }

    /// Whether chunks refer to their source maps. They always do.
    pub fn reference_chunk_source_maps(&self, _chunk: &OutputAsset) -> (referenced: bool)
        ensures
            referenced,
    {
        true
    }

    /// Whether the asset `asset_b` may be put into the chunk of `asset_a`.
    pub fn can_be_in_same_chunk(&self, asset_a: &AssetIdent, asset_b: &AssetIdent) -> (allowed:
        bool)
        ensures
            allowed == same_chunk_allowed(asset_a@.path, asset_b@.path),
    {
        let parent_dir = asset_a.path().parent();
        match parent_dir.get_path_to(asset_b.path()) {
            Some(rel_path) => {
                let way = chars_of(rel_path.as_str());
                !has_prefix(&way, &chars_of("node_modules/")) && !has_within(
                    &way,
                    &chars_of("/node_modules/"),
                )
            },
            None => false,
        }
    }

    /// The path at which the static asset with the identity
    /// `original_asset_ident` is written, given the hash of its content, of
    /// which the first eight characters go into the name.
    pub fn asset_path(&self, content_hash: &str, original_asset_ident: &AssetIdent) -> (path:
        FileSystemPath)
        requires
            content_hash@.len() >= 8,
        ensures
            path@ == joined(
                self@.asset_root_path,
                asset_name_of(content_hash@, original_asset_ident@.path),
            ),
    {
        let source_path = original_asset_ident.path();
        let hash = chars_of(content_hash);
        let mut name = source_path.file_stem();
        name.push('.');
        name.append(string_of_range(&hash, 0, 8).as_str());
        match source_path.extension() {
            Some(extension) => {
                name.push('.');
                name.append(extension.as_str());
            },
            None => {},
        }
        self.asset_root_path.join(name.as_str())
    }

    /// The name of the layer; empty where the context has none.
    pub fn layer(&self) -> (layer: String)
        ensures
            layer@ == layer_of(self@),
    {
        match &self.layer {
            Some(layer) => layer.clone(),
            None => String::new(),
        }
    }

    /// This context with the layer `layer`; the empty name takes the layer
    /// away.
    pub fn with_layer(&self, layer: &str) -> (context: BuildChunkingContext)
        ensures
            context@ == with_layer_of(self@, layer@),
    {
        let mut context = self.clone();
        context.layer = if layer.unicode_len() == 0 {
            None
        } else {
            Some(String::from_str(layer))
        };
        context
    }

    /// The identity of an output asset.
    pub fn output_asset_ident(&self, graph: &ChunkGraph, asset: &OutputAsset) -> (ident:
        AssetIdent)
        requires
            asset_in(graph@, asset@),
        ensures
            ident@ == output_ident_of(graph@, asset@),
    {
        match asset {
            OutputAsset::Chunk(chunk) => graph.chunk(*chunk).ident.clone(),
            OutputAsset::EcmascriptChunk(chunk) => graph.chunk(*chunk).ident.clone(),
            OutputAsset::Evaluate(evaluate) => graph.chunk(evaluate.entry_chunk).ident.with_modifier(
                "ecmascript build node evaluate chunk",
            ),
        }
    }

    /// Where an output asset is written.
    pub fn output_asset_path(&self, graph: &ChunkGraph, asset: &OutputAsset) -> (path:
        FileSystemPath)
        requires
            asset_in(graph@, asset@),
        ensures
            path@ == output_path_of(self@, graph@, asset@),
    {
        match asset {
            OutputAsset::Chunk(chunk) => graph.chunk(*chunk).ident.path().clone(),
            _ => {
                let ident = self.output_asset_ident(graph, asset);
                self.chunk_path(&ident, ".js")
            },
        }
    }

    /// The output asset for the chunk `chunk`.
    pub fn generate_chunk(&self, graph: &ChunkGraph, chunk: usize) -> (asset: OutputAsset)
        requires
            chunk < graph.chunks().len(),
        ensures
            asset@ == generated(graph.kinds(), chunk),
    {
        match graph.chunk(chunk).kind {
            ChunkKind::Ecmascript => OutputAsset::EcmascriptChunk(chunk),
            _ => OutputAsset::Chunk(chunk),
        }
    }

    /// The output assets for `chunks`, in their order.
    fn generate_chunks(&self, graph: &ChunkGraph, chunks: &Vec<usize>) -> (assets: Vec<
        OutputAsset,
    >)
        requires
            nodes_in(graph.edges(), chunks@),
        ensures
            asset_views(assets@) == generated_all(graph.kinds(), chunks@),
            forall|j: int| 0 <= j < assets@.len() ==> asset_in(graph@, (#[trigger] assets@[j])@),
    {
        let mut assets: Vec<OutputAsset> = Vec::new();
        let mut i: usize = 0;
        while i < chunks.len()
            invariant
                i <= chunks@.len(),
                nodes_in(graph.edges(), chunks@),
                assets@.len() == i,
                forall|j: int| 0 <= j < i ==> assets@[j]@ == generated(graph.kinds(), chunks@[j]),
                forall|j: int| 0 <= j < i ==> asset_in(graph@, (#[trigger] assets@[j])@),
            decreases chunks@.len() - i,
        {
            assert(chunks@[i as int] < graph.edges().len());
            assets.push(self.generate_chunk(graph, chunks[i]));
            i += 1;
        }
        assert(asset_views(assets@) =~= generated_all(graph.kinds(), chunks@));
        assets
    }

    /// The chunk that evaluates `evaluatable_assets` once `other_chunks` have
    /// loaded.
    pub fn generate_evaluate_chunk(
        &self,
        entry_chunk: usize,
        other_chunks: Vec<usize>,
        evaluatable_assets: &EvaluatableAssets,
        exported_module: Option<usize>,
    ) -> (asset: OutputAsset)
        ensures
            asset@ == OutputAssetView::Evaluate(
                EvaluateChunkView {
                    entry_chunk,
                    other_chunks: other_chunks@,
                    evaluatable_assets: evaluatable_assets@,
                    exported_module,
                },
            ),
    {
        OutputAsset::Evaluate(
            EvaluateChunk {
                entry_chunk,
                other_chunks,
                evaluatable_assets: evaluatable_assets.to_vec(),
                exported_module,
            },
        )
    }

    /// The chunks of the group of an evaluated entry, in the order of
    /// emission: what loads together with the root chunks of the modules to
    /// run and with the chunk of the entry.
    pub fn get_evaluate_chunks(
        &self,
        graph: &ChunkGraph,
        entry_chunk: usize,
        evaluatable_assets: &EvaluatableAssets,
    ) -> (chunks: Vec<usize>)
        requires
            graph.wf(),
            entry_chunk < graph.chunks().len(),
            forall|i: int|
                0 <= i < evaluatable_assets@.len() ==> (#[trigger] evaluatable_assets@[i])
                    < graph.modules().len(),
        ensures
            chunks@ == group_chunks(
                graph.edges(),
                graph.kinds(),
                evaluate_roots(graph.roots(), evaluatable_assets@, entry_chunk),
            ),
            nodes_in(graph.edges(), chunks@),
            chunks@.no_duplicates(),
            chunks@.contains(entry_chunk),
    {
        let ghost wanted = roots_of(graph.roots(), evaluatable_assets@);
        let mut roots = set_new();
        let len = evaluatable_assets.len();
        let mut i: usize = 0;
        assert(wanted.subrange(0, 0) =~= Seq::<usize>::empty());
        while i < len
            invariant
                len == evaluatable_assets@.len(),
                i <= len,
                graph.wf(),
                wanted == roots_of(graph.roots(), evaluatable_assets@),
                forall|i: int|
                    0 <= i < evaluatable_assets@.len() ==> (#[trigger] evaluatable_assets@[i])
                        < graph.modules().len(),
                set_items(roots) == deduped(wanted.subrange(0, i as int)),
            decreases len - i,
        {
            match evaluatable_assets.get(i) {
                Some(module) => {
                    assert(module == evaluatable_assets@[i as int]);
                    let root = graph.module(module).root_chunk;
                    proof {
                        let upto = wanted.subrange(0, i + 1);
                        assert(upto.drop_last() =~= wanted.subrange(0, i as int));
                        assert(upto.last() == root);
                    }
                    set_insert(&mut roots, root);
                },
                None => {},
            }
            i += 1;
        }
        proof {
            assert(wanted.subrange(0, len as int) =~= wanted);
            assert(wanted.push(entry_chunk).drop_last() =~= wanted);
        }
        set_insert(&mut roots, entry_chunk);
        let ghost all = evaluate_roots(graph.roots(), evaluatable_assets@, entry_chunk);
        assert(set_items(roots) == all);
        let count = set_len(&roots);
        let mut entries: Vec<usize> = Vec::new();
        let mut k: usize = 0;
        while k < count
            invariant
                count == all.len(),
                k <= count,
                set_items(roots) == all,
                entries@ == all.subrange(0, k as int),
            decreases count - k,
        {
            match set_get_index(&roots, k) {
                Some(root) => {
                    entries.push(root);
                },
                None => {},
            }
            assert(entries@ =~= all.subrange(0, k + 1));
            k += 1;
        }
        assert(all.subrange(0, count as int) =~= all);
        proof {
            lemma_deduped(wanted.push(entry_chunk));
            assert forall|j: int| 0 <= j < all.len() implies (#[trigger] all[j])
                < graph.edges().len() by {
                assert(all.contains(all[j]));
                let source = wanted.push(entry_chunk);
                assert(source.contains(all[j]));
                let at = choose|at: int| 0 <= at < source.len() && source[at] == all[j];
                if at < wanted.len() {
                    assert(evaluatable_assets@[at] < graph.modules().len());
                    assert(graph.modules()[evaluatable_assets@[at] as int].root_chunk
                        < graph.chunks().len());
                }
            }
        }
        let parallel = get_parallel_chunks(graph, &entries);
        proof {
            let source = wanted.push(entry_chunk);
            assert(source[wanted.len() as int] == entry_chunk);
            assert(source.contains(entry_chunk));
            assert(all.contains(entry_chunk));
            let at = choose|at: int| 0 <= at < all.len() && all[at] == entry_chunk;
            lemma_reaches_self(graph.edges(), entry_chunk);
            assert(reaches(graph.edges(), entries@[at], entry_chunk));
            assert(reachable_from(graph.edges(), entries@, entry_chunk));
        }
        get_optimized_chunks(graph, &parallel)
    }

    /// The output assets of the chunks that belong to an evaluated entry,
    /// without the chunk that evaluates.
    pub fn get_evaluate_chunk_assets(
        &self,
        graph: &ChunkGraph,
        entry_chunk: usize,
        evaluatable_assets: &EvaluatableAssets,
    ) -> (assets: Vec<OutputAsset>)
        requires
            graph.wf(),
            entry_chunk < graph.chunks().len(),
            forall|i: int|
                0 <= i < evaluatable_assets@.len() ==> (#[trigger] evaluatable_assets@[i])
                    < graph.modules().len(),
        ensures
            asset_views(assets@) == generated_all(
                graph.kinds(),
                group_chunks(
                    graph.edges(),
                    graph.kinds(),
                    evaluate_roots(graph.roots(), evaluatable_assets@, entry_chunk),
                ),
            ),
    {
        let chunks = self.get_evaluate_chunks(graph, entry_chunk, evaluatable_assets);
        self.generate_chunks(graph, &chunks)
    }

    /// The output assets of the group of `entry_chunk`: the chunks that load
    /// together with it, in the order of emission.
    pub fn chunk_group(&self, graph: &ChunkGraph, entry_chunk: usize) -> (assets: Vec<
        OutputAsset,
    >)
        requires
            graph.wf(),
            entry_chunk < graph.chunks().len(),
        ensures
            asset_views(assets@) == generated_all(
                graph.kinds(),
                group_chunks(graph.edges(), graph.kinds(), seq![entry_chunk]),
            ),
            forall|j: int| 0 <= j < assets@.len() ==> asset_in(graph@, (#[trigger] assets@[j])@),
            group_chunks(graph.edges(), graph.kinds(), seq![entry_chunk]).no_duplicates(),
            group_chunks(graph.edges(), graph.kinds(), seq![entry_chunk]).contains(entry_chunk),
    {
        let mut entries: Vec<usize> = Vec::new();
        entries.push(entry_chunk);
        assert(entries@ =~= seq![entry_chunk]);
        let parallel_chunks = get_parallel_chunks(graph, &entries);
        let optimized_chunks = get_optimized_chunks(graph, &parallel_chunks);
        proof {
            lemma_reaches_self(graph.edges(), entry_chunk);
            assert(reaches(graph.edges(), entries@[0], entry_chunk));
            assert(reachable_from(graph.edges(), entries@, entry_chunk));
        }
        self.generate_chunks(graph, &optimized_chunks)
    }

    /// The output assets of the group of an entry that is evaluated: the
    /// chunks of the group, and after them the chunk that evaluates
    /// `evaluatable_assets`. That chunk is there also where no module is to be
    /// run.
    pub fn evaluated_chunk_group(
        &self,
        graph: &ChunkGraph,
        entry_chunk: usize,
        evaluatable_assets: &EvaluatableAssets,
    ) -> (assets: Vec<OutputAsset>)
        requires
            graph.wf(),
            entry_chunk < graph.chunks().len(),
            forall|i: int|
                0 <= i < evaluatable_assets@.len() ==> (#[trigger] evaluatable_assets@[i])
                    < graph.modules().len(),
        ensures
            asset_views(assets@) == generated_all(
                graph.kinds(),
                group_chunks(
                    graph.edges(),
                    graph.kinds(),
                    evaluate_roots(graph.roots(), evaluatable_assets@, entry_chunk),
                ),
            ).push(
                OutputAssetView::Evaluate(
                    EvaluateChunkView {
                        entry_chunk,
                        other_chunks: group_chunks(
                            graph.edges(),
                            graph.kinds(),
                            evaluate_roots(graph.roots(), evaluatable_assets@, entry_chunk),
                        ),
                        evaluatable_assets: evaluatable_assets@,
                        exported_module: None,
                    },
                ),
            ),
    {
        let chunks = self.get_evaluate_chunks(graph, entry_chunk, evaluatable_assets);
        let mut assets = self.generate_chunks(graph, &chunks);
        let ghost before = asset_views(assets@);
        let evaluate = self.generate_evaluate_chunk(entry_chunk, chunks, evaluatable_assets, None);
        assets.push(evaluate);
        assert(asset_views(assets@) =~= before.push(evaluate@));
        assets
    }

    /// The chunk that evaluates `evaluatable_assets` and exports what the
    /// module `module` evaluates to.
    pub fn generate_exported_chunk(
        &self,
        graph: &ChunkGraph,
        module: usize,
        evaluatable_assets: &EvaluatableAssets,
    ) -> (asset: OutputAsset)
        requires
            graph.wf(),
            module < graph.modules().len(),
            forall|i: int|
                0 <= i < evaluatable_assets@.len() ==> (#[trigger] evaluatable_assets@[i])
                    < graph.modules().len(),
        ensures
            asset@ == OutputAssetView::Evaluate(
                EvaluateChunkView {
                    entry_chunk: graph.roots()[module as int],
                    other_chunks: group_chunks(
                        graph.edges(),
                        graph.kinds(),
                        evaluate_roots(
                            graph.roots(),
                            evaluatable_assets@,
                            graph.roots()[module as int],
                        ),
                    ),
                    evaluatable_assets: evaluatable_assets@,
                    exported_module: Some(module),
                },
            ),
    {
        let entry_chunk = graph.module(module).root_chunk;
        let chunks = self.get_evaluate_chunks(graph, entry_chunk, evaluatable_assets);
        self.generate_evaluate_chunk(entry_chunk, chunks, evaluatable_assets, Some(module))
    }
}

} // verus!
