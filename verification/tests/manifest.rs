use chunking::chunking_context::{BuildChunkingContext, OutputAsset};
use chunking::fs_path::FileSystemPath;
use chunking::graph::{ChunkGraph, ChunkKind};
use chunking::ident::AssetIdent;
use chunking::manifest::{
    chunks_data_from, AssetReference, ChunkData, ManifestChunkAsset, ManifestContent,
    ManifestError, ManifestLoaderItem,
};
use chunking::runtime::{ChunkLoading, Environment};

fn ident(path: &str) -> AssetIdent {
    AssetIdent::from_path(FileSystemPath::new(path))
}

fn context() -> BuildChunkingContext {
    BuildChunkingContext::builder(
        FileSystemPath::new("project"),
        FileSystemPath::new("out"),
        FileSystemPath::new("out/chunks"),
        FileSystemPath::new("out/static"),
        Environment {
            chunk_loading: ChunkLoading::Dom,
        },
    )
    .build()
}

/// Chunk 0 holds the manifest and loads together with chunk 1; chunk 2 is the
/// root of the imported module and leads to the chunks in `behind`.
fn graph(behind: &[ChunkKind], placeable: bool) -> (ChunkGraph, usize) {
    let mut graph = ChunkGraph::new();
    graph.add_chunk(ident("project/manifest.js"), ChunkKind::Ecmascript);
    graph.add_chunk(ident("out/shared.txt"), ChunkKind::Other);
    graph.add_chunk(ident("project/lazy.js"), ChunkKind::Ecmascript);
    assert!(graph.add_parallel_chunk(0, 1));
    assert!(graph.add_reference(0, 1));
    assert!(graph.add_reference(1, 2));
    let mut last = 2;
    for (i, kind) in behind.iter().enumerate() {
        let id = graph.add_chunk(ident(&format!("project/deep{i}.js")), *kind);
        assert!(graph.add_parallel_chunk(last, id));
        last = id;
    }
    let module = graph
        .add_module(ident("project/lazy.js"), 2, placeable)
        .unwrap();
    (graph, module)
}

fn loader(module: usize) -> ManifestLoaderItem {
    ManifestLoaderItem::new(ManifestChunkAsset::new(module, 0, context()))
}

#[test]
fn manifest_and_loader_have_modifiers() {
    let (graph, module) = graph(&[], true);
    let manifest = ManifestChunkAsset::new(module, 0, context());
    assert_eq!(
        manifest.ident(&graph).to_string(),
        "project/lazy.js (manifest chunk)"
    );
    assert_eq!(manifest.entry_chunk(&graph), 2);
    assert_eq!(manifest.chunking_context(), &context());
    let loader = ManifestLoaderItem::new(manifest);
    assert_eq!(
        loader.asset_ident(&graph).to_string(),
        "project/lazy.js (manifest chunk, loader)"
    );
    assert_eq!(loader.chunking_context(), &context());
}

#[test]
fn manifest_finds_its_chunks_when_asked() {
    let (graph, module) = graph(&[ChunkKind::Css, ChunkKind::Ecmascript], true);
    let mut manifest = ManifestChunkAsset::new(module, 0, context());
    assert!(!manifest.is_computed());
    assert_eq!(manifest.chunks(), None);
    assert!(manifest.compute_chunks(&graph));
    assert!(manifest.is_computed());
    let found = vec![
        OutputAsset::EcmascriptChunk(4),
        OutputAsset::EcmascriptChunk(2),
        OutputAsset::Chunk(3),
    ];
    assert_eq!(manifest.chunks(), Some(&found));

    // What was found is kept, whatever is asked for later.
    let (smaller, _) = graph_pair_smaller();
    assert!(!manifest.compute_chunks(&smaller));
    assert_eq!(manifest.chunks(), Some(&found));

    manifest.invalidate();
    assert!(!manifest.is_computed());
    assert!(manifest.compute_chunks(&smaller));
    assert_eq!(
        manifest.chunks(),
        Some(&vec![OutputAsset::EcmascriptChunk(2)])
    );
}

fn graph_pair_smaller() -> (ChunkGraph, usize) {
    graph(&[], true)
}

#[test]
fn loader_reads_the_chunks_of_the_manifest() {
    let (graph, module) = graph(&[ChunkKind::Css], true);
    let loader = loader(module);
    assert_eq!(
        loader.manifest().manifest_chunks(&graph),
        vec![OutputAsset::EcmascriptChunk(0), OutputAsset::Chunk(1)]
    );
    assert_eq!(
        loader.chunks_data(&graph),
        vec![
            ChunkData {
                path: "chunks/manifest.js".to_string(),
                references: vec![1],
            },
            ChunkData {
                path: "shared.txt".to_string(),
                references: vec![2],
            },
        ]
    );
    assert_eq!(
        loader.references(&graph),
        vec![
            AssetReference::ManifestLoaderChunk(0),
            AssetReference::ManifestLoaderChunk(1),
            AssetReference::ChunkData(1),
            AssetReference::ChunkData(2),
        ]
    );
    assert_eq!(
        AssetReference::ManifestLoaderChunk(0).description(),
        "manifest loader chunk"
    );
    assert_eq!(AssetReference::ChunkData(0).description(), "chunk data");
}

#[test]
fn loader_leaves_out_chunks_outside_the_output_root() {
    let mut graph = ChunkGraph::new();
    graph.add_chunk(ident("elsewhere/plain.txt"), ChunkKind::Other);
    let module = graph.add_module(ident("project/lazy.js"), 0, true).unwrap();
    let loader = loader(module);
    assert_eq!(loader.chunks_data(&graph), vec![]);
    assert_eq!(
        loader.references(&graph),
        vec![AssetReference::ManifestLoaderChunk(0)]
    );
}

#[test]
fn loader_content() {
    let (graph, module) = graph(&[], true);
    let expected = [
        "__turbopack_export_value__((__turbopack_import__) => {\n",
        "    return Promise.all([\"chunks/manifest.js\",\"shared.txt\"].map((chunk) => __turbopack_load__(chunk))).then(() => {\n",
        "        return __turbopack_require__(\"project/lazy.js (manifest chunk)\");\n",
        "    }).then((chunks) => {\n",
        "        return Promise.all(chunks.map((chunk) => __turbopack_load__(chunk)));\n",
        "    }).then(() => {\n",
        "        return __turbopack_import__(\"project/lazy.js\");\n",
        "    });\n",
        "});\n",
    ]
    .concat();
    assert_eq!(loader(module).content(&graph), Ok(expected));
}

#[test]
fn loader_needs_a_placeable_module() {
    let (graph, module) = graph(&[], false);
    let result = loader(module).content(&graph);
    assert_eq!(
        result,
        Err(ManifestError::NotPlaceable("project/lazy.js".to_string()))
    );
    assert_eq!(
        result.unwrap_err().to_string(),
        "asset is not placeable in ecmascript chunk"
    );
}

#[test]
fn loader_does_not_see_behind_the_import() {
    let (shallow, module) = graph(&[], true);
    let (deep, same_module) = graph(&[ChunkKind::Css, ChunkKind::Ecmascript], true);
    assert_eq!(module, same_module);
    let loader = loader(module);
    assert_eq!(loader.content(&shallow), loader.content(&deep));
    assert_eq!(loader.chunks_data(&shallow), loader.chunks_data(&deep));
    assert_eq!(loader.references(&shallow), loader.references(&deep));
    assert!(loader
        .asset_ident(&shallow)
        .same(&loader.asset_ident(&deep)));

    // The manifest does see it.
    let mut first = ManifestChunkAsset::new(module, 0, context());
    let mut second = ManifestChunkAsset::new(module, 0, context());
    first.compute_chunks(&shallow);
    second.compute_chunks(&deep);
    assert_ne!(first.chunks(), second.chunks());
}

#[test]
fn manifest_content_is_found_when_read() {
    let (graph, module) = graph(&[ChunkKind::Css], true);
    let mut manifest = ManifestChunkAsset::new(module, 0, context());
    assert!(!manifest.is_computed());
    let content = manifest.content(&graph);
    assert!(manifest.is_computed());
    assert_eq!(
        content,
        ManifestContent {
            chunks: vec![ChunkData {
                path: "chunks/lazy.js".to_string(),
                references: vec![],
            }],
            module_id: "project/lazy.js".to_string(),
        }
    );
    assert_eq!(manifest.content(&graph), content);
    assert_eq!(
        chunks_data_from(&context(), &graph, &vec![OutputAsset::Chunk(1)]),
        vec![ChunkData {
            path: "shared.txt".to_string(),
            references: vec![2],
        }]
    );
}
