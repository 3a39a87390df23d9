use chunking::chunking_context::{BuildChunkingContext, EvaluateChunk, OutputAsset};
use chunking::evaluatable_assets::EvaluatableAssets;
use chunking::fs_path::FileSystemPath;
use chunking::graph::{ChunkGraph, ChunkKind};
use chunking::ident::AssetIdent;
use chunking::optimize::get_optimized_chunks;
use chunking::runtime::{ChunkLoading, Environment, RuntimeType};
use chunking::traversal::get_parallel_chunks;

fn ident(path: &str) -> AssetIdent {
    AssetIdent::from_path(FileSystemPath::new(path))
}

fn context() -> BuildChunkingContext {
    BuildChunkingContext::builder(
        FileSystemPath::new("project"),
        FileSystemPath::new("out"),
        FileSystemPath::new("out/chunks"),
        FileSystemPath::new("/out/static"),
        Environment {
            chunk_loading: ChunkLoading::NodeJs,
        },
    )
    .build()
}

fn graph_of(kinds: &[ChunkKind], edges: &[(usize, usize)]) -> ChunkGraph {
    let mut graph = ChunkGraph::new();
    for (i, kind) in kinds.iter().enumerate() {
        let id = graph.add_chunk(ident(&format!("project/chunk{i}.js")), *kind);
        assert_eq!(id, i);
    }
    for (from, to) in edges {
        assert!(graph.add_parallel_chunk(*from, *to));
    }
    graph
}

const JS: ChunkKind = ChunkKind::Ecmascript;
const CSS: ChunkKind = ChunkKind::Css;
const OTHER: ChunkKind = ChunkKind::Other;

#[test]
fn traversal_of_nothing_is_empty() {
    let graph = graph_of(&[JS, JS], &[(0, 1)]);
    assert_eq!(get_parallel_chunks(&graph, &vec![]), Vec::<usize>::new());
}

#[test]
fn traversal_of_a_lone_chunk() {
    let graph = graph_of(&[JS], &[]);
    assert_eq!(get_parallel_chunks(&graph, &vec![0]), vec![0]);
}

#[test]
fn traversal_visits_diamond_once() {
    // A -> {B, C}, B -> D, C -> D
    let graph = graph_of(&[JS, JS, JS, JS], &[(0, 1), (0, 2), (1, 3), (2, 3)]);
    let chunks = get_parallel_chunks(&graph, &vec![0]);
    assert_eq!(chunks, vec![3, 1, 2, 0]);
    assert_eq!(chunks.iter().filter(|chunk| **chunk == 3).count(), 1);
}

#[test]
fn traversal_puts_a_chunk_after_what_it_needs() {
    let graph = graph_of(&[JS, JS, JS], &[(0, 1), (1, 2)]);
    assert_eq!(get_parallel_chunks(&graph, &vec![0]), vec![2, 1, 0]);
    assert_eq!(get_parallel_chunks(&graph, &vec![1]), vec![2, 1]);
}

#[test]
fn traversal_ends_on_cycles() {
    let graph = graph_of(&[JS, JS, JS], &[(0, 1), (1, 2), (2, 0), (1, 1)]);
    assert_eq!(get_parallel_chunks(&graph, &vec![0]), vec![2, 1, 0]);
    assert_eq!(get_parallel_chunks(&graph, &vec![2]), vec![1, 0, 2]);
}

#[test]
fn traversal_skips_entries_it_has_seen() {
    let graph = graph_of(&[JS, JS, JS], &[(0, 1)]);
    assert_eq!(get_parallel_chunks(&graph, &vec![1, 0, 1, 2, 0]), vec![1, 0, 2]);
}

#[test]
fn traversal_twice_gives_the_same() {
    let graph = graph_of(&[JS, CSS, OTHER, JS], &[(0, 1), (0, 2), (2, 3), (3, 0)]);
    let first = get_parallel_chunks(&graph, &vec![0]);
    let second = get_parallel_chunks(&graph, &vec![0]);
    assert_eq!(first, second);
    let mut again = get_parallel_chunks(&graph, &first);
    let mut sorted = first.clone();
    again.sort();
    sorted.sort();
    assert_eq!(again, sorted);
    assert_eq!(
        get_optimized_chunks(&graph, &first),
        get_optimized_chunks(&graph, &second)
    );
}

#[test]
fn optimization_orders_by_kind() {
    // [css1, js1, other1, js2] gives [js1, js2, css1, other1]
    let graph = graph_of(&[CSS, JS, OTHER, JS], &[]);
    assert_eq!(get_optimized_chunks(&graph, &vec![0, 1, 2, 3]), vec![1, 3, 0, 2]);
    assert_eq!(get_optimized_chunks(&graph, &vec![3, 2, 1, 0]), vec![3, 1, 0, 2]);
    assert_eq!(get_optimized_chunks(&graph, &vec![]), Vec::<usize>::new());
    assert_eq!(get_optimized_chunks(&graph, &vec![1, 3, 0, 2]), vec![1, 3, 0, 2]);
}

#[test]
fn graph_refuses_what_it_does_not_hold() {
    let mut graph = graph_of(&[JS], &[]);
    assert!(!graph.add_parallel_chunk(0, 1));
    assert!(!graph.add_parallel_chunk(1, 0));
    assert!(!graph.add_reference(0, 5));
    assert_eq!(graph.add_module(ident("project/a.js"), 3, true), None);
    assert_eq!(graph.add_module(ident("project/a.js"), 0, true), Some(0));
    assert_eq!(graph.len(), 1);
    assert_eq!(graph.module_count(), 1);
    assert!(graph.chunk(0).parallel_chunks.is_empty());
    assert_eq!(graph.module(0).root_chunk, 0);
}

#[test]
fn chunk_group_wraps_script_chunks() {
    let graph = graph_of(&[CSS, JS, OTHER, JS], &[(0, 1), (1, 2), (2, 3)]);
    let assets = context().chunk_group(&graph, 0);
    // found: 3, 2, 1, 0; ordered: js 3, 1; css 0; other 2
    assert_eq!(
        assets,
        vec![
            OutputAsset::EcmascriptChunk(3),
            OutputAsset::EcmascriptChunk(1),
            OutputAsset::Chunk(0),
            OutputAsset::Chunk(2),
        ]
    );
    assert_eq!(
        context().generate_chunk(&graph, 1),
        OutputAsset::EcmascriptChunk(1)
    );
    assert_eq!(context().generate_chunk(&graph, 2), OutputAsset::Chunk(2));
}

#[test]
fn evaluated_chunk_group_ends_with_the_evaluate_chunk() {
    let mut graph = graph_of(&[JS, JS, CSS, JS], &[(1, 2)]);
    let m1 = graph.add_module(ident("project/m1.js"), 1, true).unwrap();
    let m2 = graph.add_module(ident("project/m2.js"), 3, true).unwrap();
    let assets = EvaluatableAssets::many(&vec![m1, m2]);
    let group = context().evaluated_chunk_group(&graph, 0, &assets);
    // roots: 1, 3, then the entry 0; found: 2, 1, 3, 0; ordered: 1, 3, 0, 2
    assert_eq!(
        group,
        vec![
            OutputAsset::EcmascriptChunk(1),
            OutputAsset::EcmascriptChunk(3),
            OutputAsset::EcmascriptChunk(0),
            OutputAsset::Chunk(2),
            OutputAsset::Evaluate(EvaluateChunk {
                entry_chunk: 0,
                other_chunks: vec![1, 3, 0, 2],
                evaluatable_assets: vec![m1, m2],
                exported_module: None,
            }),
        ]
    );
    assert_eq!(
        context().get_evaluate_chunk_assets(&graph, 0, &assets),
        vec![
            OutputAsset::EcmascriptChunk(1),
            OutputAsset::EcmascriptChunk(3),
            OutputAsset::EcmascriptChunk(0),
            OutputAsset::Chunk(2),
        ]
    );
}

#[test]
fn evaluated_chunk_group_without_modules_still_evaluates() {
    let graph = graph_of(&[JS], &[]);
    let group = context().evaluated_chunk_group(&graph, 0, &EvaluatableAssets::empty());
    assert_eq!(
        group,
        vec![
            OutputAsset::EcmascriptChunk(0),
            OutputAsset::Evaluate(EvaluateChunk {
                entry_chunk: 0,
                other_chunks: vec![0],
                evaluatable_assets: vec![],
                exported_module: None,
            }),
        ]
    );
}

#[test]
fn evaluate_roots_are_taken_once() {
    let mut graph = graph_of(&[JS, JS], &[]);
    let m1 = graph.add_module(ident("project/m1.js"), 1, true).unwrap();
    let m2 = graph.add_module(ident("project/m2.js"), 1, true).unwrap();
    let m3 = graph.add_module(ident("project/m3.js"), 0, true).unwrap();
    let assets = EvaluatableAssets::many(&vec![m1, m2, m3, m1]);
    assert_eq!(assets.to_vec(), vec![m1, m2, m3]);
    assert_eq!(
        context().get_evaluate_chunks(&graph, 0, &assets),
        vec![1, 0]
    );
}

#[test]
fn exported_chunk_names_the_module() {
    let mut graph = graph_of(&[JS, CSS], &[(0, 1)]);
    let module = graph.add_module(ident("project/page.js"), 0, true).unwrap();
    let asset =
        context().generate_exported_chunk(&graph, module, &EvaluatableAssets::one(module));
    assert_eq!(
        asset,
        OutputAsset::Evaluate(EvaluateChunk {
            entry_chunk: 0,
            other_chunks: vec![0, 1],
            evaluatable_assets: vec![module],
            exported_module: Some(module),
        })
    );
}

#[test]
fn evaluatable_assets_keep_order_without_duplicates() {
    let mut assets = EvaluatableAssets::empty();
    assert_eq!(assets.len(), 0);
    assert!(assets.insert(4));
    assert!(assets.insert(2));
    assert!(!assets.insert(4));
    assert_eq!(assets.len(), 2);
    assert_eq!(assets.get(0), Some(4));
    assert_eq!(assets.get(1), Some(2));
    assert_eq!(assets.get(2), None);
    assert_eq!(EvaluatableAssets::one(7).to_vec(), vec![7]);
}

#[test]
fn output_assets_have_paths() {
    let graph = graph_of(&[JS, OTHER], &[]);
    let context = context();
    assert_eq!(
        context
            .output_asset_path(&graph, &OutputAsset::Chunk(1))
            .as_str(),
        "project/chunk1.js"
    );
    assert_eq!(
        context
            .output_asset_path(&graph, &OutputAsset::EcmascriptChunk(0))
            .as_str(),
        "out/chunks/chunk0.js"
    );
    let evaluate = OutputAsset::Evaluate(EvaluateChunk {
        entry_chunk: 0,
        other_chunks: vec![0],
        evaluatable_assets: vec![],
        exported_module: None,
    });
    assert_eq!(
        context.output_asset_path(&graph, &evaluate).as_str(),
        "out/chunks/chunk0_ecmascript build node evaluate chunk.js"
    );
    assert!(context.reference_chunk_source_maps(&evaluate));
    assert_eq!(context.runtime_type(), RuntimeType::Default);
}

#[test]
fn graph_holds_one_chunk_for_one_identity() {
    let mut graph = ChunkGraph::new();
    let a = graph.add_chunk(ident("project/a.js"), JS);
    let b = graph.add_chunk(ident("project/b.js"), JS);
    let again = graph.add_chunk(ident("project/a.js"), CSS);
    assert_eq!((a, b, again), (0, 1, 0));
    assert_eq!(graph.len(), 2);
    assert_eq!(graph.chunk(0).kind, JS);
    let modified = graph.add_chunk(ident("project/a.js").with_modifier("loader"), JS);
    assert_eq!(modified, 2);
    assert_eq!(graph.find_chunk(&ident("project/b.js")), Some(1));
    assert_eq!(graph.find_chunk(&ident("project/c.js")), None);

    // Found along two ways, the chunk is one chunk.
    assert!(graph.add_parallel_chunk(a, b));
    assert!(graph.add_parallel_chunk(modified, again));
    assert!(graph.add_parallel_chunk(again, modified));
    assert_eq!(get_parallel_chunks(&graph, &vec![modified, again]), vec![1, 0, 2]);
}
