use chunking::chunking_context::BuildChunkingContext;
use chunking::fs_path::FileSystemPath;
use chunking::ident::AssetIdent;
use chunking::runtime::{ChunkLoading, Environment, RuntimeType};

fn ident_for(path: &str) -> AssetIdent {
    AssetIdent::from_path(FileSystemPath::new(path))
}

fn environment() -> Environment {
    Environment {
        chunk_loading: ChunkLoading::Dom,
    }
}

fn context() -> BuildChunkingContext {
    BuildChunkingContext::builder(
        FileSystemPath::new("project"),
        FileSystemPath::new("/out"),
        FileSystemPath::new("/out/chunks"),
        FileSystemPath::new("/out/static"),
        environment(),
    )
    .build()
}

#[test]
fn builder_sets_the_fields() {
    let context = context();
    assert_eq!(context.context_path().as_str(), "project");
    assert_eq!(context.output_root().as_str(), "/out");
    assert_eq!(context.environment(), environment());
    assert_eq!(context.runtime_type(), RuntimeType::Default);
    assert_eq!(context.layer(), "");
    let dummy = BuildChunkingContext::builder(
        FileSystemPath::new("project"),
        FileSystemPath::new("/out"),
        FileSystemPath::new("/out/chunks"),
        FileSystemPath::new("/out/static"),
        environment(),
    )
    .runtime_type(RuntimeType::Dummy)
    .build();
    assert_eq!(dummy.runtime_type(), RuntimeType::Dummy);
    assert_ne!(dummy, context);
    assert_eq!(context.clone(), context);
}

#[test]
fn asset_path_has_eight_characters_of_the_hash() {
    let context = context();
    assert_eq!(
        context
            .asset_path("abcdef1234567890", &ident_for("image.png"))
            .as_str(),
        "/out/static/image.abcdef12.png"
    );
    assert_eq!(
        context
            .asset_path("abcdef1234567890", &ident_for("assets/LICENSE"))
            .as_str(),
        "/out/static/LICENSE.abcdef12"
    );
    assert_eq!(
        context
            .asset_path("abcdef12", &ident_for("a.b/archive.tar.gz"))
            .as_str(),
        "/out/static/archive.tar.abcdef12.gz"
    );
    assert_eq!(
        context
            .asset_path("0123456789", &ident_for("dir/.hidden"))
            .as_str(),
        "/out/static/.hidden.01234567"
    );
    assert_eq!(
        context
            .asset_path("0123456789", &ident_for("dir.d/name"))
            .as_str(),
        "/out/static/name.01234567"
    );
}

#[test]
fn layer_round_trip() {
    let context = context();
    assert_eq!(context.with_layer("client").layer(), "client");
    assert_eq!(context.with_layer("").layer(), "");
    assert_eq!(context.with_layer(""), context);
    assert_eq!(context.with_layer("client").with_layer(""), context);
    assert_ne!(context.with_layer("client"), context);
    assert_eq!(
        context.with_layer("client").with_layer("server").layer(),
        "server"
    );
    // The context itself is left as it was.
    assert_eq!(context.layer(), "");
}

#[test]
fn chunk_path_is_below_the_layer() {
    let context = context();
    let ident = ident_for("project/src/pages/index.js");
    assert_eq!(
        context.chunk_path(&ident, ".js").as_str(),
        "/out/chunks/src_pages_index.js"
    );
    assert_eq!(
        context.with_layer("client").chunk_path(&ident, ".js").as_str(),
        "/out/chunks/client/src_pages_index.js"
    );
    assert_eq!(
        context.chunk_path(&ident, ".css").as_str(),
        "/out/chunks/src_pages_index.js._.css"
    );
    assert_eq!(
        context
            .chunk_path(&ident_for("other/lib.js"), ".js")
            .as_str(),
        "/out/chunks/other_lib.js"
    );
    assert_eq!(
        context
            .chunk_path(&ident.with_modifier("loader"), ".js")
            .as_str(),
        "/out/chunks/src_pages_index_loader.js"
    );
}

#[test]
fn chunks_do_not_cross_node_modules() {
    let context = context();
    let a = ident_for("project/src/a.js");
    assert!(!context.can_be_in_same_chunk(&a, &ident_for("project/src/node_modules/x/index.js")));
    assert!(!context.can_be_in_same_chunk(
        &a,
        &ident_for("project/src/lib/node_modules/x/index.js")
    ));
    assert!(context.can_be_in_same_chunk(&a, &ident_for("project/src/b.js")));
    assert!(context.can_be_in_same_chunk(&a, &ident_for("project/src/lib/c.js")));
    assert!(context.can_be_in_same_chunk(&a, &ident_for("project/src/my_node_modules/c.js")));
    // What does not lie below the directory of the first cannot join it.
    assert!(!context.can_be_in_same_chunk(&a, &ident_for("project/other/b.js")));
    assert!(!context.can_be_in_same_chunk(&a, &ident_for("project/src")));
    assert!(!context.can_be_in_same_chunk(&a, &ident_for("project/srcs/b.js")));
    // From the root everything is below.
    assert!(context.can_be_in_same_chunk(&ident_for("a.js"), &ident_for("lib/b.js")));
    assert!(!context.can_be_in_same_chunk(&ident_for("a.js"), &ident_for("node_modules/b.js")));
}
