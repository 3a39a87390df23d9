use chunking::chunk_list::{
    ChunkListError, ChunkListMember, EcmascriptDevChunkList, EcmascriptDevChunkListContent,
    EcmascriptDevChunkListSource, VersionedContent,
};
use chunking::fs_path::FileSystemPath;

fn member(path: &str, version: u64, merger: Option<u64>) -> ChunkListMember {
    ChunkListMember {
        path: FileSystemPath::new(path),
        content: VersionedContent { version, merger },
    }
}

fn list(path: &str, chunks: Vec<ChunkListMember>) -> EcmascriptDevChunkList {
    EcmascriptDevChunkList {
        output_root: FileSystemPath::new("out"),
        path: FileSystemPath::new(path),
        chunks,
        source: EcmascriptDevChunkListSource::Entry,
    }
}

fn content(chunks: Vec<ChunkListMember>) -> EcmascriptDevChunkListContent {
    EcmascriptDevChunkListContent::new(&list("out/lists/page.js", chunks)).unwrap()
}

#[test]
fn content_holds_paths_below_the_output_root() {
    let content = content(vec![
        member("out/chunks/a.js", 1, None),
        member("out/chunks/b.css", 2, Some(7)),
    ]);
    assert_eq!(content.chunk_list_path(), "lists/page.js");
    assert_eq!(content.source(), EcmascriptDevChunkListSource::Entry);
    assert_eq!(content.len(), 2);
    assert_eq!(content.chunk_paths(), vec!["chunks/a.js", "chunks/b.css"]);
}

#[test]
fn content_of_one_path_twice_keeps_the_later() {
    let content = content(vec![
        member("out/a.js", 1, None),
        member("out/b.js", 2, None),
        member("out/a.js", 3, None),
    ]);
    assert_eq!(content.chunk_paths(), vec!["a.js", "b.js"]);
    assert_eq!(content.version().path_version("a.js"), Some(3));
}

#[test]
fn content_fails_outside_the_output_root() {
    assert_eq!(
        EcmascriptDevChunkListContent::new(&list("elsewhere/page.js", vec![])).err(),
        Some(ChunkListError::ListNotInOutputRoot)
    );
    assert_eq!(
        EcmascriptDevChunkListContent::new(&list(
            "out/page.js",
            vec![
                member("out/a.js", 1, None),
                member("other/b.js", 2, None),
                member("third/c.js", 3, None),
            ]
        ))
        .err(),
        Some(ChunkListError::ChunkNotInOutputRoot("other/b.js".to_string()))
    );
    assert_eq!(
        ChunkListError::ListNotInOutputRoot.to_string(),
        "chunk list path not in output root"
    );
    assert_eq!(
        ChunkListError::ChunkNotInOutputRoot("x".to_string()).to_string(),
        "chunk path not in output root: x"
    );
}

#[test]
fn version_groups_by_merger() {
    let version = content(vec![
        member("out/a.js", 1, None),
        member("out/b.css", 2, Some(7)),
        member("out/c.js", 3, None),
        member("out/d.css", 4, Some(7)),
        member("out/e.css", 5, Some(9)),
    ])
    .version();
    assert_eq!(version.path_count(), 2);
    assert_eq!(version.merger_count(), 2);
    assert_eq!(version.path_version("a.js"), Some(1));
    assert_eq!(version.path_version("c.js"), Some(3));
    assert_eq!(version.path_version("b.css"), None);
    assert_eq!(version.path_version("out/a.js"), None);
    assert_eq!(version.merged_version(7), Some(vec![2, 4]));
    assert_eq!(version.merged_version(9), Some(vec![5]));
    assert_eq!(version.merged_version(8), None);
}

#[test]
fn version_of_nothing_is_empty() {
    let version = content(vec![]).version();
    assert_eq!(version.path_count(), 0);
    assert_eq!(version.merger_count(), 0);
    assert!(version.same(&content(vec![]).version()));
}

#[test]
fn equal_contents_have_equal_versions() {
    let chunks = || {
        vec![
            member("out/a.js", 1, None),
            member("out/b.css", 2, Some(7)),
            member("out/c.js", 3, None),
        ]
    };
    let first = EcmascriptDevChunkListContent::new(&list("out/one.js", chunks())).unwrap();
    let mut other_list = list("out/two.js", chunks());
    other_list.source = EcmascriptDevChunkListSource::Dynamic;
    let second = EcmascriptDevChunkListContent::new(&other_list).unwrap();
    assert!(first.version().same(&second.version()));
    assert!(first.version().same(&first.version()));
}

#[test]
fn changed_content_changes_the_version() {
    let before = content(vec![
        member("out/a.js", 1, None),
        member("out/b.css", 2, Some(7)),
        member("out/c.js", 3, None),
    ])
    .version();
    let after = content(vec![
        member("out/a.js", 10, None),
        member("out/b.css", 2, Some(7)),
        member("out/c.js", 3, None),
    ])
    .version();
    assert!(!before.same(&after));
    assert_eq!(after.path_version("a.js"), Some(10));
    assert_eq!(after.path_version("c.js"), before.path_version("c.js"));
    assert_eq!(after.merged_version(7), before.merged_version(7));

    let merged = content(vec![
        member("out/a.js", 1, None),
        member("out/b.css", 20, Some(7)),
        member("out/c.js", 3, None),
    ])
    .version();
    assert!(!before.same(&merged));
    assert_eq!(merged.merged_version(7), Some(vec![20]));
    assert_eq!(merged.path_version("a.js"), before.path_version("a.js"));
    assert_eq!(merged.path_version("c.js"), before.path_version("c.js"));
}

#[test]
fn versions_differ_by_order_and_merger() {
    let a = content(vec![member("out/a.js", 1, None), member("out/b.js", 2, None)]).version();
    let b = content(vec![member("out/b.js", 2, None), member("out/a.js", 1, None)]).version();
    assert!(!a.same(&b));
    let c = content(vec![member("out/a.css", 1, Some(1))]).version();
    let d = content(vec![member("out/a.css", 1, Some(2))]).version();
    assert!(!c.same(&d));
    let e = content(vec![member("out/a.css", 1, Some(1)), member("out/b.css", 2, Some(1))])
        .version();
    assert!(!c.same(&e));
}

#[test]
fn code_registers_the_chunk_list() {
    let content = content(vec![
        member("out/chunks/a.js", 1, None),
        member("out/chunks/say \"hi\".css", 2, Some(7)),
    ]);
    let expected = concat_lines(&[
        "(globalThis.TURBOPACK = globalThis.TURBOPACK || []).push([",
        "    \"lists/page.js\",",
        "    {},",
        "]);",
        "(globalThis.TURBOPACK_CHUNK_LISTS = globalThis.TURBOPACK_CHUNK_LISTS || []).push({",
        "  \"path\": \"lists/page.js\",",
        "  \"chunks\": [",
        "    \"chunks/a.js\",",
        "    \"chunks/say \\\"hi\\\".css\"",
        "  ],",
        "  \"source\": \"entry\"",
        "});",
    ]);
    assert_eq!(content.code(), expected);
    assert_eq!(content.content(), expected);
}

#[test]
fn code_of_an_empty_dynamic_chunk_list() {
    let mut chunk_list = list("out/lists/lazy.js", vec![]);
    chunk_list.source = EcmascriptDevChunkListSource::Dynamic;
    let content = EcmascriptDevChunkListContent::new(&chunk_list).unwrap();
    let expected = concat_lines(&[
        "(globalThis.TURBOPACK = globalThis.TURBOPACK || []).push([",
        "    \"lists/lazy.js\",",
        "    {},",
        "]);",
        "(globalThis.TURBOPACK_CHUNK_LISTS = globalThis.TURBOPACK_CHUNK_LISTS || []).push({",
        "  \"path\": \"lists/lazy.js\",",
        "  \"chunks\": [],",
        "  \"source\": \"dynamic\"",
        "});",
    ]);
    assert_eq!(content.code(), expected);
}

fn concat_lines(lines: &[&str]) -> String {
    let mut text = String::new();
    for line in lines {
        text.push_str(line);
        text.push('\n');
    }
    text
}
