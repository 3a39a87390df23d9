use chunking::anchored_system_path_buf::AnchoredSystemPathBuf;
use chunking::cache::{build_http_cache, retrieve, RetrieveResponse};
use chunking::issue::{attach_context, attach_description, IssueProcessingPathItem};
use chunking::path_error::PathError;

#[test]
fn cache_needs_an_absolute_root() {
    assert_eq!(build_http_cache("/repo").unwrap().as_str(), "/repo");
    assert_eq!(
        build_http_cache("repo").unwrap_err(),
        RetrieveResponse::Error("repo_root is not absolute path".to_string())
    );
}

#[test]
fn retrieve_answers_with_files_or_the_error() {
    let paths = vec![
        AnchoredSystemPathBuf::from_raw("dist/a.js").unwrap(),
        AnchoredSystemPathBuf::from_raw("dist/b.js").unwrap(),
    ];
    assert_eq!(
        retrieve(Ok((paths, 42))),
        RetrieveResponse::Files {
            files: vec!["dist/a.js".to_string(), "dist/b.js".to_string()],
            duration: 42,
        }
    );
    assert_eq!(
        retrieve(Ok((vec![], 0))),
        RetrieveResponse::Files {
            files: vec![],
            duration: 0,
        }
    );
    assert_eq!(
        retrieve(Err("cache miss".to_string())),
        RetrieveResponse::Error("cache miss".to_string())
    );
}

#[test]
fn anchored_path_from_text() {
    assert_eq!(AnchoredSystemPathBuf::try_from("a/b").unwrap().as_str(), "a/b");
    assert_eq!(
        AnchoredSystemPathBuf::try_from("/a/b"),
        Err(PathError::NotRelative("/a/b".to_string()))
    );
}

#[test]
fn context_is_attached_above_issues() {
    let path = attach_context(Some("src/a.js".to_string()), "parse".to_string(), vec![3, 5]).unwrap();
    assert_eq!(
        path.item,
        Some(IssueProcessingPathItem {
            context: Some("src/a.js".to_string()),
            description: "parse".to_string(),
        })
    );
    assert_eq!(path.children, vec![3, 5]);
    assert_eq!(attach_context(None, "parse".to_string(), vec![]), None);
    let described = attach_description("build".to_string(), vec![1]).unwrap();
    assert_eq!(described.item.unwrap().context, None);
    assert_eq!(attach_description("build".to_string(), vec![]), None);
}
