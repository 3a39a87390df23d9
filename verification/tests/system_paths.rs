use std::path::PathBuf;

use chunking::absolute_system_path::AbsoluteSystemPath;
use chunking::anchored_system_path_buf::{check_path, AnchoredSystemPathBuf};
use chunking::components::{parse_components, PathComponent};
use chunking::path_error::PathError;
use chunking::relative_unix_path::RelativeUnixPath;

fn absolute(text: &str) -> AbsoluteSystemPath {
    AbsoluteSystemPath::new(text).unwrap()
}

fn relative_to_abc(input: &[&str]) -> String {
    let root = absolute("/a/b/c");
    let mut text = String::from("/");
    text.push_str(&input.join("/"));
    let target = absolute(&text);
    AnchoredSystemPathBuf::relative_path_between(&root, &target)
        .as_str()
        .to_string()
}

#[test]
fn test_create_absolute_path() {
    let absolute_path = AbsoluteSystemPath::new("/foo/bar").unwrap();
    assert_eq!(absolute_path.to_string(), "/foo/bar");
}

#[test]
fn absolute_path_refuses_relative_text() {
    assert_eq!(
        AbsoluteSystemPath::new("foo/bar"),
        Err(PathError::NotAbsolute("foo/bar".to_string()))
    );
    assert_eq!(
        AbsoluteSystemPath::new(""),
        Err(PathError::NotAbsolute(String::new()))
    );
    assert!(AbsoluteSystemPath::new("C:\\foo\\bar").is_err());
}

#[test]
fn absolute_path_from_std_path() {
    let path = PathBuf::from("/foo/bar");
    assert_eq!(
        AbsoluteSystemPath::from_std_path(&path).unwrap().as_str(),
        "/foo/bar"
    );
    let relative = PathBuf::from("foo");
    assert_eq!(
        AbsoluteSystemPath::from_std_path(&relative),
        Err(PathError::NotAbsolute("foo".to_string()))
    );
    assert_eq!(absolute("/foo/bar").as_path(), PathBuf::from("/foo/bar"));
}

#[test]
fn join_component_cleans_the_result() {
    let base = absolute("/a/b");
    assert_eq!(base.join_component("c").as_str(), "/a/b/c");
    assert_eq!(base.join_component("..").as_str(), "/a");
    assert_eq!(base.join_component(".").as_str(), "/a/b");
    assert_eq!(absolute("/a/b/").join_component("c").as_str(), "/a/b/c");
    assert_eq!(base.join_component("/x").as_str(), "/x");
}

#[test]
fn join_components_joins_with_separators() {
    let base = absolute("/a");
    assert_eq!(base.join_components(&["b", "c"]).as_str(), "/a/b/c");
    assert_eq!(base.join_components(&["b", "..", "d"]).as_str(), "/a/d");
    assert_eq!(base.join_components(&[]).as_str(), "/a");
    assert_eq!(base.join_components(&["b"]).as_str(), "/a/b");
}

#[test]
fn join_unix_path_cleans_the_result() {
    let base = absolute("/repo");
    let tail = RelativeUnixPath::new("src/./lib.rs").unwrap();
    assert_eq!(base.join_unix_path(&tail).unwrap().as_str(), "/repo/src/lib.rs");
    assert_eq!(
        RelativeUnixPath::new("/src"),
        Err(PathError::NotRelative("/src".to_string()))
    );
}

#[test]
fn anchor_strips_the_root() {
    let root = absolute("/a/b");
    assert_eq!(root.anchor(&absolute("/a/b/c/d")).unwrap().as_str(), "c/d");
    assert_eq!(root.anchor(&absolute("/a/b")).unwrap().as_str(), "");
    assert_eq!(
        root.anchor(&absolute("/a/bc")),
        Err(PathError::NotParent("/a/b".to_string(), "/a/bc".to_string()))
    );
    assert_eq!(
        root.anchor(&absolute("/a")),
        Err(PathError::NotParent("/a/b".to_string(), "/a".to_string()))
    );
    assert_eq!(
        AnchoredSystemPathBuf::new(&absolute("/"), &absolute("/x/y"))
            .unwrap()
            .as_str(),
        "x/y"
    );
}

#[test]
fn resolve_joins_without_cleaning() {
    let root = absolute("/a/b");
    let tail = AnchoredSystemPathBuf::from_raw("../c").unwrap();
    assert_eq!(root.resolve(&tail).as_str(), "/a/b/../c");
}

#[test]
fn components_of_an_absolute_path() {
    let components = absolute("/a/./b//../c").components();
    assert_eq!(
        components,
        vec![
            PathComponent::RootDir,
            PathComponent::Normal("a".to_string()),
            PathComponent::Normal("b".to_string()),
            PathComponent::ParentDir,
            PathComponent::Normal("c".to_string()),
        ]
    );
}

#[test]
fn components_of_relative_text() {
    assert_eq!(
        parse_components("./a/."),
        vec![PathComponent::CurDir, PathComponent::Normal("a".to_string())]
    );
    assert_eq!(parse_components(""), Vec::<PathComponent>::new());
    assert_eq!(parse_components(".."), vec![PathComponent::ParentDir]);
}

#[test]
fn collapse_removes_dots() {
    assert_eq!(absolute("/a/b/../c/./d").collapse().as_str(), "/a/c/d");
    assert_eq!(absolute("/a/..").collapse().as_str(), "/");
    assert_eq!(absolute("/").collapse().as_str(), "/");
}

#[test]
fn contains_looks_at_collapsed_paths() {
    let root = absolute("/a/b");
    assert!(root.contains(&absolute("/a/b/c")));
    assert!(root.contains(&absolute("/a/b")));
    assert!(root.contains(&absolute("/a/x/../b/c")));
    assert!(!root.contains(&absolute("/a/c")));
    assert!(!root.contains(&absolute("/a")));
    assert!(!root.contains(&absolute("/a/b/../c")));
}

#[test]
fn parent_of_an_absolute_path() {
    assert_eq!(absolute("/a/b").parent().unwrap().as_str(), "/a");
    assert_eq!(absolute("/a").parent().unwrap().as_str(), "/");
    assert_eq!(absolute("/").parent(), None);
    assert_eq!(absolute("/a/b/").parent().unwrap().as_str(), "/a");
}

#[test]
fn test_relative_path_to() {
    assert_eq!(relative_to_abc(&["a", "b", "c", "..", "c"]), "../c");
    assert_eq!(relative_to_abc(&["a", "b", "c", "d", "..", "d"]), "d");
    assert_eq!(relative_to_abc(&["a"]), "../..");
    assert_eq!(relative_to_abc(&["a", "b", "c"]), ".");
    assert_eq!(relative_to_abc(&["a", "b", "d"]), "../d");
    assert_eq!(relative_to_abc(&["a", "b", "c", "d"]), "d");
    assert_eq!(relative_to_abc(&["e", "f"]), "../../../e/f");
    assert_eq!(relative_to_abc(&[]), "../../..");
}

#[test]
fn test_from_system_path() {
    let ok = |text: &str| {
        AnchoredSystemPathBuf::from_system_path(&PathBuf::from(text))
            .map(|path| path.as_str().to_string())
            .map_err(|error| error.to_string())
    };
    assert_eq!(ok("test.txt"), Ok("test.txt".to_string()));
    assert_eq!(ok("something/"), Ok("something".to_string()));
    assert_eq!(ok("something\\"), Ok("something\\".to_string()));
    assert_eq!(ok("//"), Err("path is malformed: //".to_string()));
}

#[test]
fn check_path_finds_malformed_names() {
    for name in ["", ".", "..", "/a", "./a", "../a", "a/.", "a/..", "a//b", "a/./b", "a/../b"] {
        assert!(!check_path(name).well_formed, "{name}");
    }
    for name in ["a", "a/b", "a.b/c..d", ".a", "a/", "..a/b"] {
        assert!(check_path(name).well_formed, "{name}");
    }
    assert!(check_path("a/b").windows_safe);
    assert!(!check_path("a\\b").windows_safe);
    assert!(!check_path("").windows_safe);
}

#[test]
fn anchored_path_from_path_buf() {
    assert_eq!(
        AnchoredSystemPathBuf::from_path_buf(&PathBuf::from("a/b"))
            .unwrap()
            .as_str(),
        "a/b"
    );
    assert_eq!(
        AnchoredSystemPathBuf::from_path_buf(&PathBuf::from("/a/b")),
        Err(PathError::NotRelative("/a/b".to_string()))
    );
}

#[test]
fn anchored_path_pop_and_push() {
    let mut path = AnchoredSystemPathBuf::from_raw("a/b").unwrap();
    assert!(path.pop());
    assert_eq!(path.as_str(), "a");
    assert!(path.pop());
    assert_eq!(path.as_str(), "");
    assert!(!path.pop());
    assert_eq!(path.as_str(), "");
    path.push("x");
    assert_eq!(path.as_str(), "x");
    path.push("y/z");
    assert_eq!(path.as_str(), "x/y/z");
    path.push("/w");
    assert_eq!(path.as_str(), "/w");
    assert!(!AnchoredSystemPathBuf::from_raw("/").unwrap().pop());
}

#[test]
fn anchored_path_texts() {
    let path = AnchoredSystemPathBuf::from_raw("a/b").unwrap();
    assert_eq!(path.to_str(), Ok("a/b"));
    assert_eq!(path.as_path(), PathBuf::from("a/b"));
    assert_eq!(path.to_unix().unwrap().as_str(), "a/b");
    assert!(AnchoredSystemPathBuf::from_raw("../a")
        .unwrap()
        .starts_with_parent_dir());
    assert!(!path.starts_with_parent_dir());
}

#[test]
fn path_error_messages() {
    assert_eq!(
        PathError::NotAbsolute("a".to_string()).to_string(),
        "Path is not absolute: a"
    );
    assert_eq!(
        PathError::NotRelative("/a".to_string()).to_string(),
        "Path is not relative: /a"
    );
    assert_eq!(
        PathError::InvalidUnicode("a".to_string()).to_string(),
        "Path is non-UTF-8: a"
    );
    assert_eq!(
        PathError::NotParent("/a".to_string(), "/b".to_string()).to_string(),
        "Path /a is not parent of /b"
    );
    assert_eq!(
        PathError::WindowsUnsafePath("something\\".to_string()).to_string(),
        "Path is not safe for windows: something\\"
    );
}
