use chunking::fs_path::FileSystemPath;
use chunking::ident::AssetIdent;

fn path(text: &str) -> FileSystemPath {
    FileSystemPath::new(text)
}

#[test]
fn join_puts_a_separator_between() {
    assert_eq!(path("a/b").join("c").as_str(), "a/b/c");
    assert_eq!(path("").join("c").as_str(), "c");
    assert_eq!(path("a").join("").as_str(), "a");
    assert_eq!(FileSystemPath::root().join("x/y").as_str(), "x/y");
}

#[test]
fn parent_and_file_name() {
    assert_eq!(path("a/b/c.txt").parent().as_str(), "a/b");
    assert_eq!(path("c.txt").parent().as_str(), "");
    assert_eq!(path("").parent().as_str(), "");
    assert_eq!(path("a/b/c.txt").file_name(), "c.txt");
    assert_eq!(path("c.txt").file_name(), "c.txt");
    assert_eq!(path("a/").file_name(), "");
}

#[test]
fn extension_and_stem() {
    assert_eq!(path("a/b/c.txt").extension(), Some("txt".to_string()));
    assert_eq!(path("a/b/c.tar.gz").extension(), Some("gz".to_string()));
    assert_eq!(path("a/b/c").extension(), None);
    assert_eq!(path("a.b/c").extension(), None);
    assert_eq!(path("a/.hidden").extension(), None);
    assert_eq!(path(".hidden").extension(), None);
    assert_eq!(path("a/c.").extension(), Some(String::new()));
    assert_eq!(path("a/b/c.txt").file_stem(), "c");
    assert_eq!(path("a/b/c.tar.gz").file_stem(), "c.tar");
    assert_eq!(path("a.b/c").file_stem(), "c");
    assert_eq!(path("a/.hidden").file_stem(), ".hidden");
}

#[test]
fn get_path_to_strips_the_base() {
    assert_eq!(path("a/b").get_path_to(&path("a/b/c/d")), Some("c/d".to_string()));
    assert_eq!(path("").get_path_to(&path("a/b")), Some("a/b".to_string()));
    assert_eq!(path("a/b").get_path_to(&path("a/b")), None);
    assert_eq!(path("a/b").get_path_to(&path("a/bc")), None);
    assert_eq!(path("a/b").get_path_to(&path("a")), None);
    assert_eq!(path("a/b").get_path_to(&path("x/a/b/c")), None);
    assert_eq!(path("a").get_path_to(&path("a/")), Some(String::new()));
}

#[test]
fn paths_compare_by_text() {
    assert!(path("a/b").same(&path("a/b")));
    assert!(!path("a/b").same(&path("a/c")));
    assert_eq!(path("a/b").clone(), path("a/b"));
}

#[test]
fn idents_carry_modifiers() {
    let ident = AssetIdent::from_path(path("src/a.js"));
    assert_eq!(ident.to_string(), "src/a.js");
    let loader = ident.with_modifier("manifest chunk").with_modifier("loader");
    assert_eq!(loader.to_string(), "src/a.js (manifest chunk, loader)");
    assert_eq!(loader.path().as_str(), "src/a.js");
    assert!(ident.same(&ident.clone()));
    assert!(!ident.same(&loader));
    assert!(!ident.with_modifier("a").same(&ident.with_modifier("b")));
    assert!(loader.same(&ident.with_modifier("manifest chunk").with_modifier("loader")));
    assert!(!ident.same(&AssetIdent::from_path(path("src/b.js"))));
    assert_eq!(ident, ident.clone());
}

#[test]
fn output_names() {
    let ident = AssetIdent::from_path(path("project/src/a.js"));
    assert_eq!(ident.output_name(&path("project"), ".js"), "src_a.js");
    assert_eq!(ident.output_name(&path("project"), ".css"), "src_a.js._.css");
    assert_eq!(ident.output_name(&path("elsewhere"), ".js"), "project_src_a.js");
    assert_eq!(ident.output_name(&path(""), ".js"), "project_src_a.js");
    assert_eq!(
        ident
            .with_modifier("a/b")
            .with_modifier("c")
            .output_name(&path("project"), ".js"),
        "src_a_a_b_c.js"
    );
    assert_eq!(ident.output_name(&path("project"), ""), "src_a.js");
}
