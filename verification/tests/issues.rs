use chunking::fs_path::FileSystemPath;
use chunking::ident::AssetIdent;
use chunking::issue::{
    find_line_and_column, shortest_path, AssetContent, FileContent, FileLine,
    IssueProcessingPathItem, IssueSource, PlainAsset, SourcePos,
};

fn lines(offsets: &[usize]) -> Vec<FileLine> {
    offsets
        .iter()
        .map(|offset| FileLine {
            content: String::new(),
            bytes_offset: *offset,
        })
        .collect()
}

fn pos(line: usize, column: usize) -> SourcePos {
    SourcePos { line, column }
}

fn item(context: Option<&str>, description: &str) -> IssueProcessingPathItem {
    IssueProcessingPathItem {
        context: context.map(|context| context.to_string()),
        description: description.to_string(),
    }
}

fn way(descriptions: &[&str]) -> Option<Vec<IssueProcessingPathItem>> {
    Some(descriptions.iter().map(|text| item(None, text)).collect())
}

#[test]
fn places_in_lines() {
    let lines = lines(&[0, 10, 25]);
    assert_eq!(find_line_and_column(&lines, 0), pos(0, 0));
    assert_eq!(find_line_and_column(&lines, 3), pos(0, 3));
    assert_eq!(find_line_and_column(&lines, 9), pos(0, 9));
    assert_eq!(find_line_and_column(&lines, 10), pos(1, 0));
    assert_eq!(find_line_and_column(&lines, 24), pos(1, 14));
    assert_eq!(find_line_and_column(&lines, 25), pos(2, 0));
    assert_eq!(find_line_and_column(&lines, 100), pos(2, 75));
}

#[test]
fn places_before_the_first_line() {
    assert_eq!(find_line_and_column(&lines(&[5, 9]), 3), pos(0, 3));
    assert_eq!(find_line_and_column(&lines(&[]), 7), pos(0, 7));
}

#[test]
fn issue_source_from_offsets() {
    let lines = lines(&[0, 10, 25]);
    assert_eq!(
        IssueSource::from_byte_offset(4, Some(&lines), 12, 30),
        IssueSource {
            asset: 4,
            start: pos(1, 2),
            end: pos(2, 5),
        }
    );
    assert_eq!(
        IssueSource::from_byte_offset(4, None, 12, 30),
        IssueSource {
            asset: 4,
            start: SourcePos::default(),
            end: SourcePos::max(),
        }
    );
    assert_eq!(SourcePos::default(), pos(0, 0));
    assert_eq!(SourcePos::max(), pos(usize::MAX, usize::MAX));
}

#[test]
fn path_item_text() {
    assert_eq!(item(None, "parse").to_string(), "parse");
    assert_eq!(
        item(Some("src/a.js"), "parse").to_string(),
        "src/a.js (parse)"
    );
    assert_eq!(item(Some("a"), "b").clone(), item(Some("a"), "b"));
}

#[test]
fn shortest_path_takes_the_shortest() {
    let paths = vec![way(&["a", "b"]), None, way(&["z"]), way(&["c", "d", "e"])];
    assert_eq!(shortest_path(None, &paths), way(&["z"]));
    let own = item(Some("f"), "top");
    assert_eq!(
        shortest_path(Some(&own), &paths),
        Some(vec![item(Some("f"), "top"), item(None, "z")])
    );
}

#[test]
fn shortest_path_of_one_length_takes_the_first_text() {
    let paths = vec![way(&["a", "m"]), way(&["a", "c"]), way(&["a", "x"])];
    assert_eq!(shortest_path(None, &paths), way(&["a", "c"]));
    let same = vec![way(&["a", "c"]), way(&["a", "c"])];
    assert_eq!(shortest_path(None, &same), way(&["a", "c"]));
    let prefix = vec![way(&["ab"]), way(&["a"]), way(&["abc"])];
    assert_eq!(shortest_path(None, &prefix), way(&["a"]));
    let with_context = vec![
        Some(vec![item(Some("b"), "x")]),
        Some(vec![item(Some("a"), "y")]),
    ];
    assert_eq!(
        shortest_path(None, &with_context),
        Some(vec![item(Some("a"), "y")])
    );
}

#[test]
fn shortest_path_without_a_way() {
    assert_eq!(shortest_path(None, &vec![None, None]), None);
    assert_eq!(shortest_path(Some(&item(None, "top")), &vec![None]), None);
    assert_eq!(shortest_path(None, &vec![way(&[])]), way(&[]));
    assert_eq!(
        shortest_path(Some(&item(None, "top")), &vec![way(&[])]),
        way(&["top"])
    );
}

#[test]
fn plain_asset_shows_what_is_there() {
    let ident = AssetIdent::from_path(FileSystemPath::new("src/a.js")).with_modifier("css");
    let file = AssetContent::File(FileContent::Content(vec![1, 2, 3]));
    assert_eq!(
        PlainAsset::from_asset(&ident, &file),
        PlainAsset {
            ident: "src/a.js (css)".to_string(),
            content: FileContent::Content(vec![1, 2, 3]),
        }
    );
    let missing = AssetContent::File(FileContent::NotFound);
    assert_eq!(
        PlainAsset::from_asset(&ident, &missing).content,
        FileContent::NotFound
    );
    let redirect = AssetContent::Redirect {
        target: "src/b.js".to_string(),
    };
    assert_eq!(
        PlainAsset::from_asset(&ident, &redirect).content,
        FileContent::NotFound
    );
    let source = IssueSource {
        asset: 0,
        start: pos(1, 2),
        end: pos(3, 4),
    }
    .into_plain(&ident, &redirect);
    assert_eq!(source.start, pos(1, 2));
    assert_eq!(source.end, pos(3, 4));
    assert_eq!(source.asset.ident, "src/a.js (css)");
}
