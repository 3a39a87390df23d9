use chunking::issue::{
    root_shortest_path, FileContent, IssueProcessingPathItem, PlainAsset, PlainIssueSource,
    SourcePos,
};
use chunking::plain_issue::{hash_plain_issue, HashWrite, Issue, PlainIssue};
use chunking::severity::IssueSeverity;

fn text(text: &str) -> HashWrite {
    HashWrite::Text(text.to_string())
}

fn source() -> PlainIssueSource {
    PlainIssueSource {
        asset: PlainAsset {
            ident: "src/a.js".to_string(),
            content: FileContent::Content(vec![7]),
        },
        start: SourcePos { line: 1, column: 2 },
        end: SourcePos { line: 3, column: 4 },
    }
}

fn way() -> Option<Vec<IssueProcessingPathItem>> {
    Some(vec![IssueProcessingPathItem {
        context: None,
        description: "build".to_string(),
    }])
}

fn issue() -> Issue {
    let mut issue = Issue::new(
        "src/a.js".to_string(),
        "unexpected token".to_string(),
        "at C:\\project\\src\\a.js".to_string(),
    );
    issue.source = Some(source());
    let mut sub = Issue::new("src/b.js".to_string(), "sub".to_string(), "below".to_string());
    sub.severity = IssueSeverity::Warning;
    issue.sub_issues.push(sub);
    issue
}

#[test]
fn new_issue_has_the_defaults() {
    let issue = Issue::new("c".to_string(), "t".to_string(), "d".to_string());
    assert_eq!(issue.severity, IssueSeverity::Error);
    assert_eq!(issue.context, "c");
    assert_eq!(issue.title, "t");
    assert_eq!(issue.description, "d");
    assert_eq!(issue.category, "");
    assert_eq!(issue.detail, "");
    assert_eq!(issue.documentation_link, "");
    assert_eq!(issue.source, None);
    assert!(issue.sub_issues.is_empty());
}

#[test]
fn plain_issue_shows_the_issue() {
    let plain = issue().into_plain(way());
    assert_eq!(
        plain,
        PlainIssue {
            severity: IssueSeverity::Error,
            context: "src/a.js".to_string(),
            category: String::new(),
            title: "unexpected token".to_string(),
            description: "at C:\\project\\src\\a.js".to_string(),
            detail: String::new(),
            documentation_link: String::new(),
            source: Some(source()),
            sub_issues: vec![PlainIssue {
                severity: IssueSeverity::Warning,
                context: "src/b.js".to_string(),
                category: String::new(),
                title: "sub".to_string(),
                description: "below".to_string(),
                detail: String::new(),
                documentation_link: String::new(),
                source: None,
                sub_issues: vec![],
                processing_path: None,
            }],
            processing_path: way(),
        }
    );
}

#[test]
fn hash_input_of_the_issue_alone() {
    let plain = issue().into_plain(way());
    assert_eq!(
        plain.internal_hash(false),
        vec![
            HashWrite::Severity(IssueSeverity::Error),
            text("src/a.js"),
            text(""),
            text("unexpected token"),
            text("at C:/project/src/a.js"),
            text(""),
            text(""),
            HashWrite::Byte(1),
            HashWrite::Place(SourcePos { line: 1, column: 2 }),
            HashWrite::Place(SourcePos { line: 3, column: 4 }),
        ]
    );
}

#[test]
fn full_hash_input_takes_sub_issues_and_the_way() {
    let plain = issue().into_plain(way());
    assert_eq!(
        plain.internal_hash(true),
        vec![
            HashWrite::Severity(IssueSeverity::Error),
            text("src/a.js"),
            text(""),
            text("unexpected token"),
            text("at C:/project/src/a.js"),
            text(""),
            text(""),
            HashWrite::Byte(1),
            HashWrite::Place(SourcePos { line: 1, column: 2 }),
            HashWrite::Place(SourcePos { line: 3, column: 4 }),
            HashWrite::Count(1),
            HashWrite::Severity(IssueSeverity::Warning),
            text("src/b.js"),
            text(""),
            text("sub"),
            text("below"),
            text(""),
            text(""),
            HashWrite::Byte(0),
            HashWrite::Count(0),
            HashWrite::Way(None),
            HashWrite::Way(way()),
        ]
    );
}

#[test]
fn hash_input_is_added_to_what_was_written() {
    let plain = Issue::new("c".to_string(), "t".to_string(), "d".to_string()).into_plain(None);
    let mut written = vec![HashWrite::Byte(9)];
    hash_plain_issue(&plain, &mut written, false);
    assert_eq!(written.len(), 9);
    assert_eq!(written[0], HashWrite::Byte(9));
    assert_eq!(written[8], HashWrite::Byte(0));
}

#[test]
fn way_from_the_root() {
    assert_eq!(root_shortest_path(3, 3), Some(vec![]));
    assert_eq!(root_shortest_path(3, 4), None);
}

#[test]
fn captured_issues_are_shown_in_order() {
    let captured = chunking::plain_issue::CapturedIssues::new(vec![
        Issue::new("a".to_string(), "first".to_string(), "d".to_string()),
        issue(),
    ]);
    assert!(!captured.is_empty());
    assert_eq!(captured.len(), 2);
    assert_eq!(captured.get(1), Some(&issue()));
    assert_eq!(captured.get(2), None);
    assert_eq!(captured.iter().len(), 2);
    let plain = captured.get_plain_issues();
    assert_eq!(plain.len(), 2);
    assert_eq!(plain[0].title, "first");
    assert_eq!(plain[1], issue().into_plain(None));
    assert!(chunking::plain_issue::CapturedIssues::new(vec![]).is_empty());
}
