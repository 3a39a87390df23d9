use chunking::severity::IssueSeverity;

#[test]
fn severity_names() {
    assert_eq!(IssueSeverity::Bug.as_str(), "bug");
    assert_eq!(IssueSeverity::Fatal.as_str(), "fatal");
    assert_eq!(IssueSeverity::Error.as_str(), "error");
    assert_eq!(IssueSeverity::Warning.as_str(), "warning");
    assert_eq!(IssueSeverity::Hint.as_str(), "hint");
    assert_eq!(IssueSeverity::Note.as_str(), "note");
    assert_eq!(IssueSeverity::Suggestion.as_str(), "suggestion");
    assert_eq!(IssueSeverity::Info.as_str(), "info");
}

#[test]
fn severity_help() {
    assert_eq!(IssueSeverity::Bug.as_help_str(), "bug in implementation");
    assert_eq!(IssueSeverity::Fatal.as_help_str(), "unrecoverable problem");
    assert_eq!(
        IssueSeverity::Error.as_help_str(),
        "problem that cause a broken result"
    );
    assert_eq!(
        IssueSeverity::Warning.as_help_str(),
        "problem should be addressed in short term"
    );
    assert_eq!(IssueSeverity::Hint.as_help_str(), "idea for improvement");
    assert_eq!(
        IssueSeverity::Note.as_help_str(),
        "detail that is worth mentioning"
    );
    assert_eq!(
        IssueSeverity::Suggestion.as_help_str(),
        "change proposal for improvement"
    );
    assert_eq!(IssueSeverity::Info.as_help_str(), "detail that is worth telling");
}

#[test]
fn severity_order() {
    assert!(IssueSeverity::Bug < IssueSeverity::Fatal);
    assert!(IssueSeverity::Warning < IssueSeverity::Info);
}
