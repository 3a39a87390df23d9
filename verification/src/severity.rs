//! How serious a reported issue is.

use vstd::prelude::*;

verus! {

/// Severity of an issue, from the most to the least urgent.
#[derive(Clone, Copy, Debug, PartialEq, Eq, PartialOrd, Ord, Hash)]
pub enum IssueSeverity {
    Bug,
    Fatal,
    Error,
    Warning,
    Hint,
    Note,
    Suggestion,
    Info,
}

impl IssueSeverity {
    /// The lower-case name of the severity.
    pub open spec fn name(self) -> Seq<char> {
        match self {
            IssueSeverity::Bug => "bug"@,
            IssueSeverity::Fatal => "fatal"@,
            IssueSeverity::Error => "error"@,
            IssueSeverity::Warning => "warning"@,
            IssueSeverity::Hint => "hint"@,
            IssueSeverity::Note => "note"@,
            IssueSeverity::Suggestion => "suggestion"@,
            IssueSeverity::Info => "info"@,
        }
    }

    /// The sentence that explains the severity to a user.
    pub open spec fn help(self) -> Seq<char> {
        match self {
            IssueSeverity::Bug => "bug in implementation"@,
            IssueSeverity::Fatal => "unrecoverable problem"@,
            IssueSeverity::Error => "problem that cause a broken result"@,
            IssueSeverity::Warning => "problem should be addressed in short term"@,
            IssueSeverity::Hint => "idea for improvement"@,
            IssueSeverity::Note => "detail that is worth mentioning"@,
            IssueSeverity::Suggestion => "change proposal for improvement"@,
            IssueSeverity::Info => "detail that is worth telling"@,
        }
    }

    pub fn as_str(&self) -> (text: &'static str)
        ensures
            text@ == self.name(),
    {
        match self {
            IssueSeverity::Bug => "bug",
            IssueSeverity::Fatal => "fatal",
            IssueSeverity::Error => "error",
            IssueSeverity::Warning => "warning",
            IssueSeverity::Hint => "hint",
            IssueSeverity::Note => "note",
            IssueSeverity::Suggestion => "suggestion",
            IssueSeverity::Info => "info",
        }
    }

    pub fn as_help_str(&self) -> (text: &'static str)
        ensures
            text@ == self.help(),
    {
        match self {
            IssueSeverity::Bug => "bug in implementation",
            IssueSeverity::Fatal => "unrecoverable problem",
            IssueSeverity::Error => "problem that cause a broken result",
            IssueSeverity::Warning => "problem should be addressed in short term",
            IssueSeverity::Hint => "idea for improvement",
            IssueSeverity::Note => "detail that is worth mentioning",
            IssueSeverity::Suggestion => "change proposal for improvement",
            IssueSeverity::Info => "detail that is worth telling",
        }
    }
}

} // verus!
