//! Issues found by validation, and the report that collects them.
use vstd::prelude::*;
use crate::text::{join2, owned, push_str};

verus! {

/// One problem found in a workflow.
#[derive(Clone, Debug)]
pub struct EccIssue {
    /// Machine-readable issue code.
    pub code: String,
    /// Human-readable description.
    pub message: String,
    /// How the problem could be fixed.
    pub suggestion: Option<String>,
    /// Where the problem was found.
    pub context: Option<String>,
}

/// The text content of an [`EccIssue`].
pub struct IssueView {
    pub code: Seq<char>,
    pub message: Seq<char>,
    pub suggestion: Option<Seq<char>>,
    pub context: Option<Seq<char>>,
}

/// The characters of an optional string.
pub open spec fn opt_view(o: Option<String>) -> Option<Seq<char>> {
    match o {
        Some(s) => Some(s@),
        None => None,
    }
}

impl View for EccIssue {
    type V = IssueView;

    open spec fn view(&self) -> IssueView {
        IssueView {
            code: self.code@,
            message: self.message@,
            suggestion: opt_view(self.suggestion),
            context: opt_view(self.context),
        }
    }
}

/// The text content of a list of issues.
pub open spec fn issues_view(v: Seq<EccIssue>) -> Seq<IssueView> {
    v.map_values(|i: EccIssue| i@)
}

/// An issue built from its four texts.
pub open spec fn spec_issue(
    code: Seq<char>,
    message: Seq<char>,
    suggestion: Seq<char>,
    context: Seq<char>,
) -> IssueView {
    IssueView { code, message, suggestion: Some(suggestion), context: Some(context) }
}

/// The context text naming a workflow: `Workflow: <id>`.
pub open spec fn workflow_context(id: Seq<char>) -> Seq<char> {
    "Workflow: "@ + id
}

impl EccIssue {
    /// A new issue.
    pub fn new(code: String, message: String, suggestion: Option<String>, context: Option<String>) -> (r: Self)
        ensures
            r.code == code,
            r.message == message,
            r.suggestion == suggestion,
            r.context == context,
    {
        EccIssue { code, message, suggestion, context }
    }
}

/// An issue with all four texts given.
pub fn make_issue(code: &str, message: String, suggestion: String, context: String) -> (r: EccIssue)
    ensures
        r@ == spec_issue(code@, message@, suggestion@, context@),
{
    EccIssue::new(owned(code), message, Some(suggestion), Some(context))
}

/// `Workflow: <id>`.
pub fn context_for(id: &String) -> (r: String)
    ensures
        r@ == workflow_context(id@),
{
    join2("Workflow: ", id.as_str())
}

/// The outcome of validating a workflow.
pub struct ValidationReport {
    /// When the report was made.
    pub generated_at: crate::time::Timestamp,
    /// How long validation took.
    pub duration: std::time::Duration,
    /// The issues found, rule by rule.
    pub issues: Vec<EccIssue>,
}

impl ValidationReport {
    /// A report holding `issues`.
    pub fn new(generated_at: crate::time::Timestamp, duration: std::time::Duration, issues: Vec<EccIssue>) -> (r: Self)
        ensures
            r.generated_at == generated_at,
            r.duration == duration,
            r.issues == issues,
    {
        ValidationReport { generated_at, duration, issues }
    }
}

} // verus!
