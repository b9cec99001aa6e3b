//! Rule: the workflow identifier is non-empty and well-formed.
use vstd::prelude::*;
use crate::ecc::workflow::errors::WorkflowEccResult;
use crate::ecc::workflow::report::{issues_view, make_issue, spec_issue, EccIssue, IssueView};
use crate::text::{join2};
use crate::ecc::workflow::rules::issue_if;
use crate::ecc::workflow::types::Workflow;
use crate::text::{char_is_alphanumeric, chars_of, is_alphanumeric, owned};

verus! {

/// Checks that the workflow identifier is non-empty and made of letters, digits,
/// underscores and hyphens.
#[derive(Clone, Copy, Debug, PartialEq, Eq)]
pub struct WorkflowIdRule;

/// A character allowed in a workflow identifier.
pub open spec fn id_char_ok(c: char) -> bool {
    char_is_alphanumeric(c) || c == '_' || c == '-'
}

/// Every character of `id` is allowed.
pub open spec fn id_chars_ok(id: Seq<char>) -> bool {
    forall|i: int| 0 <= i < id.len() ==> id_char_ok(#[trigger] id[i])
}

/// The issues of [`WorkflowIdRule`]: one when the identifier is empty, one when
/// it holds a character that is not allowed.
pub open spec fn workflow_id_issues(w: Workflow) -> Seq<IssueView> {
    issue_if(
        w.id@.len() == 0,
        spec_issue("workflow_id_empty"@, "Workflow ID must not be empty"@, "Provide a non-empty workflow ID"@, "Workflow"@),
    ) + issue_if(
        !id_chars_ok(w.id@),
        spec_issue(
            "workflow_id_invalid_chars"@,
            "Workflow ID contains invalid characters"@,
            "Use only alphanumeric characters, hyphens, and underscores"@,
            "ID: "@ + w.id@,
        ),
    )
}

impl WorkflowIdRule {
    /// Whether every character of `id` is allowed.
    fn valid_chars(id: &String) -> (b: bool)
        ensures
            b == id_chars_ok(id@),
    {
        let cs = chars_of(id.as_str());
        let n = cs.len();
        let mut i: usize = 0;
        while i < n
            invariant
                i <= n,
                n == cs@.len(),
                cs@ == id@,
                forall|t: int| 0 <= t < i ==> id_char_ok(#[trigger] cs@[t]),
            decreases n - i,
        {
            let c = cs[i];
            if !(is_alphanumeric(c) || c == '_' || c == '-') {
                assert(!id_char_ok(id@[i as int]));
                return false;
            }
            i = i + 1;
        }
        true
    }

    /// The rule's identifier.
    pub fn id(&self) -> (r: &'static str)
        ensures
            r@ == "workflow_id_rule"@,
    {
        "workflow_id_rule"
    }

    /// What the rule checks.
    pub fn description(&self) -> (r: &'static str)
        ensures
            r@ == "Workflow must have a valid non-empty ID"@,
    {
        "Workflow must have a valid non-empty ID"
    }

    /// The rule applies to every workflow.
    pub fn applies_to(&self, workflow: &Workflow) -> (b: bool)
        ensures
            b,
    {
        true
    }

    /// The issues found in `workflow`.
    pub fn evaluate(&self, workflow: &Workflow) -> (r: WorkflowEccResult<Vec<EccIssue>>)
        ensures
            r matches Ok(v) && issues_view(v@) == workflow_id_issues(*workflow),
    {
        let mut issues: Vec<EccIssue> = Vec::new();
        if workflow.id.as_str().unicode_len() == 0 {
            issues.push(make_issue(
                "workflow_id_empty",
                owned("Workflow ID must not be empty"),
                owned("Provide a non-empty workflow ID"),
                owned("Workflow"),
            ));
        }
        let ghost before = issues_view(issues@);
        if !Self::valid_chars(&workflow.id) {
            let issue = make_issue(
                "workflow_id_invalid_chars",
                owned("Workflow ID contains invalid characters"),
                owned("Use only alphanumeric characters, hyphens, and underscores"),
                join2("ID: ", workflow.id.as_str()),
            );
            proof {
                crate::ecc::workflow::rules::lemma_issues_push(issues@, issue);
            }
            issues.push(issue);
        }
        proof {
            assert(issues_view(issues@) =~= workflow_id_issues(*workflow));
        }
        Ok(issues)
    }
}

} // verus!
