//! Rule: every dependency names an existing step.
use vstd::prelude::*;
use crate::ecc::workflow::errors::WorkflowEccResult;
use crate::ecc::workflow::report::{context_for, issues_view, make_issue, EccIssue, IssueView};
use crate::text::{join2};
use crate::ecc::workflow::rules::{
    in_step_ids, issue_if, lemma_issues_push, lemma_per_name_next, lemma_per_step_next, per_name, per_step, wf_issue,
};
use crate::ecc::workflow::types::{ids_of, step_deps, Workflow, WorkflowStep};
use crate::text::{owned, push_str, str_views};

verus! {

/// Checks that each dependency of each step is the identifier of a step.
#[derive(Clone, Copy, Debug, PartialEq, Eq)]
pub struct DependencyExistsRule;

/// The issue about dependency `dep` of step `st` of `w`, if `dep` names no step.
pub open spec fn missing_dependency_issue(w: Workflow, st: WorkflowStep, dep: Seq<char>) -> Seq<IssueView> {
    issue_if(
        !ids_of(w.steps@).contains(dep),
        wf_issue(
            w,
            "missing_dependency"@,
            "Step "@ + st.id@ + " depends on non-existent step "@ + dep,
            "Ensure step "@ + dep + " exists before adding it as dependency"@,
        ),
    )
}

/// The issues about the dependencies of step `st`, in order.
pub open spec fn step_dependency_issues(w: Workflow, st: WorkflowStep) -> Seq<IssueView> {
    per_name(step_deps(st), |d: Seq<char>| missing_dependency_issue(w, st, d))
}

/// The issues of [`DependencyExistsRule`]: one for each dependency, step by step
/// and in order, that names no step.
pub open spec fn dependency_exists_issues(w: Workflow) -> Seq<IssueView> {
    per_step(w.steps@, |st: WorkflowStep| step_dependency_issues(w, st))
}

/// `Step <id> depends on non-existent step <dep>`.
fn missing_message(id: &String, dep: &String) -> (r: String)
    ensures
        r@ == "Step "@ + id@ + " depends on non-existent step "@ + dep@,
{
    let mut r = owned("Step ");
    push_str(&mut r, id.as_str());
    push_str(&mut r, " depends on non-existent step ");
    push_str(&mut r, dep.as_str());
    r
}

/// `Ensure step <dep> exists before adding it as dependency`.
fn missing_suggestion(dep: &String) -> (r: String)
    ensures
        r@ == "Ensure step "@ + dep@ + " exists before adding it as dependency"@,
{
    let mut r = owned("Ensure step ");
    push_str(&mut r, dep.as_str());
    push_str(&mut r, " exists before adding it as dependency");
    r
}

impl DependencyExistsRule {
    /// The rule's identifier.
    pub fn id(&self) -> (r: &'static str)
        ensures
            r@ == "dependency_exists_rule"@,
    {
        "dependency_exists_rule"
    }

    /// What the rule checks.
    pub fn description(&self) -> (r: &'static str)
        ensures
            r@ == "All step dependencies must reference existing steps"@,
    {
        "All step dependencies must reference existing steps"
    }

    /// The rule applies to workflows with steps.
    pub fn applies_to(&self, workflow: &Workflow) -> (b: bool)
        ensures
            b == (workflow.steps@.len() > 0),
    {
        !workflow.is_empty()
    }

    /// The issues found in `workflow`.
    pub fn evaluate(&self, workflow: &Workflow) -> (r: WorkflowEccResult<Vec<EccIssue>>)
        ensures
            r matches Ok(v) && issues_view(v@) == dependency_exists_issues(*workflow),
    {
        let ghost f = |st: WorkflowStep| step_dependency_issues(*workflow, st);
        let ghost steps = workflow.steps@;
        let ids = workflow.step_ids();
        let mut issues: Vec<EccIssue> = Vec::new();
        let n = workflow.steps.len();
        let mut i: usize = 0;
        while i < n
            invariant
                i <= n,
                n == steps.len(),
                steps == workflow.steps@,
                f == (|st: WorkflowStep| step_dependency_issues(*workflow, st)),
                str_views(ids@).to_set() == ids_of(workflow.steps@).to_set(),
                issues_view(issues@) == per_step(steps.subrange(0, i as int), f),
            decreases n - i,
        {
            proof {
                lemma_per_step_next(steps, i as int, f);
            }
            let step = &workflow.steps[i];
            let ghost st = steps[i as int];
            let ghost g = |d: Seq<char>| missing_dependency_issue(*workflow, st, d);
            let ghost deps = step_deps(st);
            let ghost start = issues_view(issues@);
            let m = step.dependencies.len();
            let mut j: usize = 0;
            while j < m
                invariant
                    j <= m,
                    m == step.dependencies@.len(),
                    *step == st,
                    deps == step_deps(st),
                    g == (|d: Seq<char>| missing_dependency_issue(*workflow, st, d)),
                    str_views(ids@).to_set() == ids_of(workflow.steps@).to_set(),
                    issues_view(issues@) == start + per_name(deps.subrange(0, j as int), g),
                decreases m - j,
            {
                proof {
                    lemma_per_name_next(deps, j as int, g);
                }
                let dep = &step.dependencies[j];
                if !in_step_ids(&ids, workflow, dep) {
                    let issue = make_issue(
                        "missing_dependency",
                        missing_message(&step.id, dep),
                        missing_suggestion(dep),
                        context_for(&workflow.id),
                    );
                    proof {
                        lemma_issues_push(issues@, issue);
                    }
                    issues.push(issue);
                }
                proof {
                    assert(issues_view(issues@) =~= start + per_name(deps.subrange(0, j + 1), g));
                }
                j = j + 1;
            }
            proof {
                assert(deps.subrange(0, m as int) =~= deps);
                assert(issues_view(issues@) =~= per_step(steps.subrange(0, i + 1), f));
            }
            i = i + 1;
        }
        proof {
            assert(steps.subrange(0, n as int) =~= steps);
        }
        Ok(issues)
    }
}

} // verus!
