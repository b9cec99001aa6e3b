//! The workflow ECC engine: validation with the standard rules.
use vstd::prelude::*;
use crate::ecc::workflow::errors::WorkflowEccResult;
use crate::ecc::workflow::report::{issues_view, ValidationReport};
use crate::ecc::workflow::rules::default_rules;
use crate::ecc::workflow::rules::timeout::timeouts_summable;
use crate::ecc::workflow::types::Workflow;
use crate::ecc::workflow::validator::{rules_ready, validated, WorkflowValidator};

verus! {

/// Checks workflows against the standard rules.
pub struct WorkflowEccEngine {
    validator: WorkflowValidator,
}

impl WorkflowEccEngine {
    /// The rules the engine runs.
    pub closed spec fn rules(&self) -> Seq<crate::ecc::workflow::rules::WorkflowRule> {
        self.validator.rules@
    }

    /// An engine always runs the standard rules.
    #[verifier::type_invariant]
    closed spec fn runs_default_rules(&self) -> bool {
        self.validator.rules@ == default_rules()
    }

    /// An engine with the standard rules.
    pub fn new() -> (r: Self)
        ensures
            r.rules() == default_rules(),
    {
        WorkflowEccEngine { validator: WorkflowValidator::with_default_rules() }
    }

    /// Validates `workflow` with the standard rules.
    pub fn process(&self, workflow: &Workflow) -> (r: WorkflowEccResult<ValidationReport>)
        requires
            timeouts_summable(*workflow),
        ensures
            r matches Ok(rep) && validated(default_rules(), *workflow, issues_view(rep.issues@)),
    {
        proof {
            use_type_invariant(self);
            lemma_default_rules_ready(*workflow);
        }
        self.validator.validate(workflow)
    }

    /// Validates `workflow` with the standard rules, as [`Self::process`] does.
    pub fn validate_only(&self, workflow: &Workflow) -> (r: WorkflowEccResult<ValidationReport>)
        requires
            timeouts_summable(*workflow),
        ensures
            r matches Ok(rep) && validated(default_rules(), *workflow, issues_view(rep.issues@)),
    {
        proof {
            use_type_invariant(self);
            lemma_default_rules_ready(*workflow);
        }
        self.validator.validate(workflow)
    }
}

/// The standard rules can run on every workflow whose time limits add up in 64 bits.
pub proof fn lemma_default_rules_ready(w: Workflow)
    requires
        timeouts_summable(w),
    ensures
        rules_ready(default_rules(), w),
{
}

impl Default for WorkflowEccEngine {
    /// An engine with the standard rules.
    fn default() -> (r: Self)
        ensures
            r.rules() == default_rules(),
    {
        Self::new()
    }
}

} // verus!
