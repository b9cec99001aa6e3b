//! Workflow and step definitions.
use vstd::prelude::*;
use crate::strmap::StrMap;
use crate::text::{contains_str, str_views};
use crate::time::{utc_now, Timestamp};

verus! {

/// One step (action) of a workflow.
#[derive(Debug, Clone, PartialEq, Eq)]
pub struct WorkflowStep {
    /// Identifier of the step.
    pub id: String,
    /// What the step does.
    pub description: Option<String>,
    /// Time limit of the step in milliseconds.
    pub timeout_ms: Option<u64>,
    /// How many times the step may be retried.
    pub max_retries: Option<u32>,
    /// Identifiers of the steps that must finish before this one.
    pub dependencies: Vec<String>,
}

/// The dependencies of a step, by their characters.
pub open spec fn step_deps(s: WorkflowStep) -> Seq<Seq<char>> {
    str_views(s.dependencies@)
}

impl WorkflowStep {
    /// A step with identifier `id` and nothing else set.
    pub fn new(id: String) -> (r: Self)
        ensures
            r.id == id,
            r.description is None,
            r.timeout_ms is None,
            r.max_retries is None,
            r.dependencies@.len() == 0,
    {
        WorkflowStep {
            id,
            description: None,
            timeout_ms: None,
            max_retries: None,
            dependencies: Vec::new(),
        }
    }

    /// The step with its description set to `desc`.
    pub fn with_description(self, desc: String) -> (r: Self)
        ensures
            r == (WorkflowStep { description: Some(desc), ..self }),
    {
        let mut s = self;
        s.description = Some(desc);
        s
    }

    /// The step with its time limit set to `ms` milliseconds.
    pub fn with_timeout(self, ms: u64) -> (r: Self)
        ensures
            r == (WorkflowStep { timeout_ms: Some(ms), ..self }),
    {
        let mut s = self;
        s.timeout_ms = Some(ms);
        s
    }

    /// The step with its retry limit set to `count`.
    pub fn with_retries(self, count: u32) -> (r: Self)
        ensures
            r == (WorkflowStep { max_retries: Some(count), ..self }),
    {
        let mut s = self;
        s.max_retries = Some(count);
        s
    }

    /// The step with `dep` added to its dependencies, unless already there.
    pub fn add_dependency(self, dep: String) -> (r: Self)
        ensures
            r.id == self.id,
            r.description == self.description,
            r.timeout_ms == self.timeout_ms,
            r.max_retries == self.max_retries,
            step_deps(self).contains(dep@) ==> r.dependencies == self.dependencies,
            !step_deps(self).contains(dep@) ==> r.dependencies@ == self.dependencies@.push(dep),
    {
        let mut s = self;
        if !contains_str(&s.dependencies, dep.as_str()) {
            s.dependencies.push(dep);
        }
        s
    }
}

/// Recovery settings of a workflow.
#[derive(Debug, Clone)]
pub struct RecoveryConfig {
    /// Whether failed steps are retried.
    pub enable_retry: bool,
    /// Whether failed runs are rolled back.
    pub enable_rollback: bool,
    /// Whether interrupted runs can resume.
    pub enable_resume: bool,
    /// Delay between retries in milliseconds.
    pub retry_delay_ms: Option<u64>,
}

impl Default for RecoveryConfig {
    /// Retry, rollback and resume on, with a delay of 1000 ms between retries.
    fn default() -> (r: Self)
        ensures
            r.enable_retry,
            r.enable_rollback,
            r.enable_resume,
            r.retry_delay_ms == Some(1000u64),
    {
        RecoveryConfig {
            enable_retry: true,
            enable_rollback: true,
            enable_resume: true,
            retry_delay_ms: Some(1000),
        }
    }
}

/// A workflow to be validated.
pub struct Workflow {
    /// Identifier of the workflow.
    pub id: String,
    /// What the workflow does.
    pub description: Option<String>,
    /// When the workflow was made.
    pub created_at: Timestamp,
    /// Further key/value data.
    pub metadata: StrMap<String>,
    /// The steps, in order.
    pub steps: Vec<WorkflowStep>,
    /// Identifier of the step where execution starts.
    pub start_step_id: Option<String>,
    /// Identifiers of the steps that end the workflow.
    pub end_step_ids: Vec<String>,
    /// Time limit of the whole workflow in milliseconds.
    pub total_timeout_ms: Option<u64>,
    /// Recovery settings.
    pub recovery_config: RecoveryConfig,
}

/// The identifiers of a sequence of steps, in order.
pub open spec fn ids_of(steps: Seq<WorkflowStep>) -> Seq<Seq<char>> {
    steps.map_values(|s: WorkflowStep| s.id@)
}

/// Index of the first step with identifier `id`, or `steps.len()` if there is none.
pub open spec fn first_step_index(steps: Seq<WorkflowStep>, id: Seq<char>) -> int
    decreases steps.len(),
{
    if steps.len() == 0 {
        0
    } else if steps[0].id@ == id {
        0
    } else {
        1 + first_step_index(steps.drop_first(), id)
    }
}

/// Facts about [`first_step_index`].
pub proof fn lemma_first_step_index(steps: Seq<WorkflowStep>, id: Seq<char>)
    ensures
        0 <= first_step_index(steps, id) <= steps.len(),
        first_step_index(steps, id) < steps.len() ==> steps[first_step_index(steps, id)].id@ == id,
        forall|i: int| 0 <= i < first_step_index(steps, id) ==> steps[i].id@ != id,
        (first_step_index(steps, id) < steps.len()) == ids_of(steps).contains(id),
    decreases steps.len(),
{
    if steps.len() > 0 && steps[0].id@ != id {
        lemma_first_step_index(steps.drop_first(), id);
        assert forall|i: int| 0 <= i < first_step_index(steps, id) implies steps[i].id@ != id by {
            if i > 0 {
                assert(steps[i] == steps.drop_first()[i - 1]);
            }
        }
        if ids_of(steps).contains(id) {
            let k = choose|k: int| 0 <= k < ids_of(steps).len() && ids_of(steps)[k] == id;
            assert(ids_of(steps.drop_first())[k - 1] == id);
        }
        if ids_of(steps.drop_first()).contains(id) {
            let k = choose|k: int| 0 <= k < ids_of(steps.drop_first()).len() && ids_of(steps.drop_first())[k] == id;
            assert(ids_of(steps)[k + 1] == id);
        }
    } else if steps.len() > 0 {
        assert(ids_of(steps)[0] == id);
    }
}

impl Workflow {
    /// A workflow with identifier `id`, no steps, start or end, made now, with
    /// default recovery settings.
    pub fn new(id: String) -> (r: Self)
        ensures
            r.id == id,
            r.description is None,
            r.metadata@ == Map::<Seq<char>, String>::empty(),
            r.steps@.len() == 0,
            r.start_step_id is None,
            r.end_step_ids@.len() == 0,
            r.total_timeout_ms is None,
            r.recovery_config.enable_retry,
            r.recovery_config.enable_rollback,
            r.recovery_config.enable_resume,
            r.recovery_config.retry_delay_ms == Some(1000u64),
    {
        Workflow {
            id,
            description: None,
            created_at: utc_now(),
            metadata: StrMap::new(),
            steps: Vec::new(),
            start_step_id: None,
            end_step_ids: Vec::new(),
            total_timeout_ms: None,
            recovery_config: RecoveryConfig::default(),
        }
    }

    /// The workflow with `step` appended.
    pub fn add_step(self, step: WorkflowStep) -> (r: Self)
        ensures
            r == (Workflow { steps: r.steps, ..self }),
            r.steps@ == self.steps@.push(step),
    {
        let mut w = self;
        w.steps.push(step);
        w
    }

    /// The workflow with its start step set to `step_id`.
    pub fn with_start_step(self, step_id: String) -> (r: Self)
        ensures
            r == (Workflow { start_step_id: Some(step_id), ..self }),
    {
        let mut w = self;
        w.start_step_id = Some(step_id);
        w
    }

    /// The workflow with `step_id` added to its end steps, unless already there.
    pub fn add_end_step(self, step_id: String) -> (r: Self)
        ensures
            r == (Workflow { end_step_ids: r.end_step_ids, ..self }),
            str_views(self.end_step_ids@).contains(step_id@) ==> r.end_step_ids == self.end_step_ids,
            !str_views(self.end_step_ids@).contains(step_id@) ==> r.end_step_ids@
                == self.end_step_ids@.push(step_id),
    {
        let mut w = self;
        if !contains_str(&w.end_step_ids, step_id.as_str()) {
            w.end_step_ids.push(step_id);
        }
        w
    }

    /// The first step with identifier `id`.
    pub fn get_step(&self, id: &str) -> (r: Option<&WorkflowStep>)
        ensures
            r is None <==> !ids_of(self.steps@).contains(id@),
            r matches Some(s) ==> *s == self.steps@[first_step_index(self.steps@, id@)],
    {
        proof {
            lemma_first_step_index(self.steps@, id@);
        }
        let n = self.steps.len();
        let mut i: usize = 0;
        while i < n
            invariant
                i <= n,
                n == self.steps@.len(),
                forall|j: int| 0 <= j < i ==> self.steps@[j].id@ != id@,
                0 <= first_step_index(self.steps@, id@) <= n,
                first_step_index(self.steps@, id@) < n ==> self.steps@[first_step_index(self.steps@, id@)].id@ == id@,
                forall|j: int| 0 <= j < first_step_index(self.steps@, id@) ==> self.steps@[j].id@ != id@,
            decreases n - i,
        {
            if crate::text::str_eq(self.steps[i].id.as_str(), id) {
                assert(ids_of(self.steps@)[i as int] == id@);
                return Some(&self.steps[i]);
            }
            i = i + 1;
        }
        None
    }

    /// The distinct step identifiers, in order of first occurrence.
    pub fn step_ids(&self) -> (r: Vec<String>)
        ensures
            str_views(r@).no_duplicates(),
            str_views(r@).to_set() == ids_of(self.steps@).to_set(),
    {
        let n = self.steps.len();
        let mut r: Vec<String> = Vec::new();
        let mut i: usize = 0;
        while i < n
            invariant
                i <= n,
                n == self.steps@.len(),
                str_views(r@).no_duplicates(),
                forall|x: Seq<char>| str_views(r@).contains(x) <==> ids_of(self.steps@.subrange(0, i as int)).contains(x),
            decreases n - i,
        {
            let ghost before = str_views(r@);
            let ghost prefix = ids_of(self.steps@.subrange(0, i as int));
            let ghost next = ids_of(self.steps@.subrange(0, i + 1));
            proof {
                assert(next =~= prefix.push(self.steps@[i as int].id@));
            }
            if !contains_str(&r, self.steps[i].id.as_str()) {
                r.push(crate::text::copy_string(&self.steps[i].id));
                proof {
                    assert(str_views(r@) =~= before.push(self.steps@[i as int].id@));
                    assert forall|x: Seq<char>| str_views(r@).contains(x) <==> next.contains(x) by {
                        if str_views(r@).contains(x) {
                            let k = choose|k: int| 0 <= k < str_views(r@).len() && str_views(r@)[k] == x;
                            if k < before.len() {
                                assert(before[k] == x);
                                assert(before.contains(x));
                                assert(prefix.contains(x));
                                let m = choose|m: int| 0 <= m < prefix.len() && prefix[m] == x;
                                assert(next[m] == x);
                            } else {
                                assert(next[i as int] == x);
                            }
                        }
                        if next.contains(x) {
                            let k = choose|k: int| 0 <= k < next.len() && next[k] == x;
                            if k < i {
                                assert(prefix[k] == x);
                                assert(prefix.contains(x));
                                assert(before.contains(x));
                                let m = choose|m: int| 0 <= m < before.len() && before[m] == x;
                                assert(str_views(r@)[m] == x);
                            } else {
                                assert(str_views(r@)[before.len() as int] == x);
                            }
                        }
                    }
                }
            } else {
                proof {
                    assert forall|x: Seq<char>| str_views(r@).contains(x) <==> next.contains(x) by {
                        if str_views(r@).contains(x) {
                            assert(prefix.contains(x));
                            let m = choose|m: int| 0 <= m < prefix.len() && prefix[m] == x;
                            assert(next[m] == x);
                        }
                        if next.contains(x) {
                            let k = choose|k: int| 0 <= k < next.len() && next[k] == x;
                            if k < i {
                                assert(prefix[k] == x);
                                assert(prefix.contains(x));
                            } else {
                                assert(x == self.steps@[i as int].id@);
                            }
                        }
                    }
                }
            }
            i = i + 1;
        }
        proof {
            assert(self.steps@.subrange(0, n as int) =~= self.steps@);
            assert(str_views(r@).to_set() =~= ids_of(self.steps@).to_set());
        }
        r
    }

    /// Whether the workflow has no steps.
    pub fn is_empty(&self) -> (b: bool)
        ensures
            b == (self.steps@.len() == 0),
    {
        self.steps.len() == 0
    }

    /// Whether the workflow has steps, a start step and at least one end step.
    pub fn has_valid_structure(&self) -> (b: bool)
        ensures
            b == (self.steps@.len() > 0 && self.start_step_id is Some && self.end_step_ids@.len() > 0),
    {
        !self.is_empty() && self.start_step_id.is_some() && self.end_step_ids.len() != 0
    }
}

/// Settings of workflow graph analysis.
#[derive(Debug, Clone)]
pub struct WorkflowAnalysisOptions {
    /// Check for deadlock.
    pub check_deadlock: bool,
    /// Check for dependency cycles.
    pub check_cycle: bool,
    /// Check reachability from the start step.
    pub check_reachability: bool,
    /// Check for steps without a path to an end step.
    pub check_orphan: bool,
    /// Depth limit of graph analysis.
    pub max_depth: Option<usize>,
}

impl Default for WorkflowAnalysisOptions {
    /// Every check on, with a depth limit of 1000.
    fn default() -> (r: Self)
        ensures
            r.check_deadlock,
            r.check_cycle,
            r.check_reachability,
            r.check_orphan,
            r.max_depth == Some(1000usize),
    {
        WorkflowAnalysisOptions {
            check_deadlock: true,
            check_cycle: true,
            check_reachability: true,
            check_orphan: true,
            max_depth: Some(1000),
        }
    }
}

} // verus!
