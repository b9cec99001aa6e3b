//! The decisions of plan execution: what to do after each attempt at a step.
//!
//! Running a plan alternates outside work (starting a step, calling a tool or a
//! model, asking the planner whether to retry, storing memories, publishing
//! events) with decisions.  The decisions are made here, by a state machine over
//! the outputs collected so far; the caller performs the outside work and reports
//! each attempt's outcome as a [`StepEvent`].
use vstd::prelude::*;
use crate::error::RavenError;
use crate::text::{join_strings, owned, push_str, spec_join, str_views};

verus! {

/// Steps of at least this priority are critical: their failure stops the plan.
pub const CRITICAL_PRIORITY: u32 = 8;

/// The outcome of one attempt at a step.
#[derive(Debug)]
pub enum StepEvent {
    /// The step produced this output.
    Succeeded(String),
    /// The step failed with this message, and the planner answered whether to
    /// retry it (or failed to answer).
    Failed { error: String, retry: Result<bool, RavenError> },
}

/// What to do next.
#[derive(Debug, Clone)]
pub enum StepAction {
    /// Attempt the same step again.
    Retry,
    /// Go on with the next step (or finish after the last one).
    NextStep,
    /// Stop the plan with this error.
    Abort(RavenError),
}

/// The outputs of the steps of a plan run so far.
pub struct PlanRun {
    outputs: Vec<String>,
}

impl View for PlanRun {
    type V = Seq<Seq<char>>;

    closed spec fn view(&self) -> Seq<Seq<char>> {
        str_views(self.outputs@)
    }
}

/// The message of a critical step's fatal failure.
pub open spec fn fatal_message(step_id: Seq<char>, error: Seq<char>) -> Seq<char> {
    "fatal failure on step "@ + step_id + ": "@ + error
}

/// The output recorded for a skipped non-critical step.
pub open spec fn skipped_output(error: Seq<char>) -> Seq<char> {
    "[error:"@ + error + "]"@
}

impl PlanRun {
    /// A run with no output yet.
    pub fn new() -> (r: Self)
        ensures
            r@ == Seq::<Seq<char>>::empty(),
    {
        let r = PlanRun { outputs: Vec::new() };
        proof {
            assert(r@ =~= Seq::<Seq<char>>::empty());
        }
        r
    }

    /// Decides what follows an attempt at step `step_id` of priority `priority`:
    /// an output is recorded and the run goes on; a failure the planner wants
    /// retried is retried; a failure it gives up on stops the run when the step
    /// is critical, and is otherwise recorded as an error output; a planner that
    /// cannot answer stops the run with its error.
    pub fn on_step_event(&mut self, step_id: &str, priority: u32, event: StepEvent) -> (action: StepAction)
        ensures
            match event {
                StepEvent::Succeeded(out) => action is NextStep && final(self)@ == old(self)@.push(out@),
                StepEvent::Failed { error, retry } => match retry {
                    Ok(true) => action is Retry && final(self)@ == old(self)@,
                    Ok(false) => if priority >= CRITICAL_PRIORITY {
                        action matches StepAction::Abort(RavenError::Executor(m)) && m@ == fatal_message(step_id@, error@)
                            && final(self)@ == old(self)@
                    } else {
                        action is NextStep && final(self)@ == old(self)@.push(skipped_output(error@))
                    },
                    Err(e) => action matches StepAction::Abort(a) && a == e && final(self)@ == old(self)@,
                },
            },
    {
        let ghost before = self@;
        match event {
            StepEvent::Succeeded(out) => {
                let ghost o = out@;
                self.outputs.push(out);
                proof {
                    assert(self@ =~= before.push(o));
                }
                StepAction::NextStep
            },
            StepEvent::Failed { error, retry } => match retry {
                Ok(true) => StepAction::Retry,
                Ok(false) => {
                    if priority >= CRITICAL_PRIORITY {
                        let mut m = owned("fatal failure on step ");
                        push_str(&mut m, step_id);
                        push_str(&mut m, ": ");
                        push_str(&mut m, error.as_str());
                        StepAction::Abort(RavenError::Executor(m))
                    } else {
                        let mut m = owned("[error:");
                        push_str(&mut m, error.as_str());
                        push_str(&mut m, "]");
                        let ghost mv = m@;
                        self.outputs.push(m);
                        proof {
                            assert(self@ =~= before.push(mv));
                        }
                        StepAction::NextStep
                    }
                },
                Err(e) => StepAction::Abort(e),
            },
        }
    }

    /// The result of a completed run: the outputs, one per line.
    pub fn finish(&self) -> (r: String)
        ensures
            r@ == spec_join(self@, "\n"@),
    {
        join_strings(&self.outputs, "\n")
    }
}

/// Where an attempt at a step is carried out.
#[derive(Debug, Clone)]
pub enum StepRoute {
    /// By invoking the named tool.
    Tool { name: String },
    /// By asking the language model, with the step's description as prompt.
    Model,
}

/// The route of a step: its tool (the `echo` tool when none is named) when it
/// needs one, else the language model.
pub fn route_step(needs_tool: bool, tool_name: Option<&str>) -> (r: StepRoute)
    ensures
        needs_tool ==> (r matches StepRoute::Tool { name } && name@ == (match tool_name {
            Some(t) => t@,
            None => "echo"@,
        })),
        !needs_tool ==> r is Model,
{
    if needs_tool {
        let name = match tool_name {
            Some(t) => owned(t),
            None => owned("echo"),
        };
        StepRoute::Tool { name }
    } else {
        StepRoute::Model
    }
}

/// The output of a step carried out by a tool whose result renders as `data`.
pub fn tool_output(data: &str) -> (r: String)
    ensures
        r@ == "tool_result: "@ + data@,
{
    crate::text::join2("tool_result: ", data)
}

} // verus!
