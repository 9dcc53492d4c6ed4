//! The decisions of the agent execution loop. The loop alternates outside
//! work (planning, running a step, asking the executor whether to go on,
//! reflecting) with decisions; the decisions live here as a state machine:
//! each outcome of outside work is an event, and each event yields the next
//! action for the driver to perform.
use vstd::prelude::*;
use crate::agent_types::AgentError;
use crate::message::Part;
use crate::planning::ExecutionStatus;
use crate::text::owned;

verus! {

/// Why the loop stopped.
#[derive(PartialEq, Eq, Structural, Clone, Copy, Debug)]
pub enum LoopStop {
    /// More than two planning failures in a row.
    TooManyErrors,
    /// The step index reached the configured iteration limit.
    MaxIterations,
    /// The last step asked the user for input.
    InputRequired,
    /// The executor decided not to go on (and no reflection retried).
    Finished,
}

/// What the driver does next.
#[derive(PartialEq, Eq, Structural, Clone, Copy, Debug)]
pub enum LoopAction {
    /// Ask the planner for a new plan.
    Plan,
    /// Run the plan step at this index.
    Execute(usize),
    /// Ask the planner to revise the current plan.
    Replan,
    /// Ask the executor whether to continue, handing it this step index.
    AskContinue(usize),
    /// Run the reflection sub-agent.
    Reflect,
    Stop(LoopStop),
}

/// The loop's counters: consecutive planning failures, the index of the
/// next plan step, the length of the current plan (if any) and the limit.
#[derive(PartialEq, Eq, Structural, Clone, Copy, Debug)]
pub struct LoopState {
    pub error_iterations: usize,
    pub step_index: usize,
    pub plan_len: Option<usize>,
    pub max_iterations: usize,
}

/// Whether the current plan is missing or used up.
pub open spec fn needs_plan(s: LoopState) -> bool {
    s.plan_len is None || s.step_index >= s.plan_len->0
}

/// The decision at the head of each iteration: stop after too many planning
/// errors, plan when there is no usable plan, else dispatch.
pub open spec fn spec_top(s: LoopState) -> (LoopState, LoopAction) {
    if s.error_iterations > 2 {
        (s, LoopAction::Stop(LoopStop::TooManyErrors))
    } else if needs_plan(s) {
        (s, LoopAction::Plan)
    } else {
        spec_dispatch(s)
    }
}

/// The decision once a plan is in hand: stop at the iteration limit; when
/// the plan has no step at the index, drop it and go back to the head of the
/// loop; else run the step.
pub open spec fn spec_dispatch(s: LoopState) -> (LoopState, LoopAction) {
    if s.step_index >= s.max_iterations {
        (s, LoopAction::Stop(LoopStop::MaxIterations))
    } else if needs_plan(s) {
        let t = LoopState { plan_len: None, step_index: 0, ..s };
        if t.error_iterations > 2 {
            (t, LoopAction::Stop(LoopStop::TooManyErrors))
        } else {
            (t, LoopAction::Plan)
        }
    } else {
        (s, LoopAction::Execute(s.step_index))
    }
}

pub open spec fn spec_planned(s: LoopState, n: usize) -> (LoopState, LoopAction) {
    spec_dispatch(LoopState { step_index: 0, error_iterations: 0, plan_len: Some(n), ..s })
}

pub open spec fn spec_plan_failed(s: LoopState) -> (LoopState, LoopAction) {
    spec_top(LoopState { error_iterations: (s.error_iterations + 1) as usize, ..s })
}

pub open spec fn spec_step_done(s: LoopState, input_required: bool, replan_needed: bool) -> LoopAction {
    if input_required {
        LoopAction::Stop(LoopStop::InputRequired)
    } else if replan_needed {
        LoopAction::Replan
    } else {
        LoopAction::AskContinue(if s.step_index == 0 { 0 } else { (s.step_index - 1) as usize })
    }
}

pub open spec fn spec_replanned(s: LoopState, n: usize) -> (LoopState, LoopAction) {
    spec_top(LoopState { step_index: 0, plan_len: Some(n), ..s })
}

pub open spec fn spec_continue_decided(s: LoopState, should_continue: bool, reflect_eligible: bool) -> (
    LoopState,
    LoopAction,
) {
    if should_continue {
        spec_top(LoopState { step_index: (s.step_index + 1) as usize, ..s })
    } else if reflect_eligible {
        (s, LoopAction::Reflect)
    } else {
        (s, LoopAction::Stop(LoopStop::Finished))
    }
}

pub open spec fn spec_reflected(s: LoopState, retry: bool) -> (LoopState, LoopAction) {
    if retry {
        spec_top(s)
    } else {
        (s, LoopAction::Stop(LoopStop::Finished))
    }
}

impl LoopState {
    /// Never more than three planning failures are counted.
    pub open spec fn wf(&self) -> bool {
        self.error_iterations <= 3
    }

    fn top(&mut self) -> (res: LoopAction)
        ensures
            (*final(self), res) == spec_top(*old(self)),
    {
        if self.error_iterations > 2 {
            return LoopAction::Stop(LoopStop::TooManyErrors);
        }
        let plan_missing = match self.plan_len {
            None => true,
            Some(n) => self.step_index >= n,
        };
        if plan_missing {
            LoopAction::Plan
        } else {
            self.dispatch()
        }
    }

    fn dispatch(&mut self) -> (res: LoopAction)
        ensures
            (*final(self), res) == spec_dispatch(*old(self)),
    {
        if self.step_index >= self.max_iterations {
            return LoopAction::Stop(LoopStop::MaxIterations);
        }
        let step_exists = match self.plan_len {
            None => false,
            Some(n) => self.step_index < n,
        };
        if step_exists {
            LoopAction::Execute(self.step_index)
        } else {
            self.plan_len = None;
            self.step_index = 0;
            if self.error_iterations > 2 {
                LoopAction::Stop(LoopStop::TooManyErrors)
            } else {
                LoopAction::Plan
            }
        }
    }

    /// The first decision of a run, with the length of the plan the context
    /// already holds (if any) and the run's iteration limit.
    pub fn start(max_iterations: usize, existing_plan_len: Option<usize>) -> (res: (LoopState, LoopAction))
        ensures
            res.0.wf(),
            res == spec_top(
                LoopState { error_iterations: 0, step_index: 0, plan_len: existing_plan_len, max_iterations },
            ),
    {
        let mut s = LoopState { error_iterations: 0, step_index: 0, plan_len: existing_plan_len, max_iterations };
        let a = s.top();
        (s, a)
    }

    /// The planner returned a plan of `n` steps: errors are forgiven and the
    /// run starts at its first step.
    pub fn on_planned(&mut self, n: usize) -> (res: LoopAction)
        requires
            old(self).wf(),
        ensures
            final(self).wf(),
            (*final(self), res) == spec_planned(*old(self), n),
    {
        self.step_index = 0;
        self.error_iterations = 0;
        self.plan_len = Some(n);
        self.dispatch()
    }

    /// Planning failed; the failure is counted.
    pub fn on_plan_failed(&mut self) -> (res: LoopAction)
        requires
            old(self).error_iterations <= 2,
        ensures
            final(self).wf(),
            (*final(self), res) == spec_plan_failed(*old(self)),
    {
        self.error_iterations = self.error_iterations + 1;
        self.top()
    }

    /// A step finished (the driver stored its result): stop when it asked for
    /// input, replan when the planner wants to, else ask the executor whether
    /// to go on.
    pub fn on_step_done(&self, input_required: bool, replan_needed: bool) -> (res: LoopAction)
        ensures
            res == spec_step_done(*self, input_required, replan_needed),
    {
        if input_required {
            LoopAction::Stop(LoopStop::InputRequired)
        } else if replan_needed {
            LoopAction::Replan
        } else {
            LoopAction::AskContinue(self.step_index.saturating_sub(1))
        }
    }

    /// The planner revised the plan into `n` steps; the run restarts at its
    /// first step.
    pub fn on_replanned(&mut self, n: usize) -> (res: LoopAction)
        requires
            old(self).wf(),
        ensures
            final(self).wf(),
            (*final(self), res) == spec_replanned(*old(self), n),
    {
        self.step_index = 0;
        self.plan_len = Some(n);
        self.top()
    }

    /// The executor answered whether to go on. `reflect_eligible` tells
    /// whether reflection is enabled and has not run yet in this history.
    pub fn on_continue_decided(&mut self, should_continue: bool, reflect_eligible: bool) -> (res: LoopAction)
        requires
            old(self).wf(),
            old(self).step_index < usize::MAX,
        ensures
            final(self).wf(),
            (*final(self), res) == spec_continue_decided(*old(self), should_continue, reflect_eligible),
    {
        if should_continue {
            self.step_index = self.step_index + 1;
            self.top()
        } else if reflect_eligible {
            LoopAction::Reflect
        } else {
            LoopAction::Stop(LoopStop::Finished)
        }
    }

    /// Reflection ran; `retry` is whether it asked to go on (a failed
    /// reflection counts as no).
    pub fn on_reflected(&mut self, retry: bool) -> (res: LoopAction)
        requires
            old(self).wf(),
        ensures
            final(self).wf(),
            (*final(self), res) == spec_reflected(*old(self), retry),
    {
        if retry {
            self.top()
        } else {
            LoopAction::Stop(LoopStop::Finished)
        }
    }
}

/// An `Execute` decision names the state's own step index, which lies in
/// the current plan and below the iteration limit.
pub open spec fn executes_in_bounds(r: (LoopState, LoopAction)) -> bool {
    match r.1 {
        LoopAction::Execute(i) => {
            &&& r.0.step_index == i
            &&& i < r.0.max_iterations
            &&& r.0.plan_len is Some
            &&& i < r.0.plan_len->0
            &&& r.0.error_iterations <= 2
        },
        _ => true,
    }
}

/// Every step the loop runs exists in the current plan and lies below the
/// iteration limit, whichever decision produced it; a finished step never
/// leads straight to another step.
pub proof fn lemma_execute_within_bounds(
    s: LoopState,
    n: usize,
    input_required: bool,
    replan_needed: bool,
    go_on: bool,
    eligible: bool,
    retry: bool,
)
    ensures
        executes_in_bounds(spec_top(s)),
        executes_in_bounds(spec_planned(s, n)),
        executes_in_bounds(spec_plan_failed(s)),
        executes_in_bounds(spec_replanned(s, n)),
        executes_in_bounds(spec_continue_decided(s, go_on, eligible)),
        executes_in_bounds(spec_reflected(s, retry)),
        spec_step_done(s, input_required, replan_needed) !is Execute,
{
}

/// Planning that fails three times in a row, from a fresh error count,
/// stops the loop; the first two failures lead to another planning attempt.
pub proof fn lemma_three_plan_failures_stop(s: LoopState)
    requires
        s.error_iterations == 0,
        needs_plan(s),
    ensures
        spec_plan_failed(s).1 == LoopAction::Plan,
        spec_plan_failed(spec_plan_failed(s).0).1 == LoopAction::Plan,
        spec_plan_failed(spec_plan_failed(spec_plan_failed(s).0).0).1 == LoopAction::Stop(LoopStop::TooManyErrors),
{
}

/// A successful plan resets the error count: after it, three more planning
/// failures are needed to stop the loop.
pub proof fn lemma_plan_resets_errors(s: LoopState, n: usize)
    ensures
        spec_planned(s, n).0.error_iterations == 0,
        spec_planned(s, n).1 is Execute ==> spec_planned(s, n).0.step_index == 0,
{
}

pub open spec fn count_status(h: Seq<ExecutionStatus>, st: ExecutionStatus) -> nat
    decreases h.len(),
{
    if h.len() == 0 {
        0
    } else {
        count_status(h.drop_last(), st) + if h.last() == st { 1nat } else { 0nat }
    }
}

pub open spec fn all_success(h: Seq<ExecutionStatus>) -> bool {
    forall|i: int| 0 <= i < h.len() ==> #[trigger] h[i] == ExecutionStatus::Success
}

pub open spec fn any_failed(h: Seq<ExecutionStatus>) -> bool {
    exists|i: int| 0 <= i < h.len() && #[trigger] h[i] == ExecutionStatus::Failed
}

pub open spec fn no_steps_msg() -> Seq<char> {
    "Agent completed without executing any steps"@
}

pub open spec fn failures_msg() -> Seq<char> {
    "Agent execution completed with failures and no final result provided. Please use the 'final' tool to provide the complete answer."@
}

pub open spec fn unsuccessful_msg() -> Seq<char> {
    "Agent execution completed unsuccessfully without calling the 'final' tool. Please complete the task and provide a final result."@
}

pub open spec fn is_planning_err(r: Result<(), AgentError>, msg: Seq<char>) -> bool {
    match r {
        Err(AgentError::Planning(m)) => m@ == msg,
        _ => false,
    }
}

/// Whether a finished run completed properly, from the task's status
/// (`input_required`), the statuses of its step results and whether the
/// final tool was called. A run waiting for input is fine; a run without
/// steps is not; without a final result every step must have succeeded.
pub fn validate_completion(input_required: bool, history: &[ExecutionStatus], has_final: bool) -> (res: Result<(), AgentError>)
    ensures
        input_required ==> res is Ok,
        !input_required && history@.len() == 0 ==> is_planning_err(res, no_steps_msg()),
        !input_required && history@.len() > 0 && has_final ==> res is Ok,
        !input_required && history@.len() > 0 && !has_final && any_failed(history@) ==> is_planning_err(
            res,
            failures_msg(),
        ),
        !input_required && history@.len() > 0 && !has_final && !any_failed(history@) && !all_success(history@)
            ==> is_planning_err(res, unsuccessful_msg()),
        !input_required && history@.len() > 0 && !has_final && all_success(history@) ==> res is Ok,
{
    if input_required {
        return Ok(());
    }
    if history.len() == 0 {
        return Err(AgentError::Planning(owned("Agent completed without executing any steps")));
    }
    if !has_final {
        let mut all_ok = true;
        let mut failed = false;
        let mut i: usize = 0;
        while i < history.len()
            invariant
                i <= history.len(),
                all_ok == (forall|j: int| 0 <= j < i ==> #[trigger] history@[j] == ExecutionStatus::Success),
                failed == (exists|j: int| 0 <= j < i && #[trigger] history@[j] == ExecutionStatus::Failed),
            decreases history.len() - i,
        {
            if history[i] != ExecutionStatus::Success {
                all_ok = false;
            }
            if history[i] == ExecutionStatus::Failed {
                failed = true;
            }
            i = i + 1;
        }
        if failed {
            return Err(
                AgentError::Planning(
                    owned(
                        "Agent execution completed with failures and no final result provided. Please use the 'final' tool to provide the complete answer.",
                    ),
                ),
            );
        }
        if !all_ok {
            return Err(
                AgentError::Planning(
                    owned(
                        "Agent execution completed unsuccessfully without calling the 'final' tool. Please complete the task and provide a final result.",
                    ),
                ),
            );
        }
    }
    Ok(())
}

/// The number of failed steps in a run's history.
pub fn count_failed_steps(history: &[ExecutionStatus]) -> (res: usize)
    ensures
        res == count_status(history@, ExecutionStatus::Failed),
{
    let mut n: usize = 0;
    let mut i: usize = 0;
    while i < history.len()
        invariant
            i <= history.len(),
            n == count_status(history@.take(i as int), ExecutionStatus::Failed),
            n <= i,
        decreases history.len() - i,
    {
        assert(history@.take(i + 1).drop_last() =~= history@.take(i as int));
        if history[i] == ExecutionStatus::Failed {
            n = n + 1;
        }
        i = i + 1;
    }
    assert(history@.take(i as int) =~= history@);
    n
}

pub open spec fn is_tool_result(p: Part) -> bool {
    p is ToolResult
}

pub open spec fn not_tool_result(p: Part) -> bool {
    !(p is ToolResult)
}

/// Splits an incoming message's parts into tool results and the rest, each
/// in the order they came in.
pub fn split_tool_parts(parts: Vec<Part>) -> (res: (Vec<Part>, Vec<Part>))
    ensures
        res.0@ == parts@.filter(|p: Part| is_tool_result(p)),
        res.1@ == parts@.filter(|p: Part| not_tool_result(p)),
{
    let ghost all = parts@;
    let ghost f_tool = |p: Part| is_tool_result(p);
    let ghost f_rest = |p: Part| not_tool_result(p);
    let mut tool: Vec<Part> = Vec::new();
    let mut rest: Vec<Part> = Vec::new();
    let mut remaining = parts;
    let total: usize = remaining.len();
    let mut taken: usize = 0;
    proof {
        reveal_with_fuel(Seq::filter, 1);
        assert(all.take(0) =~= Seq::<Part>::empty());
        assert(remaining@ =~= all.skip(0));
    }
    while remaining.len() > 0
        invariant
            taken + remaining@.len() == all.len(),
            all.len() == total,
            remaining@ == all.skip(taken as int),
            f_tool == (|p: Part| is_tool_result(p)),
            f_rest == (|p: Part| not_tool_result(p)),
            tool@ == all.take(taken as int).filter(f_tool),
            rest@ == all.take(taken as int).filter(f_rest),
        decreases remaining@.len(),
    {
        let p = remaining.remove(0);
        proof {
            reveal_with_fuel(Seq::filter, 1);
            assert(all.take(taken + 1).drop_last() =~= all.take(taken as int));
            assert(all.take(taken + 1).last() == p);
            assert(remaining@ =~= all.skip(taken + 1));
        }
        let is_tool = match &p {
            Part::ToolResult(_) => true,
            _ => false,
        };
        if is_tool {
            tool.push(p);
        } else {
            rest.push(p);
        }
        taken = taken + 1;
    }
    assert(all.take(taken as int) =~= all);
    (tool, rest)
}

/// After the planner revises the plan into `n > 0` steps, the revised plan
/// is run from its first step: the next action is `Execute(0)` and the step
/// index is 0, unless the iteration limit is 0 or too many planning errors
/// are counted.
pub proof fn lemma_replan_runs_first_step(s: LoopState, n: usize)
    requires
        n > 0,
        s.max_iterations > 0,
        s.error_iterations <= 2,
    ensures
        spec_replanned(s, n).1 == LoopAction::Execute(0),
        spec_replanned(s, n).0.step_index == 0,
        spec_replanned(s, n).0.plan_len == Some(n),
{
}

} // verus!
