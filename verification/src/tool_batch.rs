//! Decisions taken when a step's tool calls run as a batch: which tool
//! serves each call, how many may run at once, how each call is carried out,
//! and what an external (client-side) tool's wait ends in.
use vstd::prelude::*;
use crate::text::{str_eq, owned, join_strings, spec_join, str_views};
use crate::agent_types::AgentError;
use crate::message::{Part, PartView, ResultPart, ToolCall, ToolResponse, parts_view};
use crate::planning::{ExecutionResult, ExecutionStatus};

verus! {

/// What the batch logic reads of a tool.
pub struct ToolInfo {
    pub name: String,
    /// Executed by the client, not by the server.
    pub external: bool,
    /// Safe to run alongside other tools.
    pub concurrency_safe: bool,
    /// Needs the full executor context rather than a tool context.
    pub needs_executor_context: bool,
}

/// How one tool call is carried out.
#[derive(PartialEq, Eq, Structural, Clone, Copy, Debug)]
pub enum ToolDispatch {
    /// Dry run: the model simulates the tool's answer.
    Simulate,
    /// Wait for the client to execute the tool.
    External,
    /// Run the tool here, with the executor context.
    ExecuteWithExecutorContext,
    /// Run the tool here, with a tool context.
    ExecuteWithToolContext,
}

/// The result of one call: the tool's answer, or a call that was skipped.
pub enum ToolResultWithSkip {
    ToolResult(ToolResponse),
    Skip { tool_call_id: String, reason: String },
}

/// How the wait for an external tool ended.
pub enum ExternalOutcome {
    /// Registering the call failed, with this message.
    RegisterFailed(String),
    /// The client delivered the answer.
    Delivered(ToolResponse),
    /// The channel closed before an answer.
    ChannelClosed,
    /// No answer within the timeout.
    TimedOut,
}

/// What follows an external tool's wait: the call's result, the success
/// flag of the end event (none when the call never started), and whether
/// the pending call must be removed from the store.
pub struct ExternalResolution {
    pub result: ToolResultWithSkip,
    pub end_event: Option<bool>,
    pub cleanup: bool,
}

/// Index of the first tool named `n`.
pub open spec fn first_tool(tools: Seq<ToolInfo>, n: Seq<char>, from: int) -> Option<int>
    decreases tools.len() - from,
{
    if from < 0 || from >= tools.len() {
        None
    } else if tools[from].name@ == n {
        Some(from)
    } else {
        first_tool(tools, n, from + 1)
    }
}

pub proof fn lemma_first_tool(tools: Seq<ToolInfo>, n: Seq<char>, from: int)
    requires
        0 <= from,
    ensures
        first_tool(tools, n, from) matches Some(i) ==> from <= i < tools.len() && tools[i].name@ == n
            && forall|j: int| from <= j < i ==> tools[j].name@ != n,
        first_tool(tools, n, from) is None ==> forall|j: int| from <= j < tools.len() ==> tools[j].name@ != n,
    decreases tools.len() - from,
{
    if from < tools.len() && tools[from].name@ != n {
        lemma_first_tool(tools, n, from + 1);
    }
}

/// The index of the first call whose tool is missing, if any.
pub open spec fn first_unpaired(tools: Seq<ToolInfo>, calls: Seq<Seq<char>>, from: int) -> Option<int>
    decreases calls.len() - from,
{
    if from < 0 || from >= calls.len() {
        None
    } else if first_tool(tools, calls[from], 0) is None {
        Some(from)
    } else {
        first_unpaired(tools, calls, from + 1)
    }
}

pub open spec fn not_found_msg(name: Seq<char>) -> Seq<char> {
    "Tool '"@ + name + "' not found"@
}

/// Whether a batch must run one call at a time: some tool in it mutates
/// shared state.
pub open spec fn batch_serialized(tools: Seq<ToolInfo>, pairing: Seq<usize>) -> bool {
    exists|k: int| 0 <= k < pairing.len() && !tools[pairing[k] as int].concurrency_safe
}

pub open spec fn spec_dispatch(t: ToolInfo, dry_run: bool, safe_to_run: bool) -> ToolDispatch {
    if dry_run && (t.external || !safe_to_run) {
        ToolDispatch::Simulate
    } else if t.external {
        ToolDispatch::External
    } else if t.needs_executor_context {
        ToolDispatch::ExecuteWithExecutorContext
    } else {
        ToolDispatch::ExecuteWithToolContext
    }
}

/// For each call (by tool name), the index of the first tool of that name;
/// an error naming the first call whose tool is unknown.
pub fn pair_tool_calls(tools: &[ToolInfo], call_names: &[String]) -> (res: Result<Vec<usize>, AgentError>)
    ensures
        match res {
            Ok(p) => first_unpaired(tools@, crate::text::str_views(call_names@), 0) is None && p@.len()
                == call_names@.len() && forall|k: int|
                0 <= k < p@.len() ==> first_tool(tools@, call_names@[k]@, 0) == Some(#[trigger] p@[k] as int),
            Err(e) => match first_unpaired(tools@, crate::text::str_views(call_names@), 0) {
                Some(k) => e matches AgentError::ToolExecution(m) && m@ == not_found_msg(call_names@[k]@),
                None => false,
            },
        },
{
    let ghost calls = crate::text::str_views(call_names@);
    let mut out: Vec<usize> = Vec::new();
    let mut k: usize = 0;
    while k < call_names.len()
        invariant
            k <= call_names.len(),
            calls == crate::text::str_views(call_names@),
            out@.len() == k,
            forall|m: int| 0 <= m < k ==> first_tool(tools@, call_names@[m]@, 0) == Some(#[trigger] out@[m] as int),
            first_unpaired(tools@, calls, 0) == first_unpaired(tools@, calls, k as int),
        decreases call_names.len() - k,
    {
        let mut i: usize = 0;
        let mut found: Option<usize> = None;
        while i < tools.len() && found.is_none()
            invariant
                i <= tools.len(),
                k < call_names.len(),
                found is None ==> first_tool(tools@, call_names@[k as int]@, 0) == first_tool(
                    tools@,
                    call_names@[k as int]@,
                    i as int,
                ),
                found matches Some(j) ==> first_tool(tools@, call_names@[k as int]@, 0) == Some(j as int),
            decreases tools.len() - i + if found is None { 1int } else { 0int },
        {
            if str_eq(tools[i].name.as_str(), call_names[k].as_str()) {
                found = Some(i);
            } else {
                i = i + 1;
            }
        }
        match found {
            Some(i) => {
                out.push(i);
            },
            None => {
                assert(calls[k as int] == call_names@[k as int]@);
                assert(first_tool(tools@, calls[k as int], 0) is None);
                assert(first_unpaired(tools@, calls, k as int) == Some(k as int));
                let mut m = owned("Tool '");
                m.append(call_names[k].as_str());
                m.append("' not found");
                return Err(AgentError::ToolExecution(m));
            },
        }
        assert(calls[k as int] == call_names@[k as int]@);
        k = k + 1;
    }
    Ok(out)
}

/// How many calls of a paired batch may run at once: one when some tool in
/// it is not concurrency-safe, else all of them (at least one).
pub fn max_parallel(tools: &[ToolInfo], pairing: &[usize]) -> (res: usize)
    requires
        forall|k: int| 0 <= k < pairing@.len() ==> #[trigger] pairing@[k] < tools@.len(),
    ensures
        batch_serialized(tools@, pairing@) ==> res == 1,
        !batch_serialized(tools@, pairing@) ==> res == if pairing@.len() == 0 {
            1
        } else {
            pairing@.len()
        },
{
    let mut k: usize = 0;
    while k < pairing.len()
        invariant
            k <= pairing.len(),
            forall|m: int| 0 <= m < pairing@.len() ==> #[trigger] pairing@[m] < tools@.len(),
            forall|m: int| 0 <= m < k ==> tools@[#[trigger] pairing@[m] as int].concurrency_safe,
        decreases pairing.len() - k,
    {
        if !tools[pairing[k]].concurrency_safe {
            return 1;
        }
        k = k + 1;
    }
    if pairing.len() == 0 {
        1
    } else {
        pairing.len()
    }
}

/// How a call to `tool` is carried out. In a dry run, external tools and
/// tools not known to be safe are simulated (`safe_to_run`: the tool's name
/// is on the simulator's safe list).
pub fn dispatch_tool(tool: &ToolInfo, dry_run: bool, safe_to_run: bool) -> (res: ToolDispatch)
    ensures
        res == spec_dispatch(*tool, dry_run, safe_to_run),
{
    if dry_run && (tool.external || !safe_to_run) {
        ToolDispatch::Simulate
    } else if tool.external {
        ToolDispatch::External
    } else if tool.needs_executor_context {
        ToolDispatch::ExecuteWithExecutorContext
    } else {
        ToolDispatch::ExecuteWithToolContext
    }
}

/// What an external tool call's wait ends in: the client's answer counts as
/// success; a closed channel or a timeout skips the call, ends it as failed
/// and removes it from the store; a failed registration skips the call
/// before it started.
pub fn resolve_external(tool_call_id: String, outcome: ExternalOutcome) -> (res: ExternalResolution)
    ensures
        match outcome {
            ExternalOutcome::RegisterFailed(e) => res.end_event is None && !res.cleanup && match res.result {
                ToolResultWithSkip::Skip { tool_call_id: id, reason } => id == tool_call_id && reason@
                    == "Failed to register external tool call: "@ + e@,
                _ => false,
            },
            ExternalOutcome::Delivered(r) => res.end_event == Some(true) && !res.cleanup && match res.result {
                ToolResultWithSkip::ToolResult(x) => x == r,
                _ => false,
            },
            ExternalOutcome::ChannelClosed => res.end_event == Some(false) && res.cleanup && match res.result {
                ToolResultWithSkip::Skip { tool_call_id: id, reason } => id == tool_call_id && reason@
                    == "External tool channel closed"@,
                _ => false,
            },
            ExternalOutcome::TimedOut => res.end_event == Some(false) && res.cleanup && match res.result {
                ToolResultWithSkip::Skip { tool_call_id: id, reason } => id == tool_call_id && reason@
                    == "External tool execution timeout"@,
                _ => false,
            },
        },
{
    match outcome {
        ExternalOutcome::RegisterFailed(e) => {
            let mut reason = owned("Failed to register external tool call: ");
            reason.append(e.as_str());
            ExternalResolution {
                result: ToolResultWithSkip::Skip { tool_call_id, reason },
                end_event: None,
                cleanup: false,
            }
        },
        ExternalOutcome::Delivered(r) => ExternalResolution {
            result: ToolResultWithSkip::ToolResult(r),
            end_event: Some(true),
            cleanup: false,
        },
        ExternalOutcome::ChannelClosed => ExternalResolution {
            result: ToolResultWithSkip::Skip { tool_call_id, reason: owned("External tool channel closed") },
            end_event: Some(false),
            cleanup: true,
        },
        ExternalOutcome::TimedOut => ExternalResolution {
            result: ToolResultWithSkip::Skip { tool_call_id, reason: owned("External tool execution timeout") },
            end_event: Some(false),
            cleanup: true,
        },
    }
}

/// Where a large tool result is put aside: the file the `Write` tool
/// writes, the id of that system call, and the artifact name (with the
/// reference returned for it) used when writing fails.
pub struct LargeResultPlaces {
    pub file_path: String,
    pub write_call_id: String,
    pub artifact_name: String,
    pub artifact_ref: String,
}

pub fn large_result_places(tool_call_id: &str) -> (res: LargeResultPlaces)
    ensures
        res.file_path@ == ".distri/tool-results/"@ + tool_call_id@ + ".txt"@,
        res.write_call_id@ == "sys_"@ + tool_call_id@,
        res.artifact_name@ == tool_call_id@ + ".txt"@,
        res.artifact_ref@ == "artifact:"@ + tool_call_id@ + ".txt"@,
{
    let mut file_path = owned(".distri/tool-results/");
    file_path.append(tool_call_id);
    file_path.append(".txt");
    let mut write_call_id = owned("sys_");
    write_call_id.append(tool_call_id);
    let mut artifact_name = owned(tool_call_id);
    artifact_name.append(".txt");
    let mut artifact_ref = owned("artifact:");
    artifact_ref.append(tool_call_id);
    artifact_ref.append(".txt");
    LargeResultPlaces { file_path, write_call_id, artifact_name, artifact_ref }
}

/// The answers among a batch's results, in order.
pub open spec fn answers_of(rs: Seq<ToolResultWithSkip>) -> Seq<ToolResponse>
    decreases rs.len(),
{
    if rs.len() == 0 {
        Seq::empty()
    } else {
        match rs.last() {
            ToolResultWithSkip::ToolResult(r) => answers_of(rs.drop_last()).push(r),
            ToolResultWithSkip::Skip { .. } => answers_of(rs.drop_last()),
        }
    }
}

/// A batch's answers, in order, and whether some call was skipped (the
/// step then waits for the user's input).
pub fn collect_tool_results(results: Vec<ToolResultWithSkip>) -> (res: (Vec<ToolResponse>, bool))
    ensures
        res.0@ == answers_of(results@),
        res.1 == exists|k: int| 0 <= k < results@.len() && #[trigger] results@[k] is Skip,
{
    let ghost all = results@;
    let mut out: Vec<ToolResponse> = Vec::new();
    let mut skipped = false;
    let mut rest = results;
    let total: usize = rest.len();
    let mut taken: usize = 0;
    assert(all.take(0) =~= Seq::<ToolResultWithSkip>::empty());
    assert(rest@ =~= all.skip(0));
    while rest.len() > 0
        invariant
            taken + rest@.len() == all.len(),
            all.len() == total,
            rest@ == all.skip(taken as int),
            out@ == answers_of(all.take(taken as int)),
            skipped == exists|k: int| 0 <= k < taken && #[trigger] all[k] is Skip,
        decreases rest@.len(),
    {
        let r = rest.remove(0);
        proof {
            assert(all.take(taken + 1).drop_last() =~= all.take(taken as int));
            assert(all.take(taken + 1).last() == r);
            assert(all[taken as int] == r);
            assert(rest@ =~= all.skip(taken + 1));
        }
        match r {
            ToolResultWithSkip::ToolResult(x) => {
                out.push(x);
            },
            ToolResultWithSkip::Skip { .. } => {
                skipped = true;
            },
        }
        taken = taken + 1;
    }
    assert(all.take(taken as int) =~= all);
    (out, skipped)
}

/// How a step's tool calls were handled: not at all (there were none), the
/// answers with whether the step now waits for the user's input, or the
/// error's text.
pub enum ToolsOutcome {
    NotRun,
    Handled { responses: Vec<ToolResponse>, input_required: bool },
    Failed { error: String },
}

/// The parts of a tool-calls step: the model's text, if any, then each
/// call, then each answer.
pub open spec fn action_parts(content: Option<String>, calls: Seq<ToolCall>, responses: Seq<ToolResponse>) -> Seq<PartView> {
    text_parts(content) + call_parts(calls) + answer_parts(responses)
}

/// The model's text, if any, as a part.
pub open spec fn text_parts(content: Option<String>) -> Seq<PartView> {
    match content {
        Some(c) => seq![PartView::Text(c)],
        None => Seq::empty(),
    }
}

/// A call as a part.
pub open spec fn call_parts(calls: Seq<ToolCall>) -> Seq<PartView> {
    calls.map_values(|c: ToolCall| PartView::ToolCall(c))
}

/// An answer as a part.
pub open spec fn answer_part(r: ToolResponse) -> PartView {
    PartView::ToolResult { tool_call_id: r.tool_call_id, tool_name: r.tool_name, parts: r.parts@ }
}

pub open spec fn answer_parts(rs: Seq<ToolResponse>) -> Seq<PartView> {
    rs.map_values(|r: ToolResponse| answer_part(r))
}

/// The result of a tool-calls step, from what handling its calls gave.
pub fn tools_action_result(
    step_id: String,
    content: Option<String>,
    tool_calls: Vec<ToolCall>,
    outcome: ToolsOutcome,
    timestamp: i64,
) -> (res: ExecutionResult)
    ensures
        res.step_id == step_id,
        res.timestamp == timestamp,
        match outcome {
            ToolsOutcome::NotRun => {
                &&& parts_view(res.parts@) == action_parts(content, tool_calls@, Seq::empty())
                &&& res.status == ExecutionStatus::Success
                &&& res.reason is None
            },
            ToolsOutcome::Handled { responses, input_required } => {
                &&& parts_view(res.parts@) == action_parts(content, tool_calls@, responses@)
                &&& res.status == (if input_required {
                    ExecutionStatus::InputRequired
                } else {
                    ExecutionStatus::Success
                })
                &&& res.reason is None
            },
            ToolsOutcome::Failed { error } => {
                &&& parts_view(res.parts@) == action_parts(content, tool_calls@, Seq::empty())
                &&& res.status == ExecutionStatus::Failed
                &&& res.reason == Some(error)
            },
        },
{
    let mut parts: Vec<Part> = Vec::new();
    let ghost text = text_parts(content);
    match content {
        Some(c) => {
            parts.push(Part::Text(c));
        },
        None => {},
    }
    assert(parts_view(parts@) =~= text);
    let ghost calls = tool_calls@;
    let mut rest = tool_calls;
    let mut k: usize = 0;
    let ncalls: usize = rest.len();
    assert(rest@ =~= calls.skip(0));
    while rest.len() > 0
        invariant
            k + rest@.len() == calls.len(),
            calls.len() == ncalls,
            rest@ == calls.skip(k as int),
            parts_view(parts@) == text + call_parts(calls.take(k as int)),
        decreases rest@.len(),
    {
        let c = rest.remove(0);
        proof {
            assert(calls[k as int] == c);
            assert(rest@ =~= calls.skip(k + 1));
        }
        let ghost before = parts_view(parts@);
        parts.push(Part::ToolCall(c));
        proof {
            assert(call_parts(calls.take(k + 1)) =~= call_parts(calls.take(k as int)).push(PartView::ToolCall(calls[k as int])));
            assert(parts_view(parts@) =~= before.push(PartView::ToolCall(c)));
        }
        k = k + 1;
    }
    assert(calls.take(k as int) =~= calls);
    let ghost head = parts_view(parts@);
    let ghost empty_answers = answer_parts(Seq::<ToolResponse>::empty());
    match outcome {
        ToolsOutcome::NotRun => {
            assert(head + empty_answers =~= head);
            ExecutionResult { step_id, parts, status: ExecutionStatus::Success, reason: None, timestamp }
        },
        ToolsOutcome::Failed { error } => {
            assert(head + empty_answers =~= head);
            ExecutionResult { step_id, parts, status: ExecutionStatus::Failed, reason: Some(error), timestamp }
        },
        ToolsOutcome::Handled { responses, input_required } => {
            let ghost rs = responses@;
            let mut rest = responses;
            let mut j: usize = 0;
            let nresp: usize = rest.len();
            assert(rest@ =~= rs.skip(0));
            while rest.len() > 0
                invariant
                    j + rest@.len() == rs.len(),
                    rs.len() == nresp,
                    rest@ == rs.skip(j as int),
                    parts_view(parts@) == head + answer_parts(rs.take(j as int)),
                decreases rest@.len(),
            {
                let r = rest.remove(0);
                proof {
                    assert(rs[j as int] == r);
                    assert(rest@ =~= rs.skip(j + 1));
                }
                let ghost before = parts_view(parts@);
                parts.push(Part::ToolResult(r));
                proof {
                    assert(answer_parts(rs.take(j + 1)) =~= answer_parts(rs.take(j as int)).push(answer_part(rs[j as int])));
                    assert(parts_view(parts@) =~= before.push(parts@.last()@));
                }
                j = j + 1;
            }
            assert(rs.take(j as int) =~= rs);
            let status = if input_required {
                ExecutionStatus::InputRequired
            } else {
                ExecutionStatus::Success
            };
            ExecutionResult { step_id, parts, status, reason: None, timestamp }
        },
    }
}

/// The result of a code step: the observations of the run, joined by blank
/// lines, or a failure carrying the error.
pub fn code_action_result(step_id: String, outcome: Result<Vec<String>, String>, timestamp: i64) -> (res: ExecutionResult)
    ensures
        res.step_id == step_id,
        res.timestamp == timestamp,
        match outcome {
            Ok(observations) => {
                &&& res.parts@.len() == 1
                &&& res.parts@[0] matches Part::Text(t) && t@ == spec_join(str_views(observations@), "\n\n"@)
                &&& res.status == ExecutionStatus::Success
                &&& res.reason is None
            },
            Err(e) => {
                &&& res.parts@.len() == 0
                &&& res.status == ExecutionStatus::Failed
                &&& res.reason matches Some(r) && r@ == "Code execution error: "@ + e@
            },
        },
{
    match outcome {
        Ok(observations) => {
            let text = join_strings(observations.as_slice(), "\n\n");
            let parts = vec![Part::Text(text)];
            ExecutionResult { step_id, parts, status: ExecutionStatus::Success, reason: None, timestamp }
        },
        Err(e) => {
            let mut reason = owned("Code execution error: ");
            reason.append(e.as_str());
            ExecutionResult { step_id, parts: Vec::new(), status: ExecutionStatus::Failed, reason: Some(reason), timestamp }
        },
    }
}

/// The answer to `call` from running its tool, and whether the run
/// succeeded: the tool's parts, or, when it failed, the error's text as the
/// one part.
pub fn tool_call_result(call: &ToolCall, outcome: Result<Vec<ResultPart>, String>) -> (res: (ToolResultWithSkip, bool))
    ensures
        res.0 matches ToolResultWithSkip::ToolResult(r) && r.tool_call_id == call.tool_call_id && r.tool_name
            == call.tool_name && match outcome {
            Ok(parts) => r.parts@ == parts@ && res.1,
            Err(e) => r.parts@ == seq![ResultPart::Text(e)] && !res.1,
        },
{
    let (parts, success) = match outcome {
        Ok(parts) => (parts, true),
        Err(e) => (vec![ResultPart::Text(e)], false),
    };
    (
        ToolResultWithSkip::ToolResult(
            ToolResponse { tool_call_id: call.tool_call_id.clone(), tool_name: call.tool_name.clone(), parts },
        ),
        success,
    )
}

/// The answer to `call` in a dry run, from the simulated response: its
/// parts, or a text part naming the simulation error.
pub fn simulated_call_result(call: &ToolCall, outcome: Result<Vec<ResultPart>, String>) -> (res: ToolResultWithSkip)
    ensures
        res matches ToolResultWithSkip::ToolResult(r) && r.tool_call_id == call.tool_call_id && r.tool_name
            == call.tool_name && match outcome {
            Ok(parts) => r.parts@ == parts@,
            Err(e) => r.parts@.len() == 1 && (r.parts@[0] matches ResultPart::Text(t) && t@ == "Simulation error: "@
                + e@),
        },
{
    let parts = match outcome {
        Ok(parts) => parts,
        Err(e) => {
            let mut t = owned("Simulation error: ");
            t.append(e.as_str());
            vec![ResultPart::Text(t)]
        },
    };
    ToolResultWithSkip::ToolResult(
        ToolResponse { tool_call_id: call.tool_call_id.clone(), tool_name: call.tool_name.clone(), parts },
    )
}

} // verus!
