//! Planners, plan steps and the decisions they make without a model call.
use vstd::prelude::*;
use crate::definition::{AgentStrategy, ReplanningTrigger, StandardDefinition};
use crate::message::{Part, ToolCall};
use crate::text::{owned, string_from_chars};
use crate::agent_types::AgentError;
use crate::model_log::{decimal, usize_to_decimal};
use crate::code_plan::close_fence;

verus! {

/// A ReAct step.
pub enum Step {
    Plan(String),
    Thought(String),
    Action(String),
    Observation(String),
}

pub open spec fn spec_step_text(s: &Step) -> Seq<char> {
    match s {
        Step::Plan(p) => "Plan: "@ + p@,
        Step::Thought(t) => "Thought: "@ + t@,
        Step::Action(a) => "Action: "@ + a@,
        Step::Observation(o) => "Observation: "@ + o@,
    }
}

fn labelled(label: &str, body: &String) -> (res: String)
    ensures
        res@ == label@ + body@,
{
    let mut s = owned(label);
    s.append(body.as_str());
    s
}

impl Step {
    /// The step as displayed: its label, a colon and its text.
    pub fn to_text(&self) -> (res: String)
        ensures
            res@ == spec_step_text(self),
    {
        match self {
            Step::Plan(p) => labelled("Plan: ", p),
            Step::Thought(t) => labelled("Thought: ", t),
            Step::Action(a) => labelled("Action: ", a),
            Step::Observation(o) => labelled("Observation: ", o),
        }
    }
}

#[derive(PartialEq, Eq, Structural, Clone, Copy, Debug)]
pub enum ExecutionStatus {
    Success,
    Failed,
    Rejected,
    InputRequired,
}

/// The outcome of executing a plan step.
pub struct ExecutionResult {
    pub step_id: String,
    pub parts: Vec<Part>,
    pub status: ExecutionStatus,
    pub reason: Option<String>,
    pub timestamp: i64,
}

pub enum Action {
    ToolCalls { tool_calls: Vec<ToolCall> },
    Code { code: String, language: String },
}

pub struct PlanStep {
    pub id: String,
    pub thought: Option<String>,
    pub action: Action,
}

/// Whether `s` has the form of a hyphenated lowercase uuid: 36 characters,
/// hyphens at positions 8, 13, 18 and 23, lowercase hex digits elsewhere.
pub open spec fn is_hyphenated_uuid(s: Seq<char>) -> bool {
    &&& s.len() == 36
    &&& forall|i: int| 0 <= i < 36 ==> #[trigger] uuid_char_ok(s[i], i)
}

pub open spec fn uuid_char_ok(c: char, i: int) -> bool {
    if i == 8 || i == 13 || i == 18 || i == 23 {
        c == '-'
    } else {
        ('0' <= c && c <= '9') || ('a' <= c && c <= 'f')
    }
}

/// A fresh random id (`uuid::Uuid::new_v4`, as text through its `Display`,
/// which writes the hyphenated lowercase form), for plan steps and execution
/// contexts. Only its form is stated: its value is random.
#[verifier::external_body]
pub(crate) fn new_uuid() -> (res: String)
    ensures
        is_hyphenated_uuid(res@),
{
    uuid::Uuid::new_v4().to_string()
}

/// Planner that does no planning of its own.
pub struct SimplePlanner {
    pub agent_def: StandardDefinition,
    pub strategy: AgentStrategy,
}

impl SimplePlanner {
    pub fn new(agent_def: StandardDefinition, strategy: AgentStrategy) -> (res: Self)
        ensures
            res.agent_def == agent_def,
            res.strategy == strategy,
    {
        SimplePlanner { agent_def, strategy }
    }
}

/// Planner that adapts its behaviour to the strategy configuration.
pub struct UnifiedPlanner {
    pub agent_def: StandardDefinition,
    pub strategy: AgentStrategy,
}

/// Whether one of the (at most) three most recent results failed.
pub open spec fn recent_failure(history: Seq<ExecutionStatus>) -> bool {
    exists|i: int| history.len() - 3 <= i < history.len() && 0 <= i && #[trigger] history[i] == ExecutionStatus::Failed
}

pub open spec fn statuses(history: Seq<ExecutionResult>) -> Seq<ExecutionStatus> {
    history.map_values(|r: ExecutionResult| r.status)
}

impl UnifiedPlanner {
    pub fn new(agent_def: StandardDefinition, strategy: AgentStrategy) -> (res: Self)
        ensures
            res.agent_def == agent_def,
            res.strategy == strategy,
    {
        UnifiedPlanner { agent_def, strategy }
    }

    pub open spec fn spec_needs_replanning(&self, history: Seq<ExecutionStatus>) -> bool {
        self.strategy.replanning.enabled && match self.strategy.replanning.trigger {
            ReplanningTrigger::Never => false,
            ReplanningTrigger::AfterFailures => recent_failure(history),
            ReplanningTrigger::AfterNIterations(n) => history.len() >= n,
            ReplanningTrigger::AfterReflection => false,
        }
    }

    /// Whether the execution history calls for a new plan.
    pub fn needs_replanning(&self, execution_history: &[ExecutionResult]) -> (res: bool)
        ensures
            res == self.spec_needs_replanning(statuses(execution_history@)),
    {
        let config = self.strategy.get_replanning();
        if !config.enabled {
            return false;
        }
        let ghost st = statuses(execution_history@);
        match config.trigger {
            ReplanningTrigger::Never => false,
            ReplanningTrigger::AfterFailures => {
                // Any failure among the three most recent results.
                let n = execution_history.len();
                let start = if n >= 3 {
                    n - 3
                } else {
                    0
                };
                let mut i = start;
                while i < n
                    invariant
                        start <= i <= n,
                        n == execution_history@.len(),
                        st == statuses(execution_history@),
                        start == if n >= 3 { n - 3 } else { 0 },
                        self.strategy.replanning.enabled,
                        self.strategy.replanning.trigger == ReplanningTrigger::AfterFailures,
                        forall|k: int| start <= k < i ==> #[trigger] st[k] != ExecutionStatus::Failed,
                    decreases n - i,
                {
                    if execution_history[i].status == ExecutionStatus::Failed {
                        assert(st[i as int] == ExecutionStatus::Failed);
                        return true;
                    }
                    i = i + 1;
                }
                false
            },
            ReplanningTrigger::AfterNIterations(n) => execution_history.len() >= n,
            ReplanningTrigger::AfterReflection => false,
        }
    }

    /// Group all tool calls from a single model response into one plan step
    /// (no step when there are none); an empty thought becomes `None`.
    pub fn group_tool_calls_into_steps(tool_calls: Vec<ToolCall>, thought: String) -> (res: Vec<PlanStep>)
        ensures
            tool_calls@.len() == 0 ==> res@.len() == 0,
            tool_calls@.len() > 0 ==> res@.len() == 1 && res@[0].action == (Action::ToolCalls {
                tool_calls,
            }) && res@[0].thought == (if thought@.len() == 0 {
                None::<String>
            } else {
                Some(thought)
            }),
    {
        if tool_calls.len() == 0 {
            return Vec::new();
        }
        let thought_opt = if thought.as_str().is_empty() {
            None
        } else {
            Some(thought)
        };
        let mut steps: Vec<PlanStep> = Vec::new();
        steps.push(PlanStep { id: new_uuid(), action: Action::ToolCalls { tool_calls }, thought: thought_opt });
        steps
    }
}

pub open spec fn xml_fence() -> Seq<char> {
    "```xml"@
}

/// `s` from `pos` with every ```` ```xml ```` block (up to the first closing
/// fence after it, fences included) removed.
pub open spec fn strip_xml_blocks(s: Seq<char>, pos: int) -> Seq<char>
    decreases s.len() + 1 - pos,
{
    if pos < 0 || pos > s.len() {
        Seq::empty()
    } else {
        match crate::text::first_occ(s, xml_fence(), pos) {
            None => s.subrange(pos, s.len() as int),
            Some(a) => match crate::text::first_occ(s, close_fence(), a + 6) {
                None => s.subrange(pos, s.len() as int),
                Some(b) => {
                    proof {
                        crate::text::lemma_first_occ(s, xml_fence(), pos);
                        crate::text::lemma_first_occ(s, close_fence(), a + 6);
                    }
                    if pos <= a && a + 6 <= b && b + 3 <= s.len() {
                        s.subrange(pos, a) + strip_xml_blocks(s, b + 3)
                    } else {
                        Seq::empty()
                    }
                },
            },
        }
    }
}

/// End of the maximal run of whitespace starting at `pos`.
pub open spec fn ws_run_end(s: Seq<char>, pos: int) -> int
    decreases s.len() - pos,
{
    if 0 <= pos < s.len() && crate::text::spec_is_whitespace(s[pos]) {
        ws_run_end(s, pos + 1)
    } else {
        pos
    }
}

/// Newlines in `s[from..to]`.
pub open spec fn newlines(s: Seq<char>, from: int, to: int) -> nat
    decreases to - from,
{
    if from >= to {
        0
    } else {
        newlines(s, from, to - 1) + if s[to - 1] == '\n' { 1nat } else { 0nat }
    }
}

/// Index of the last newline in `s[from..to]` (or `from - 1`).
pub open spec fn last_newline(s: Seq<char>, from: int, to: int) -> int
    decreases to - from,
{
    if from >= to {
        from - 1
    } else if s[to - 1] == '\n' {
        to - 1
    } else {
        last_newline(s, from, to - 1)
    }
}

/// `s` from `pos` with every whitespace run that starts at a newline and
/// holds three or more newlines replaced, up to its last newline, by two
/// newlines (what replacing `\n\s*\n\s*\n` by `\n\n` does).
pub open spec fn collapse_blank_lines(s: Seq<char>, pos: int) -> Seq<char>
    decreases s.len() - pos,
{
    if pos < 0 || pos >= s.len() {
        Seq::empty()
    } else if s[pos] == '\n' && newlines(s, pos, ws_run_end(s, pos)) >= 3 {
        let e = last_newline(s, pos, ws_run_end(s, pos));
        proof {
            lemma_ws_run_end(s, pos);
            lemma_last_newline(s, pos, ws_run_end(s, pos));
        }
        if pos <= e {
            seq!['\n', '\n'] + collapse_blank_lines(s, e + 1)
        } else {
            Seq::empty()
        }
    } else {
        seq![s[pos]] + collapse_blank_lines(s, pos + 1)
    }
}

pub proof fn lemma_ws_run_end(s: Seq<char>, pos: int)
    requires
        0 <= pos <= s.len(),
    ensures
        pos <= ws_run_end(s, pos) <= s.len(),
        forall|k: int| pos <= k < ws_run_end(s, pos) ==> crate::text::spec_is_whitespace(#[trigger] s[k]),
        ws_run_end(s, pos) < s.len() ==> !crate::text::spec_is_whitespace(s[ws_run_end(s, pos)]),
    decreases s.len() - pos,
{
    if pos < s.len() && crate::text::spec_is_whitespace(s[pos]) {
        lemma_ws_run_end(s, pos + 1);
    }
}

pub proof fn lemma_last_newline(s: Seq<char>, from: int, to: int)
    requires
        from <= to,
    ensures
        from - 1 <= last_newline(s, from, to) < to,
        newlines(s, from, to) > 0 ==> from <= last_newline(s, from, to),
    decreases to - from,
{
    if from < to && s[to - 1] != '\n' {
        lemma_last_newline(s, from, to - 1);
    }
}

/// The prose of a model response: XML code blocks removed, runs of blank
/// lines collapsed to one blank line, and the whole trimmed.
pub open spec fn spec_strip_xml(s: Seq<char>) -> Seq<char> {
    crate::text::spec_trim(collapse_blank_lines(strip_xml_blocks(s, 0), 0))
}

fn remove_xml_blocks(s: &[char]) -> (res: Vec<char>)
    ensures
        res@ == strip_xml_blocks(s@, 0),
{
    let open = crate::text::str_chars("```xml");
    let close = crate::text::str_chars("```");
    proof {
        reveal_strlit("```xml");
        reveal_strlit("```");
    }
    assert(open@.len() == 6);
    assert(close@.len() == 3);
    let mut out: Vec<char> = Vec::new();
    let mut pos: usize = 0;
    loop
        invariant
            pos <= s.len(),
            open@ == xml_fence(),
            close@ == close_fence(),
            open@.len() == 6,
            close@.len() == 3,
            out@ + strip_xml_blocks(s@, pos as int) == strip_xml_blocks(s@, 0),
        decreases s.len() - pos,
    {
        let a = crate::text::find_first(s, open.as_slice(), pos);
        let b = match a {
            Some(a) => if a + 6 <= s.len() {
                crate::text::find_first(s, close.as_slice(), a + 6)
            } else {
                None
            },
            None => None,
        };
        match (a, b) {
            (Some(a), Some(b)) => {
                proof {
                    crate::text::lemma_first_occ(s@, xml_fence(), pos as int);
                    crate::text::lemma_first_occ(s@, close_fence(), a + 6);
                }
                let mut k = pos;
                let ghost o0 = out@;
                while k < a
                    invariant
                        pos <= k <= a,
                        a <= s.len(),
                        out@ == o0 + s@.subrange(pos as int, k as int),
                    decreases a - k,
                {
                    out.push(s[k]);
                    assert(s@.subrange(pos as int, k + 1) =~= s@.subrange(pos as int, k as int).push(s@[k as int]));
                    k = k + 1;
                }
                assert(o0 + strip_xml_blocks(s@, pos as int) =~= out@ + strip_xml_blocks(s@, b + 3));
                pos = b + 3;
            },
            _ => {
                proof {
                    if a is Some && a->0 + 6 > s.len() {
                        crate::text::lemma_first_occ(s@, xml_fence(), pos as int);
                        assert(crate::text::first_occ(s@, close_fence(), a->0 + 6) is None);
                    }
                }
                let mut k = pos;
                let ghost o0 = out@;
                while k < s.len()
                    invariant
                        pos <= k <= s.len(),
                        out@ == o0 + s@.subrange(pos as int, k as int),
                    decreases s.len() - k,
                {
                    out.push(s[k]);
                    assert(s@.subrange(pos as int, k + 1) =~= s@.subrange(pos as int, k as int).push(s@[k as int]));
                    k = k + 1;
                }
                assert(out@ =~= strip_xml_blocks(s@, 0));
                return out;
            },
        }
    }
}

fn collapse_runs(s: &[char]) -> (res: Vec<char>)
    ensures
        res@ == collapse_blank_lines(s@, 0),
{
    let mut out: Vec<char> = Vec::new();
    let mut pos: usize = 0;
    while pos < s.len()
        invariant
            pos <= s.len(),
            out@ + collapse_blank_lines(s@, pos as int) == collapse_blank_lines(s@, 0),
        decreases s.len() - pos,
    {
        let mut handled = false;
        if s[pos] == '\n' {
            let mut r = pos;
            let mut count: usize = 0;
            let mut last: usize = pos;
            proof {
                lemma_ws_run_end(s@, pos as int);
            }
            while r < s.len() && crate::text::is_whitespace(s[r])
                invariant
                    pos <= r <= s.len(),
                    ws_run_end(s@, pos as int) == ws_run_end(s@, r as int),
                    count == newlines(s@, pos as int, r as int),
                    count <= r - pos,
                    last as int == if count == 0 { pos as int } else { last_newline(s@, pos as int, r as int) },
                decreases s.len() - r,
            {
                if s[r] == '\n' {
                    count = count + 1;
                    last = r;
                }
                r = r + 1;
            }
            proof {
                if r < s.len() {
                    assert(!crate::text::spec_is_whitespace(s@[r as int]));
                }
                assert(ws_run_end(s@, r as int) == r);
            }
            if count >= 3 {
                proof {
                    lemma_last_newline(s@, pos as int, r as int);
                }
                out.push('\n');
                out.push('\n');
                let ghost before = out@;
                assert(out@ + collapse_blank_lines(s@, last + 1) =~= out@.take(out@.len() - 2) + collapse_blank_lines(s@, pos as int));
                pos = last + 1;
                handled = true;
            }
        }
        if !handled {
            out.push(s[pos]);
            pos = pos + 1;
        }
    }
    out
}

/// The prose of a model response (see `spec_strip_xml`), which becomes the
/// thought of the step grouping its tool calls.
pub fn strip_xml_from_content(content: &str) -> (res: String)
    ensures
        res@ == spec_strip_xml(content@),
{
    let c = crate::text::str_chars(content);
    let stripped = remove_xml_blocks(c.as_slice());
    let collapsed = collapse_runs(stripped.as_slice());
    let (a, b) = crate::text::trim_bounds(collapsed.as_slice());
    let t = crate::text::slice_to_vec(collapsed.as_slice(), a, b);
    crate::text::string_from_chars(t.as_slice())
}

/// The steps made of a model reply: none without tool calls, else one step
/// holding all of them, whose thought is the reply's prose (see
/// `spec_strip_xml`), absent when that is empty.
pub open spec fn steps_of_reply(steps: Seq<PlanStep>, tool_calls: Vec<ToolCall>, content: Seq<char>) -> bool {
    &&& tool_calls@.len() == 0 ==> steps.len() == 0
    &&& tool_calls@.len() > 0 ==> steps.len() == 1 && steps[0].action == (Action::ToolCalls { tool_calls }) && (if spec_strip_xml(
        content,
    ).len() == 0 {
        steps[0].thought is None
    } else {
        steps[0].thought matches Some(t) && t@ == spec_strip_xml(content)
    })
}

/// The plan made of a model response: its tool calls grouped into one step
/// whose thought is the response's prose (see `spec_strip_xml`); no step
/// when there are no tool calls.
pub fn steps_from_response(tool_calls: Vec<ToolCall>, content: &str) -> (res: Vec<PlanStep>)
    ensures
        steps_of_reply(res@, tool_calls, content@),
{
    let thought = strip_xml_from_content(content);
    UnifiedPlanner::group_tool_calls_into_steps(tool_calls, thought)
}

/// The TODO-list tool.
pub struct TodosTool;

impl TodosTool {
    pub fn get_name(&self) -> (res: String)
        ensures
            res@ == "write_todos"@,
    {
        owned("write_todos")
    }

    pub fn get_description(&self) -> (res: String)
        ensures
            res@ == "Manage TODOs with efficient bulk operations. Use write_todos for all modifications, list for display. Always keep and recite current TODOs in context."@,
    {
        owned(
            "Manage TODOs with efficient bulk operations. Use write_todos for all modifications, list for display. Always keep and recite current TODOs in context.",
        )
    }

    pub fn needs_executor_context(&self) -> (res: bool)
        ensures
            res,
    {
        true
    }
}

/// How many times the planner asks the model for a plan with tool calls.
pub const MAX_PLAN_RETRIES: usize = 2;

/// Whether the planning template is appended to the agent's instructions:
/// unless the agent turns default instructions off.
pub fn uses_planning_template(append: Option<bool>) -> (res: bool)
    ensures
        res == (append != Some(false)),
{
    match append {
        Some(false) => false,
        _ => true,
    }
}

/// How one request for a plan ended.
pub enum PlanReply {
    /// The model answered: its text and its tool calls.
    Reply { content: String, tool_calls: Vec<ToolCall> },
    /// The model's XML could not be parsed: the raw text and the parse error.
    XmlParsingFailed { content: String, error: String },
    /// Any other failure.
    Failed(AgentError),
}

/// What the planner does with a reply.
pub enum PlanDecision {
    /// The plan is made of these steps.
    Accept(Vec<PlanStep>),
    /// Ask again, after adding to the conversation an assistant message with
    /// `assistant_text` and a user message with `user_text`.
    Retry { assistant_text: String, user_text: String },
    /// The model gave no tool calls on its last attempt: its text becomes the
    /// run's final result and the plan has no steps.
    AutoFinalize { final_text: String },
    /// The XML of the last attempt could not be parsed: that error ends
    /// planning.
    XmlFailure { content: String, error: String },
    /// Planning fails with this error.
    Fail(AgentError),
}

pub open spec fn no_tool_calls_retry_text(attempt: usize) -> Seq<char> {
    "(attempt "@ + decimal(attempt as nat) + "/"@ + decimal(MAX_PLAN_RETRIES as nat)
        + "): You always need to return tool calls in the response, but got:. Retrying..."@
}

pub open spec fn xml_retry_text(attempt: usize, error: Seq<char>) -> Seq<char> {
    "XML parsing failed during planning (attempt "@ + decimal(attempt as nat) + "/"@ + decimal(
        MAX_PLAN_RETRIES as nat,
    ) + "): "@ + error + ". Retrying..."@
}

fn attempt_counter(attempt: usize) -> (res: Vec<char>)
    ensures
        res@ == decimal(attempt as nat) + "/"@ + decimal(MAX_PLAN_RETRIES as nat),
{
    let mut v = usize_to_decimal(attempt);
    v.push('/');
    let mut m = usize_to_decimal(MAX_PLAN_RETRIES);
    v.append(&mut m);
    proof {
        reveal_strlit("/");
    }
    assert(v@ =~= decimal(attempt as nat) + "/"@ + decimal(MAX_PLAN_RETRIES as nat));
    v
}

fn push_chars(out: &mut Vec<char>, s: &str)
    ensures
        final(out)@ == old(out)@ + s@,
{
    let mut c = crate::text::str_chars(s);
    out.append(&mut c);
}

/// The planner's decision on the reply to attempt number `attempt`
/// (counting from 1): a reply with tool calls is the plan; a reply without
/// tool calls, or one whose XML failed to parse, is asked again while
/// attempts remain (`attempt < MAX_PLAN_RETRIES`); after that a reply
/// without tool calls finalizes the run with its text and an XML failure
/// ends planning; any other failure ends planning at once.
pub fn on_plan_reply(attempt: usize, reply: PlanReply) -> (res: PlanDecision)
    ensures
        match reply {
            PlanReply::Reply { content, tool_calls } => if tool_calls@.len() > 0 {
                res matches PlanDecision::Accept(steps) && steps_of_reply(steps@, tool_calls, content@)
            } else if attempt < MAX_PLAN_RETRIES {
                res matches PlanDecision::Retry { assistant_text, user_text } && assistant_text == content
                    && user_text@ == no_tool_calls_retry_text(attempt)
            } else {
                res matches PlanDecision::AutoFinalize { final_text } && final_text == content
            },
            PlanReply::XmlParsingFailed { content, error } => if attempt < MAX_PLAN_RETRIES {
                res matches PlanDecision::Retry { assistant_text, user_text } && assistant_text == content
                    && user_text@ == xml_retry_text(attempt, error@)
            } else {
                res matches PlanDecision::XmlFailure { content: c, error: e } && c == content && e == error
            },
            PlanReply::Failed(e) => res == PlanDecision::Fail(e),
        },
{
    match reply {
        PlanReply::Reply { content, tool_calls } => {
            if tool_calls.len() > 0 {
                PlanDecision::Accept(steps_from_response(tool_calls, content.as_str()))
            } else if attempt < MAX_PLAN_RETRIES {
                let mut t: Vec<char> = Vec::new();
                push_chars(&mut t, "(attempt ");
                let mut counter = attempt_counter(attempt);
                t.append(&mut counter);
                push_chars(&mut t, "): You always need to return tool calls in the response, but got:. Retrying...");
                assert(t@ =~= no_tool_calls_retry_text(attempt));
                PlanDecision::Retry { assistant_text: content, user_text: string_from_chars(t.as_slice()) }
            } else {
                PlanDecision::AutoFinalize { final_text: content }
            }
        },
        PlanReply::XmlParsingFailed { content, error } => {
            if attempt < MAX_PLAN_RETRIES {
                let mut t: Vec<char> = Vec::new();
                push_chars(&mut t, "XML parsing failed during planning (attempt ");
                let mut counter = attempt_counter(attempt);
                t.append(&mut counter);
                push_chars(&mut t, "): ");
                push_chars(&mut t, error.as_str());
                push_chars(&mut t, ". Retrying...");
                assert(t@ =~= xml_retry_text(attempt, error@));
                PlanDecision::Retry { assistant_text: content, user_text: string_from_chars(t.as_slice()) }
            } else {
                PlanDecision::XmlFailure { content, error }
            }
        },
        PlanReply::Failed(e) => PlanDecision::Fail(e),
    }
}

/// With replanning enabled and triggered after `n` iterations, replanning
/// is asked for exactly when the history holds at least `n` results: for
/// every longer history too.
pub proof fn lemma_after_n_iterations(p: UnifiedPlanner, history: Seq<ExecutionStatus>, n: usize)
    requires
        p.strategy.replanning.enabled,
        p.strategy.replanning.trigger == ReplanningTrigger::AfterNIterations(n),
    ensures
        history.len() >= n ==> p.spec_needs_replanning(history),
        history.len() < n ==> !p.spec_needs_replanning(history),
{
}

} // verus!
