use distri_core::agent_types::AgentError;
use distri_core::message::{Part, ResultPart, ToolCall, ToolResponse};
use distri_core::planning::ExecutionStatus;
use distri_core::tool_batch::{
    code_action_result, simulated_call_result, tool_call_result, collect_tool_results, dispatch_tool, tools_action_result, ToolsOutcome, max_parallel, pair_tool_calls, resolve_external, ExternalOutcome, ToolDispatch, ToolInfo,
    ToolResultWithSkip,
};

fn tool(name: &str, external: bool, safe: bool, ctx: bool) -> ToolInfo {
    ToolInfo { name: name.into(), external, concurrency_safe: safe, needs_executor_context: ctx }
}

#[test]
fn calls_pair_with_the_first_tool_of_their_name() {
    let tools = vec![tool("read", false, true, false), tool("bash", false, false, false), tool("read", true, true, false)];
    let calls = vec!["bash".to_string(), "read".to_string()];
    assert_eq!(pair_tool_calls(&tools, &calls).ok(), Some(vec![1, 0]));
    match pair_tool_calls(&tools, &["read".to_string(), "nope".to_string(), "gone".to_string()]) {
        Err(AgentError::ToolExecution(m)) => assert_eq!(m, "Tool 'nope' not found"),
        _ => panic!(),
    }
}

#[test]
fn a_mutating_tool_serializes_the_batch() {
    let tools = vec![tool("read", false, true, false), tool("bash", false, false, false)];
    assert_eq!(max_parallel(&tools, &[0, 0, 0]), 3);
    assert_eq!(max_parallel(&tools, &[0, 1]), 1);
    assert_eq!(max_parallel(&tools, &[]), 1);
}

#[test]
fn dispatch_rules() {
    assert_eq!(dispatch_tool(&tool("x", true, true, false), true, true), ToolDispatch::Simulate);
    assert_eq!(dispatch_tool(&tool("x", false, true, false), true, false), ToolDispatch::Simulate);
    assert_eq!(dispatch_tool(&tool("x", false, true, true), true, true), ToolDispatch::ExecuteWithExecutorContext);
    assert_eq!(dispatch_tool(&tool("x", true, true, false), false, false), ToolDispatch::External);
    assert_eq!(dispatch_tool(&tool("x", false, true, false), false, false), ToolDispatch::ExecuteWithToolContext);
}

#[test]
fn external_wait_outcomes() {
    let r = resolve_external("tc".into(), ExternalOutcome::TimedOut);
    assert_eq!((r.end_event, r.cleanup), (Some(false), true));
    assert!(matches!(r.result, ToolResultWithSkip::Skip { ref reason, .. } if reason == "External tool execution timeout"));
    let r = resolve_external("tc".into(), ExternalOutcome::ChannelClosed);
    assert!(matches!(r.result, ToolResultWithSkip::Skip { ref reason, .. } if reason == "External tool channel closed"));
    let r = resolve_external("tc".into(), ExternalOutcome::RegisterFailed("busy".into()));
    assert_eq!((r.end_event, r.cleanup), (None, false));
    assert!(matches!(r.result, ToolResultWithSkip::Skip { ref tool_call_id, ref reason } if tool_call_id == "tc" && reason == "Failed to register external tool call: busy"));
    let answer = ToolResponse { tool_call_id: "tc".into(), tool_name: "t".into(), parts: vec![] };
    let r = resolve_external("tc".into(), ExternalOutcome::Delivered(answer));
    assert_eq!((r.end_event, r.cleanup), (Some(true), false));
    assert!(matches!(r.result, ToolResultWithSkip::ToolResult(ref x) if x.tool_name == "t"));
}

#[test]
fn large_results_are_put_aside_by_call_id() {
    let p = distri_core::tool_batch::large_result_places("call_9");
    assert_eq!(p.file_path, ".distri/tool-results/call_9.txt");
    assert_eq!(p.write_call_id, "sys_call_9");
    assert_eq!(p.artifact_name, "call_9.txt");
    assert_eq!(p.artifact_ref, "artifact:call_9.txt");
}

#[test]
fn skipped_calls_ask_for_input() {
    let answer = |id: &str| ToolResponse { tool_call_id: id.into(), tool_name: "t".into(), parts: vec![] };
    let results = vec![
        ToolResultWithSkip::ToolResult(answer("a")),
        ToolResultWithSkip::Skip { tool_call_id: "b".into(), reason: "External tool execution timeout".into() },
        ToolResultWithSkip::ToolResult(answer("c")),
    ];
    let (answers, input_required) = collect_tool_results(results);
    assert!(input_required);
    let ids: Vec<_> = answers.iter().map(|a| a.tool_call_id.clone()).collect();
    assert_eq!(ids, vec!["a", "c"]);
    let (answers, input_required) = collect_tool_results(vec![ToolResultWithSkip::ToolResult(answer("x"))]);
    assert!(!input_required);
    assert_eq!(answers.len(), 1);
}

fn call(id: &str) -> ToolCall {
    ToolCall { tool_call_id: id.into(), tool_name: "search".into(), input: "{}".into() }
}

fn kinds(parts: &[Part]) -> Vec<&'static str> {
    parts
        .iter()
        .map(|p| match p {
            Part::Text(_) => "text",
            Part::ToolCall(_) => "call",
            Part::ToolResult(_) => "result",
            _ => "other",
        })
        .collect()
}

#[test]
fn tools_step_lists_text_calls_then_answers() {
    let answer = ToolResponse { tool_call_id: "c1".into(), tool_name: "search".into(), parts: vec![] };
    let r = tools_action_result(
        "s1".into(),
        Some("thinking".into()),
        vec![call("c1")],
        ToolsOutcome::Handled { responses: vec![answer], input_required: false },
        42,
    );
    assert_eq!(kinds(&r.parts), vec!["text", "call", "result"]);
    assert_eq!(r.status, ExecutionStatus::Success);
    assert_eq!(r.step_id, "s1");
    assert_eq!(r.timestamp, 42);
    assert!(r.reason.is_none());
}

#[test]
fn tools_step_waiting_for_input_or_failing() {
    let r = tools_action_result("s".into(), None, vec![call("c1")], ToolsOutcome::Handled { responses: vec![], input_required: true }, 0);
    assert_eq!(r.status, ExecutionStatus::InputRequired);
    let r = tools_action_result("s".into(), None, vec![call("c1")], ToolsOutcome::Failed { error: "boom".into() }, 0);
    assert_eq!(r.status, ExecutionStatus::Failed);
    assert_eq!(r.reason.as_deref(), Some("boom"));
    assert_eq!(kinds(&r.parts), vec!["call"]);
    let r = tools_action_result("s".into(), Some("only text".into()), vec![], ToolsOutcome::NotRun, 0);
    assert_eq!(r.status, ExecutionStatus::Success);
    assert_eq!(kinds(&r.parts), vec!["text"]);
}

#[test]
fn code_step_joins_observations_or_reports_the_error() {
    let r = code_action_result("s".into(), Ok(vec!["a".into(), "b".into()]), 7);
    assert_eq!(r.status, ExecutionStatus::Success);
    match &r.parts[..] {
        [Part::Text(t)] => assert_eq!(t, "a\n\nb"),
        _ => panic!("one text part expected"),
    }
    let r = code_action_result("s".into(), Err("syntax".into()), 7);
    assert_eq!(r.status, ExecutionStatus::Failed);
    assert!(r.parts.is_empty());
    assert_eq!(r.reason.as_deref(), Some("Code execution error: syntax"));
}

#[test]
fn tool_call_result_carries_parts_or_the_error() {
    let c = call("c7");
    match tool_call_result(&c, Ok(vec![ResultPart::Text("done".into())])) {
        (ToolResultWithSkip::ToolResult(r), true) => {
            assert_eq!(r.tool_call_id, "c7");
            assert_eq!(r.tool_name, "search");
            assert!(matches!(&r.parts[..], [ResultPart::Text(t)] if t == "done"));
        }
        _ => panic!("expected a successful answer"),
    }
    match tool_call_result(&c, Err("boom".into())) {
        (ToolResultWithSkip::ToolResult(r), false) => {
            assert!(matches!(&r.parts[..], [ResultPart::Text(t)] if t == "boom"))
        }
        _ => panic!("expected a failed answer"),
    }
    match simulated_call_result(&c, Err("no model".into())) {
        ToolResultWithSkip::ToolResult(r) => {
            assert!(matches!(&r.parts[..], [ResultPart::Text(t)] if t == "Simulation error: no model"))
        }
        _ => panic!("expected an answer"),
    }
}
