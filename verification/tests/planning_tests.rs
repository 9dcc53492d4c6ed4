use distri_core::code_plan::{plan_from_response, retain_image_parts, CodeLanguage, CodePlanner};
use distri_core::definition::{
    AgentStrategy, ExecutionMode, ReasoningDepth, ReplanningConfig, ReplanningTrigger, StandardDefinition,
    ToolCallFormat,
};
use distri_core::message::{Part, ToolCall};
use distri_core::planning::{
    on_plan_reply, uses_planning_template, PlanDecision, PlanReply,
    steps_from_response, strip_xml_from_content, Action, ExecutionResult, ExecutionStatus, Step, TodosTool, UnifiedPlanner,
};
use distri_core::agent_types::AgentError;

fn tc(id: &str, name: &str) -> ToolCall {
    ToolCall { tool_call_id: id.to_string(), tool_name: name.to_string(), input: "{}".to_string() }
}

fn definition() -> StandardDefinition {
    StandardDefinition {
        name: "agent".to_string(),
        instructions: String::new(),
        append_default_instructions: None,
        history_size: None,
        max_iterations: None,
        tool_format: ToolCallFormat::Provider,
        strategy: None,
    }
}

fn planner(enabled: bool, trigger: ReplanningTrigger) -> UnifiedPlanner {
    UnifiedPlanner::new(
        definition(),
        AgentStrategy {
            reasoning_depth: ReasoningDepth::Standard,
            execution_mode: ExecutionMode::Tools,
            replanning: ReplanningConfig { enabled, trigger },
        },
    )
}

fn result(status: ExecutionStatus) -> ExecutionResult {
    ExecutionResult { step_id: "s".into(), parts: vec![], status, reason: None, timestamp: 0 }
}

#[test]
fn multiple_tool_calls_collapse_into_one_step() {
    let calls = vec![tc("a", "search"), tc("b", "browsr_scrape"), tc("c", "search")];
    let steps = UnifiedPlanner::group_tool_calls_into_steps(calls, "thinking".to_string());
    assert_eq!(steps.len(), 1, "expected one grouped step, got {}", steps.len());
    match &steps[0].action {
        Action::ToolCalls { tool_calls } => {
            assert_eq!(tool_calls.len(), 3, "all three calls must be grouped");
            assert_eq!(tool_calls[0].tool_call_id, "a");
            assert_eq!(tool_calls[1].tool_call_id, "b");
            assert_eq!(tool_calls[2].tool_call_id, "c");
        }
        _ => panic!("expected Action::ToolCalls"),
    }
    assert_eq!(steps[0].thought.as_deref(), Some("thinking"));
}

#[test]
fn single_tool_call_is_one_step() {
    let steps = UnifiedPlanner::group_tool_calls_into_steps(vec![tc("only", "final")], String::new());
    assert_eq!(steps.len(), 1);
    match &steps[0].action {
        Action::ToolCalls { tool_calls } => assert_eq!(tool_calls.len(), 1),
        _ => panic!("expected Action::ToolCalls"),
    }
    assert_eq!(steps[0].thought, None);
}

#[test]
fn no_tool_calls_yields_no_steps() {
    let steps = UnifiedPlanner::group_tool_calls_into_steps(vec![], "x".to_string());
    assert!(steps.is_empty());
}

#[test]
fn grouped_steps_get_distinct_ids() {
    let a = UnifiedPlanner::group_tool_calls_into_steps(vec![tc("a", "x")], String::new());
    let b = UnifiedPlanner::group_tool_calls_into_steps(vec![tc("b", "x")], String::new());
    assert_ne!(a[0].id, b[0].id);
    assert_eq!(a[0].id.len(), 36);
}

#[test]
fn replanning_after_recent_failures() {
    let p = planner(true, ReplanningTrigger::AfterFailures);
    let history = vec![result(ExecutionStatus::Failed), result(ExecutionStatus::Success), result(ExecutionStatus::Success), result(ExecutionStatus::Success)];
    assert!(!p.needs_replanning(&history));
    let history = vec![result(ExecutionStatus::Success), result(ExecutionStatus::Failed), result(ExecutionStatus::Success)];
    assert!(p.needs_replanning(&history));
}

#[test]
fn replanning_after_n_iterations_and_disabled() {
    let p = planner(true, ReplanningTrigger::AfterNIterations(2));
    assert!(!p.needs_replanning(&[result(ExecutionStatus::Success)]));
    assert!(p.needs_replanning(&[result(ExecutionStatus::Success), result(ExecutionStatus::Success)]));
    let off = planner(false, ReplanningTrigger::AfterNIterations(0));
    assert!(!off.needs_replanning(&[result(ExecutionStatus::Failed)]));
    let never = planner(true, ReplanningTrigger::Never);
    assert!(!never.needs_replanning(&[result(ExecutionStatus::Failed)]));
}

#[test]
fn step_text_is_labelled() {
    assert_eq!(Step::Thought("hmm".into()).to_text(), "Thought: hmm");
    assert_eq!(Step::Observation("ok".into()).to_text(), "Observation: ok");
}

#[test]
fn todos_tool_identity() {
    assert_eq!(TodosTool.get_name(), "write_todos");
    assert!(TodosTool.needs_executor_context());
}

#[test]
fn parse_typescript_joins_blocks_and_keeps_prose() {
    let content = "I will compute.\n```typescript\nconst a = 1;\n```\nThen more.\n```js\nconsole.log(a)\n```\n";
    let plan = CodePlanner::parse_typescript_from_content(content).expect("code expected");
    assert_eq!(plan.code, "const a = 1;\n\nconsole.log(a)");
    assert_eq!(plan.thought.as_deref(), Some("I will compute. Then more."));
    assert!(CodePlanner::parse_typescript_from_content("no code here").is_none());
}

#[test]
fn plan_from_response_builds_code_step_or_error() {
    let step = plan_from_response("```ts\nlet x = 2;\n```", "typescript").expect("plan");
    match step.action {
        Action::Code { code, language } => {
            assert_eq!(code, "let x = 2;");
            assert_eq!(language, "typescript");
        }
        _ => panic!("expected code"),
    }
    match plan_from_response("nothing", "typescript") {
        Err(AgentError::Planning(m)) => assert_eq!(m, "ERROR: Failed to get code from response: nothing"),
        _ => panic!("expected a planning error"),
    }
}

#[test]
fn only_images_reach_the_code_planner() {
    let parts = vec![Part::Text("t".into()), Part::Image("img://1".into()), Part::File("f".into())];
    let kept = retain_image_parts(parts);
    assert_eq!(kept.len(), 1);
    assert!(matches!(&kept[0], Part::Image(r) if r == "img://1"));
    let _ = CodePlanner::new(CodeLanguage::TypeScript, definition(), AgentStrategy {
        reasoning_depth: ReasoningDepth::Standard,
        execution_mode: ExecutionMode::Code,
        replanning: ReplanningConfig { enabled: false, trigger: ReplanningTrigger::Never },
    });
}

#[test]
fn xml_blocks_are_stripped_from_the_thought() {
    assert_eq!(strip_xml_from_content("Let me search.\n```xml\n<search/>\n```\nDone."), "Let me search.\n\nDone.");
    assert_eq!(strip_xml_from_content("x```xml```y"), "xy");
    assert_eq!(strip_xml_from_content("  ```xml never closed  "), "```xml never closed");
    assert_eq!(strip_xml_from_content("A\n\n\n\nB"), "A\n\nB");
    assert_eq!(strip_xml_from_content("A\n \n\t\n  B"), "A\n\n  B");
    assert_eq!(strip_xml_from_content("A\n\nB"), "A\n\nB");
}

#[test]
fn response_becomes_one_step_with_its_prose() {
    let steps = steps_from_response(vec![tc("a", "search")], "Looking.\n```xml\n<a/>\n```");
    assert_eq!(steps.len(), 1);
    assert_eq!(steps[0].thought.as_deref(), Some("Looking."));
    let steps = steps_from_response(vec![tc("a", "search")], "```xml\n<a/>\n```");
    assert_eq!(steps[0].thought, None);
    assert!(steps_from_response(vec![], "text").is_empty());
}

fn reply(content: &str, calls: usize) -> PlanReply {
    PlanReply::Reply {
        content: content.into(),
        tool_calls: (0..calls)
            .map(|i| ToolCall { tool_call_id: format!("c{i}"), tool_name: "search".into(), input: "{}".into() })
            .collect(),
    }
}

#[test]
fn plan_reply_with_tool_calls_is_accepted() {
    match on_plan_reply(1, reply("thinking", 2)) {
        PlanDecision::Accept(steps) => {
            assert_eq!(steps.len(), 1);
            assert_eq!(steps[0].thought.as_deref(), Some("thinking"));
        }
        _ => panic!("expected the plan"),
    }
}

#[test]
fn plan_reply_without_tool_calls_retries_then_finalizes() {
    match on_plan_reply(1, reply("just text", 0)) {
        PlanDecision::Retry { assistant_text, user_text } => {
            assert_eq!(assistant_text, "just text");
            assert_eq!(
                user_text,
                "(attempt 1/2): You always need to return tool calls in the response, but got:. Retrying..."
            );
        }
        _ => panic!("expected a retry"),
    }
    match on_plan_reply(2, reply("final words", 0)) {
        PlanDecision::AutoFinalize { final_text } => assert_eq!(final_text, "final words"),
        _ => panic!("expected auto-finalize"),
    }
}

#[test]
fn plan_reply_xml_failure_retries_then_fails() {
    let xml = |n| on_plan_reply(n, PlanReply::XmlParsingFailed { content: "<bad".into(), error: "eof".into() });
    match xml(1) {
        PlanDecision::Retry { assistant_text, user_text } => {
            assert_eq!(assistant_text, "<bad");
            assert_eq!(user_text, "XML parsing failed during planning (attempt 1/2): eof. Retrying...");
        }
        _ => panic!("expected a retry"),
    }
    assert!(matches!(xml(2), PlanDecision::XmlFailure { .. }));
    assert!(matches!(
        on_plan_reply(1, PlanReply::Failed(AgentError::Other("down".into()))),
        PlanDecision::Fail(AgentError::Other(_))
    ));
}

#[test]
fn planning_template_is_appended_unless_turned_off() {
    assert!(uses_planning_template(None));
    assert!(uses_planning_template(Some(true)));
    assert!(!uses_planning_template(Some(false)));
}
