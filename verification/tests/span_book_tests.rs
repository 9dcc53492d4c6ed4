use distri_core::span_book::{SpanBook, SpanEvent, SpanKind, SpanOp};

fn start_tool(book: &mut SpanBook, run: &str, call: &str, step: &str) -> Vec<SpanOp> {
    book.on_event(run, &SpanEvent::ToolExecutionStart { tool_call_id: call.into(), step_id: step.into() })
}

#[test]
fn before_execute_stores_agent_span_in_context() {
    let mut book = SpanBook::new();
    let ops = book.before_execute("run-1".to_string(), None);
    assert!(matches!(ops[0], SpanOp::Open { kind: SpanKind::Agent, parent: None, .. }), "agent span should be opened");
    assert!(book.agent_spans.contains_key("run-1"), "agent_spans should have run-1");
}

#[test]
fn tool_span_stays_alive_after_execution_end_removed_on_results() {
    let mut book = SpanBook::new();
    start_tool(&mut book, "r1", "tc-1", "s1");
    assert!(book.tool_spans.contains_key("tc-1"), "span created at Start");

    let ops = book.on_event("r1", &SpanEvent::ToolExecutionEnd { tool_call_id: "tc-1".into() });
    assert!(matches!(ops[0], SpanOp::RecordToolEnd { .. }));
    assert!(
        book.tool_spans.contains_key("tc-1"),
        "span must stay in tool_spans after End so ToolResults can record output"
    );

    let ops = book.on_event("r1", &SpanEvent::ToolResults { tool_call_ids: vec!["tc-1".into()] });
    assert!(matches!(ops[0], SpanOp::Finish { kind: SpanKind::Tool, index: 0, .. }));
    assert!(!book.tool_spans.contains_key("tc-1"), "span removed after ToolResults");
}

#[test]
fn test_inner_span_created_inside_outer_span() {
    let mut book = SpanBook::new();
    let outer = book.before_execute("outer-run".to_string(), None);
    let outer_handle = match outer[0] {
        SpanOp::Open { handle, .. } => handle,
        _ => panic!("outer span expected"),
    };
    assert!(book.agent_spans.contains_key("outer-run"), "outer agent span should be registered");

    let inner = book.before_execute("inner-run".to_string(), Some("outer-run"));
    assert!(matches!(inner[0], SpanOp::Open { parent: Some(p), .. } if p == outer_handle));
    assert!(book.agent_spans.contains_key("inner-run"), "inner agent span should be registered");
    assert_eq!(book.agent_spans.len(), 2);
}

#[test]
fn tool_span_stays_alive_even_when_tool_failed() {
    let mut book = SpanBook::new();
    start_tool(&mut book, "r1", "tc-err", "s1");
    book.on_event("r1", &SpanEvent::ToolExecutionEnd { tool_call_id: "tc-err".into() });
    assert!(book.tool_spans.contains_key("tc-err"), "span must survive failed ToolExecutionEnd so output can still be recorded");
    book.on_event("r1", &SpanEvent::ToolResults { tool_call_ids: vec!["tc-err".into()] });
    assert!(!book.tool_spans.contains_key("tc-err"), "span removed after ToolResults");
}

#[test]
fn remote_run_suppresses_step_and_plan_spans() {
    let mut book = SpanBook::new();
    book.mark_run_as_remote("r1".to_string());

    let ops = book.on_event("r1", &SpanEvent::StepStarted { step_id: "s-remote".into() });
    assert!(ops.is_empty());
    assert!(!book.step_spans.contains_key("s-remote"), "step span must NOT be created for remote run");

    book.on_event("r1", &SpanEvent::PlanStarted);
    assert!(!book.plan_spans.contains_key("r1"), "plan span must NOT be created for remote run");

    book.on_event("r1", &SpanEvent::RunFinished);
    assert!(!book.remote_run_ids.contains("r1"), "remote_run_ids must be cleaned up after RunFinished");
}

#[test]
fn before_execute_stashes_final_result_removed_on_run_finished() {
    let mut book = SpanBook::new();
    let ops = book.before_execute("run-out".to_string(), None);
    let slot = match ops[1] {
        SpanOp::Stash { slot } => slot,
        _ => panic!("slot expected"),
    };
    assert!(book.agent_final_results.contains_key("run-out"), "final_result slot should be stashed after before_execute");

    let ops = book.on_event("run-out", &SpanEvent::RunFinished);
    assert_eq!(ops[0], SpanOp::TakeFinalResult { slot });
    assert!(matches!(ops[1], SpanOp::Finish { kind: SpanKind::Agent, .. }));
    assert!(!book.agent_final_results.contains_key("run-out"), "final_result slot must be removed after RunFinished");
}

#[test]
fn run_error_cleans_up_final_result() {
    let mut book = SpanBook::new();
    book.before_execute("run-err".to_string(), None);
    assert!(book.agent_final_results.contains_key("run-err"));
    book.on_event("run-err", &SpanEvent::RunError);
    assert!(!book.agent_final_results.contains_key("run-err"), "final_result slot must be removed after RunError");
    assert!(!book.agent_spans.contains_key("run-err"));
}

#[test]
fn plan_span_nests_under_active_step() {
    let mut book = SpanBook::new();
    let ops = book.on_event("r", &SpanEvent::StepStarted { step_id: "s1".into() });
    let step = match ops[0] {
        SpanOp::Open { handle, .. } => handle,
        _ => panic!(),
    };
    let ops = book.on_event("r", &SpanEvent::PlanStarted);
    assert!(matches!(ops[0], SpanOp::Open { kind: SpanKind::Plan, parent: Some(p), .. } if p == step));
    let ops = book.on_event("r", &SpanEvent::PlanFinished);
    assert!(matches!(ops[0], SpanOp::Finish { kind: SpanKind::Plan, .. }));
    book.on_event("r", &SpanEvent::StepCompleted { step_id: "s1".into() });
    let ops = book.on_event("r", &SpanEvent::ReflectStarted);
    assert!(matches!(ops[0], SpanOp::Open { kind: SpanKind::Reflect, parent: None, .. }));
}

#[test]
fn restarted_tool_span_discards_the_old_one() {
    let mut book = SpanBook::new();
    let first = start_tool(&mut book, "r", "tc", "s");
    let old = match first[0] {
        SpanOp::Open { handle, .. } => handle,
        _ => panic!(),
    };
    let second = start_tool(&mut book, "r", "tc", "s");
    assert_eq!(second[0], SpanOp::Discard { handle: old });
    assert!(matches!(second[1], SpanOp::Open { handle, .. } if handle != old));
    assert!(book.has_capacity());
    assert_eq!(book.agent_span("nope"), None);
}
