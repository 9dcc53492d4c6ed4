use distri_core::agent_loop::{
    count_failed_steps, split_tool_parts, validate_completion, LoopAction, LoopState, LoopStop,
};
use distri_core::agent_types::AgentError;
use distri_core::message::{Part, ToolResponse};
use distri_core::planning::ExecutionStatus;
use distri_core::planning::ExecutionStatus::{Failed, InputRequired, Rejected, Success};

#[test]
fn fresh_run_plans_first() {
    let (s, a) = LoopState::start(10, None);
    assert_eq!(a, LoopAction::Plan);
    assert_eq!((s.error_iterations, s.step_index), (0, 0));
}

#[test]
fn existing_plan_runs_its_first_step() {
    let (_, a) = LoopState::start(10, Some(2));
    assert_eq!(a, LoopAction::Execute(0));
}

#[test]
fn three_planning_failures_stop_the_loop() {
    let (mut s, a) = LoopState::start(10, None);
    assert_eq!(a, LoopAction::Plan);
    assert_eq!(s.on_plan_failed(), LoopAction::Plan);
    assert_eq!(s.on_plan_failed(), LoopAction::Plan);
    assert_eq!(s.on_plan_failed(), LoopAction::Stop(LoopStop::TooManyErrors));
}

#[test]
fn successful_plan_resets_errors() {
    let (mut s, _) = LoopState::start(10, None);
    s.on_plan_failed();
    s.on_plan_failed();
    assert_eq!(s.on_planned(3), LoopAction::Execute(0));
    assert_eq!(s.error_iterations, 0);
}

#[test]
fn steps_advance_until_the_plan_is_used_up() {
    let (mut s, _) = LoopState::start(10, None);
    assert_eq!(s.on_planned(2), LoopAction::Execute(0));
    assert_eq!(s.on_step_done(false, false), LoopAction::AskContinue(0));
    assert_eq!(s.on_continue_decided(true, false), LoopAction::Execute(1));
    assert_eq!(s.on_step_done(false, false), LoopAction::AskContinue(0));
    assert_eq!(s.on_continue_decided(true, false), LoopAction::Plan);
}

#[test]
fn iteration_limit_stops_before_the_step() {
    let (mut s, _) = LoopState::start(1, None);
    assert_eq!(s.on_planned(5), LoopAction::Execute(0));
    s.on_step_done(false, false);
    assert_eq!(s.on_continue_decided(true, false), LoopAction::Stop(LoopStop::MaxIterations));
}

#[test]
fn zero_limit_stops_right_after_planning() {
    let (mut s, _) = LoopState::start(0, None);
    assert_eq!(s.on_planned(3), LoopAction::Stop(LoopStop::MaxIterations));
}

#[test]
fn empty_plan_is_replanned() {
    let (mut s, _) = LoopState::start(10, None);
    assert_eq!(s.on_planned(0), LoopAction::Plan);
    assert_eq!(s.plan_len, None);
}

#[test]
fn input_required_replan_and_reflection() {
    let (mut s, _) = LoopState::start(10, None);
    s.on_planned(3);
    assert_eq!(s.on_step_done(true, true), LoopAction::Stop(LoopStop::InputRequired));
    assert_eq!(s.on_step_done(false, true), LoopAction::Replan);
    assert_eq!(s.on_replanned(2), LoopAction::Execute(0));
    assert_eq!(s.on_continue_decided(false, true), LoopAction::Reflect);
    assert_eq!(s.on_reflected(true), LoopAction::Execute(0));
    assert_eq!(s.on_continue_decided(false, false), LoopAction::Stop(LoopStop::Finished));
    assert_eq!(s.on_reflected(false), LoopAction::Stop(LoopStop::Finished));
}

#[test]
fn completion_is_validated() {
    assert!(validate_completion(true, &[], false).is_ok());
    match validate_completion(false, &[], true) {
        Err(AgentError::Planning(m)) => assert_eq!(m, "Agent completed without executing any steps"),
        _ => panic!(),
    }
    assert!(validate_completion(false, &[Failed], true).is_ok());
    match validate_completion(false, &[Success, Failed], false) {
        Err(AgentError::Planning(m)) => assert!(m.starts_with("Agent execution completed with failures")),
        _ => panic!(),
    }
    match validate_completion(false, &[Success, Rejected], false) {
        Err(AgentError::Planning(m)) => assert!(m.starts_with("Agent execution completed unsuccessfully")),
        _ => panic!(),
    }
    assert!(validate_completion(false, &[Success, Success], false).is_ok());
    assert_eq!(count_failed_steps(&[Success, Failed, Failed, InputRequired]), 2);
}

#[test]
fn tool_results_are_split_from_other_parts() {
    let parts = vec![
        Part::Text("a".into()),
        Part::ToolResult(ToolResponse { tool_call_id: "1".into(), tool_name: "t".into(), parts: vec![] }),
        Part::Text("b".into()),
    ];
    let (tools, rest) = split_tool_parts(parts);
    assert_eq!(tools.len(), 1);
    assert_eq!(rest.len(), 2);
    assert!(matches!(&rest[1], Part::Text(t) if t == "b"));
}
