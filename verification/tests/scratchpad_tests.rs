use distri_core::message::{Part, ToolCall};
use distri_core::planning::{Action, PlanStep};
use distri_core::scratchpad::{format_scratchpad_with_task_filter, ScratchpadEntry};

fn exec(task: &str, obs: &str) -> ScratchpadEntry {
    ScratchpadEntry::Execution { task_id: task.into(), observation: obs.into() }
}

fn step(thought: Option<&str>, calls: &[(&str, &str)]) -> ScratchpadEntry {
    ScratchpadEntry::PlanStep(PlanStep {
        id: "s".into(),
        thought: thought.map(|t| t.to_string()),
        action: Action::ToolCalls {
            tool_calls: calls
                .iter()
                .map(|(n, i)| ToolCall { tool_call_id: "c".into(), tool_name: n.to_string(), input: i.to_string() })
                .collect(),
        },
    })
}

fn entries() -> Vec<ScratchpadEntry> {
    vec![
        ScratchpadEntry::Task(vec![Part::Text("find docs".into()), Part::Image("img".into()), Part::Text("fast".into())]),
        step(Some("look it up"), &[("search", "{\"q\":\"docs\"}")]),
        exec("t1", "found 3"),
        exec("t2", "child result"),
        exec("t2", "more"),
    ]
}

#[test]
fn scratchpad_renders_tasks_steps_and_observations() {
    let s = format_scratchpad_with_task_filter(&entries(), None, None);
    assert_eq!(
        s,
        "Task: find docs\nfast\nThought: look it up\nAction: Call search tool with input: {\"q\":\"docs\"}\n\
         Observation: found 3\n\n---\n\nObservation: child result\nObservation: more\n"
    );
}

#[test]
fn scratchpad_filter_keeps_tasks_steps_and_own_executions() {
    let s = format_scratchpad_with_task_filter(&entries(), None, Some("t2"));
    assert_eq!(
        s,
        "Task: find docs\nfast\nThought: look it up\nAction: Call search tool with input: {\"q\":\"docs\"}\n\
         Observation: child result\nObservation: more\n"
    );
}

#[test]
fn scratchpad_limit_keeps_most_recent_entries() {
    let s = format_scratchpad_with_task_filter(&entries(), Some(2), None);
    assert_eq!(s, "Observation: child result\nObservation: more\n");
    assert_eq!(format_scratchpad_with_task_filter(&[], Some(3), None), "");
}

#[test]
fn scratchpad_code_action_and_empty_task() {
    let code = ScratchpadEntry::PlanStep(PlanStep {
        id: "s".into(),
        thought: None,
        action: Action::Code { code: "print(1)".into(), language: "python".into() },
    });
    let s = format_scratchpad_with_task_filter(&[ScratchpadEntry::Task(vec![]), code], None, None);
    assert_eq!(s, "Action: Execute code\n```\nprint(1)\n```\n");
}
