use distri_core::agent_types::{ForkOptions, ForkType};
use distri_core::context_ids::ContextIds;

fn ids() -> ContextIds {
    ContextIds {
        thread_id: "th".into(),
        task_id: "ta".into(),
        run_id: "ru".into(),
        agent_id: "planner".into(),
        parent_task_id: Some("pt".into()),
        parent_run_id: Some("pr".into()),
    }
}

#[test]
fn fork_new_run_keeps_thread_and_task() {
    let f = ids().fork(&ForkOptions { fork_type: ForkType::NewRun, copy_history_limit: None });
    assert_eq!(f.thread_id, "th");
    assert_eq!(f.task_id, "ta");
    assert_ne!(f.run_id, "ru");
    assert_eq!(f.parent_run_id.as_deref(), Some("pr"));
}

#[test]
fn fork_new_task_and_new_thread_renew_ids() {
    let f = ids().fork(&ForkOptions { fork_type: ForkType::NewTask, copy_history_limit: Some(3) });
    assert_eq!(f.thread_id, "th");
    assert_ne!(f.task_id, "ta");
    let f = ids().fork(&ForkOptions { fork_type: ForkType::NewThread, copy_history_limit: None });
    assert_ne!(f.thread_id, "th");
    assert_ne!(f.task_id, "ta");
    assert_eq!(f.agent_id, "planner");
}

#[test]
fn subtask_and_handover_ids() {
    let c = ids().new_task("coder");
    assert_eq!(c.thread_id, "th");
    assert_eq!(c.agent_id, "coder");
    assert_eq!(c.parent_task_id.as_deref(), Some("ta"));
    assert!(c.parent_run_id.is_none());
    assert_ne!(c.task_id, "ta");
    let h = ids().continue_as("editor");
    assert_eq!(h.task_id, "ta");
    assert_eq!(h.agent_id, "editor");
    assert_eq!(h.parent_task_id.as_deref(), Some("pt"));
    assert_ne!(h.run_id, "ru");
}
