use distri_core::history::{collect_message_history, TaskLog, TaskMessage};
use distri_core::message::{Message, MessageRole, Part};

fn msg(id: &str, at: i64) -> TaskMessage {
    TaskMessage::Message(Message {
        id: id.to_string(),
        name: None,
        role: MessageRole::User,
        parts: vec![Part::Text(id.to_string())],
        created_at: at,
    })
}

fn tasks() -> Vec<TaskLog> {
    vec![
        TaskLog { task_id: "t1".into(), entries: vec![msg("a", 30), TaskMessage::Event("{}".into()), msg("b", 10)] },
        TaskLog { task_id: "t2".into(), entries: vec![msg("c", 20), msg("d", 10)] },
    ]
}

fn ids(ms: &[Message]) -> Vec<String> {
    ms.iter().map(|m| m.id.clone()).collect()
}

#[test]
fn history_orders_messages_of_all_tasks_by_time() {
    let h = collect_message_history(&tasks(), None);
    assert_eq!(ids(&h), vec!["b", "d", "c", "a"]);
}

#[test]
fn history_of_one_task_skips_the_others_and_events() {
    let h = collect_message_history(&tasks(), Some("t1"));
    assert_eq!(ids(&h), vec!["b", "a"]);
    assert!(collect_message_history(&tasks(), Some("t9")).is_empty());
}
