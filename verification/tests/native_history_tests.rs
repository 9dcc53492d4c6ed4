use distri_core::native_history::{latest_execution_index, native_history_items, HistoryEntry, HistoryItem};

#[test]
fn only_the_latest_execution_stays_uncompacted() {
    let entries = vec![
        HistoryEntry::Task,
        HistoryEntry::Execution,
        HistoryEntry::PlanStep,
        HistoryEntry::Summary { entries_summarized: 4, summary_text: "did things".into(), timestamp: 5 },
        HistoryEntry::Execution,
        HistoryEntry::SkillContext { skill_id: "pdf".into(), content: "BODY".into(), timestamp: 6 },
    ];
    assert_eq!(latest_execution_index(&entries), Some(4));
    let items = native_history_items(&entries);
    assert_eq!(items.len(), 4);
    assert!(matches!(items[0], HistoryItem::Execution { index: 1, compact: true }));
    match &items[1] {
        HistoryItem::Context { created_at, text } => {
            assert_eq!(*created_at, 5);
            assert_eq!(text, "[Context summary — 4 earlier entries compacted]: did things");
        }
        _ => panic!("expected the summary"),
    }
    assert!(matches!(items[2], HistoryItem::Execution { index: 4, compact: false }));
    match &items[3] {
        HistoryItem::Context { text, .. } => assert_eq!(text, "[Skill context re-injected: pdf]\nBODY"),
        _ => panic!("expected the skill context"),
    }
}

#[test]
fn no_execution_means_nothing_to_keep_whole() {
    let entries = vec![HistoryEntry::Task, HistoryEntry::PlanStep];
    assert_eq!(latest_execution_index(&entries), None);
    assert!(native_history_items(&entries).is_empty());
}
