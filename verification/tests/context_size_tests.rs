use distri_core::context_size::{plan_tier2_summary, ContextSizeManager, EntryKind};

use EntryKind::{Other, SkillContext, Task};

// Token estimates stand in for the estimator's counts of the formatted entries.
const TASK_TOKENS: usize = 12;
const EXEC_TOKENS: usize = 40;

fn tokens(kinds: &[EntryKind]) -> Vec<usize> {
    kinds
        .iter()
        .map(|k| match k {
            Task => TASK_TOKENS,
            SkillContext => 15,
            Other => EXEC_TOKENS,
        })
        .collect()
}

fn trim(m: &ContextSizeManager, kinds: &[EntryKind]) -> Vec<usize> {
    let t = tokens(kinds);
    let preserved: usize = m.preserved_entries(kinds).iter().map(|&i| t[i]).sum();
    m.trim_scratchpad_entries(kinds, &t, preserved)
}

fn default_manager() -> ContextSizeManager {
    ContextSizeManager::default()
}

#[test]
fn test_preserves_user_task() {
    let manager = default_manager();
    let kinds = vec![Task, Other, Other];
    let trimmed = trim(&manager, &kinds);
    assert!(!trimmed.is_empty());
    assert_eq!(kinds[trimmed[0]], Task);
}

#[test]
fn test_respects_min_entries() {
    let manager = ContextSizeManager::new(1, 2, true);
    let kinds = vec![Task, Other, Other];
    let trimmed = trim(&manager, &kinds);
    assert!(trimmed.len() >= 2);
}

#[test]
fn test_trims_older_entries_first() {
    let manager = ContextSizeManager::new(500, 1, true);
    let kinds = vec![Task, Other, Other, Other];
    let timestamps = [1, 2, 3, 4];
    let trimmed = trim(&manager, &kinds);
    assert!(trimmed.len() >= 2);
    assert_eq!(kinds[trimmed[0]], Task);
    if trimmed.len() > 2 {
        assert!(timestamps[*trimmed.last().unwrap()] >= 3);
    }
}

#[test]
fn trim_keeps_the_newest_entries_that_fit() {
    // 12 (task) + 40 + 40 fit in 100; a third execution would not.
    let manager = ContextSizeManager::new(100, 1, true);
    let kinds = vec![Task, Other, Other, Other, Other];
    assert_eq!(trim(&manager, &kinds), vec![0, 3, 4]);
}

#[test]
fn test_emergency_reset_preserves_task_and_last_entries() {
    let manager = ContextSizeManager::new(10, 3, true);
    let kinds: Vec<_> = std::iter::once(Task).chain((2..=8).map(|_| Other)).collect();
    let timestamps: Vec<i64> = (1..=8).collect();
    let result = manager.emergency_reset(&kinds);
    assert_eq!(result.len(), 3);
    assert_eq!(kinds[result[0]], Task);
    assert_eq!(timestamps[result[1]], 7);
    assert_eq!(timestamps[result[2]], 8);
}

#[test]
fn test_skill_context_preserved_during_trim() {
    let manager = ContextSizeManager::new(500, 1, true);
    let kinds = vec![Task, SkillContext, Other, Other, Other];
    let trimmed = trim(&manager, &kinds);
    assert!(trimmed.iter().any(|&i| kinds[i] == SkillContext), "SkillContext entry must survive trimming");
}

#[test]
fn test_skill_context_preserved_during_emergency_reset() {
    let manager = ContextSizeManager::new(10, 3, true);
    let kinds = vec![Task, SkillContext, Other, Other, Other, Other, Other, Other];
    let result = manager.emergency_reset(&kinds);
    assert!(result.iter().any(|&i| kinds[i] == SkillContext), "SkillContext entry must survive emergency reset");
    assert!(result.len() <= 4);
}

#[test]
fn emergency_reset_without_preserving_task() {
    let manager = ContextSizeManager::new(10, 3, false);
    let kinds = vec![Task, Other, Other, Other];
    assert_eq!(manager.emergency_reset(&kinds), vec![2, 3]);
}

#[test]
fn tier2_summary_covers_other_entries() {
    let kinds = vec![Task, SkillContext, Other, Other];
    let plan = plan_tier2_summary(&kinds, &[1, 2, 30, 40]);
    assert_eq!(plan.entries, vec![2, 3]);
    assert_eq!((plan.from_timestamp, plan.to_timestamp), (30, 40));
    let empty = plan_tier2_summary(&[Task], &[5]);
    assert!(empty.entries.is_empty());
    assert_eq!((empty.from_timestamp, empty.to_timestamp), (0, 0));
}

#[test]
fn empty_scratchpad_trims_to_nothing() {
    assert!(trim(&default_manager(), &[]).is_empty());
}

#[test]
fn default_settings() {
    let m = ContextSizeManager::default();
    assert_eq!((m.max_tokens, m.min_entries, m.preserve_user_task), (8000, 3, true));
    let w = ContextSizeManager::with_max_tokens(42);
    assert_eq!((w.max_tokens, w.min_entries, w.preserve_user_task), (42, 3, true));
}
