use distri_core::skill_tracker::ActiveSkillTracker;

#[test]
fn test_track_and_retrieve() {
    let mut tracker = ActiveSkillTracker::default();
    tracker.track("rubric".into(), "# Rubric\nJSON examples...".into(), 100);

    let candidates = tracker.get_reinjection_candidates();
    assert_eq!(candidates.len(), 1);
    assert_eq!(candidates[0].skill_id, "rubric");
    assert_eq!(candidates[0].content, "# Rubric\nJSON examples...");
}

#[test]
fn test_most_recent_first() {
    let mut tracker = ActiveSkillTracker::default();
    tracker.track("old_skill".into(), "old content".into(), 100);
    tracker.track("new_skill".into(), "new content".into(), 200);

    let candidates = tracker.get_reinjection_candidates();
    assert_eq!(candidates[0].skill_id, "new_skill");
    assert_eq!(candidates[1].skill_id, "old_skill");
}

#[test]
fn test_token_budget_respected() {
    let mut tracker = ActiveSkillTracker::new(10);
    // 40 chars = 10 tokens (fits alone)
    tracker.track("a".into(), "x".repeat(40), 100);
    // 40 chars = 10 tokens (would push to 20, over budget)
    tracker.track("b".into(), "y".repeat(40), 200);

    let candidates = tracker.get_reinjection_candidates();
    assert_eq!(candidates.len(), 1);
    assert_eq!(candidates[0].skill_id, "b");
}

#[test]
fn test_replace_on_reload() {
    let mut tracker = ActiveSkillTracker::default();
    tracker.track("rubric".into(), "v1 content".into(), 100);
    tracker.track("rubric".into(), "v2 content".into(), 200);

    let candidates = tracker.get_reinjection_candidates();
    assert_eq!(candidates.len(), 1);
    assert_eq!(candidates[0].content, "v2 content");
    assert_eq!(candidates[0].loaded_at, 200);
}

#[test]
fn test_empty_tracker() {
    let tracker = ActiveSkillTracker::default();
    assert!(tracker.is_empty());
    assert!(tracker.get_reinjection_candidates().is_empty());
}

#[test]
fn test_clone_is_independent() {
    let mut tracker = ActiveSkillTracker::default();
    tracker.track("skill_a".into(), "content".into(), 100);

    let mut cloned = tracker.clone();
    cloned.track("skill_b".into(), "more content".into(), 200);

    assert_eq!(tracker.tracked_skill_ids().len(), 1);
    assert_eq!(cloned.tracked_skill_ids().len(), 2);
}

#[test]
fn equal_load_times_keep_tracking_order() {
    let mut tracker = ActiveSkillTracker::new(100);
    tracker.track("first".into(), "aaaa".into(), 50);
    tracker.track("second".into(), "bbbb".into(), 50);
    tracker.track("newest".into(), "cccc".into(), 60);
    let ids: Vec<&str> = tracker
        .get_reinjection_candidates()
        .iter()
        .map(|s| s.skill_id.as_str())
        .collect();
    assert_eq!(ids, vec!["newest", "first", "second"]);
}

#[test]
fn greedy_skips_oversized_but_keeps_later_fits() {
    let mut tracker = ActiveSkillTracker::new(5);
    tracker.track("small_old".into(), "x".repeat(8), 10); // 2 tokens
    tracker.track("big".into(), "x".repeat(40), 20); // 10 tokens, never fits
    tracker.track("mid".into(), "x".repeat(12), 30); // 3 tokens
    let c = tracker.get_reinjection_candidates();
    let ids: Vec<&str> = c.iter().map(|s| s.skill_id.as_str()).collect();
    assert_eq!(ids, vec!["mid", "small_old"]);
    let total: usize = c.iter().map(|s| s.estimated_tokens).sum();
    assert!(total <= 5);
}

#[test]
fn estimate_counts_utf8_bytes() {
    let mut tracker = ActiveSkillTracker::new(100);
    // "é" is two bytes in UTF-8: 8 chars -> 16 bytes -> 4 tokens
    tracker.track("accent".into(), "éééééééé".into(), 1);
    assert_eq!(tracker.get_reinjection_candidates()[0].estimated_tokens, 4);
}

#[test]
fn retrack_keeps_single_id() {
    let mut tracker = ActiveSkillTracker::new(100);
    tracker.track("a".into(), "1".into(), 1);
    tracker.track("b".into(), "2".into(), 2);
    tracker.track("a".into(), "3".into(), 3);
    let ids = tracker.tracked_skill_ids();
    assert_eq!(ids, vec!["b".to_string(), "a".to_string()]);
}
