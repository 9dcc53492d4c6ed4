use distri_core::a2a_history::{is_final_update, order_task_histories};

#[test]
fn empty_tasks_are_dropped_and_the_rest_ordered_by_last_message() {
    let last = [Some(30), None, Some(10), Some(30), Some(20)];
    assert_eq!(order_task_histories(&last), vec![2, 4, 0, 3]);
    assert!(order_task_histories(&[None, None]).is_empty());
}

#[test]
fn only_the_root_run_end_is_final() {
    assert!(is_final_update(true, false));
    assert!(!is_final_update(true, true));
    assert!(!is_final_update(false, false));
}
