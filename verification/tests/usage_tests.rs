use distri_core::usage::UsageCounters;

#[test]
fn step_usage_counts_only_the_current_step() {
    let mut u = UsageCounters::new();
    u.increment_usage_with_cache(100, 20, 10);
    u.snapshot_step_start();
    u.increment_usage_with_cache(50, 5, 30);
    u.increment_usage(7, 3);
    let step = u.get_step_usage();
    assert_eq!(step.input_tokens, 57);
    assert_eq!(step.output_tokens, 8);
    assert_eq!(step.cached_tokens, 30);
    assert_eq!(step.total_tokens, 65);
    let total = u.get_total_usage();
    assert_eq!(total.total_tokens, 185);
    assert_eq!(total.input_tokens, 157);
    assert_eq!(total.output_tokens, 28);
    assert_eq!(total.cached_tokens, 40);
}

#[test]
fn step_usage_below_baseline_counts_zero() {
    let mut u = UsageCounters::new();
    u.increment_usage(10, 10);
    u.snapshot_step_start();
    u.input_tokens = 4;
    let step = u.get_step_usage();
    assert_eq!(step.input_tokens, 0);
    assert_eq!(step.output_tokens, 0);
    assert_eq!(step.total_tokens, 0);
}

#[test]
fn usage_carries_the_model_name() {
    let mut u = UsageCounters::new();
    assert!(u.get_total_usage().model.is_none());
    u.set_usage_model("gpt-4.1".to_string());
    assert_eq!(u.get_step_usage().model.as_deref(), Some("gpt-4.1"));
}

#[test]
fn iteration_info_reports_count_against_limit() {
    let mut u = UsageCounters::new();
    assert_eq!(u.get_iteration_info(10), "0/10");
    u.increment_iteration();
    u.increment_iteration();
    u.increment_iteration();
    assert_eq!(u.get_iteration_info(25), "3/25");
}
