use distri_core::model_log::{usize_to_decimal, ModelLogger};

fn logger() -> ModelLogger {
    ModelLogger::new(Some(true), false)
}

#[test]
fn verbosity_comes_from_the_argument_or_the_environment() {
    assert!(ModelLogger::new(Some(true), false).is_verbose());
    assert!(!ModelLogger::new(Some(false), true).is_verbose());
    assert!(ModelLogger::new(None, true).is_verbose());
    assert!(!ModelLogger::new(None, false).is_verbose());
}

#[test]
fn short_text_is_unchanged() {
    assert_eq!(logger().truncate_for_display("hello", 10), "hello");
    assert_eq!(logger().truncate_for_display("hello", 5), "hello");
}

#[test]
fn long_text_is_cut_at_a_line_end() {
    let text = "line one\nline two\nline three";
    let out = logger().truncate_preserving_formatting(text, 12);
    assert_eq!(out, format!("line one\nline two\n\n\n[Content truncated - {} chars total]", text.len()));
}

#[test]
fn cut_inside_a_code_block_keeps_the_block() {
    let text = "intro\n```\ncode here\nmore\n```\ntail text";
    let out = logger().truncate_preserving_formatting(text, 10);
    assert_eq!(out, format!("intro\n```\ncode here\n\n\n[Content truncated - {} chars total]", text.len()));
    // The block's end is found, but the line rule then cuts at the first line
    // break after the limit.
    let text2 = "```\nab```cd\nrest";
    let out2 = logger().truncate_preserving_formatting(text2, 5);
    assert_eq!(out2, format!("```\nab```cd\n\n\n[Content truncated - {} chars total]", text2.len()));
}

#[test]
fn cut_without_line_break_keeps_the_prefix() {
    let text = "abcdefghij";
    let out = logger().truncate_preserving_formatting(text, 4);
    assert_eq!(out, "abcd\n\n[Content truncated - 10 chars total]");
}

#[test]
fn lengths_are_counted_in_bytes() {
    let text = "ééééé"; // 10 bytes
    let out = logger().truncate_preserving_formatting(text, 4);
    assert_eq!(out, "éé\n\n[Content truncated - 10 chars total]");
}

#[test]
fn decimal_rendering() {
    let s: String = usize_to_decimal(0).into_iter().collect();
    assert_eq!(s, "0");
    let s: String = usize_to_decimal(1234567).into_iter().collect();
    assert_eq!(s, "1234567");
}
