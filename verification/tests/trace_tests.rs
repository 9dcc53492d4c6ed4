use distri_core::trace::{
    agent_input_value, derive_trace_ids_from_thread, parse_hex_u128, parse_hex_u64, remote_parent_ids,
    span_name_override, truncate_span_name, TraceContext,
};

#[test]
fn derive_trace_ids_is_deterministic_and_nonzero() {
    let (t1, s1) = derive_trace_ids_from_thread("thread-abc");
    let (t2, s2) = derive_trace_ids_from_thread("thread-abc");
    assert_eq!(t1, t2, "same thread_id → same trace_id");
    assert_eq!(s1, s2, "same thread_id → same span_id");
    assert_ne!(t1, 0);
    assert_ne!(s1, 0);

    let (t3, _) = derive_trace_ids_from_thread("thread-xyz");
    assert_ne!(t1, t3, "different thread_id → different trace_id");
}

#[test]
fn derived_ids_are_the_digest_prefix() {
    // SHA-256("abc") = ba7816bf 8f01cfea 414140de 5dae2223 b00361a3 96177a9c ...
    let (t, s) = derive_trace_ids_from_thread("abc");
    assert_eq!(t, 0xba7816bf8f01cfea414140de5dae2223);
    assert_eq!(s, 0xb00361a396177a9c);
}

#[test]
fn remote_parent_context_uses_inbound_trace_context() {
    let tc = Some(TraceContext {
        trace_id: "0123456789abcdef0123456789abcdef".to_string(),
        parent_span_id: "0123456789abcdef".to_string(),
    });
    let ids = remote_parent_ids(&tc, "t1");
    assert_eq!(ids, Some((0x0123456789abcdef0123456789abcdef, 0x0123456789abcdef)));
}

#[test]
fn remote_parent_context_rejects_malformed_trace_context() {
    let tc = Some(TraceContext { trace_id: "not-hex".to_string(), parent_span_id: "nope".to_string() });
    assert!(remote_parent_ids(&tc, "t1").is_none());
}

#[test]
fn remote_parent_context_defaults_to_thread_derived() {
    let ids = remote_parent_ids(&None, "t-default");
    assert_eq!(ids, Some(derive_trace_ids_from_thread("t-default")));
}

#[test]
fn hex_parsing_follows_from_str_radix() {
    assert_eq!(parse_hex_u64("+ff"), Some(255));
    assert_eq!(parse_hex_u64("FF"), Some(255));
    assert_eq!(parse_hex_u64(""), None);
    assert_eq!(parse_hex_u64("+"), None);
    assert_eq!(parse_hex_u64("1ffffffffffffffff"), None);
    assert_eq!(parse_hex_u128("00000000000000000000000000000001"), Some(1));
}

#[test]
fn span_names_are_truncated_with_ellipsis() {
    assert_eq!(truncate_span_name("short", 10), "short");
    assert_eq!(truncate_span_name("abcdef", 3), "abc…");
    assert_eq!(truncate_span_name("ééé", 2), "éé…");
}

#[test]
fn span_name_prefers_context_name_then_first_line() {
    assert_eq!(span_name_override(Some("named".into()), "text"), Some("named".to_string()));
    assert_eq!(span_name_override(Some("   ".into()), "\n\n  first line  \nsecond"), Some("first line".to_string()));
    assert_eq!(span_name_override(None, "   \n  "), None);
    let long = "x".repeat(100);
    let name = span_name_override(None, &long).unwrap();
    assert_eq!(name.chars().count(), 81);
    assert!(name.ends_with('…'));
}

#[test]
fn agent_input_lists_external_tools() {
    let tools = vec!["a".to_string(), "b".to_string()];
    assert_eq!(agent_input_value("hi", Some(&tools)), Some("hi\n[external_tools: a, b]".to_string()));
    assert_eq!(agent_input_value("hi", Some(&[])), Some("hi".to_string()));
    assert_eq!(agent_input_value("", None), None);
}
