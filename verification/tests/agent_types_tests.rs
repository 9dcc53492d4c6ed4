use distri_core::agent_types::{
    agent_error_to_jsonrpc, check_tool_result_task, extract_text_from_message, filter_for_subtask, id_or_fresh,
    resolve_dry_run, skill_gist, validate_user_message, A2aPart, AgentError, AgentRef, ForkOptions, ForkType, HookPromptState, InlineHook,
    PromptSection, PromptTemplateOverride, ResolvedTarget, SkillFork, SkillOutput, SseMessage, ToolsConfig,
};
use distri_core::message::{Message, MessageRole, Part, ToolResponse};

fn state(sections: &[&str], values: &[(&str, &str)], system: Option<&str>) -> HookPromptState {
    HookPromptState {
        dynamic_sections: sections
            .iter()
            .map(|s| PromptSection { name: s.to_string(), content: format!("{s} body") })
            .collect(),
        dynamic_values: values.iter().map(|(k, v)| (k.to_string(), v.to_string())).collect(),
        template_override: PromptTemplateOverride { system: system.map(|s| s.to_string()), user: None },
    }
}

#[test]
fn from_target_named_overlay_becomes_instructions_append() {
    let target = AgentRef::Named { agent_id: "coder".into(), instructions_overlay: Some("SKILL BODY".into()) };
    let resolved = ResolvedTarget::from_target(target, None);
    assert_eq!(resolved.agent_id, "coder");
    let ov = resolved.definition_overrides.expect("overlay must produce DefinitionOverrides");
    assert_eq!(ov.instructions_append.as_deref(), Some("SKILL BODY"));
    assert!(ov.instructions.is_none());
}

#[test]
fn from_target_named_plain_has_no_overrides() {
    let target = AgentRef::Named { agent_id: "coder".into(), instructions_overlay: None };
    let resolved = ResolvedTarget::from_target(target, None);
    assert_eq!(resolved.agent_id, "coder");
    assert!(resolved.definition_overrides.is_none());
}

#[test]
fn from_target_adhoc_inherits_tools_when_none_given() {
    let inherited = ToolsConfig { builtin: vec!["read".into()] };
    let target = AgentRef::AdHoc { system_prompt: "be brief".into(), tools: None };
    let resolved = ResolvedTarget::from_target(target, Some(inherited));
    assert_eq!(resolved.agent_id, "_adhoc_base");
    let ov = resolved.definition_overrides.unwrap();
    assert_eq!(ov.instructions_append.as_deref(), Some("be brief"));
    assert_eq!(ov.tools.unwrap().builtin, vec!["read".to_string()]);
}

#[test]
fn skill_gist_formats_string_structured_and_null() {
    assert_eq!(skill_gist("x", &SkillOutput::Text("done".into())), "[Skill 'x' result]\ndone");
    assert_eq!(skill_gist("x", &SkillOutput::Json("{\"ok\":true}".into())), "[Skill 'x' result]\n{\"ok\":true}");
    assert_eq!(skill_gist("x", &SkillOutput::Null), "[Skill 'x' result]\nSkill 'x' completed without output.");
}

#[test]
fn merge_from_replaces_and_inserts() {
    let mut s = state(&["a"], &[("k1", "1"), ("k2", "2")], Some("sys"));
    s.merge_from(state(&[], &[("k2", "20"), ("k3", "3")], None));
    assert_eq!(s.dynamic_sections.len(), 1);
    let get = |k: &str| s.dynamic_values.iter().find(|(n, _)| n == k).map(|(_, v)| v.clone());
    assert_eq!(get("k1").as_deref(), Some("1"));
    assert_eq!(get("k2").as_deref(), Some("20"));
    assert_eq!(get("k3").as_deref(), Some("3"));
    assert_eq!(s.dynamic_values.len(), 3);
    assert_eq!(s.template_override.system.as_deref(), Some("sys"));

    s.merge_from(state(&["b", "c"], &[], Some("other")));
    assert_eq!(s.dynamic_sections.len(), 2);
    assert_eq!(s.dynamic_sections[0].name, "b");
    assert_eq!(s.template_override.system.as_deref(), Some("other"));
}

#[test]
fn subtask_tools_drop_write_todos() {
    let t = filter_for_subtask(ToolsConfig { builtin: vec!["read".into(), "write_todos".into(), "bash".into()] });
    assert_eq!(t.builtin, vec!["read".to_string(), "bash".to_string()]);
}

#[test]
fn text_parts_are_joined_with_spaces() {
    let parts = vec![
        A2aPart::Text("hello".into()),
        A2aPart::Data { json: "{}".into(), part_type: None },
        A2aPart::Text("world".into()),
    ];
    assert_eq!(extract_text_from_message(&parts), Some("hello world".to_string()));
    assert_eq!(extract_text_from_message(&[A2aPart::File("f".into())]), None);
}

#[test]
fn tool_results_need_a_task_id() {
    let parts = vec![A2aPart::Data { json: "{}".into(), part_type: Some("tool_result".into()) }];
    match check_tool_result_task("message/send", &parts, false) {
        Err(AgentError::Validation(m)) => assert_eq!(m, "task_id is required for messages containing tool results"),
        _ => panic!("expected a validation error"),
    }
    assert!(check_tool_result_task("message/send", &parts, true).is_ok());
    assert!(check_tool_result_task("tasks/get", &parts, false).is_ok());
    assert!(check_tool_result_task("message/stream", &[A2aPart::Text("x".into())], false).is_ok());
}

#[test]
fn dry_run_and_ids() {
    assert!(resolve_dry_run(Some(true), Some(false)));
    assert!(!resolve_dry_run(Some(false), Some(true)));
    assert!(resolve_dry_run(None, Some(true)));
    assert!(!resolve_dry_run(None, None));
    assert_eq!(id_or_fresh(Some("ctx".into())), "ctx");
    let a = id_or_fresh(None);
    let b = id_or_fresh(None);
    assert_ne!(a, b);
}

#[test]
fn errors_map_to_jsonrpc_codes() {
    let e = agent_error_to_jsonrpc(AgentError::Validation("bad".into()));
    assert_eq!((e.code, e.message.as_str()), (-32602, "bad"));
    let e = agent_error_to_jsonrpc(AgentError::NotFound("gone".into()));
    assert_eq!(e.code, -32004);
    let e = agent_error_to_jsonrpc(AgentError::Other("boom".into()));
    assert_eq!((e.code, e.message.as_str()), (-32603, "boom"));
    let e = agent_error_to_jsonrpc(AgentError::Planning("p".into()));
    assert_eq!(e.code, -32603);
}

#[test]
fn small_constructors() {
    assert_eq!(InlineHook::new(None).timeout_ms, 30_000);
    assert_eq!(InlineHook::new(Some(5)).timeout_ms, 5);
    let m = SseMessage::new(Some("e".into()), "d".into());
    assert_eq!(m.event.as_deref(), Some("e"));
    let f: SkillFork = ("s".to_string(), "body".to_string()).into();
    assert_eq!(f.skill_id, "s");
    assert!(f.model.is_none());
    let g: SkillFork = ("s".to_string(), "body".to_string(), Some("m".to_string())).into();
    assert_eq!(g.model.as_deref(), Some("m"));
    let o = ForkOptions { fork_type: ForkType::NewTask, copy_history_limit: Some(3) };
    assert_eq!(o.fork_type, ForkType::NewTask);
}

#[test]
fn metadata_sections_and_values_apply_when_present() {
    let mut s = state(&["a"], &[("k", "1")], None);
    s.apply_metadata(Some(vec![]), Some(vec![]));
    assert_eq!(s.dynamic_sections.len(), 1);
    s.apply_metadata(Some(vec![]), Some(vec![("k".to_string(), "2".to_string())]));
    assert!(s.dynamic_sections.is_empty());
    assert_eq!(s.dynamic_values, vec![("k".to_string(), "2".to_string())]);
    s.apply_metadata(Some(vec![PromptSection { name: "n".into(), content: "c".into() }]), None);
    assert_eq!(s.dynamic_sections.len(), 1);
}

#[test]
fn skill_fork_request_carries_model_hint() {
    let (overlay, text) = SkillFork::from(("x".to_string(), "BODY".to_string(), Some("fast".to_string()))).request();
    assert_eq!(overlay, "BODY\n\n<!-- skill preferred model: fast -->");
    assert_eq!(text, "Execute the skill 'x' according to your instructions.");
    let (overlay, _) = SkillFork::from(("x".to_string(), "BODY".to_string())).request();
    assert_eq!(overlay, "BODY");
}

fn user_message(parts: Vec<Part>) -> Message {
    Message { id: "m1".into(), name: None, role: MessageRole::User, parts, created_at: 0 }
}

fn validation_text(r: Result<(), AgentError>) -> String {
    match r {
        Err(AgentError::Validation(m)) => m,
        _ => panic!("expected a validation error"),
    }
}

#[test]
fn user_message_without_parts_is_refused() {
    let r = validate_user_message(&user_message(vec![]));
    assert_eq!(validation_text(r), "Message has no parts");
}

#[test]
fn user_message_with_only_an_image_is_refused() {
    let r = validate_user_message(&user_message(vec![Part::Image("img-1".into())]));
    assert_eq!(validation_text(r), "Message has to contain either text or tool parts");
}

#[test]
fn user_message_with_text_or_tool_answer_is_accepted() {
    assert!(validate_user_message(&user_message(vec![Part::Image("i".into()), Part::Text("hi".into())])).is_ok());
    let answer = ToolResponse { tool_call_id: "c1".into(), tool_name: "search".into(), parts: vec![] };
    assert!(validate_user_message(&user_message(vec![Part::ToolResult(answer)])).is_ok());
}

#[test]
fn fresh_ids_are_hyphenated_lowercase_uuids() {
    let id = id_or_fresh(None);
    assert_eq!(id.chars().count(), 36);
    for (i, c) in id.chars().enumerate() {
        if [8, 13, 18, 23].contains(&i) {
            assert_eq!(c, '-');
        } else {
            assert!(c.is_ascii_digit() || ('a'..='f').contains(&c));
        }
    }
    assert_eq!(id_or_fresh(Some("given".into())), "given");
}
