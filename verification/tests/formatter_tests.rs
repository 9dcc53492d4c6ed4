use distri_core::definition::{
    AgentStrategy, ExecutionMode, ReasoningDepth, ReplanningConfig, ReplanningTrigger, RuntimeMode,
    StandardDefinition, ToolCallFormat,
};
use distri_core::formatter::{
    extract_partial_names, parts_request_turn_end, sort_messages_by_time, MessageFormatter, OverridePiece, ToolDefinition,
    MAX_SCRATCHPAD_ENTRY_LIMIT, MIN_SCRATCHPAD_ENTRY_LIMIT,
};
use distri_core::message::{DataPart, Message, MessageRole, Part, ResultPart, ToolCall, ToolResponse};

fn msg(id: &str, role: MessageRole, text: &str, at: i64) -> Message {
    Message {
        id: id.to_string(),
        name: None,
        role,
        parts: vec![Part::Text(text.to_string())],
        created_at: at,
    }
}

fn text_of(m: &Message) -> String {
    match &m.parts[0] {
        Part::Text(t) => t.clone(),
        _ => String::new(),
    }
}

fn data(json: &str, should_continue: Option<bool>) -> DataPart {
    DataPart { json: json.to_string(), should_continue }
}

fn tool_result(json: &str, should_continue: Option<bool>) -> Part {
    Part::ToolResult(ToolResponse {
        tool_call_id: "call_1".to_string(),
        tool_name: "confirm_plan".to_string(),
        parts: vec![ResultPart::Data(data(json, should_continue))],
    })
}

fn definition(history_size: Option<usize>, tool_format: ToolCallFormat) -> StandardDefinition {
    StandardDefinition {
        name: "agent".to_string(),
        instructions: String::new(),
        append_default_instructions: None,
        history_size,
        max_iterations: None,
        tool_format,
        strategy: None,
    }
}

#[test]
fn stop_when_nested_in_tool_result() {
    let parts = vec![
        Part::ToolCall(ToolCall {
            tool_call_id: "call_1".into(),
            tool_name: "confirm_plan".into(),
            input: "{}".into(),
        }),
        tool_result(r#"{"approved":true,"ai_decide":true,"should_continue":false}"#, Some(false)),
    ];
    assert!(parts_request_turn_end(&parts));
}

#[test]
fn stop_when_top_level_data() {
    let parts = vec![Part::Data(data(r#"{"should_continue":false}"#, Some(false)))];
    assert!(parts_request_turn_end(&parts));
}

#[test]
fn continue_when_no_flag() {
    let parts = vec![tool_result(r#"{"approved":true}"#, None)];
    assert!(!parts_request_turn_end(&parts));
}

#[test]
fn continue_when_flag_true() {
    let parts = vec![tool_result(r#"{"should_continue":true}"#, Some(true))];
    assert!(!parts_request_turn_end(&parts));
}

#[test]
fn continue_on_plain_tool_result() {
    let parts = vec![tool_result(r#"{"ok":true,"id":"lesson_1"}"#, None)];
    assert!(!parts_request_turn_end(&parts));
}

#[test]
fn interleave_user_and_tool_history_groups_tools_between_users() {
    let u1 = msg("u1", MessageRole::User, "u1", 10);
    let u2 = msg("u2", MessageRole::User, "u2", 40);
    let assistant = msg("a", MessageRole::Assistant, "assistant", 20);
    let tool = msg("t", MessageRole::Tool, "{\"result\":true}", 30);
    let current = msg("u2", MessageRole::User, "current", 40);

    let interleaved =
        MessageFormatter::interleave_user_and_tool_history(vec![u2, u1], vec![assistant, tool], &current);

    let order: Vec<_> = interleaved.iter().map(|m| (m.role, m.created_at)).collect();
    assert_eq!(
        order,
        vec![
            (MessageRole::User, 10),
            (MessageRole::Assistant, 20),
            (MessageRole::Tool, 30),
            (MessageRole::User, 40)
        ]
    );
}

#[test]
fn interleave_user_and_tool_history_replaces_current_user_message() {
    let stored_current = msg("u", MessageRole::User, "stored", 10);
    let tool = msg("t", MessageRole::Tool, "{\"result\":true}", 20);
    let current = msg("u", MessageRole::User, "enriched", 10);

    let interleaved = MessageFormatter::interleave_user_and_tool_history(vec![stored_current], vec![tool], &current);

    assert_eq!(interleaved.len(), 2);
    assert_eq!(interleaved[0].role, MessageRole::User);
    assert_eq!(text_of(&interleaved[0]), "enriched");
}

#[test]
fn interleave_keeps_equal_timestamps_users_first() {
    let user = msg("u", MessageRole::User, "question", 5);
    let tool = msg("t", MessageRole::Tool, "answer", 5);
    let current = msg("c", MessageRole::User, "now", 9);
    let out = MessageFormatter::interleave_user_and_tool_history(vec![user], vec![tool], &current);
    let ids: Vec<_> = out.iter().map(|m| m.id.clone()).collect();
    assert_eq!(ids, vec!["u", "t", "c"]);
}

#[test]
fn sort_messages_by_time_is_stable() {
    let a = msg("a", MessageRole::User, "a", 3);
    let b = msg("b", MessageRole::User, "b", 1);
    let c = msg("c", MessageRole::User, "c", 3);
    let sorted = sort_messages_by_time(vec![a, b, c]);
    let ids: Vec<_> = sorted.iter().map(|m| m.id.clone()).collect();
    assert_eq!(ids, vec!["b", "a", "c"]);
}

#[test]
fn collect_tool_prompts_skips_deferred() {
    let defs = vec![
        ToolDefinition {
            name: "Bash".into(),
            description: "Run shell".into(),
            prompt: Some("Use Bash for shell commands.".into()),
        },
        ToolDefinition {
            name: "browsr_scrape".into(),
            description: "Scrape web".into(),
            prompt: Some("Scrape websites for data.".into()),
        },
        ToolDefinition { name: "final".into(), description: "Final answer".into(), prompt: None },
    ];

    let deferred = vec!["browsr_scrape".to_string()];
    let prompts = MessageFormatter::collect_tool_prompts(&defs, &deferred);

    assert_eq!(prompts.map.len(), 3);
    let get = |k: &str| prompts.map.iter().find(|(n, _)| n == k).map(|(_, v)| v.clone()).unwrap();
    assert_eq!(get("Bash"), "Use Bash for shell commands.");
    assert_eq!(get("browsr_scrape"), "");
    assert_eq!(get("final"), "");

    assert!(prompts.concat.contains("Bash"));
    assert!(!prompts.concat.contains("Scrape websites"));

    assert_eq!(prompts.entries.len(), 1);
    assert_eq!(prompts.entries[0].name, "Bash");
}

#[test]
fn scratchpad_entry_limit_is_clamped() {
    assert_eq!(MessageFormatter::scratchpad_entry_limit(&definition(None, ToolCallFormat::Provider)), 50);
    assert_eq!(MessageFormatter::scratchpad_entry_limit(&definition(Some(0), ToolCallFormat::Provider)), MIN_SCRATCHPAD_ENTRY_LIMIT);
    assert_eq!(MessageFormatter::scratchpad_entry_limit(&definition(Some(3), ToolCallFormat::Provider)), 30);
    assert_eq!(MessageFormatter::scratchpad_entry_limit(&definition(Some(50), ToolCallFormat::Provider)), MAX_SCRATCHPAD_ENTRY_LIMIT);
}

#[test]
fn names_of_strategy_settings() {
    let strategy = AgentStrategy {
        reasoning_depth: ReasoningDepth::Deep,
        execution_mode: ExecutionMode::Code,
        replanning: ReplanningConfig { enabled: false, trigger: ReplanningTrigger::Never },
    };
    assert_eq!(MessageFormatter::reasoning_depth_name(&strategy), "deep");
    assert_eq!(MessageFormatter::execution_mode_name(&strategy), "code");
    assert_eq!(MessageFormatter::runtime_mode_name(RuntimeMode::Browser), "browser");
    assert_eq!(MessageFormatter::tool_format_name(&definition(None, ToolCallFormat::Xml)), "xml");
    assert!(MessageFormatter::native_json_tools(&definition(None, ToolCallFormat::Provider)));
    assert!(!MessageFormatter::native_json_tools(&definition(None, ToolCallFormat::Xml)));
}

#[test]
fn observation_text_detection() {
    assert!(MessageFormatter::is_observation_text("  Observation: done"));
    assert!(MessageFormatter::is_observation_text("Action: search"));
    assert!(!MessageFormatter::is_observation_text("Thought: hmm"));
}

#[test]
fn history_parts_drops_echoes_and_orphan_calls() {
    let parts = vec![
        Part::Text("Observation: old".into()),
        Part::Text("thinking".into()),
        Part::ToolCall(ToolCall { tool_call_id: "a".into(), tool_name: "search".into(), input: "{}".into() }),
        Part::ToolCall(ToolCall { tool_call_id: "orphan".into(), tool_name: "run_skill".into(), input: "{}".into() }),
        Part::ToolResult(ToolResponse { tool_call_id: "a".into(), tool_name: "search".into(), parts: vec![] }),
    ];
    let (assistant, tools) = MessageFormatter::history_parts(parts);
    assert_eq!(tools.len(), 1);
    assert_eq!(assistant.len(), 2);
    assert!(matches!(&assistant[0], Part::Text(t) if t == "thinking"));
    assert!(matches!(&assistant[1], Part::ToolCall(tc) if tc.tool_call_id == "a"));
}

#[test]
fn partial_names_are_listed_in_order() {
    let names = extract_partial_names("{{> a}} text {{>b }} {{ c }} {{> a}}");
    assert!(names.contains(&"a".to_string()));
    assert!(names.contains(&"b".to_string()));
    assert!(!names.contains(&"c".to_string()));
}

fn texts(m: &Message) -> Vec<String> {
    m.parts
        .iter()
        .map(|p| match p {
            Part::Text(t) => t.clone(),
            Part::Image(r) => format!("image:{r}"),
            _ => "?".to_string(),
        })
        .collect()
}

#[test]
fn user_message_gets_user_role_and_additional_data_last() {
    let m = msg("u1", MessageRole::Assistant, "hello", 5);
    let out = MessageFormatter::build_user_message(&m, "Step 2/10".to_string());
    assert_eq!(out.role, MessageRole::User);
    assert_eq!(out.id, "u1");
    assert_eq!(out.created_at, 5);
    assert_eq!(texts(&out), vec!["hello", "Step 2/10"]);
    let out = MessageFormatter::build_user_message(&m, String::new());
    assert_eq!(texts(&out), vec!["hello"]);
}

#[test]
fn overridden_user_message_adds_pieces_in_order() {
    let m = msg("u1", MessageRole::User, "task", 1);
    let pieces = vec![
        OverridePiece::Rendered("rendered".into()),
        OverridePiece::Rendered(String::new()),
        OverridePiece::Session(None),
        OverridePiece::Session(Some(vec![Part::Image("shot.png".into()), Part::Text("note".into())])),
    ];
    let out = MessageFormatter::build_overridden_user_message(&m, pieces, None, "Step 1/3".to_string());
    assert_eq!(texts(&out), vec!["task", "rendered", "image:shot.png", "note", "Step 1/3"]);
    let out = MessageFormatter::build_overridden_user_message(&m, vec![], Some(false), "Step 1/3".to_string());
    assert_eq!(texts(&out), vec!["task"]);
}

#[test]
fn hook_templates_replace_the_planner_ones() {
    let none = distri_core::agent_types::PromptTemplateOverride { system: None, user: None };
    assert_eq!(MessageFormatter::templates_to_use(&none, "sys", "usr"), ("sys".to_string(), "usr".to_string()));
    let some = distri_core::agent_types::PromptTemplateOverride { system: Some("S2".into()), user: None };
    assert_eq!(MessageFormatter::templates_to_use(&some, "sys", "usr"), ("S2".to_string(), "usr".to_string()));
}

#[test]
fn step_budget_counts_remaining_steps() {
    assert_eq!(MessageFormatter::step_budget(Some(10), 25, 3), (10, 7));
    assert_eq!(MessageFormatter::step_budget(None, 25, 30), (25, 0));
}

#[test]
fn current_user_is_appended_only_when_missing() {
    let u = msg("u9", MessageRole::User, "now", 9);
    let out = MessageFormatter::with_current_user(vec![msg("s", MessageRole::System, "sys", 0)], u.duplicate());
    assert_eq!(out.len(), 2);
    assert_eq!(out[1].id, "u9");
    let out = MessageFormatter::with_current_user(vec![msg("u9", MessageRole::User, "stored", 1)], u);
    assert_eq!(out.len(), 1);
    assert_eq!(text_of(&out[0]), "stored");
}
