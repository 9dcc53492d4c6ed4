use distri_core::agent_types::AgentError;
use distri_core::definition::RuntimeMode;
use distri_core::delegation::{builtin_tools_to_add, decide_dispatch, skills_wildcard, sub_agent_lines, visible_skills, AvailableSkill};

fn skill(id: &str, name: &str) -> AvailableSkill {
    AvailableSkill { id: id.into(), name: name.into(), description: None }
}

#[test]
fn skill_wildcard_and_connection_skills() {
    assert!(skills_wildcard(&[skill("a", "A"), skill("*", "x")]));
    assert!(skills_wildcard(&[skill("a", "*")]));
    assert!(!skills_wildcard(&[skill("a", "A")]));
    let kept = visible_skills(vec![skill("1", "connection:github"), skill("2", "rubric"), skill("3", "connections")]);
    let names: Vec<_> = kept.iter().map(|s| s.name.clone()).collect();
    assert_eq!(names, vec!["rubric", "connections"]);
}

#[test]
fn sub_agent_lines_list_builtins_then_declared() {
    let builtins = vec![
        ("_system/search".to_string(), Some("Searches".to_string())),
        ("_system/missing".to_string(), None),
    ];
    let declared = vec!["writer".to_string(), "ghost".to_string(), "_system/search".to_string(), "writer".to_string()];
    let descriptions = vec![Some("Writes".to_string()), None, Some("Searches".to_string()), Some("Writes".to_string())];
    let lines = sub_agent_lines(&builtins, &declared, &descriptions, &[], "me");
    assert_eq!(
        lines,
        vec![
            "- **search** — Searches *(always available)*".to_string(),
            "- **writer** — Writes".to_string(),
            "- **ghost** — Sub-agent".to_string(),
        ]
    );
}

#[test]
fn wildcard_expands_to_workspace_agents() {
    let workspace = vec![
        ("me".to_string(), "Self".to_string()),
        ("writer".to_string(), "Writes".to_string()),
        ("_system/search".to_string(), "Searches".to_string()),
        ("coder".to_string(), "Codes".to_string()),
    ];
    let builtins = vec![("_system/search".to_string(), Some("Searches".to_string()))];
    let declared = vec!["writer".to_string(), "*".to_string()];
    let descriptions = vec![Some("Writes".to_string()), None];
    let lines = sub_agent_lines(&builtins, &declared, &descriptions, &workspace, "me");
    assert_eq!(
        lines,
        vec![
            "- **search** — Searches *(always available)*".to_string(),
            "- **writer** — Writes".to_string(),
            "- **coder** — Codes".to_string(),
        ]
    );
}

#[test]
fn dispatch_checks_runtime() {
    assert!(decide_dispatch("a", &[], RuntimeMode::Cloud, false).is_ok());
    assert!(decide_dispatch("a", &[RuntimeMode::Cli, RuntimeMode::Cloud], RuntimeMode::Cloud, false).is_ok());
    match decide_dispatch("a", &[RuntimeMode::Cli, RuntimeMode::Browser], RuntimeMode::Cloud, false) {
        Err(AgentError::Session(m)) => assert_eq!(
            m,
            "Agent 'a' requires runtime [Cli, Browser] but the caller's runtime is Cloud. Only a client that natively provides one of the required runtimes (the CLI for Cli, a browser tab for Browser) can run this agent — there is no remote execution fallback."
        ),
        _ => panic!(),
    }
    match decide_dispatch("a", &[], RuntimeMode::Cli, true) {
        Err(AgentError::Session(m)) => assert!(m.starts_with("Agent 'a' was invoked with Executor::Force(Remote)")),
        _ => panic!(),
    }
}

#[test]
fn builtin_tools_are_added_once() {
    let present = vec!["search".to_string(), "final".to_string()];
    assert_eq!(
        builtin_tools_to_add(&present, Some("write_todos"), "final", Some("tool_search"), false),
        vec!["write_todos".to_string(), "tool_search".to_string(), "invoke_agent".to_string()]
    );
    assert_eq!(builtin_tools_to_add(&present, None, "final", None, true), Vec::<String>::new());
    assert_eq!(builtin_tools_to_add(&[], None, "final", None, true), vec!["final".to_string()]);
    let with_invoke = vec!["invoke_agent".to_string()];
    assert_eq!(builtin_tools_to_add(&with_invoke, None, "final", None, false), vec!["final".to_string()]);
}
