use distri_core::definition::{StandardDefinition, ToolCallFormat};
use distri_core::prompt_validation::{
    builtin_partials, count_by_criticality, extract_partial_references, sort_issues_by_criticality,
    validate_agent_prompt, validate_agent_prompt_with_partials, validate_custom_prompt,
    validate_partial_references, Criticality, ValidationIssue, issue_rows, format_validation_table, CellColor, issue_table_header, validation_report,
};

fn def(instructions: &str, append: Option<bool>) -> StandardDefinition {
    StandardDefinition {
        name: "agent".to_string(),
        instructions: instructions.to_string(),
        append_default_instructions: append,
        history_size: None,
        max_iterations: None,
        tool_format: ToolCallFormat::Provider,
        strategy: None,
    }
}

#[test]
fn test_extract_partial_references() {
    let template = r#"
            Some content
            {{> core_instructions}}
            More content
            {{>custom_partial}}
            {{> another-partial }}
            Not a partial: {{ variable }}
        "#;

    let partials = extract_partial_references(template);
    assert!(partials.contains(&"core_instructions".to_string()));
    assert!(partials.contains(&"custom_partial".to_string()));
    assert!(partials.contains(&"another-partial".to_string()));
    assert!(!partials.contains(&"variable".to_string()));
    assert_eq!(partials.len(), 3);
}

#[test]
fn test_validate_partial_references_missing() {
    let template = "{{> core_instructions}}\n{{> custom_partial}}\n{{> missing_partial}}";
    let registered: Vec<String> = ["custom_partial"].iter().map(|s| s.to_string()).collect();

    let issues = validate_partial_references(template, &registered);
    assert_eq!(issues.len(), 1);
    assert!(issues[0]
        .missing_items
        .contains(&"missing_partial".to_string()));
    assert!(!issues[0]
        .missing_items
        .contains(&"core_instructions".to_string())); // builtin
    assert!(!issues[0]
        .missing_items
        .contains(&"custom_partial".to_string())); // registered
}

#[test]
fn test_validate_partial_references_all_present() {
    let template = "{{> core_instructions}}\n{{> custom_partial}}";
    let registered: Vec<String> = ["custom_partial"].iter().map(|s| s.to_string()).collect();

    let issues = validate_partial_references(template, &registered);
    assert!(issues.is_empty());
}

#[test]
fn missing_custom_partials_are_sorted_and_unique() {
    let template = "{{> zeta}} {{> alpha}} {{>zeta}} {{> mid-dle }}";
    let issues = validate_partial_references(template, &[]);
    assert_eq!(issues.len(), 1);
    assert_eq!(issues[0].category, "Missing Custom Partial");
    assert_eq!(issues[0].criticality, Criticality::Critical);
    assert_eq!(issues[0].missing_items, vec!["alpha", "mid-dle", "zeta"]);
}

#[test]
fn malformed_partial_references_are_ignored() {
    let template = "{{> 9bad}} {{> }} {{>ok}x} {{> a b}} {{>\u{3000}wide\u{3000}}}";
    let mut names = extract_partial_references(template);
    names.sort();
    assert_eq!(names, vec!["wide"]);
}

#[test]
fn builtin_partials_lists_six() {
    let b = builtin_partials();
    assert_eq!(b.len(), 6);
    assert!(b.contains(&"todo_instructions".to_string()));
}

#[test]
fn criticality_names() {
    assert_eq!(Criticality::Critical.as_str(), "CRITICAL");
    assert_eq!(Criticality::Medium.as_str(), "MEDIUM");
    assert_eq!(Criticality::Low.as_str(), "LOW");
}

#[test]
fn custom_prompt_empty_template_reports_everything() {
    let d = def("", Some(false));
    let issues = validate_custom_prompt("", &d);
    let items: Vec<&str> = issues.iter().map(|i| i.missing_items[0].as_str()).collect();
    assert_eq!(
        items,
        vec![
            "core_instructions",
            "communication",
            "tools_xml",
            "tools_json",
            "reasoning",
            "task",
            "available_tools",
            "scratchpad"
        ]
    );
    assert_eq!(issues[1].criticality, Criticality::Low);
    assert_eq!(issues[1].description, "Recommended for better user experience");
    assert_eq!(issues[5].category, "Missing Variable");
    assert_eq!(issues[5].description, "Required for agent execution");
}

#[test]
fn custom_prompt_complete_template_has_no_issues() {
    let t = "{{> core_instructions}}{{> communication}}{{> tools_xml}}{{> tools_json}}{{> reasoning}}{{task}}{{available_tools}}{{scratchpad}}{{max_steps}}{{remaining_steps}}";
    let d = def(t, Some(false));
    assert!(validate_custom_prompt(t, &d).is_empty());
}

#[test]
fn custom_prompt_best_practice_hint() {
    let t = "{{> core_instructions}}{{> communication}}{{> tools_xml}}{{> tools_json}}{{> reasoning}}{{task}}{{available_tools}}{{scratchpad}}{{max_steps}}";
    let d = def(t, Some(false));
    let issues = validate_custom_prompt(t, &d);
    assert_eq!(issues.len(), 1);
    assert_eq!(issues[0].category, "Best Practice");
    assert_eq!(issues[0].missing_items, vec!["remaining_steps"]);
}

#[test]
fn agent_prompt_with_append_is_not_checked() {
    assert!(validate_agent_prompt(&def("", None)).is_empty());
    assert!(validate_agent_prompt(&def("", Some(true))).is_empty());
    assert_eq!(validate_agent_prompt(&def("", Some(false))).len(), 8);
}

#[test]
fn agent_prompt_with_partials_appends_custom_check() {
    let d = def("{{> mine}}", Some(false));
    let issues = validate_agent_prompt_with_partials(&d, &[]);
    assert_eq!(issues.len(), 9);
    assert_eq!(issues[8].missing_items, vec!["mine"]);
    let issues = validate_agent_prompt_with_partials(&d, &["mine".to_string()]);
    assert_eq!(issues.len(), 8);
}

fn issue(c: Criticality, name: &str) -> ValidationIssue {
    ValidationIssue {
        category: "c".to_string(),
        missing_items: vec![name.to_string()],
        description: "d".to_string(),
        criticality: c,
    }
}

#[test]
fn issues_sorted_by_criticality_stably() {
    let issues = vec![
        issue(Criticality::Low, "l1"),
        issue(Criticality::Critical, "c1"),
        issue(Criticality::Medium, "m1"),
        issue(Criticality::Critical, "c2"),
        issue(Criticality::Low, "l2"),
    ];
    assert_eq!(count_by_criticality(&issues), (2, 1, 2));
    let sorted = sort_issues_by_criticality(issues);
    let names: Vec<&str> = sorted.iter().map(|i| i.missing_items[0].as_str()).collect();
    assert_eq!(names, vec!["c1", "c2", "m1", "l1", "l2"]);
}

fn vissue(cat: &str, items: &[&str], c: Criticality) -> ValidationIssue {
    ValidationIssue {
        category: cat.into(),
        missing_items: items.iter().map(|s| s.to_string()).collect(),
        description: format!("{cat} missing"),
        criticality: c,
    }
}

#[test]
fn issue_rows_put_most_severe_first() {
    let issues = vec![
        vissue("low", &["a"], Criticality::Low),
        vissue("crit", &["x", "y"], Criticality::Critical),
        vissue("med", &[], Criticality::Medium),
    ];
    let rows = issue_rows(&issues);
    let cats: Vec<&str> = rows.iter().map(|r| r.category.as_str()).collect();
    assert_eq!(cats, vec!["crit", "med", "low"]);
    assert_eq!(rows[0].missing_items, "x, y");
    assert_eq!(rows[0].criticality, "CRITICAL");
    assert_eq!(rows[0].color, CellColor::Red);
    assert_eq!(rows[1].color, CellColor::Yellow);
    assert_eq!(rows[2].color, CellColor::Blue);
}

#[test]
fn validation_report_text() {
    assert_eq!(
        format_validation_table("coder", &[]),
        "✅ Agent 'coder' prompt validation passed - no issues found"
    );
    let issues = vec![vissue("a", &["p"], Criticality::Critical), vissue("b", &["q"], Criticality::Low)];
    let report = format_validation_table("coder", &issues);
    assert!(report.starts_with(
        "⚠️  Agent 'coder' prompt validation found 2 issue(s): 1 critical, 0 medium, 1 low\n\n"
    ));
    assert!(report.contains("CRITICAL"));
}

#[test]
fn validation_report_puts_the_table_after_the_summary() {
    let issues = vec![vissue("a", &["p"], Criticality::Medium)];
    assert_eq!(
        validation_report("coder", &issues, "TABLE"),
        "⚠️  Agent 'coder' prompt validation found 1 issue(s): 0 critical, 1 medium, 0 low\n\nTABLE"
    );
    assert_eq!(
        validation_report("coder", &[], "ignored"),
        "✅ Agent 'coder' prompt validation passed - no issues found"
    );
    assert_eq!(issue_table_header(), vec!["Category", "Missing Item", "Criticality", "Description"]);
}
