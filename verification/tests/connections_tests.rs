use distri_core::agent_types::AgentError;
use distri_core::connections::{
    declared_connection_labels, find_connection, has_wildcard_requirement, missing_scopes,
    wildcard_connection_lines, ConnectionAuth, ConnectionInfo, ConnectionReport, ConnectionRequirement,
    RequirementStep,
};

fn oauth(id: &str, name: &str, provider: &str, scopes: &[&str], connected: bool) -> ConnectionInfo {
    ConnectionInfo {
        id: id.into(),
        name: name.into(),
        connected,
        auth: ConnectionAuth::Oauth {
            provider: provider.into(),
            scopes: scopes.iter().map(|s| s.to_string()).collect(),
        },
    }
}

fn plain(id: &str, name: &str, auth: ConnectionAuth) -> ConnectionInfo {
    ConnectionInfo { id: id.into(), name: name.into(), connected: true, auth }
}

fn req(provider: Option<&str>, id: Option<&str>, scopes: &[&str], required: bool) -> ConnectionRequirement {
    ConnectionRequirement {
        provider: provider.map(|s| s.into()),
        connection_id: id.map(|s| s.into()),
        scopes: scopes.iter().map(|s| s.to_string()).collect(),
        required,
    }
}

fn workspace() -> Vec<ConnectionInfo> {
    vec![
        oauth("c1", "GitHub", "github", &["repo", "user"], true),
        plain("c2", "distri", ConnectionAuth::DistriNative),
        plain("c3", "stripe", ConnectionAuth::Custom),
        oauth("c4", "Gmail", "google", &["mail"], false),
    ]
}

#[test]
fn wildcard_lists_connected_non_native_connections() {
    let lines = wildcard_connection_lines(&workspace());
    assert_eq!(
        lines,
        vec![
            "- **GitHub** (id: `c1`, status: connected, provider: github, scopes: [repo, user])".to_string(),
            "- **stripe** (id: `c3`, status: connected)".to_string(),
        ]
    );
}

#[test]
fn matching_by_id_provider_and_name() {
    let ws = workspace();
    assert_eq!(find_connection("a", &req(None, Some("c3"), &[], false), &ws).ok(), Some(Some(2)));
    assert_eq!(find_connection("a", &req(Some("github"), None, &[], false), &ws).ok(), Some(Some(0)));
    assert_eq!(find_connection("a", &req(Some("distri"), None, &[], false), &ws).ok(), Some(Some(1)));
    assert_eq!(find_connection("a", &req(Some("stripe"), None, &[], false), &ws).ok(), Some(Some(2)));
    assert_eq!(find_connection("a", &req(Some("slack"), None, &[], false), &ws).ok(), Some(None));
    match find_connection("bot", &req(None, None, &[], false), &ws) {
        Err(AgentError::Validation(m)) => {
            assert_eq!(m, "Agent 'bot' has a connection requirement with neither provider nor connection_id")
        }
        _ => panic!(),
    }
}

#[test]
fn missing_scopes_keep_request_order() {
    let granted = vec!["repo".to_string()];
    let requested = vec!["admin".to_string(), "repo".to_string(), "user".to_string()];
    assert_eq!(missing_scopes(&requested, &granted), vec!["admin".to_string(), "user".to_string()]);
}

#[test]
fn requirement_outcomes() {
    let ws = workspace();
    let mut report = ConnectionReport::new();

    match report.check_requirement("bot", &req(Some("slack"), None, &[], true), &ws) {
        Err(AgentError::Validation(m)) => assert_eq!(
            m,
            "Agent 'bot' requires connection 'slack' but none is connected in this workspace"
        ),
        _ => panic!(),
    }
    assert!(matches!(report.check_requirement("bot", &req(Some("slack"), None, &[], false), &ws), Ok(RequirementStep::Done)));
    assert_eq!(report.missing_lines, vec!["- **slack** — not connected yet in this workspace".to_string()]);

    match report.check_requirement("bot", &req(Some("github"), None, &["repo", "admin"], false), &ws) {
        Ok(RequirementStep::ScopesMissing { index, scopes }) => {
            assert_eq!(index, 0);
            assert_eq!(scopes, vec!["admin".to_string()]);
        }
        _ => panic!(),
    }
    assert!(matches!(
        report.check_requirement("bot", &req(Some("github"), None, &["repo"], false), &ws),
        Ok(RequirementStep::Resolve(0))
    ));
    assert!(matches!(report.check_requirement("bot", &req(Some("*"), None, &[], false), &ws), Ok(RequirementStep::Done)));
    assert_eq!(report.connected_lines.len(), 2);
}

#[test]
fn resolution_results_become_lines_or_errors() {
    let ws = workspace();
    let mut report = ConnectionReport::new();
    report.record_resolved(&ws[0], "github");
    assert_eq!(report.connected_lines, vec!["- **GitHub** (id: `c1`, provider: github, scopes: [repo, user])".to_string()]);
    match report.record_resolution_failure(true, &ws[2], "no secret") {
        Err(AgentError::Validation(m)) => assert_eq!(m, "Failed to resolve connection 'stripe': no secret"),
        _ => panic!(),
    }
    assert!(report.record_resolution_failure(false, &ws[2], "no secret").is_ok());
    assert_eq!(report.missing_lines, vec!["- **stripe** — error resolving: no secret".to_string()]);

    report.add_ready_providers(&ws, &[("github".into(), true), ("slack".into(), true), ("jira".into(), false), ("GitHub".into(), true)]);
    assert_eq!(report.missing_lines.len(), 3);
    assert_eq!(report.missing_lines[1], "- **github** — ready to connect via OAuth");
    assert_eq!(report.missing_lines[2], "- **slack** — ready to connect via OAuth");

    let values = report.dynamic_values();
    assert_eq!(values.len(), 2);
    assert_eq!(values[0].0, "available_connections");
    assert_eq!(values[1].0, "available_providers");
    assert_eq!(values[1].1, report.missing_lines.join("\n"));
    assert!(ConnectionReport::new().dynamic_values().is_empty());
}

#[test]
fn labels_and_wildcard_detection() {
    let reqs = vec![req(Some("github"), None, &[], false), req(None, Some("c9"), &[], false), req(None, None, &[], false)];
    assert_eq!(declared_connection_labels(&reqs), vec!["github".to_string(), "c9".to_string(), "<unspecified>".to_string()]);
    assert!(!has_wildcard_requirement(&reqs));
    assert!(has_wildcard_requirement(&[req(Some("*"), None, &[], false)]));
}
