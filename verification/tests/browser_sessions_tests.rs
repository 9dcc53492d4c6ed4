use distri_core::browser_sessions::{session_name, SessionTable};

#[test]
fn names_come_from_the_request_or_the_session() {
    assert_eq!(session_name(Some("  work  ".into()), &"sess-1".to_string()), "work");
    assert_eq!(session_name(Some("   ".into()), &"sess-1".to_string()), "sess-1");
    assert_eq!(session_name(None, &"sess-1".to_string()), "sess-1");
}

#[test]
fn register_keeps_an_existing_name() {
    let mut t = SessionTable::new();
    assert_eq!(t.register(Some("work".into()), "s1".into()), "work");
    assert_eq!(t.register(Some("work".into()), "s2".into()), "work");
    assert_eq!(t.session_id_for("work").as_deref(), Some("s1"));
    assert_eq!(t.register(None, "s3".into()), "s3");
    let mut names = t.list();
    names.sort();
    assert_eq!(names, vec!["s3".to_string(), "work".to_string()]);
}

#[test]
fn ensure_reuses_or_asks_for_a_new_session() {
    let mut t = SessionTable::new();
    assert_eq!(t.ensure(None), Ok(None));
    assert_eq!(t.ensure(Some("x".into())), Err("Session x not found".to_string()));
    t.register(Some("x".into()), "s1".into());
    assert_eq!(t.ensure(Some("x".into())), Ok(Some("x".to_string())));
    assert_eq!(t.ensure(None), Ok(Some("x".to_string())));
    assert_eq!(t.stop("x").as_deref(), Some("s1"));
    assert_eq!(t.stop("x"), None);
    assert!(t.list().is_empty());
}
