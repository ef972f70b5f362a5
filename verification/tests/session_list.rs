use meatshell::groups::GroupColors;
use meatshell::rows::{build_session_rows, session_matches_query, SessionRow};
use meatshell::session::{Session, SessionKind};
use meatshell::store::builtin_local_session;

fn session(id: &str, name: &str, host: &str, group: &str) -> Session {
    let mut value = Session::new_empty();
    value.id = id.into();
    value.name = name.into();
    value.host = host.into();
    value.group = group.into();
    value
}

fn sess(id: &str, name: &str, group: &str) -> Session {
    let mut value = Session::new_empty();
    value.id = id.into();
    value.name = name.into();
    value.group = group.into();
    value
}

#[test]
fn session_search_matches_name_and_host_case_insensitively() {
    let value = session("1", "Prod API", "DB.EXAMPLE.COM", "prod");
    assert!(session_matches_query(&value, "  prod  "));
    assert!(session_matches_query(&value, "example.com"));
    assert!(!session_matches_query(&value, "staging"));
}

#[test]
fn filtered_rows_hide_empty_groups_and_expand_matches() {
    let saved = vec![session("1", "Prod API", "10.0.0.8", "prod")];
    let builtins = vec![session("local", "Local terminal", "localhost", "system")];
    let groups = vec!["empty".to_string(), "prod".to_string()];
    let collapsed = vec!["prod".to_string(), "system".to_string()];

    let rows = build_session_rows(
        &saved,
        &groups,
        Some(collapsed.as_slice()),
        &GroupColors::new(),
        &builtins,
        "prod",
        false,
    );

    assert_eq!(rows.len(), 1);
    assert_eq!(rows[0].name.as_str(), "Prod API");
    assert_eq!(rows[0].group_header.as_str(), "prod");
    assert!(!rows[0].collapsed);
}

#[test]
fn filtered_rows_include_matching_builtin_sessions() {
    let builtins = vec![session("local", "Local terminal", "localhost", "system")];
    let collapsed = ["system".to_string()];

    let rows = build_session_rows(
        &[],
        &[],
        Some(&collapsed[..]),
        &GroupColors::new(),
        &builtins,
        "LOCALHOST",
        false,
    );

    assert_eq!(rows.len(), 1);
    assert_eq!(rows[0].name.as_str(), "Local terminal");
    assert_eq!(rows[0].group_header.as_str(), "system");
    assert!(rows[0].builtin);
    assert!(!rows[0].collapsed);
}

#[test]
fn filtered_rows_are_empty_when_nothing_matches() {
    let saved = vec![session("1", "Prod API", "10.0.0.8", "prod")];
    let builtins = vec![session("local", "Local terminal", "localhost", "system")];

    let rows = build_session_rows(&saved, &[], None, &GroupColors::new(), &builtins, "staging", false);

    assert!(rows.is_empty());
}

#[test]
fn empty_query_restores_saved_groups_and_collapse_state() {
    let saved = vec![session("1", "Prod API", "10.0.0.8", "prod")];
    let groups = vec!["empty".to_string(), "prod".to_string()];
    let collapsed = vec!["prod".to_string()];

    let rows = build_session_rows(
        &saved,
        &groups,
        Some(collapsed.as_slice()),
        &GroupColors::new(),
        &[],
        "",
        false,
    );

    assert!(rows
        .iter()
        .any(|row| row.group.as_str() == "empty" && row.id.is_empty()));
    assert!(rows
        .iter()
        .any(|row| row.group.as_str() == "prod" && row.collapsed));
}

#[test]
fn group_rows_follow_stored_order_and_carry_group_size() {
    let saved = vec![
        sess("1", "202", "测试"),
        sess("2", "s", "Test"),
        sess("3", "t2", "Test"),
    ];
    let groups = vec!["测试".to_string(), "Test".to_string()];

    let rows = build_session_rows(&saved, &groups, None, &GroupColors::new(), &[], "", false);

    let headers: Vec<&str> = rows
        .iter()
        .filter(|r| !r.group_header.is_empty())
        .map(|r| r.group_header.as_str())
        .collect();
    assert_eq!(headers, ["测试", "Test"]);

    for row in rows.iter().filter(|r| r.group.as_str() == "Test") {
        assert_eq!(row.group_size, 2, "every row must carry the real group size");
    }
    let first_test = rows.iter().find(|r| r.group.as_str() == "Test").unwrap();
    assert_eq!(first_test.group_header.as_str(), "Test");
    assert_eq!(first_test.group_index, 0);
    let second_test = rows
        .iter()
        .filter(|r| r.group.as_str() == "Test")
        .nth(1)
        .unwrap();
    assert_eq!(second_test.group_index, 1);
}

#[test]
fn rows_carry_the_protocol_kind_for_the_row_icon() {
    for (kind, expected) in [
        (SessionKind::Ssh, "ssh"),
        (SessionKind::Serial, "serial"),
        (SessionKind::Telnet, "telnet"),
        (SessionKind::Local, "local"),
    ] {
        let mut session = Session::new_empty();
        session.kind = kind;
        let rows = build_session_rows(&[session], &[], None, &GroupColors::new(), &[], "", false);
        assert_eq!(rows.len(), 1);
        assert_eq!(rows[0].kind.as_str(), expected);
    }
}

#[test]
fn builtin_rows_carry_local_kind() {
    let builtin = builtin_local_session("id", "PowerShell".to_string(), "powershell", "");
    let rows = build_session_rows(&[], &[], None, &GroupColors::new(), &[builtin], "", false);
    let row = rows
        .iter()
        .find(|r| r.builtin && r.name.as_str() == "PowerShell")
        .expect("builtin row");
    assert_eq!(row.kind.as_str(), "local");
}

#[test]
fn network_rows_keep_their_address_fields() {
    for kind in [SessionKind::Ssh, SessionKind::Telnet] {
        let mut session = Session::new_empty();
        session.kind = kind;
        session.host = "example.com".into();
        session.port = 2222;
        session.user = "alice".into();
        let rows = build_session_rows(&[session], &[], None, &GroupColors::new(), &[], "", false);
        assert_eq!(rows[0].host.as_str(), "example.com");
        assert_eq!(rows[0].port, 2222);
        assert_eq!(rows[0].user.as_str(), "alice");
    }
}

// ---------------------------------------------------------------------------
// Further cases of the list
// ---------------------------------------------------------------------------

fn headers(rows: &[SessionRow]) -> Vec<String> {
    rows.iter()
        .filter(|r| !r.group_header.is_empty())
        .map(|r| r.group_header.clone())
        .collect()
}

#[test]
fn ungrouped_and_reserved_sessions_list_under_default_first() {
    let saved = vec![
        sess("1", "a", "work"),
        sess("2", "b", ""),
        sess("3", "c", " system "),
        sess("4", "d", "default"),
    ];
    let rows = build_session_rows(&saved, &[], None, &GroupColors::new(), &[], "", false);
    assert_eq!(headers(&rows), vec!["default".to_string(), "work".to_string()]);
    let defaults: Vec<&str> = rows
        .iter()
        .filter(|r| r.group.as_str() == "default")
        .map(|r| r.id.as_str())
        .collect();
    assert_eq!(defaults, vec!["2", "3", "4"]);
    // Without a collapsed list every group starts collapsed.
    assert!(rows.iter().all(|r| r.collapsed));
}

#[test]
fn hiding_the_system_group_drops_builtins_and_its_sessions() {
    let saved = vec![sess("1", "a", "system"), sess("2", "b", "work")];
    let builtins = vec![session("local", "Local terminal", "localhost", "system")];
    let groups = vec!["system".to_string(), "work".to_string()];
    let shown = build_session_rows(&saved, &groups, Some(&[][..]), &GroupColors::new(), &builtins, "", false);
    assert!(shown.iter().any(|r| r.builtin));
    let hidden = build_session_rows(&saved, &groups, Some(&[][..]), &GroupColors::new(), &builtins, "", true);
    assert!(hidden.iter().all(|r| !r.builtin));
    assert_eq!(hidden.len(), 1);
    assert_eq!(hidden[0].id.as_str(), "2");
    assert!(!hidden[0].collapsed);
}

#[test]
fn group_colours_come_from_the_table() {
    let saved = vec![sess("1", "a", "work"), sess("2", "b", "play")];
    let mut colors = GroupColors::new();
    colors.insert("work".to_string(), "#ff8000".to_string());
    colors.insert("play".to_string(), "not a colour".to_string());
    let rows = build_session_rows(&saved, &[], None, &colors, &[], "", false);
    let work = rows.iter().find(|r| r.group.as_str() == "work").unwrap();
    assert_eq!(work.group_color_hex.as_str(), "#ff8000");
    assert_eq!((work.group_color.red, work.group_color.green, work.group_color.blue, work.group_color.alpha), (255, 128, 0, 255));
    let play = rows.iter().find(|r| r.group.as_str() == "play").unwrap();
    assert_eq!(play.group_color_hex.as_str(), "");
    assert_eq!(play.group_color.alpha, 0);
}

#[test]
fn searching_lists_only_groups_with_matches_in_stored_order() {
    let saved = vec![
        session("1", "db one", "h1", "b"),
        session("2", "web", "h2", "a"),
        session("3", "db two", "h3", "a"),
    ];
    let groups = vec!["a".to_string(), "b".to_string(), "c".to_string()];
    let rows = build_session_rows(&saved, &groups, None, &GroupColors::new(), &[], "DB", false);
    // While searching, groups come in the order their matching sessions do.
    assert_eq!(headers(&rows), vec!["b".to_string(), "a".to_string()]);
    assert_eq!(rows.len(), 2);
    assert!(rows.iter().all(|r| !r.collapsed));
}

#[test]
fn colour_table_keeps_one_text_per_group() {
    let mut c = GroupColors::new();
    let a: Vec<char> = "a".chars().collect();
    let b: Vec<char> = "b".chars().collect();
    assert_eq!(c.get(&a), None);
    c.insert("a".to_string(), "#111".to_string());
    c.insert("b".to_string(), "#222".to_string());
    c.insert("a".to_string(), "#333".to_string());
    assert_eq!(c.get(&a).as_deref(), Some("#333"));
    assert_eq!(c.get(&b).as_deref(), Some("#222"));
}
