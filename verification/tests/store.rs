use meatshell::dialog::{
    jump_candidates, move_target_groups_model, session_groups_model,
    wsl_profile_model,
};
use meatshell::groups::GroupColors;
use meatshell::rows::SessionRow;
use meatshell::session::{Session, SessionKind};
use meatshell::store::{
    builtin_local_sessions, refresh_session_rows_in_place,
    sync_sessions_to_model, sync_sessions_to_model_with_filter, tab_group_color,
    ConfigStore, LocalEnv, WslProfile,
};

fn sess(id: &str, name: &str, group: &str) -> Session {
    let mut value = Session::new_empty();
    value.id = id.into();
    value.name = name.into();
    value.group = group.into();
    value
}

fn store(sessions: Vec<Session>, groups: Vec<&str>) -> ConfigStore {
    ConfigStore {
        sessions,
        groups: groups.into_iter().map(|g| g.to_string()).collect(),
        collapsed_session_groups: Some(Vec::new()),
        group_colors: GroupColors::new(),
        wsl_profiles: Vec::new(),
        system_group_hidden: false,
    }
}

fn unix_env(shell: Option<&str>) -> LocalEnv {
    LocalEnv {
        windows: false,
        wsl_available: false,
        shell: shell.map(|s| s.to_string()),
        user: "alice".to_string(),
    }
}

fn windows_env(wsl: bool) -> LocalEnv {
    LocalEnv { windows: true, wsl_available: wsl, shell: None, user: "bob".to_string() }
}

fn profile(id: &str, name: &str, distribution: &str, directory: &str) -> WslProfile {
    WslProfile {
        id: id.to_string(),
        name: name.to_string(),
        distribution: distribution.to_string(),
        directory: directory.to_string(),
    }
}

#[test]
fn unix_builtin_is_the_login_shell() {
    let out = builtin_local_sessions(&[], &unix_env(Some("/usr/bin/zsh")));
    assert_eq!(out.len(), 1);
    assert_eq!(out[0].id, "system:shell");
    assert_eq!(out[0].name, "zsh");
    assert_eq!(out[0].host, "shell");
    assert_eq!(out[0].user, "alice");
    assert_eq!(out[0].group, "system");
    assert_eq!(out[0].kind, SessionKind::Local);
}

#[test]
fn unix_builtin_falls_back_to_bin_sh_and_shell() {
    let out = builtin_local_sessions(&[], &unix_env(None));
    assert_eq!(out[0].name, "sh");
    let out = builtin_local_sessions(&[], &unix_env(Some("/")));
    assert_eq!(out[0].name, "Shell");
    let out = builtin_local_sessions(&[], &unix_env(Some("/bin/..")));
    assert_eq!(out[0].name, "Shell");
    let out = builtin_local_sessions(&[], &unix_env(Some("/usr/bin/fish/")));
    assert_eq!(out[0].name, "fish");
}

#[test]
fn windows_builtins_list_powershell_cmd_and_wsl() {
    let out = builtin_local_sessions(&[], &windows_env(false));
    let ids: Vec<&str> = out.iter().map(|s| s.id.as_str()).collect();
    assert_eq!(ids, vec!["system:powershell", "system:cmd"]);
    assert_eq!(out[0].name, "PowerShell");
    assert_eq!(out[1].host, "cmd");

    let out = builtin_local_sessions(&[], &windows_env(true));
    assert_eq!(out.len(), 3);
    assert_eq!(out[2].id, "system:wsl");
    assert_eq!(out[2].local_working_dir, "~");
}

#[test]
fn wsl_profiles_become_one_terminal_each() {
    let profiles = vec![
        profile("u", "Ubuntu", "Ubuntu-22.04", "  "),
        profile("d", "Debian", "Debian", "/srv"),
    ];
    let out = builtin_local_sessions(&profiles, &windows_env(true));
    assert_eq!(out.len(), 4);
    assert_eq!(out[2].id, "system:wsl:u");
    assert_eq!(out[2].name, "Ubuntu");
    assert_eq!(out[2].host, "wsl");
    assert_eq!(out[2].local_distribution, "Ubuntu-22.04");
    assert_eq!(out[2].local_working_dir, "~");
    assert_eq!(out[3].id, "system:wsl:d");
    assert_eq!(out[3].local_working_dir, "/srv");
    assert_eq!(out[3].user, "bob");
}

#[test]
fn sync_fills_the_model_and_refresh_reports_same_length() {
    let st = store(vec![sess("1", "a", "work"), sess("2", "b", "")], vec!["work"]);
    let env = unix_env(Some("/bin/bash"));
    let mut model: Vec<SessionRow> = Vec::new();
    sync_sessions_to_model(&st, &mut model, &env);
    let ids: Vec<&str> = model.iter().map(|r| r.id.as_str()).collect();
    assert_eq!(ids, vec!["system:shell", "2", "1"]);

    let kept = refresh_session_rows_in_place(&st, &mut model, "", &env);
    assert!(kept);
    assert_eq!(model.len(), 3);

    let kept = refresh_session_rows_in_place(&st, &mut model, "b", &env);
    assert!(!kept);
    let ids: Vec<&str> = model.iter().map(|r| r.id.as_str()).collect();
    assert_eq!(ids, vec!["system:shell", "2"]);

    sync_sessions_to_model_with_filter(&st, &mut model, "zzz", &env);
    assert!(model.is_empty());
}

#[test]
fn text_that_is_not_a_colour_gives_no_colour_anywhere() {
    let mut st = store(vec![sess("1", "a", "work")], vec![]);
    // Three bytes but two characters: no colour, and no panic.
    st.group_colors.insert("work".to_string(), "é1".to_string());
    let env = unix_env(None);
    let mut model: Vec<SessionRow> = Vec::new();
    sync_sessions_to_model(&st, &mut model, &env);
    let row = model.iter().find(|r| r.group.as_str() == "work").unwrap();
    assert_eq!(row.group_color_hex, "");
    assert_eq!(row.group_color.alpha, 0);
    let entries = session_groups_model(&st);
    assert_eq!(entries[0].hex, "é1");
    assert_eq!(entries[0].color.alpha, 0);
    let (c, hex) = tab_group_color(&st, &st.sessions[0], &env);
    assert_eq!(hex, "");
    assert_eq!(c.alpha, 0);
    st.group_colors.insert("work".to_string(), " zz ".to_string());
    let (c, hex) = tab_group_color(&st, &st.sessions[0], &env);
    assert_eq!((hex.as_str(), c.alpha), ("", 0));
}

#[test]
fn tab_colour_follows_the_group_of_the_session() {
    let mut st = store(vec![sess("1", "a", "work"), sess("2", "b", "")], vec![]);
    st.group_colors.insert("work".to_string(), "  #0A0  ".to_string());
    st.group_colors.insert("system".to_string(), "#123456".to_string());
    st.group_colors.insert("default".to_string(), "   ".to_string());
    let env = unix_env(None);

    let (c, hex) = tab_group_color(&st, &st.sessions[0], &env);
    assert_eq!(hex, "#0A0");
    assert_eq!((c.red, c.green, c.blue, c.alpha), (0, 170, 0, 255));

    let (c, hex) = tab_group_color(&st, &st.sessions[1], &env);
    assert_eq!(hex, "");
    assert_eq!(c.alpha, 0);

    let builtin = &builtin_local_sessions(&[], &env)[0];
    let (c, hex) = tab_group_color(&st, builtin, &env);
    assert_eq!(hex, "#123456");
    assert_eq!((c.red, c.green, c.blue), (0x12, 0x34, 0x56));
}

#[test]
fn groups_model_carries_colour_and_member_count() {
    let mut st = store(
        vec![sess("1", "a", "work"), sess("2", "b", "work"), sess("3", "c", "play"), sess("4", "d", "")],
        vec!["empty", "work"],
    );
    st.group_colors.insert("work".to_string(), " #FFF ".to_string());
    let entries = session_groups_model(&st);
    let names: Vec<&str> = entries.iter().map(|e| e.name.as_str()).collect();
    assert_eq!(names, vec!["empty", "work", "play"]);
    assert_eq!(entries[0].count, 0);
    assert_eq!(entries[0].hex, "");
    assert_eq!(entries[1].count, 2);
    assert_eq!(entries[1].hex, "#FFF");
    assert_eq!((entries[1].color.red, entries[1].color.alpha), (255, 255));
    assert_eq!(entries[2].count, 1);
}

#[test]
fn move_targets_put_default_first() {
    let st = store(vec![sess("1", "a", "b"), sess("2", "b", "")], vec!["a"]);
    let targets = move_target_groups_model(&st);
    assert_eq!(targets, vec!["default".to_string(), "a".to_string(), "b".to_string()]);
}

#[test]
fn jump_candidates_skip_non_ssh_and_the_session_itself() {
    let mut a = sess("a", "Alpha", "");
    a.user = "root".into();
    a.host = "10.0.0.1".into();
    let mut b = sess("b", " ", "");
    b.user = "u".into();
    b.host = "bhost".into();
    let mut c = sess("c", "", "");
    c.host = "chost".into();
    let mut serial = sess("s", "Serial", "");
    serial.kind = SessionKind::Serial;
    let me = sess("me", "Me", "");
    let st = store(vec![a, b, c, serial, me], vec![]);

    let (labels, ids, selected) = jump_candidates(&st, "me", "c", "None (direct)");
    assert_eq!(labels, vec!["None (direct)", "Alpha (root@10.0.0.1)", "u@bhost", "chost"]);
    assert_eq!(ids, vec!["", "a", "b", "c"]);
    assert_eq!(selected, 3);

    let (_, _, selected) = jump_candidates(&st, "me", "gone", "None");
    assert_eq!(selected, 0);
    let (_, ids, selected) = jump_candidates(&st, "a", "a", "None");
    assert_eq!(ids.len(), 4);
    assert_eq!(selected, 0);
}

#[test]
fn wsl_profile_model_copies_the_profiles() {
    let mut st = store(vec![], vec![]);
    st.wsl_profiles.push(profile("1", "Ubuntu", "Ubuntu", "~"));
    let copies = wsl_profile_model(&st);
    assert_eq!(copies.len(), 1);
    assert_eq!(copies[0].name, "Ubuntu");
    assert_eq!(copies[0].directory, "~");
}
