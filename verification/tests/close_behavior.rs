use meatshell::close::{
    close_behavior_or_default, close_mode_remembers, decide_close, parse_close_mode, CloseDecision,
};

#[test]
fn close_mode_parses_tray_and_exit() {
    assert_eq!(parse_close_mode("tray"), "tray");
    assert_eq!(parse_close_mode("exit"), "exit");
}

#[test]
fn close_mode_tolerates_remember_suffix() {
    assert_eq!(parse_close_mode("tray,remember"), "tray");
    assert_eq!(parse_close_mode("exit,remember"), "exit");
    assert!(close_mode_remembers("tray,remember"));
    assert!(close_mode_remembers("exit,remember"));
    assert!(!close_mode_remembers("tray"));
    assert!(!close_mode_remembers("exit"));
}

#[test]
fn close_mode_falls_back_to_exit_on_unknown() {
    assert_eq!(parse_close_mode(""), "exit");
    assert_eq!(parse_close_mode("something-else"), "exit");
    assert_eq!(parse_close_mode("TRAY"), "exit");
    assert_eq!(parse_close_mode("tray,remember"), "tray");
}

#[test]
fn close_behavior_normalizes_legacy_and_invalid_values() {
    assert_eq!(close_behavior_or_default(""), "ask");
    assert_eq!(close_behavior_or_default("ask"), "ask");
    assert_eq!(close_behavior_or_default("tray"), "tray");
    assert_eq!(close_behavior_or_default("exit"), "exit");
    assert_eq!(close_behavior_or_default("TRAY"), "ask");
    assert_eq!(close_behavior_or_default("quit"), "ask");
    assert_eq!(close_behavior_or_default("ask,remember"), "ask");
}

#[test]
fn decide_close_ignores_session_count() {
    assert_eq!(decide_close("ask"), CloseDecision::Ask);
    assert_eq!(decide_close(""), CloseDecision::Ask);
    assert_eq!(decide_close("tray"), CloseDecision::Tray);
    assert_eq!(decide_close("exit"), CloseDecision::Exit);
    assert_eq!(decide_close("quit"), CloseDecision::Ask);
}

#[test]
fn close_button_asks_even_without_live_sessions() {
    assert_eq!(decide_close("ask"), CloseDecision::Ask);
    assert_eq!(decide_close("tray"), CloseDecision::Tray);
    assert_eq!(decide_close("exit"), CloseDecision::Exit);
}

#[test]
fn remember_suffix_never_changes_the_choice() {
    for m in ["", "t", "tr", "tra", "tray", "trayx", "exit", "TRAY", "x"] {
        let with = format!("{m},remember");
        assert_eq!(parse_close_mode(&with), parse_close_mode(m));
        assert!(close_mode_remembers(&with));
    }
}

#[test]
fn normalized_behaviour_is_stable_and_decides_alike() {
    for s in ["", "ask", "tray", "exit", "Tray", " exit", "tray,remember"] {
        let once = close_behavior_or_default(s);
        assert_eq!(close_behavior_or_default(&once), once);
        assert_eq!(decide_close(&once), decide_close(s));
    }
}
