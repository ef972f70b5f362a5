use meatshell::batch_import::parse_batch_import;
use meatshell::color::{normalize_hex, parse_hex_color, Color};
use meatshell::draft::{session_from_draft, SessionDraft};
use meatshell::groups::{display_group_of, named_display_groups};
use meatshell::rows::{normalized_query, session_matches_normalized_query, session_matches_query};
use meatshell::text::decimal_int_chars;
use meatshell::session::{AuthMethod, PortForward, Session, SessionKind, SessionTrigger};

fn is_uuid_v4(s: &str) -> bool {
    let b = s.as_bytes();
    b.len() == 36
        && b.iter().enumerate().all(|(i, c)| {
            if [8, 13, 18, 23].contains(&i) {
                *c == b'-'
            } else {
                c.is_ascii_digit() || (b'a'..=b'f').contains(c)
            }
        })
        && b[14] == b'4'
        && [b'8', b'9', b'a', b'b'].contains(&b[19])
}

#[test]
fn fresh_sessions_get_distinct_uuid_ids() {
    let a = Session::new_empty();
    let b = Session::new_empty();
    assert!(is_uuid_v4(&a.id));
    assert!(is_uuid_v4(&b.id));
    assert_ne!(a.id, b.id);
    assert_eq!(a.port, 22);
    assert_eq!(a.baud_rate, 115200);
    assert_eq!(a.encoding, "utf-8");
}

#[test]
fn batch_import_reads_lines_with_defaults() {
    let text = "# comment\n\
        host|port|username|password|name\n\
        \n\
        10.0.0.1\n\
        db.local | 2200 | admin | s3cret | DB | main\n\
        web|0||pw|\n\
        |22|x\n\
        HOST|1|2\n\
        edge|99999|ops\r\n";
    let out = parse_batch_import(text);
    assert_eq!(out.len(), 4);
    assert_eq!(out[0].host, "10.0.0.1");
    assert_eq!(out[0].port, 22);
    assert_eq!(out[0].user, "root");
    assert_eq!(out[0].name, "root@10.0.0.1");
    assert_eq!(out[0].password, "");
    assert_eq!(out[1].host, "db.local");
    assert_eq!(out[1].port, 2200);
    assert_eq!(out[1].user, "admin");
    assert_eq!(out[1].password, "s3cret");
    assert_eq!(out[1].name, "DB | main");
    assert_eq!(out[2].port, 22);
    assert_eq!(out[2].user, "root");
    assert_eq!(out[2].name, "root@web");
    assert_eq!(out[3].host, "edge");
    assert_eq!(out[3].port, 22);
    assert!(out.iter().all(|s| s.auth == AuthMethod::Password && is_uuid_v4(&s.id)));
}

fn draft() -> SessionDraft {
    SessionDraft {
        id: "id-1".into(),
        name: "".into(),
        host: "example.org".into(),
        port: 0,
        user: "amy".into(),
        auth: "key".into(),
        password: "".into(),
        private_key_inline_mode: false,
        private_key_inline: "".into(),
        private_key_path: "C:\\keys\\id_rsa".into(),
        proxy: "".into(),
        group: "work".into(),
        kind: "ssh".into(),
        serial_port: "COM3".into(),
        baud_rate: 0,
        data_bits: 8,
        stop_bits: 1,
        parity: "none".into(),
        flow_control: "none".into(),
        encoding: "utf-8".into(),
        vt100_drawing: true,
        disable_shell_integration: false,
        note: "n".into(),
        jump_session_id: "".into(),
    }
}

#[test]
fn drafts_fill_in_names_ports_and_kept_secrets() {
    let mut existing = Session::new_empty();
    existing.password = "old".into();
    existing.private_key_inline = "KEY".into();
    let s = session_from_draft(&draft(), Some(&existing), Vec::new(), Vec::new());
    assert_eq!(s.id, "id-1");
    assert_eq!(s.name, "amy@example.org");
    assert_eq!(s.port, 22);
    assert_eq!(s.auth, AuthMethod::Key);
    assert_eq!(s.password, "old");
    assert_eq!(s.private_key_path, "C:/keys/id_rsa");
    assert_eq!(s.private_key_inline, "");
    assert_eq!(s.baud_rate, 115200);
    assert_eq!(s.kind, SessionKind::Ssh);

    let mut d = draft();
    d.kind = "telnet".into();
    d.user = "  ".into();
    d.private_key_inline_mode = true;
    let s = session_from_draft(&d, Some(&existing), Vec::new(), Vec::new());
    assert_eq!(s.port, 23);
    assert_eq!(s.name, "example.org");
    assert_eq!(s.private_key_inline, "KEY");
    assert_eq!(s.private_key_path, "");

    let mut d = draft();
    d.kind = "serial".into();
    d.baud_rate = 9600;
    d.password = "new".into();
    let s = session_from_draft(&d, None, Vec::new(), Vec::new());
    assert_eq!(s.name, "COM3 @9600");
    assert_eq!(s.password, "new");
    assert_eq!(s.kind, SessionKind::Serial);

    let mut d = draft();
    d.kind = "mystery".into();
    d.auth = "mystery".into();
    d.port = 2022;
    let s = session_from_draft(&d, None, Vec::new(), Vec::new());
    assert_eq!(s.kind, SessionKind::Ssh);
    assert_eq!(s.auth, AuthMethod::Password);
    assert_eq!(s.port, 2022);
}

#[test]
fn hex_colours_parse_in_long_and_short_form() {
    assert_eq!(parse_hex_color("#ff8000"), Some(Color::from_rgb_u8(255, 128, 0)));
    assert_eq!(parse_hex_color("  abc "), Some(Color::from_rgb_u8(0xaa, 0xbb, 0xcc)));
    assert_eq!(parse_hex_color("##123"), Some(Color::from_rgb_u8(0x11, 0x22, 0x33)));
    assert_eq!(parse_hex_color("#12345"), None);
    assert_eq!(parse_hex_color("#gg0000"), None);
    assert_eq!(parse_hex_color("#+10000"), None);
    assert_eq!(parse_hex_color("+a+b+c"), None);
    assert_eq!(normalize_hex("+a+b+c"), None);
    assert_eq!(parse_hex_color(""), None);
    assert_eq!(parse_hex_color("é1"), None);
    assert_eq!(parse_hex_color("#ééé"), None);
    assert_eq!(normalize_hex(" 1a2B3c "), Some("#1a2b3c".to_string()));
}

#[test]
fn normalized_hex_is_lowercase_long_form_and_stable() {
    assert_eq!(normalize_hex(" #ABC ").as_deref(), Some("#aabbcc"));
    assert_eq!(normalize_hex("FF8000").as_deref(), Some("#ff8000"));
    assert_eq!(normalize_hex("nope"), None);
    for h in ["#abc", "123456", " #0F0F0F"] {
        let once = normalize_hex(h).unwrap();
        assert_eq!(normalize_hex(&once).as_deref(), Some(once.as_str()));
        assert_eq!(parse_hex_color(&once), parse_hex_color(h));
    }
}

#[test]
fn search_queries_are_trimmed_and_lowercased() {
    assert_eq!(normalized_query("  Prod DB "), "prod db");
    assert_eq!(normalized_query(" ÀB "), "àb");
    let mut s = Session::new_empty();
    s.name = "Alpha".into();
    s.host = "Host.Example".into();
    assert!(session_matches_normalized_query(&s, ""));
    assert!(session_matches_normalized_query(&s, "alp"));
    assert!(session_matches_normalized_query(&s, "st.ex"));
    assert!(!session_matches_normalized_query(&s, "ALP"));
}

#[test]
fn groups_keep_stored_order_without_reserved_names() {
    let mut a = Session::new_empty();
    a.group = "ops".into();
    let mut b = Session::new_empty();
    b.group = " default".into();
    let mut c = Session::new_empty();
    c.group = "dev".into();
    let groups = vec!["dev".to_string(), "system".to_string(), "".to_string()];
    let named = named_display_groups(&groups, &[a, b, c]);
    assert_eq!(named, vec!["dev".to_string(), "ops".to_string()]);
    let mut d = Session::new_empty();
    d.group = "system ".into();
    assert_eq!(display_group_of(&d), "default");
    d.group = "lab".into();
    assert_eq!(display_group_of(&d), "lab");
}

#[test]
fn drafts_carry_forwards_and_triggers() {
    let forwards = vec![PortForward {
        kind: "local".to_string(),
        bind_host: "127.0.0.1".to_string(),
        bind_port: 8080,
        target_host: "db".to_string(),
        target_port: 5432,
    }];
    let triggers = vec![SessionTrigger { pattern: "Password:".to_string(), response: "x".to_string() }];
    let s = session_from_draft(&draft(), None, forwards, triggers);
    assert_eq!(s.forwards.len(), 1);
    assert_eq!(s.forwards[0].target_port, 5432);
    assert_eq!(s.triggers.len(), 1);
    assert_eq!(s.triggers[0].pattern, "Password:");
    let copy = s.duplicate();
    assert_eq!(copy.forwards[0].bind_host, "127.0.0.1");
    assert_eq!(copy.triggers[0].response, "x");
    assert!(Session::new_empty().forwards.is_empty());
}

#[test]
fn queries_ignore_padding_and_ascii_case() {
    let mut s = Session::new_empty();
    s.name = "Prod API".into();
    s.host = "db.example.com".into();
    for q in ["prod", "PROD", "  pRoD  ", "\tEXAMPLE.com\n"] {
        assert!(session_matches_query(&s, q));
    }
    assert!(session_matches_query(&s, "   "));
    assert!(!session_matches_query(&s, " STAGING "));
    let min: String = decimal_int_chars(i64::MIN).into_iter().collect();
    assert_eq!(min, "-9223372036854775808");
}
