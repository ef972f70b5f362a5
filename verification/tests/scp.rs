use meatshell::scp::{
    parse_ls, run_shell_result, scp_chmod_command, scp_delete_command, scp_download_command,
    scp_download_dir_command, scp_exists_command, scp_is_dir_command, scp_list_dir_command,
    scp_list_dir_result, scp_list_dirs_only, scp_mkdir_command, scp_rename_command,
    scp_touch_command, scp_upload_command, sh_quote,
};
use meatshell::scp_wire::{
    ack_error_message, ack_message_step, ack_start, child_path, control_line_room,
    control_line_step, control_line_text, dir_record, download_chunk, eof_marker_error,
    file_record, read_exact_step, read_exact_want, root_under, shell_capture_result,
    text_file_record, upload_header, AckStart, ChannelEvent, DirRecord, DirStack, ScpReader,
    base_name, download_trailer_due, sanitize_filename, transfer_end, DirAction, TransferEnd,
};

#[test]
fn parse_ls_dirs_and_files() {
    let lines = "total 8\n\
        drwxr-xr-x 2 1000 1000 4096 Jan  1 00:00 bin\n\
        -rw-r--r-- 1 1000 1000    123 Jan  1 00:00 file.txt\n\
        -rw-r--r-- 1 1000 1000      0 Jan  1 00:00 empty\n\
        lrwxrwxrwx 1 1000 1000      4 Jan  1 00:00 link -> bin\n";
    let entries = parse_ls(lines, "/home/u");
    assert_eq!(entries.len(), 4);
    let dir = entries.iter().find(|e| e.name == "bin").unwrap();
    assert!(dir.is_dir);
    assert_eq!(dir.full_path, "/home/u/bin");
    let file = entries.iter().find(|e| e.name == "file.txt").unwrap();
    assert!(!file.is_dir);
    assert_eq!(file.size, 123);
    let link = entries.iter().find(|e| e.name == "link").unwrap();
    assert!(link.is_dir);
}

#[test]
fn parse_ls_filters_dot_entries() {
    let lines = ".  ..  file\n";
    let entries = parse_ls(lines, "/");
    assert!(entries.iter().all(|e| e.name != "." && e.name != ".."));
}

#[test]
fn sh_quote_escapes_single_quotes() {
    assert_eq!(sh_quote("a'b"), "'a'\\''b'");
    assert_eq!(sh_quote("plain"), "'plain'");
}

#[test]
fn parse_ls_handles_names_with_spaces() {
    let lines = "-rw-r--r-- 1 1000 1000 9 Jan  1 00:00 my file.txt\n";
    let entries = parse_ls(lines, "/");
    assert_eq!(entries.len(), 1);
    assert_eq!(entries[0].name, "my file.txt");
    assert_eq!(entries[0].full_path, "/my file.txt");
}

// ---------------------------------------------------------------------------
// Listings
// ---------------------------------------------------------------------------

#[test]
fn parse_ls_sorts_directories_first_then_by_lowercase_name() {
    let lines = "-rw-r--r-- 1 u g 1 Jan  1 00:00 b.txt\n\
        drwxr-xr-x 2 u g 4096 Jan  1 00:00 Zdir\n\
        -rw-r--r-- 1 u g 2 Jan  1 00:00 A.txt\n\
        drwxr-xr-x 2 u g 4096 Jan  1 00:00 adir\n\
        -rw-r--r-- 1 u g x Jan  1 00:00 bad-size\n";
    let entries = parse_ls(lines, "/srv//");
    let names: Vec<&str> = entries.iter().map(|e| e.name.as_str()).collect();
    assert_eq!(names, vec!["adir", "Zdir", "A.txt", "b.txt", "bad-size"]);
    assert_eq!(entries[0].full_path, "/srv/adir");
    assert_eq!(entries[0].size, 0);
    assert_eq!(entries[4].size, 0);
}

#[test]
fn list_dir_result_reports_errors_and_listings() {
    let err = scp_list_dir_result("  ls: cannot access: No such file\n", 2, "/x", "cannot list directory");
    assert_eq!(err.err().unwrap(), "ls: cannot access: No such file");
    let err = scp_list_dir_result("   ", 1, "/x", "cannot list directory");
    assert_eq!(err.err().unwrap(), "cannot list directory");
    let ok = scp_list_dir_result("drwxr-xr-x 2 u g 4096 Jan  1 00:00 d\n-rw-r--r-- 1 u g 5 Jan  1 00:00 f\n", 0, "/x", "").unwrap();
    assert_eq!(ok.len(), 2);
    let dirs = scp_list_dirs_only(&ok);
    assert_eq!(dirs, vec![("d".to_string(), "/x/d".to_string())]);
}

// ---------------------------------------------------------------------------
// Commands
// ---------------------------------------------------------------------------

#[test]
fn commands_quote_their_paths() {
    assert_eq!(scp_list_dir_command("/a b"), "ls -l '/a b'");
    assert_eq!(scp_is_dir_command("/d"), "test -d '/d'");
    assert_eq!(scp_exists_command("/e"), "test -e '/e'");
    assert_eq!(scp_download_command("it's"), "scp -f -- 'it'\\''s'");
    assert_eq!(scp_download_dir_command("/r"), "scp -r -f -- '/r'");
    assert_eq!(scp_upload_command("/u"), "scp -t -- '/u'");
    assert_eq!(scp_delete_command("/x"), "rm -rf -- '/x'");
    assert_eq!(scp_mkdir_command("/m"), "mkdir -p -- '/m'");
    assert_eq!(scp_touch_command("/t"), "touch -- '/t'");
    assert_eq!(scp_rename_command("/a", "/b c"), "mv -f -- '/a' '/b c'");
    assert_eq!(scp_chmod_command("/f", 0o755), "chmod 755 -- '/f'");
    assert_eq!(scp_chmod_command("/f", 0), "chmod 0 -- '/f'");
    assert_eq!(scp_chmod_command("/f", 0o4750), "chmod 4750 -- '/f'");
}

#[test]
fn shell_failures_carry_exit_code_and_output() {
    assert!(run_shell_result("anything", 0).is_ok());
    assert_eq!(run_shell_result("  ", 1).unwrap_err(), "remote command failed (exit 1)");
    assert_eq!(
        run_shell_result(" rm: denied \n", 127).unwrap_err(),
        "remote command failed (exit 127): rm: denied"
    );
}

#[test]
fn shell_capture_decodes_output_and_defaults_exit_code() {
    assert_eq!(shell_capture_result(b"ok\n", Some(3)), ("ok\n".to_string(), 3));
    assert_eq!(shell_capture_result(b"", None), (String::new(), 0));
    assert_eq!(shell_capture_result(&[0x66, 0xff, 0x67], None).0, "f\u{fffd}g");
}

// ---------------------------------------------------------------------------
// Wire protocol
// ---------------------------------------------------------------------------

#[test]
fn reader_buffers_what_a_read_cannot_take() {
    let mut r = ScpReader::new();
    assert!(r.take_buffered(4).is_none());
    assert_eq!(r.on_event(ChannelEvent::Data(b"hello".to_vec()), 2), Some(b"he".to_vec()));
    assert_eq!(r.pending, b"llo".to_vec());
    assert_eq!(r.take_buffered(10), Some(b"llo".to_vec()));
    assert!(r.pending.is_empty());
    assert_eq!(r.on_event(ChannelEvent::Data(Vec::new()), 2), None);
    assert_eq!(r.on_event(ChannelEvent::ExtendedData(b"err".to_vec()), 2), None);
    assert_eq!(r.on_event(ChannelEvent::ExitStatus(7), 2), None);
    assert_eq!(r.exit_code, Some(7));
    assert_eq!(r.on_event(ChannelEvent::Other, 2), None);
    assert_eq!(r.on_event(ChannelEvent::Close, 2), Some(Vec::new()));
    assert!(r.eof_seen);
    assert_eq!(r.take_buffered(3), Some(Vec::new()));
}

#[test]
fn capturing_reader_reads_standard_error_too() {
    let mut r = ScpReader::new().capture();
    assert_eq!(r.on_event(ChannelEvent::ExtendedData(b"oops".to_vec()), 8), Some(b"oops".to_vec()));
    assert_eq!(r.on_event(ChannelEvent::Ended, 8), Some(Vec::new()));
    assert!(r.eof_seen);
}

#[test]
fn exact_reads_fail_when_the_channel_ends_early() {
    assert_eq!(read_exact_want(0, 10), 10);
    assert_eq!(read_exact_want(0, 200_000), 65536);
    let mut out = b"ab".to_vec();
    assert!(read_exact_step(&mut out, 5, b"cd").is_ok());
    assert_eq!(out, b"abcd".to_vec());
    assert_eq!(
        read_exact_step(&mut out, 5, b"").unwrap_err(),
        "SCP: file ended early (4 of 5 bytes)"
    );
    assert_eq!(download_chunk(100_000, 0), 65536);
    assert_eq!(download_chunk(100_000, 99_999), 1);
}

#[test]
fn acknowledgements() {
    assert!(matches!(ack_start(Some(0)), AckStart::Accepted));
    assert!(matches!(ack_start(Some(1)), AckStart::Message));
    assert!(matches!(ack_start(Some(2)), AckStart::Message));
    match ack_start(Some(0x41)) {
        AckStart::Failed(m) => assert_eq!(m, "SCP: unexpected response byte 0x41"),
        _ => panic!("expected a failure"),
    }
    match ack_start(None) {
        AckStart::Failed(m) => assert_eq!(m, "SCP: peer closed while awaiting ACK"),
        _ => panic!("expected a failure"),
    }
    let mut msg = Vec::new();
    assert!(ack_message_step(&mut msg, 4, Some(b'n')));
    assert!(ack_message_step(&mut msg, 4, Some(b'o')));
    assert!(!ack_message_step(&mut msg, 4, Some(b'\n')));
    assert_eq!(msg, b"no".to_vec());
    assert!(ack_message_step(&mut msg, 4, Some(b'p')));
    assert!(!ack_message_step(&mut msg, 4, Some(b'e')));
    assert_eq!(msg, b"nope".to_vec());
    assert!(!ack_message_step(&mut Vec::new(), 4, None));
    assert_eq!(ack_error_message(b"  scp: denied  ", "remote scp error"), "scp: denied");
    assert_eq!(ack_error_message(b" \t ", "remote scp error"), "remote scp error");
}

#[test]
fn control_lines() {
    assert!(control_line_room(3, 4).is_ok());
    assert_eq!(control_line_room(4, 4).unwrap_err(), "SCP control line too long");
    let mut buf = Vec::new();
    assert_eq!(control_line_step(&mut buf, Some(b'C')), Ok(false));
    assert_eq!(control_line_step(&mut buf, Some(b'\n')), Ok(true));
    assert_eq!(buf, b"C".to_vec());
    assert_eq!(
        control_line_step(&mut buf, None).unwrap_err(),
        "SCP: unexpected EOF in control stream"
    );
    assert_eq!(control_line_text(b"C0644 1 a".to_vec()).unwrap(), "C0644 1 a");
    assert_eq!(control_line_text(vec![0xc3]).unwrap_err(), "non-UTF-8 SCP control line");
}

#[test]
fn file_records() {
    assert_eq!(file_record("C0644 1234 name", "remote scp error", "not scp"), Ok(1234));
    assert_eq!(file_record("C0644 +12 name", "e", "n"), Ok(12));
    assert_eq!(file_record("C0644 big name", "e", "n"), Ok(0));
    assert_eq!(file_record("C0644", "e", "n"), Ok(0));
    assert_eq!(
        file_record("\u{1}scp: /x: No such file ", "remote scp error", "not scp"),
        Err("scp: /x: No such file".to_string())
    );
    assert_eq!(file_record("\u{2}  ", "remote scp error", "not scp"), Err("remote scp error".to_string()));
    assert_eq!(file_record("hello", "e", "not scp"), Err("not scp".to_string()));
    assert_eq!(file_record("", "e", "not scp"), Err("not scp".to_string()));
    assert_eq!(text_file_record("C0644 4194304 f", "e", "n", "too large"), Ok(4194304));
    assert_eq!(
        text_file_record("C0644 4194305 f", "e", "n", "too large"),
        Err("too large".to_string())
    );
    assert_eq!(eof_marker_error(None), None);
    assert_eq!(eof_marker_error(Some(0)), None);
    assert_eq!(eof_marker_error(Some(1)).unwrap(), "SCP: missing end-of-file marker");
}

#[test]
fn upload_headers() {
    assert_eq!(upload_header(42, "a b.txt"), "C0644 42 'a b.txt'\n");
    assert_eq!(upload_header(0, "x'y"), "C0644 0 'x'\\''y'\n");
}

#[test]
fn directory_records() {
    match dir_record("C0644 12 my file -> target") {
        DirRecord::File { size, name } => {
            assert_eq!(size, 12);
            assert_eq!(name, "my file");
        },
        _ => panic!("expected a file record"),
    }
    match dir_record("D0755 0 sub dir") {
        DirRecord::Dir { name } => assert_eq!(name, "sub dir"),
        _ => panic!("expected a directory record"),
    }
    assert!(matches!(dir_record(""), DirRecord::End));
    assert!(matches!(dir_record("E"), DirRecord::EndDir));
    assert!(matches!(dir_record("T1 0 1 0"), DirRecord::Time));
    match dir_record("X?") {
        DirRecord::Unknown(m) => assert_eq!(m, "unexpected SCP record: X?"),
        _ => panic!("expected an unknown record"),
    }
}

#[test]
fn directory_stack_and_paths() {
    let root = root_under("/tmp/dl//", "site");
    assert_eq!(root, "/tmp/dl/site");
    let mut stack = DirStack::new(root);
    assert_eq!(stack.current(), "/tmp/dl/site");
    // The root's own record stands for the local root.
    assert_eq!(stack.open_dir("site"), None);
    assert_eq!(stack.file_path("index.html"), "/tmp/dl/site/index.html");
    assert_eq!(stack.open_dir("css"), Some("/tmp/dl/site/css".to_string()));
    assert_eq!(stack.current(), "/tmp/dl/site/css");
    assert_eq!(stack.file_path("a.css"), "/tmp/dl/site/css/a.css");
    assert!(stack.leave());
    assert_eq!(stack.current(), "/tmp/dl/site");
    assert!(!stack.leave());
    assert_eq!(stack.dirs.len(), 1);
    assert_eq!(child_path("/a", "b"), "/a/b");
}

#[test]
fn remote_names_and_local_names() {
    assert_eq!(base_name("/srv/www/"), "www");
    assert_eq!(base_name("file.txt"), "file.txt");
    assert_eq!(base_name("/"), "");
    assert_eq!(sanitize_filename("a/b\\c:d*e?f\"g<h>i|j"), "a_b_c_d_e_f_g_h_i_j");
    assert_eq!(sanitize_filename("plain name.txt"), "plain name.txt");
}

#[test]
fn transfers_end_with_error_cancel_or_done() {
    assert!(download_trailer_due(false, false, 5, 5));
    assert!(!download_trailer_due(false, false, 4, 5));
    assert!(!download_trailer_due(true, false, 5, 5));
    assert!(!download_trailer_due(false, true, 5, 5));
    let failed = transfer_end(true, true);
    assert_eq!(failed, TransferEnd::Failed);
    assert_eq!(failed.progress_state(), None);
    assert!(failed.removes_partial_download());
    let cancelled = transfer_end(false, true);
    assert_eq!(cancelled.progress_state(), Some(4));
    assert!(cancelled.removes_partial_download());
    assert!(!cancelled.finished());
    let done = transfer_end(false, false);
    assert_eq!(done.progress_state(), Some(1));
    assert!(!done.removes_partial_download());
    assert!(done.finished());
}

#[test]
fn upload_header_reads_back_as_its_size() {
    for (n, name) in [(0u64, "a"), (42, "x y"), (u64::MAX, "it's")] {
        let h = upload_header(n, name);
        let line = h.strip_suffix('\n').unwrap();
        assert_eq!(file_record(line, "e", "n"), Ok(n));
    }
}

#[test]
fn directory_records_drive_the_download() {
    let mut stack = DirStack::new("/dl/site".to_string());
    assert!(matches!(stack.step(dir_record("D0755 0 site")), DirAction::Ack));
    match stack.step(dir_record("C0644 3 a:b")) {
        DirAction::AckAndReceive { size, local, name } => {
            assert_eq!(size, 3);
            assert_eq!(local, "/dl/site/a_b");
            assert_eq!(name, "a_b");
        }
        _ => panic!("expected a file"),
    }
    match stack.step(dir_record("D0755 0 css")) {
        DirAction::AckAndMakeDir(p) => assert_eq!(p, "/dl/site/css"),
        _ => panic!("expected a directory"),
    }
    assert!(matches!(stack.step(dir_record("T1 0 1 0")), DirAction::Ack));
    assert!(matches!(stack.step(dir_record("E")), DirAction::Ack));
    assert!(matches!(stack.step(dir_record("E")), DirAction::AckAndStop));
    assert!(matches!(stack.step(dir_record("")), DirAction::Stop));
    match stack.step(dir_record("Zzz")) {
        DirAction::Fail(m) => assert_eq!(m, "unexpected SCP record: Zzz"),
        _ => panic!("expected a failure"),
    }
}
