use usage_stats::antigravity::{
    extract_flag, is_antigravity_ls, parse_process_line, should_advance_cursor, LsEndpoint, RESCAN_GRACE_SECS,
};

#[test]
fn extract_flag_handles_space_and_equals() {
    let cl = "language_server.exe --csrf_token abc-123 --extension_server_port=63190";
    assert_eq!(extract_flag(cl, "--csrf_token").unwrap(), "abc-123");
    assert_eq!(extract_flag(cl, "--extension_server_port").unwrap(), "63190");
    assert!(extract_flag(cl, "--missing").is_none());
}

#[test]
fn is_antigravity_ls_requires_both_markers() {
    assert!(is_antigravity_ls(r"C:\Users\x\.antigravity\bin\language_server.exe --csrf_token t"));
    assert!(!is_antigravity_ls(r"C:\Users\x\.codeium\windsurf\language_server.exe"));
    assert!(!is_antigravity_ls(r"C:\Program Files\Antigravity\Antigravity.exe"));
}

#[test]
fn parse_process_line_accepts_tab_and_space() {
    assert_eq!(parse_process_line("1234\tlanguage_server.exe --x").unwrap(), (1234, "language_server.exe --x".to_string()));
    assert_eq!(parse_process_line(" 987 /usr/bin/language_server --y").unwrap(), (987, "/usr/bin/language_server --y".to_string()));
    assert!(parse_process_line("").is_none());
    assert!(parse_process_line("notapid something").is_none());
}

#[test]
fn cursor_advances_when_new_rows_arrived() {
    let now = 1_800_000_000;
    let fresh_mtime = (now - 5) * 1_000_000_000;
    assert!(should_advance_cursor(19, 12, fresh_mtime, now));
    assert!(should_advance_cursor(1, 0, fresh_mtime, now));
}

#[test]
fn cursor_holds_for_active_session_without_new_rows() {
    let now = 1_800_000_000;
    let fresh_mtime = (now - 5) * 1_000_000_000;
    assert!(!should_advance_cursor(12, 12, fresh_mtime, now));
    assert!(!should_advance_cursor(0, 0, fresh_mtime, now));
    assert!(!should_advance_cursor(3, 12, fresh_mtime, now));
}

#[test]
fn cursor_advances_once_session_is_settled() {
    let now = 1_800_000_000;
    let stale_mtime = (now - RESCAN_GRACE_SECS) * 1_000_000_000;
    assert!(should_advance_cursor(12, 12, stale_mtime, now));
    assert!(should_advance_cursor(0, 0, stale_mtime, now));
    assert!(!should_advance_cursor(12, 12, (now - RESCAN_GRACE_SECS + 1) * 1_000_000_000, now));
}

#[test]
fn negative_mtime_rounds_toward_zero() {
    // -1.5 s rounds to -1 s: 599 - (-1) = 600 settles.
    assert!(should_advance_cursor(0, 0, -1_500_000_000, 599));
    assert!(!should_advance_cursor(0, 0, -500_000_000, 599));
}

#[test]
fn flag_and_process_edges() {
    assert_eq!(extract_flag("x --a= \t v w", "--a"), Some("v".to_string()));
    assert_eq!(extract_flag("x --a", "--a"), None);
    assert!(parse_process_line("4294967296 cmd").is_none());
    assert!(parse_process_line("-1 cmd").is_none());
    assert_eq!(parse_process_line("+7 cmd"), Some((7, "cmd".to_string())));
    assert!(parse_process_line("42").is_none());
    assert!(is_antigravity_ls("/opt/ANTIGRAVITY/Language-Server"));
    let ep = LsEndpoint { scheme: "https".to_string(), port: 63185, csrf_token: "t".to_string() };
    assert_eq!(ep.url("GetUserStatus"), "https://127.0.0.1:63185/exa.language_server_pb.LanguageServerService/GetUserStatus");
}
