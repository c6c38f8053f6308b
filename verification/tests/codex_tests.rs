use usage_stats::codex::{
    best_session_by_votes, build_codex_session_mapping, extract_uuid_from_filename, is_hex, map_codex_timestamps,
    is_title_candidate, match_codex_ts, path_basename, session_range, session_title,
    sort_sessions_by_start, truncate_title,
};
use usage_stats::models::RawRecord;

#[test]
fn test_extract_uuid_from_filename() {
    let path = std::path::PathBuf::from("rollout-2026-03-06T21-50-12-019cc369-bd7c-7891-b371-7b20b4fe0b18.jsonl");
    let name = path.file_name().unwrap().to_str().unwrap();
    let uuid = extract_uuid_from_filename(name).unwrap();
    assert_eq!(uuid, "019cc369-bd7c-7891-b371-7b20b4fe0b18");
}

#[test]
fn test_extract_uuid_from_filename_no_uuid() {
    let path = std::path::PathBuf::from("some-random-file.jsonl");
    let name = path.file_name().unwrap().to_str().unwrap();
    assert!(extract_uuid_from_filename(name).is_none());
}

#[test]
fn uuid_is_lowered_and_first_wins() {
    assert_eq!(
        extract_uuid_from_filename("X-019CC369-BD7C-7891-B371-7B20B4FE0B18-aaaaaaaa-bbbb-cccc-dddd-eeeeeeeeeeee"),
        Some("019cc369-bd7c-7891-b371-7b20b4fe0b18".to_string())
    );
    assert!(extract_uuid_from_filename("019cc369-bd7c-7891-b371-7b20b4fe0b1g").is_none());
    assert!(is_hex("09afAF"));
    assert!(!is_hex("0x1"));
}

#[test]
fn titles_and_basenames() {
    assert_eq!(truncate_title("   "), "");
    assert_eq!(truncate_title("  Fix the bug  "), "Fix the bug");
    let long = "界".repeat(81);
    assert_eq!(truncate_title(&long), format!("{}...", "界".repeat(80)));
    assert_eq!(path_basename("/tmp/my-project/"), Some("my-project".to_string()));
    assert_eq!(path_basename("C:\\work\\proj\\\\"), Some("proj".to_string()));
    assert_eq!(path_basename(" / "), None);
    assert_eq!(path_basename("single"), Some("single".to_string()));
    assert_eq!(session_title(None, Some("/tmp/p")), "p");
    assert_eq!(session_title(Some("Hello"), Some("/tmp/p")), "Hello");
    assert_eq!(session_title(None, None), "");
    assert!(is_title_candidate("Real message"));
    assert!(!is_title_candidate("  # AGENTS.md instructions"));
    assert!(!is_title_candidate("<environment_context>..."));
    assert!(!is_title_candidate(" \n"));
}

fn rec(session_id: &str, created_at: i64, is_codex: bool) -> RawRecord {
    RawRecord {
        session_id: session_id.to_string(),
        model: "m".to_string(),
        provider_id: "p".to_string(),
        created_at,
        input_tokens: 0,
        output_tokens: 0,
        cache_read: 0,
        cache_creation: 0,
        latency: 0,
        is_codex,
    }
}

#[test]
fn time_ranges_pick_the_nearest_session() {
    let sessions = sort_sessions_by_start(&vec![
        ("late".to_string(), 2000, 2100),
        ("early".to_string(), 1000, 1500),
    ]);
    assert_eq!(sessions[0].0, "early");
    // inside the first
    assert_eq!(match_codex_ts(&sessions, 1200), Some(0));
    // 55 s after the first ends, within its padding
    assert_eq!(match_codex_ts(&sessions, 1555), Some(0));
    // 5 s before the second starts
    assert_eq!(match_codex_ts(&sessions, 1995), Some(1));
    // far from both
    assert_eq!(match_codex_ts(&sessions, 1800), None);
    // lead-in before the earliest
    assert_eq!(match_codex_ts(&sessions, 900), Some(0));
    assert_eq!(match_codex_ts(&sessions, 879), None);
}

#[test]
fn session_mapping_by_request_time() {
    let sessions = sort_sessions_by_start(&vec![("codex-a".to_string(), 1000, 1500), ("codex-b".to_string(), 2000, 2100)]);
    let records = vec![rec("ccs-1", 1100, true), rec("ccs-2", 2050, true), rec("plain", 1100, false), rec("ccs-1", 2060, true)];
    let map = build_codex_session_mapping(&records, &sessions);
    assert_eq!(map.len(), 2);
    let get = |k: &str| map.iter().find(|(a, _)| a == k).map(|(_, b)| b.clone());
    assert_eq!(get("ccs-1"), Some("codex-b".to_string()));
    assert_eq!(get("ccs-2"), Some("codex-b".to_string()));
    assert_eq!(get("plain"), None);
}

#[test]
fn votes_pick_the_busiest_log() {
    let ranges = vec![session_range(&vec![100, 200]), session_range(&vec![1000, 1100]), session_range(&vec![])];
    assert_eq!(ranges[2], (0, 0));
    assert_eq!(best_session_by_votes(&ranges, &vec![150, 1050, 1060]), Some(1));
    assert_eq!(best_session_by_votes(&ranges, &vec![5000]), None);
    assert_eq!(best_session_by_votes(&ranges, &vec![95, 255]), Some(0));
}

#[test]
fn timestamps_map_to_sessions_in_any_input_order() {
    let sessions = vec![("late".to_string(), 5000, 6000), ("aaa-bbb-ccc".to_string(), 1000, 2000)];
    let out = map_codex_timestamps(&vec![1500, 1000, 2000, 870, 5500, 9000], &sessions);
    assert_eq!(
        out,
        vec![
            (1500, "aaa-bbb-ccc".to_string()),
            (1000, "aaa-bbb-ccc".to_string()),
            (2000, "aaa-bbb-ccc".to_string()),
            (5500, "late".to_string()),
        ]
    );
}

#[test]
fn session_mapping_sorts_its_sessions() {
    let sessions = vec![("codex-b".to_string(), 2000, 2100), ("codex-a".to_string(), 1000, 1500)];
    let records = vec![rec("ccs-1", 1100, true), rec("ccs-2", 2050, true)];
    let map = build_codex_session_mapping(&records, &sessions);
    let get = |k: &str| map.iter().find(|(a, _)| a == k).map(|(_, b)| b.clone());
    assert_eq!(get("ccs-1"), Some("codex-a".to_string()));
    assert_eq!(get("ccs-2"), Some("codex-b".to_string()));
}

#[test]
fn sessions_matched_to_logs_by_votes() {
    let logs = vec![
        ("First".to_string(), "/p1".to_string(), vec![100, 200]),
        ("Second".to_string(), "/p2".to_string(), vec![1000, 1100]),
    ];
    let requests = vec![
        ("s1".to_string(), vec![150, 1050, 1060]),
        ("s2".to_string(), vec![5000]),
        ("s3".to_string(), vec![95, 255]),
    ];
    let out = usage_stats::codex::match_codex_sessions_by_time(&requests, &logs);
    assert_eq!(
        out,
        vec![
            ("s1".to_string(), "Second".to_string(), "/p2".to_string()),
            ("s3".to_string(), "First".to_string(), "/p1".to_string()),
        ]
    );
}
