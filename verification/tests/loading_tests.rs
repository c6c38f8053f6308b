use usage_stats::data_source::DbType;
use usage_stats::loading::{cache_needs_register, default_sources, entry_action, needs_source, startup_plan, EntryAction, StartupPlan};

fn e(path: &str, kind: &str, exists: bool) -> (String, String, bool) {
    (path.to_string(), kind.to_string(), exists)
}

fn opened(plan: StartupPlan) -> Vec<(String, String)> {
    match plan {
        StartupPlan::Open(v) => v.into_iter().map(|s| (s.path, s.db_type)).collect(),
        other => panic!("expected entries, got {:?}", other),
    }
}

#[test]
fn stored_entries_that_exist_are_opened() {
    let plan = startup_plan(Some(vec![e("/a.db", "CCS", true), e("/gone.db", "OpenCode", false)]), None, None);
    assert_eq!(opened(plan), vec![("/a.db".to_string(), "CCS".to_string())]);
    let plan = startup_plan(Some(vec![e("/gone.db", "CCS", false)]), Some(vec![e("/b.db", "", true)]), None);
    assert!(matches!(plan, StartupPlan::NothingExists));
}

#[test]
fn older_settings_are_read_in_turn() {
    let plan = startup_plan(Some(vec![]), Some(vec![e("/b.db", "", true)]), None);
    assert_eq!(opened(plan), vec![("/b.db".to_string(), String::new())]);
    let plan = startup_plan(None, None, Some(e("/c.db", "", true)));
    assert_eq!(opened(plan), vec![("/c.db".to_string(), String::new())]);
    assert!(matches!(startup_plan(None, None, Some(e("/c.db", "", false))), StartupPlan::Defaults));
    assert!(matches!(startup_plan(None, Some(vec![]), None), StartupPlan::Defaults));
}

#[test]
fn defaults_in_registration_order() {
    let out = default_sources(
        None,
        Some("/oc.db".to_string()),
        None,
        vec!["/c1".to_string(), "/c2".to_string()],
        Some("/proma".to_string()),
        Some("/app.db".to_string()),
        Some("/app.db".to_string()),
    );
    let got: Vec<(String, String)> = out.into_iter().map(|s| (s.path, s.db_type)).collect();
    let want: Vec<(String, String)> = vec![
        ("/oc.db", "OpenCode"),
        ("/c1", "Cursor"),
        ("/c2", "Cursor"),
        ("/proma", "Proma"),
        ("/app.db", "DSH"),
        ("/app.db", "MiniMax"),
    ]
    .into_iter()
    .map(|(a, b)| (a.to_string(), b.to_string()))
    .collect();
    assert_eq!(got, want);
}

#[test]
fn entry_actions() {
    let root = Some("C:\\Users\\u\\cursor-cache");
    assert_eq!(entry_action("C:/Users/U/cursor-cache/", "Cursor", root, false), EntryAction::Skip);
    assert_eq!(entry_action("C:/Users/U/cursor-cache/", "Cursor", root, true), EntryAction::Open(DbType::Cursor));
    assert_eq!(entry_action("/x.db", "CC-Switch", root, false), EntryAction::Open(DbType::ExternalDb));
    assert_eq!(entry_action("/x.db", "", None, false), EntryAction::Detect);
}

#[test]
fn caches_and_single_sources_register_once() {
    let loaded = vec![(DbType::Cursor, "C:\\cache\\acc1".to_string()), (DbType::OpenCode, "/acc2".to_string())];
    assert!(!cache_needs_register(&loaded, "c:/cache/acc1/"));
    assert!(cache_needs_register(&loaded, "/acc2"));
    assert!(needs_source(true, &vec![DbType::Cursor], DbType::Dsh));
    assert!(!needs_source(true, &vec![DbType::Dsh], DbType::Dsh));
    assert!(!needs_source(false, &vec![], DbType::Minimax));
}
