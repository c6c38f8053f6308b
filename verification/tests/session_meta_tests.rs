use usage_stats::session_meta::{grok_summary, kimi_state_metadata, KimiStateFields};

fn fields(id: Option<&str>, work_dir: Option<&str>, cwd: Option<&str>, title: Option<&str>, last_prompt: Option<&str>) -> KimiStateFields {
    let o = |x: Option<&str>| x.map(str::to_string);
    KimiStateFields { id: o(id), work_dir: o(work_dir), cwd: o(cwd), workspace_path: None, title: o(title), last_prompt: o(last_prompt) }
}

#[test]
fn kimi_metadata_without_state_uses_directory_name() {
    let m = kimi_state_metadata("sess-dir", None);
    assert_eq!((m.session_id.as_str(), m.project_dir.as_str(), m.title.as_str()), ("sess-dir", "", ""));
}

#[test]
fn kimi_metadata_reads_id_project_and_title() {
    let st = fields(Some("  abc  "), None, Some(" /p "), None, Some("Fix it"));
    let m = kimi_state_metadata("dir", Some(&st));
    assert_eq!(m.session_id, "abc");
    assert_eq!(m.project_dir, "/p");
    assert_eq!(m.title, "Fix it");
    let blank = fields(Some("  "), Some("/w"), Some("/c"), Some("   "), None);
    let m = kimi_state_metadata("dir", Some(&blank));
    assert_eq!(m.session_id, "dir");
    assert_eq!(m.project_dir, "/w");
    assert_eq!(m.title, "dir");
}

#[test]
fn grok_summary_picks_title_and_falls_back_to_directory() {
    let r = grok_summary(Some("id-1"), Some("dir"), Some("  Generated  "), Some("sum"), Some(" /proj "));
    assert_eq!(r, Some(("id-1".to_string(), "Generated".to_string(), "/proj".to_string())));
    let r = grok_summary(Some("  "), Some("dir"), None, Some("sum"), None);
    assert_eq!(r, Some(("dir".to_string(), "sum".to_string(), String::new())));
    assert_eq!(grok_summary(None, None, Some("t"), None, None), None);
    assert_eq!(grok_summary(Some("x"), None, Some(" "), None, Some("")), None);
}

#[test]
fn grok_title_is_cut_with_an_ellipsis() {
    let long = "a".repeat(100);
    let (_, title, _) = grok_summary(Some("x"), None, Some(&long), None, None).unwrap();
    assert_eq!(title.chars().count(), 80);
    assert!(title.ends_with('…'));
    let exact = "b".repeat(80);
    let (_, title, _) = grok_summary(Some("x"), None, Some(&exact), None, None).unwrap();
    assert_eq!(title, exact);
}
