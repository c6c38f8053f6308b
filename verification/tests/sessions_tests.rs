use usage_stats::models::SessionBreakdown;
use usage_stats::sessions::{
    cached_title_hit, codex_original_ids, next_title_step, select_sessions, session_totals, split_title_text, title_text,
    unresolved, TitleStep,
};

fn sb(id: &str, requests: i64, first_at: i64, last_at: i64) -> SessionBreakdown {
    SessionBreakdown {
        session_id: id.to_string(),
        requests,
        max_context_width: 0,
        input_tokens: requests * 10,
        output_tokens: requests * 2,
        cache_read: requests,
        cache_creation: 1,
        first_at,
        last_at,
    }
}

fn cached(id: &str, raw: &str, source: &str) -> (String, String, String) {
    (id.to_string(), raw.to_string(), source.to_string())
}

#[test]
fn title_text_splits_at_the_first_bar() {
    assert_eq!(split_title_text("Fix bug|/home/u/proj"), ("Fix bug".to_string(), "/home/u/proj".to_string()));
    assert_eq!(split_title_text("a|b|c"), ("a".to_string(), "b|c".to_string()));
    assert_eq!(split_title_text("plain"), ("plain".to_string(), String::new()));
    assert_eq!(title_text("T", "/p"), "T|/p");
    assert_eq!(split_title_text(&title_text("T", "/p")), ("T".to_string(), "/p".to_string()));
}

#[test]
fn cache_hits_need_a_path_or_a_known_source() {
    assert_eq!(cached_title_hit("T|/home/u/p", ""), Some(("T".to_string(), "/home/u/p".to_string())));
    assert_eq!(cached_title_hit("T|C:\\work", ""), Some(("T".to_string(), "C:\\work".to_string())));
    assert_eq!(cached_title_hit("T|proj", ""), None);
    assert_eq!(cached_title_hit("T|proj", "codex"), Some(("T".to_string(), "proj".to_string())));
    assert_eq!(cached_title_hit("|proj", "grokbuild"), None);
    assert_eq!(cached_title_hit("T", "claudecode"), Some(("T".to_string(), String::new())));
    assert_eq!(cached_title_hit("T", "other"), None);
}

#[test]
fn sessions_sorted_filtered_and_cut() {
    let all = vec![sb("a", 1, 0, 0), sb("b", 5, 0, 0), sb("c", 3, 0, 0), sb("d", 5, 0, 0)];
    let cache = vec![
        cached("a", "A|", ""),
        cached("b", "B|/p1", "codex"),
        cached("c", "C|/p2", ""),
        cached("x", "X|/p1", "codex"),
    ];
    let (projects, top) = select_sessions(&all, &cache, None);
    assert_eq!(projects, vec!["/p1", "/p2"]);
    // "a" made one request and its cache entry has no source
    assert_eq!(top, vec![1, 3, 2]);
    let (_, top) = select_sessions(&all, &cache, Some("/p1"));
    assert_eq!(top, vec![1]);
    let (_, top) = select_sessions(&all, &cache, Some("/none"));
    assert!(top.is_empty());
}

#[test]
fn at_most_twenty_sessions() {
    let all: Vec<SessionBreakdown> = (0..30).map(|i| sb(&format!("s{}", i), i, 0, 0)).collect();
    let (projects, top) = select_sessions(&all, &Vec::new(), None);
    assert!(projects.is_empty());
    assert_eq!(top.len(), 20);
    assert_eq!(top[0], 29);
    assert_eq!(top[19], 10);
}

#[test]
fn merged_codex_session_totals() {
    let fwd = vec![("ccs-1".to_string(), "codex-a".to_string()), ("ccs-2".to_string(), "codex-a".to_string())];
    let (ids, merged) = codex_original_ids(&"codex-a".to_string(), &fwd);
    assert!(merged);
    assert_eq!(ids, vec!["ccs-1", "ccs-2"]);
    let (ids_plain, merged_plain) = codex_original_ids(&"other".to_string(), &fwd);
    assert!(!merged_plain);
    assert_eq!(ids_plain, vec!["other"]);

    let all = vec![sb("ccs-1", 2, 100, 200), sb("ccs-2", 3, 50, 300)];
    let ctx = vec![("ccs-1".to_string(), 9000), ("ccs-2".to_string(), 4000)];
    let ts = vec![("ccs-1".to_string(), vec![100, 200]), ("ccs-2".to_string(), vec![50])];
    let titles = vec![("ccs-2".to_string(), "second".to_string())];
    let projects = vec![("ccs-1".to_string(), "/p".to_string())];
    let sources = vec![("ccs-1".to_string(), "CCS".to_string())];
    let paths = vec![("codex-a".to_string(), "/logs/a.jsonl".to_string())];
    let t = session_totals(&all, &ids, merged, &ctx, &ts, &titles, &projects, &sources, &paths, "codex-a").unwrap();
    assert_eq!(t.requests, 5);
    assert_eq!(t.input_tokens, 50);
    assert_eq!(t.output_tokens, 10);
    assert_eq!(t.cache_read, 5);
    assert_eq!(t.cache_creation, 2);
    assert_eq!(t.first_at, 50);
    assert_eq!(t.last_at, 300);
    assert_eq!(t.max_context, 9000);
    assert_eq!(t.timestamps, vec![100, 200, 50]);
    assert_eq!(t.title.as_deref(), Some("second"));
    assert_eq!(t.project.as_deref(), Some("/p"));
    assert_eq!(t.source_type.as_deref(), Some("codex"));
    assert_eq!(t.source_path.as_deref(), Some("/logs/a.jsonl"));

    let plain = session_totals(&all, &vec!["ccs-1".to_string()], false, &ctx, &ts, &titles, &projects, &sources, &paths, "codex-a").unwrap();
    assert_eq!(plain.source_type.as_deref(), Some("CCS"));
    assert_eq!(plain.title, None);
    assert!(session_totals(&all, &vec!["missing".to_string()], false, &ctx, &ts, &titles, &projects, &sources, &paths, "codex-a").is_none());
}

#[test]
fn title_lookup_order() {
    assert_eq!(next_title_step(TitleStep::Cache, 2, 0), TitleStep::Done);
    assert_eq!(next_title_step(TitleStep::Cache, 2, 3), TitleStep::Source(0));
    assert_eq!(next_title_step(TitleStep::Cache, 0, 3), TitleStep::Grok);
    assert_eq!(next_title_step(TitleStep::Source(0), 2, 3), TitleStep::Source(1));
    assert_eq!(next_title_step(TitleStep::Source(1), 2, 3), TitleStep::Grok);
    assert_eq!(next_title_step(TitleStep::Source(0), 2, 0), TitleStep::Save);
    assert_eq!(next_title_step(TitleStep::Grok, 2, 1), TitleStep::Codex);
    assert_eq!(next_title_step(TitleStep::Codex, 2, 1), TitleStep::AgentLogs);
    assert_eq!(next_title_step(TitleStep::Codex, 2, 0), TitleStep::Save);
    assert_eq!(next_title_step(TitleStep::AgentLogs, 2, 1), TitleStep::Save);
    assert_eq!(next_title_step(TitleStep::Save, 2, 1), TitleStep::Done);
    let ids = vec!["a".to_string(), "b".to_string(), "c".to_string()];
    let found = vec![("b".to_string(), ("B".to_string(), String::new()))];
    assert_eq!(unresolved(&ids, &found), vec!["a", "c"]);
}
