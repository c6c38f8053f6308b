use usage_stats::attribution::{AttributionTokenStats, TokenQuad};
use usage_stats::misc::{
    ccs_auto_discover_enabled, clean_kimi_title, is_cache_inclusive_app, is_dsh_session_file,
    is_plugin_file, merge_attr_stats, merge_token_quad, normalize_input_tokens, parse_tz_param,
    path_equals_ignore_slash, KimiSessionMetadata,
};

#[test]
fn test_is_plugin_file() {
    assert!(is_plugin_file("usage-2026-08-14.jsonl"));
    assert!(is_plugin_file("usage-2026-01-05.jsonl"));
    assert!(!is_plugin_file("state.json"));
    assert!(!is_plugin_file("usage-2026-8-14.jsonl"));
    assert!(!is_plugin_file("usage-2026-08-14.json"));
    assert!(!is_plugin_file("usage-2026-08-14.jsonl.bak"));
    assert!(!is_plugin_file("session.jsonl"));
    assert!(!is_plugin_file(""));
}

#[test]
fn cache_inclusive_apps_normalize_fresh_input() {
    assert_eq!(normalize_input_tokens("grokbuild", 700, 250), 450);
    assert_eq!(normalize_input_tokens("codex", 1000, 600), 400);
    assert_eq!(normalize_input_tokens("gemini", 800, 300), 500);
    assert_eq!(normalize_input_tokens("opencode", 200, 5000), 200);
    assert!(is_cache_inclusive_app("grokbuild"));
    assert!(!is_cache_inclusive_app("opencode"));
}

#[test]
fn test_clean_kimi_title() {
    assert_eq!(
        clean_kimi_title("<meta awareness=\"low\" timestamp=\"2026-09-15 22:31\" /> 你支持哪些工具"),
        "你支持哪些工具"
    );
    assert_eq!(clean_kimi_title("普通标题没有meta标签"), "普通标题没有meta标签");
    assert_eq!(clean_kimi_title("<meta awareness=\"low\" />"), "<meta awareness=\"low\" />");
}

#[test]
fn kimi_metadata_defaults_empty() {
    let m = KimiSessionMetadata::default();
    assert!(m.session_id.is_empty() && m.project_dir.is_empty() && m.title.is_empty());
    assert_eq!(clean_kimi_title("  <meta no close"), "<meta no close");
}

#[test]
fn plugin_and_session_file_edges() {
    assert!(!is_plugin_file("usage-2026-08-1x.jsonl"));
    assert!(!is_plugin_file("usage-.jsonl"));
    assert!(!is_plugin_file("usage-2026-08-14-01.jsonl"));
    assert!(is_dsh_session_file("a.zstd"));
    assert!(is_dsh_session_file("a.jsonl"));
    assert!(!is_dsh_session_file("a.json"));
}

#[test]
fn saturating_fresh_input() {
    assert_eq!(normalize_input_tokens("codex", i64::MIN, 1), i64::MIN);
    assert_eq!(normalize_input_tokens("codex", 0, i64::MIN), i64::MAX);
}

#[test]
fn tz_param_from_query() {
    assert_eq!(parse_tz_param("/api/today?tz=-5"), -5);
    assert_eq!(parse_tz_param("/api/today?a=1&tz=9&tz=3"), 9);
    assert_eq!(parse_tz_param("/api/today?tz=x&tz=3"), 8);
    assert_eq!(parse_tz_param("/api/today"), 8);
    assert_eq!(parse_tz_param("/api?x=1?tz=2"), 8);
    assert_eq!(parse_tz_param("/api?tz=+3"), 3);
}

#[test]
fn paths_compare_loosely() {
    assert!(path_equals_ignore_slash("C:\\Data\\App.db\\", "c:/data/app.db"));
    assert!(!path_equals_ignore_slash("/a/b", "/a/c"));
    assert!(path_equals_ignore_slash("/ÄB//", "/äb"));
}

#[test]
fn auto_discover_setting() {
    assert!(ccs_auto_discover_enabled(Some("on"), false));
    assert!(!ccs_auto_discover_enabled(Some("off"), true));
    assert!(ccs_auto_discover_enabled(Some("x"), true));
    assert!(!ccs_auto_discover_enabled(None, false));
}

#[test]
fn attribution_totals_add_up() {
    let mut a = AttributionTokenStats {
        csv_total: TokenQuad { input: 1, output: 2, cache_read: 3, cache_creation: 4 },
        filtered_out: TokenQuad { input: 0, output: 1, cache_read: 0, cache_creation: 1 },
    };
    let b = AttributionTokenStats {
        csv_total: TokenQuad { input: 10, output: 20, cache_read: 30, cache_creation: 40 },
        filtered_out: TokenQuad { input: 5, output: 5, cache_read: 5, cache_creation: 5 },
    };
    merge_attr_stats(&mut a, &b);
    assert_eq!(a.csv_total, TokenQuad { input: 11, output: 22, cache_read: 33, cache_creation: 44 });
    assert_eq!(a.filtered_out, TokenQuad { input: 5, output: 6, cache_read: 5, cache_creation: 6 });
    let mut q = TokenQuad { input: 1, output: 1, cache_read: 1, cache_creation: 1 };
    merge_token_quad(&mut q, &TokenQuad { input: -1, output: 0, cache_read: 1, cache_creation: 2 });
    assert_eq!(q, TokenQuad { input: 0, output: 1, cache_read: 2, cache_creation: 3 });
}
