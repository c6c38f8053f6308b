use usage_stats::dedup::{dedup_records, dedup_request_tokens, RequestCache, RequestFingerprint};
use usage_stats::models::{RawRecord, SessionRequestToken};

fn token(session_id: &str, model: &str, created_at: i64, input: i64, output: i64) -> SessionRequestToken {
    SessionRequestToken {
        session_id: session_id.to_string(),
        model: model.to_string(),
        created_at,
        input_tokens: input,
        output_tokens: output,
        cache_read: 0,
        cache_creation: 0,
    }
}

fn raw_record(session_id: &str, model: &str, provider_id: &str, input: i64, output: i64, cache_read: i64, is_codex: bool) -> RawRecord {
    RawRecord {
        session_id: session_id.to_string(),
        model: model.to_string(),
        provider_id: provider_id.to_string(),
        created_at: 0,
        input_tokens: input,
        output_tokens: output,
        cache_read,
        cache_creation: 0,
        latency: 0,
        is_codex,
    }
}

#[test]
fn fingerprint_equality() {
    let a = RequestFingerprint::new("s1", "m1", 100, 200);
    let b = RequestFingerprint::new("s1", "m1", 100, 200);
    assert_eq!(a, b);
}

#[test]
fn fingerprint_inequality_different_session() {
    let a = RequestFingerprint::new("s1", "m1", 100, 200);
    let b = RequestFingerprint::new("s2", "m1", 100, 200);
    assert_ne!(a, b);
}

#[test]
fn fingerprint_inequality_different_tokens() {
    let a = RequestFingerprint::new("s1", "m1", 100, 200);
    let b = RequestFingerprint::new("s1", "m1", 100, 300);
    assert_ne!(a, b);
}

#[test]
fn fingerprint_does_not_include_timestamp() {
    let a = RequestFingerprint::new("s1", "m1", 100, 200);
    let b = RequestFingerprint::new("s1", "m1", 100, 200);
    assert_eq!(a, b);
}

#[test]
fn dedup_empty() {
    let result = dedup_request_tokens(vec![]);
    assert!(result.is_empty());
}

#[test]
fn dedup_no_duplicates() {
    let items = vec![
        token("s1", "m1", 1000, 100, 200),
        token("s1", "m2", 1001, 100, 200),
        token("s2", "m1", 1002, 100, 200),
    ];
    let result = dedup_request_tokens(items);
    assert_eq!(result.len(), 3);
}

#[test]
fn dedup_removes_duplicates() {
    let items = vec![
        token("s1", "m1", 1000, 100, 200),
        token("s1", "m1", 1000, 100, 200),
        token("s1", "m1", 1000, 100, 200),
    ];
    let result = dedup_request_tokens(items);
    assert_eq!(result.len(), 1);
}

#[test]
fn dedup_first_wins() {
    let mut first = token("s1", "m1", 1000, 100, 200);
    first.cache_read = 42;
    let mut second = token("s1", "m1", 1000, 100, 200);
    second.cache_read = 99;
    let result = dedup_request_tokens(vec![first, second]);
    assert_eq!(result.len(), 1);
    assert_eq!(result[0].cache_read, 42);
}

#[test]
fn dedup_same_session_different_model() {
    let items = vec![
        token("s1", "sonnet-3", 1000, 100, 200),
        token("s1", "sonnet-4", 1001, 100, 200),
    ];
    let result = dedup_request_tokens(items);
    assert_eq!(result.len(), 2);
}

#[test]
fn dedup_same_session_same_model_different_tokens() {
    let items = vec![
        token("s1", "m1", 1000, 100, 200),
        token("s1", "m1", 1001, 150, 300),
    ];
    let result = dedup_request_tokens(items);
    assert_eq!(result.len(), 2);
}

#[test]
fn cache_new_empty() {
    let cache = RequestCache::new(100);
    assert_eq!(cache.len(), 0);
    assert!(cache.records().is_empty());
}

#[test]
fn cache_merge_adds_records() {
    let mut cache = RequestCache::new(100);
    let added = cache.merge(vec![
        token("s1", "m1", 1000, 100, 200),
        token("s2", "m1", 1001, 300, 400),
    ]);
    assert_eq!(added, 2);
    assert_eq!(cache.len(), 2);
}

#[test]
fn cache_merge_deduplicates() {
    let mut cache = RequestCache::new(100);
    cache.merge(vec![token("s1", "m1", 1000, 100, 200)]);
    let added = cache.merge(vec![token("s1", "m1", 1000, 100, 200)]);
    assert_eq!(added, 0);
    assert_eq!(cache.len(), 1);
}

#[test]
fn cache_merge_incremental() {
    let mut cache = RequestCache::new(100);
    cache.merge(vec![
        token("s1", "m1", 1000, 100, 200),
        token("s2", "m1", 1001, 300, 400),
    ]);
    let added = cache.merge(vec![
        token("s1", "m1", 1000, 100, 200),
        token("s3", "m1", 1002, 500, 600),
    ]);
    assert_eq!(added, 1);
    assert_eq!(cache.len(), 3);
}

#[test]
fn cache_eviction_keeps_newest() {
    let mut cache = RequestCache::new(3);
    cache.merge(vec![
        token("s1", "m1", 1000, 100, 200),
        token("s2", "m1", 2000, 300, 400),
        token("s3", "m1", 3000, 500, 600),
    ]);
    assert_eq!(cache.len(), 3);
    cache.merge(vec![token("s4", "m1", 4000, 700, 800)]);
    assert_eq!(cache.len(), 3);
    let session_ids: Vec<_> = cache.records().iter().map(|r| r.session_id.as_str()).collect();
    assert!(!session_ids.contains(&"s1"));
    assert!(session_ids.contains(&"s4"));
}

#[test]
fn cache_eviction_cleans_seen_set() {
    let mut cache = RequestCache::new(2);
    cache.merge(vec![
        token("s1", "m1", 1000, 100, 200),
        token("s2", "m1", 2000, 300, 400),
    ]);
    let added = cache.merge(vec![token("s3", "m1", 3000, 500, 600)]);
    assert_eq!(added, 1);
    assert_eq!(cache.len(), 2);
    let added = cache.merge(vec![token("s1", "m1", 1000, 100, 200)]);
    assert_eq!(added, 1);
}

#[test]
fn cache_clear() {
    let mut cache = RequestCache::new(100);
    cache.merge(vec![
        token("s1", "m1", 1000, 100, 200),
        token("s2", "m1", 2001, 300, 400),
    ]);
    cache.clear();
    assert_eq!(cache.len(), 0);
    assert!(cache.records().is_empty());
    let added = cache.merge(vec![token("s1", "m1", 1000, 100, 200)]);
    assert_eq!(added, 1);
}

#[test]
fn codex_cross_source_dedup() {
    let ccs = raw_record("s1", "gpt-5.4-mini", "_codex_session", 27505, 16857, 26624, true);
    let aiproxy = raw_record("s1", "deepseek-v4-flash", "ai-proxy", 881, 16857, 26624, true);
    let result = dedup_records(vec![aiproxy, ccs]);
    assert_eq!(result.len(), 1);
    assert_eq!(result[0].model, "deepseek-v4-flash");
    assert_eq!(result[0].provider_id, "ai-proxy");
}

#[test]
fn codex_ccs_only_preserved() {
    let ccs = raw_record("s1", "gpt-5.3-codex", "_codex_session", 15468, 7923, 13952, true);
    let result = dedup_records(vec![ccs]);
    assert_eq!(result.len(), 1);
    assert_eq!(result[0].model, "gpt-5.3-codex");
}

#[test]
fn codex_and_noncodex_never_cross() {
    let codex = raw_record("s1", "deepseek-v4-flash", "ai-proxy", 881, 200, 0, true);
    let non_codex = raw_record("s1", "deepseek-v4-flash", "ai-proxy", 881, 200, 0, false);
    let result = dedup_records(vec![codex, non_codex]);
    assert_eq!(result.len(), 2);
}

#[test]
fn codex_fingerprint_ignores_model() {
    let a = raw_record("s1", "model-a", "ai-proxy", 100, 200, 0, true);
    let b = raw_record("s1", "model-b", "ai-proxy", 100, 200, 0, true);
    let result = dedup_records(vec![a, b]);
    assert_eq!(result.len(), 1);
}

#[test]
fn codex_ai_proxy_priority() {
    let ccs = raw_record("s1", "gpt-5.4-mini", "_codex_session", 1000, 500, 900, true);
    let aiproxy = raw_record("s1", "deepseek-v4-flash", "ai-proxy", 100, 500, 900, true);
    let result = dedup_records(vec![aiproxy.clone(), ccs]);
    assert_eq!(result.len(), 1);
    assert_eq!(result[0].provider_id, "ai-proxy");
    assert_eq!(result[0].input_tokens, 100);
}

#[test]
fn codex_fingerprint_equality() {
    let fp_ccs = {
        let r = raw_record("s1", "gpt-5.3-codex", "_codex_session", 1000, 200, 900, true);
        let normalized = r.input_tokens.saturating_sub(r.cache_read);
        RequestFingerprint::new_codex(&r.session_id, normalized, r.output_tokens)
    };
    let fp_aiproxy = {
        let r = raw_record("s1", "deepseek-v4-flash", "ai-proxy", 100, 200, 900, true);
        RequestFingerprint::new_codex(&r.session_id, r.input_tokens, r.output_tokens)
    };
    assert_eq!(fp_ccs, fp_aiproxy);
}

#[test]
fn dedup_is_idempotent_on_example() {
    let items = vec![
        token("s1", "m1", 1000, 100, 200),
        token("s1", "m1", 1001, 100, 200),
        token("s2", "m1", 1002, 100, 200),
    ];
    let once = dedup_request_tokens(items);
    let twice = dedup_request_tokens(once.clone());
    assert_eq!(once.len(), 2);
    assert_eq!(twice.len(), 2);
    assert_eq!(once[0].created_at, twice[0].created_at);
    assert_eq!(once[1].session_id, twice[1].session_id);
}

#[test]
fn cache_eviction_order_is_newest_first() {
    let mut cache = RequestCache::new(2);
    cache.merge(vec![
        token("a", "m", 10, 1, 1),
        token("b", "m", 30, 2, 2),
        token("c", "m", 20, 3, 3),
    ]);
    let ids: Vec<&str> = cache.records().iter().map(|r| r.session_id.as_str()).collect();
    assert_eq!(ids, vec!["b", "c"]);
}

#[test]
fn codex_normalized_input_can_go_below_zero() {
    // 5 - 100 without a floor at zero: -95, the same as the proxy row.
    let a = raw_record("s1", "m", "_codex_session", 5, 7, 100, true);
    let b = raw_record("s1", "m2", "ai-proxy", -95, 7, 0, true);
    let result = dedup_records(vec![a, b]);
    assert_eq!(result.len(), 1);
    assert_eq!(result[0].provider_id, "_codex_session");
}
