use usage_stats::attribution::{AttributionTokenStats, TokenQuad};
use usage_stats::status::{cursor_accounts, multi_account_hint, CursorAccountStatus};

fn quad() -> TokenQuad {
    TokenQuad { input: 0, output: 0, cache_read: 0, cache_creation: 0 }
}

fn account(user_id: &str, path: &str, records: i64) -> CursorAccountStatus {
    CursorAccountStatus {
        user_id: user_id.to_string(),
        path: path.to_string(),
        record_count: records,
        last_sync: None,
        is_sync_account: false,
        enabled: true,
        source_id: String::new(),
        attribution_stats: AttributionTokenStats { csv_total: quad(), filtered_out: quad() },
    }
}

#[test]
fn accounts_skip_listed_directories_and_sort_by_user() {
    let loaded = vec![account("user_b", "C:\\cache\\B\\", 5), account("user_a", "/cache/a", 3)];
    let disk = vec![account("user_b", "c:/cache/b", 0), account("user_c", "/cache/c", 0), account("user_a2", "/cache/c/", 0)];
    let out = cursor_accounts(loaded, disk);
    let ids: Vec<(&str, i64)> = out.iter().map(|a| (a.user_id.as_str(), a.record_count)).collect();
    assert_eq!(ids, vec![("user_a", 3), ("user_b", 5), ("user_c", 0)]);
}

#[test]
fn accounts_with_equal_ids_keep_their_order() {
    let out = cursor_accounts(vec![account("x", "/p1", 1), account("x", "/p2", 2)], vec![account("a", "/p3", 0)]);
    let counts: Vec<i64> = out.iter().map(|a| a.record_count).collect();
    assert_eq!(counts, vec![0, 1, 2]);
}

#[test]
fn hint_mentions_shared_hook_once() {
    assert_eq!(multi_account_hint(true, "已装 Hook".to_string()), "已装 Hook（多账号共用本机 Hook）");
    assert_eq!(multi_account_hint(true, "已有多账号".to_string()), "已有多账号");
    assert_eq!(multi_account_hint(false, "h".to_string()), "h");
    assert_eq!(multi_account_hint(true, String::new()), "");
}
