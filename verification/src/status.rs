//! What the status commands report to the front end.
use crate::attribution::AttributionTokenStats;
use crate::hooks::HookAlert;
use crate::misc::{path_equals_ignore_slash, path_key};
use crate::text::{self, contains, str_lt};
use vstd::prelude::*;

verus! {

/// One loaded Cursor account.
#[derive(Debug)]
pub struct CursorAccountStatus {
    pub user_id: String,
    pub path: String,
    pub record_count: i64,
    pub last_sync: Option<i64>,
    pub is_sync_account: bool,
    pub enabled: bool,
    pub source_id: String,
    pub attribution_stats: AttributionTokenStats,
}

/// The state of the Cursor integration.
#[derive(Debug)]
pub struct CursorStatus {
    pub logged_in: bool,
    /// The user id of the account that syncs.
    pub user_id: Option<String>,
    pub last_sync: Option<i64>,
    /// Records of all loaded Cursor accounts together.
    pub record_count: i64,
    pub cache_path: Option<String>,
    pub membership_type: Option<String>,
    pub attribution_enabled: bool,
    pub hook_installed: bool,
    pub local_event_count: i64,
    pub attribution_hint: String,
    pub attribution_stats: AttributionTokenStats,
    /// The start of local attribution (Unix seconds).
    pub attribution_filter_start: i64,
    pub sync_lookback: String,
    pub hook_backup_period: String,
    pub hook_backup_count: i64,
    pub hook_last_backup_at: Option<i64>,
    pub hook_alert: Option<HookAlert>,
    pub accounts: Vec<CursorAccountStatus>,
}

/// The default data locations that exist, per source kind.
#[derive(Debug)]
pub struct DefaultPaths {
    pub cc_switch: Option<String>,
    pub opencode: Option<String>,
    pub ai_proxy: Option<String>,
    pub cursor: Option<String>,
    pub z_code: Option<String>,
    pub proma: Option<String>,
    pub dsh: Option<String>,
    pub minimax: Option<String>,
}

/// The DSH source settings.
#[derive(Debug)]
pub struct DshSettings {
    /// The plugin's data is used (else the session logs are scanned).
    pub use_plugin: bool,
    /// The DSH data directory, when it exists.
    pub data_dir: Option<String>,
    /// The plugin data directory the user chose, if any.
    pub custom_data_dir: Option<String>,
    /// The plugin data directory in effect (it may not exist).
    pub plugin_data_dir: Option<String>,
    /// The plugin data directory exists.
    pub plugin_installed: bool,
    /// The number of daily usage files of the plugin.
    pub usage_files: u32,
    /// DSH records already imported.
    pub total_records: i64,
}

/// The state of the TrafficMonitor service.
#[derive(Debug, Clone, Copy, PartialEq, Eq, Structural)]
pub struct TmServiceStatus {
    pub enabled: bool,
    pub running: bool,
    pub port: u16,
}

/// A provider configured in CC-Switch.
#[derive(Debug)]
pub struct CcSwitchProvider {
    pub id: String,
    pub name: String,
    pub has_env: bool,
}

/// The title of a session and where it came from.
#[derive(Debug)]
pub struct SessionTitleInfo {
    pub title: String,
    pub project: String,
    pub source: String,
}

/// How many task sessions were opened.
#[derive(Debug, Clone, Copy, PartialEq, Eq, Structural)]
pub struct OpenTaskSessionsResult {
    pub spawned: usize,
    pub total: usize,
}

// ---------------------------------------------------------------------------
// Accounts of the Cursor status
// ---------------------------------------------------------------------------

/// The loaded accounts, then each account found on disk whose directory is
/// not listed yet (directories compared without case and trailing slashes).
pub open spec fn listed_accounts(loaded: Seq<CursorAccountStatus>, disk: Seq<CursorAccountStatus>) -> Seq<CursorAccountStatus>
    decreases disk.len(),
{
    if disk.len() == 0 {
        loaded
    } else {
        let m = listed_accounts(loaded, disk.drop_last());
        let d = disk.last();
        if exists|i: int| 0 <= i < m.len() && path_key((#[trigger] m[i]).path@) == path_key(d.path@) {
            m
        } else {
            m.push(d)
        }
    }
}

/// `s` with `x` inserted after every account whose user id is not greater.
pub open spec fn ins_by_user(s: Seq<CursorAccountStatus>, x: CursorAccountStatus) -> Seq<CursorAccountStatus>
    decreases s.len(),
{
    if s.len() == 0 {
        seq![x]
    } else if str_lt(x.user_id@, s[0].user_id@) {
        seq![x] + s
    } else {
        seq![s[0]] + ins_by_user(s.drop_first(), x)
    }
}

/// `s` ordered by user id; accounts with equal ids keep their order.
pub open spec fn sort_by_user(s: Seq<CursorAccountStatus>) -> Seq<CursorAccountStatus>
    decreases s.len(),
{
    if s.len() == 0 {
        Seq::empty()
    } else {
        ins_by_user(sort_by_user(s.drop_last()), s.last())
    }
}

proof fn lemma_ins_by_user_at(s: Seq<CursorAccountStatus>, x: CursorAccountStatus, pos: int)
    requires
        0 <= pos <= s.len(),
        forall|k: int| 0 <= k < pos ==> !str_lt(x.user_id@, (#[trigger] s[k]).user_id@),
        pos < s.len() ==> str_lt(x.user_id@, s[pos].user_id@),
    ensures
        ins_by_user(s, x) == s.insert(pos, x),
    decreases s.len(),
{
    if s.len() == 0 {
        assert(s.insert(pos, x) =~= seq![x]);
    } else if pos == 0 {
        assert(s.insert(0, x) =~= seq![x] + s);
    } else {
        let t = s.drop_first();
        assert forall|k: int| 0 <= k < pos - 1 implies !str_lt(x.user_id@, (#[trigger] t[k]).user_id@) by {
            assert(t[k] == s[k + 1]);
        }
        if pos - 1 < t.len() {
            assert(t[pos - 1] == s[pos]);
        }
        assert(!str_lt(x.user_id@, s[0].user_id@));
        lemma_ins_by_user_at(t, x, pos - 1);
        assert(s.insert(pos, x) =~= seq![s[0]] + t.insert(pos - 1, x));
    }
}

/// The accounts the Cursor status lists: the loaded accounts and the
/// not-yet-listed ones found on disk, ordered by user id (stable).
pub fn cursor_accounts(loaded: Vec<CursorAccountStatus>, disk: Vec<CursorAccountStatus>) -> (out: Vec<CursorAccountStatus>)
    ensures
        out@ == sort_by_user(listed_accounts(loaded@, disk@)),
{
    let mut merged = loaded;
    let ghost base = merged@;
    let mut disk = disk;
    let ghost orig = disk@;
    let n = disk.len();
    let mut k: usize = 0;
    while k < n
        invariant
            k <= n,
            n == orig.len(),
            disk@ == orig.subrange(k as int, n as int),
            merged@ == listed_accounts(base, orig.take(k as int)),
        decreases n - k,
    {
        let d = disk.remove(0);
        proof {
            assert(d == orig[k as int]);
            let t = orig.take(k + 1);
            assert(t.drop_last() =~= orig.take(k as int));
            assert(t.last() == d);
        }
        let mut j: usize = 0;
        let mut seen = false;
        while j < merged.len()
            invariant_except_break
                !seen,
            invariant
                j <= merged.len(),
                forall|i: int| 0 <= i < j ==> path_key((#[trigger] merged@[i]).path@) != path_key(d.path@),
            ensures
                seen <==> exists|i: int| 0 <= i < merged.len() && path_key((#[trigger] merged@[i]).path@) == path_key(d.path@),
            decreases merged.len() - j,
        {
            if path_equals_ignore_slash(merged[j].path.as_str(), d.path.as_str()) {
                seen = true;
                break;
            }
            j = j + 1;
        }
        if !seen {
            merged.push(d);
        }
        k = k + 1;
        assert(disk@ =~= orig.subrange(k as int, n as int));
    }
    assert(orig.take(n as int) =~= orig);
    let ghost all = merged@;
    let m = merged.len();
    let mut sorted: Vec<CursorAccountStatus> = Vec::new();
    let mut i: usize = 0;
    while i < m
        invariant
            i <= m,
            m == all.len(),
            merged@ == all.subrange(i as int, m as int),
            sorted@ == sort_by_user(all.take(i as int)),
        decreases m - i,
    {
        let x = merged.remove(0);
        proof {
            assert(x == all[i as int]);
        }
        let xv = text::chars_of(x.user_id.as_str());
        let mut pos: usize = 0;
        while pos < sorted.len() && !text::str_lt_exec(&xv, &text::chars_of(sorted[pos].user_id.as_str()))
            invariant
                pos <= sorted.len(),
                xv@ == x.user_id@,
                forall|q: int| 0 <= q < pos ==> !str_lt(x.user_id@, (#[trigger] sorted@[q]).user_id@),
            decreases sorted.len() - pos,
        {
            pos = pos + 1;
        }
        proof {
            lemma_ins_by_user_at(sorted@, x, pos as int);
            let u = all.take(i + 1);
            assert(u.drop_last() =~= all.take(i as int));
            assert(u.last() == x);
        }
        sorted.insert(pos, x);
        i = i + 1;
        assert(merged@ =~= all.subrange(i as int, m as int));
    }
    assert(all.take(m as int) =~= all);
    sorted
}

/// The attribution hint of the status: with attribution on, a non-empty hint
/// that does not mention accounts yet says that all accounts share the local
/// hook.
pub fn multi_account_hint(enabled: bool, hint: String) -> (r: String)
    ensures
        r@ == (if enabled && hint@.len() > 0 && !contains(hint@, "多账号"@) {
            hint@ + "（多账号共用本机 Hook）"@
        } else {
            hint@
        }),
{
    if enabled && text::chars_of(hint.as_str()).len() > 0 && !text::str_contains(hint.as_str(), "多账号") {
        let mut r = hint;
        text::push_str(&mut r, "（多账号共用本机 Hook）");
        r
    } else {
        hint
    }
}

/// The cache directory the status shows: the active account's cache, else
/// the first listed account's path, else the cache root.
pub fn status_cache_path(active: Option<String>, accounts: &Vec<CursorAccountStatus>, cache_root: Option<String>) -> (r: Option<String>)
    ensures
        active is Some ==> r == active,
        active is None && accounts@.len() > 0 ==> (r matches Some(p) && p@ == accounts@[0].path@),
        active is None && accounts@.len() == 0 ==> r == cache_root,
{
    match active {
        Some(a) => Some(a),
        None => if accounts.len() > 0 {
            Some(text::owned(accounts[0].path.as_str()))
        } else {
            cache_root
        },
    }
}

/// The sum of the counts.
pub open spec fn count_sum(s: Seq<i64>) -> int
    decreases s.len(),
{
    if s.len() == 0 { 0 } else { count_sum(s.drop_last()) + s.last() }
}

/// Every partial sum of the counts fits in `i64`.
pub open spec fn count_sums_fit(s: Seq<i64>) -> bool {
    forall|k: int| #![trigger s.take(k)] 0 <= k <= s.len() ==> i64::MIN <= count_sum(s.take(k)) <= i64::MAX
}

/// The record count of the Cursor status: the sum of the loaded accounts'
/// counts.
pub fn total_record_count(counts: &Vec<i64>) -> (n: i64)
    requires
        count_sums_fit(counts@),
    ensures
        n == count_sum(counts@),
{
    let mut n: i64 = 0;
    let mut i: usize = 0;
    while i < counts.len()
        invariant
            i <= counts.len(),
            count_sums_fit(counts@),
            n == count_sum(counts@.take(i as int)),
        decreases counts.len() - i,
    {
        proof {
            let t = counts@.take(i + 1);
            assert(t.drop_last() =~= counts@.take(i as int));
            assert(t.last() == counts@[i as int]);
            let k = i + 1;
            assert(counts@.take(k) == t);
        }
        n = n + counts[i];
        i = i + 1;
    }
    assert(counts@.take(counts.len() as int) =~= counts@);
    n
}

} // verus!
