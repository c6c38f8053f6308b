//! Which data sources to open at start-up. The file checks (does a path
//! exist, is there a `usage.csv`, which caches are on disk) are made by the
//! caller; the decisions on what they found are here.
use crate::data_source::{db_from_label, DbType, PersistedSource};
use crate::misc::{path_equals_ignore_slash, path_key};
use vstd::prelude::*;

verus! {

/// A stored entry as read: its path, its kind's name, and whether the path
/// exists.
pub type CheckedEntry = (String, String, bool);

/// What start-up does with the stored source list.
#[derive(Debug)]
pub enum StartupPlan {
    /// Open these entries.
    Open(Vec<PersistedSource>),
    /// Sources were stored but none of their paths exists: open nothing.
    NothingExists,
    /// Nothing usable was stored: look for the default sources.
    Defaults,
}

/// The entries of `v` whose path exists, in order.
pub open spec fn existing(v: Seq<CheckedEntry>) -> Seq<CheckedEntry> {
    v.filter(|e: CheckedEntry| e.2)
}

/// `out` holds the paths and kind names of `want`.
pub open spec fn sources_are(out: Seq<PersistedSource>, want: Seq<CheckedEntry>) -> bool {
    &&& out.len() == want.len()
    &&& forall|i: int| 0 <= i < want.len() ==> (#[trigger] out[i]).path@ == want[i].0@ && out[i].db_type@ == want[i].1@
}

/// The plan for the stored settings: `typed` is the source list in the
/// current format (entries with kinds), `legacy` the older list of bare paths
/// (its entries have an empty kind name), `single` the oldest single-path
/// setting. The first list that is there and not empty decides: its
/// existing entries are opened, or nothing when none exists. Failing both,
/// an existing single path is opened; failing that, the defaults are looked
/// for.
pub open spec fn startup_plan_spec(typed: Option<Seq<CheckedEntry>>, legacy: Option<Seq<CheckedEntry>>, single: Option<CheckedEntry>) -> (Option<Seq<CheckedEntry>>, bool) {
    let t = match typed { Some(t) => t, None => Seq::empty() };
    let l = match legacy { Some(l) => l, None => Seq::empty() };
    if t.len() > 0 {
        if existing(t).len() == 0 { (None, true) } else { (Some(existing(t)), false) }
    } else if l.len() > 0 {
        if existing(l).len() == 0 { (None, true) } else { (Some(existing(l)), false) }
    } else {
        match single {
            Some(s) => if s.2 { (Some(seq![s]), false) } else { (None, false) },
            None => (None, false),
        }
    }
}

/// The entries of `v` whose path exists, as sources to open.
fn existing_sources(v: &Vec<CheckedEntry>) -> (out: Vec<PersistedSource>)
    ensures
        sources_are(out@, existing(v@)),
{
    let ghost f = |e: CheckedEntry| e.2;
    let mut out: Vec<PersistedSource> = Vec::new();
    let mut i: usize = 0;
    while i < v.len()
        invariant
            i <= v.len(),
            f == (|e: CheckedEntry| e.2),
            sources_are(out@, v@.take(i as int).filter(f)),
        decreases v.len() - i,
    {
        proof {
            let t = v@.take(i + 1);
            assert(t.drop_last() =~= v@.take(i as int));
            assert(t.last() == v@[i as int]);
            reveal_with_fuel(Seq::<_>::filter, 1);
        }
        if v[i].2 {
            let e = PersistedSource { path: v[i].0.clone(), db_type: v[i].1.clone() };
            out.push(e);
        }
        i = i + 1;
    }
    assert(v@.take(v.len() as int) =~= v@);
    out
}

/// Decides what start-up opens from the stored settings (see
/// `startup_plan_spec`).
pub fn startup_plan(typed: Option<Vec<CheckedEntry>>, legacy: Option<Vec<CheckedEntry>>, single: Option<CheckedEntry>) -> (r: StartupPlan)
    ensures
        ({
            let want = startup_plan_spec(
                match typed { Some(t) => Some(t@), None => None },
                match legacy { Some(l) => Some(l@), None => None },
                single,
            );
            match r {
                StartupPlan::Open(v) => want.0 matches Some(w) && sources_are(v@, w),
                StartupPlan::NothingExists => want.0 is None && want.1,
                StartupPlan::Defaults => want.0 is None && !want.1,
            }
        }),
{
    if let Some(t) = &typed {
        if t.len() > 0 {
            let out = existing_sources(t);
            if out.len() == 0 {
                return StartupPlan::NothingExists;
            }
            return StartupPlan::Open(out);
        }
    }
    if let Some(l) = &legacy {
        if l.len() > 0 {
            let out = existing_sources(l);
            if out.len() == 0 {
                return StartupPlan::NothingExists;
            }
            return StartupPlan::Open(out);
        }
    }
    match single {
        Some(s) => {
            if s.2 {
                let mut out: Vec<PersistedSource> = Vec::new();
                out.push(PersistedSource { path: s.0, db_type: s.1 });
                StartupPlan::Open(out)
            } else {
                StartupPlan::Defaults
            }
        },
        None => StartupPlan::Defaults,
    }
}

/// `out` holds the path / kind-name pairs of `want`.
pub open spec fn pairs_are(out: Seq<PersistedSource>, want: Seq<(Seq<char>, Seq<char>)>) -> bool {
    &&& out.len() == want.len()
    &&& forall|i: int| 0 <= i < want.len() ==> (#[trigger] out[i]).path@ == want[i].0 && out[i].db_type@ == want[i].1
}

/// The entry for a default path that was found, under kind name `label`.
pub open spec fn found_entry(p: Option<String>, label: Seq<char>) -> Seq<(Seq<char>, Seq<char>)> {
    match p {
        Some(s) => seq![(s@, label)],
        None => Seq::empty(),
    }
}

/// The default sources in the order start-up registers them: CC-Switch,
/// OpenCode, AI-proxy, the Cursor account caches, Proma, DSH, MiniMax. Each
/// argument is the path found for that kind (the caches: all of them), or
/// `None` when its check failed.
pub open spec fn default_list(ccs: Option<String>, opencode: Option<String>, ai_proxy: Option<String>, cursor_caches: Seq<String>, proma: Option<String>, dsh: Option<String>, minimax: Option<String>) -> Seq<(Seq<char>, Seq<char>)> {
    found_entry(ccs, "CCS"@) + found_entry(opencode, "OpenCode"@) + found_entry(ai_proxy, "AIProxy"@)
        + cursor_caches.map_values(|c: String| (c@, "Cursor"@)) + found_entry(proma, "Proma"@)
        + found_entry(dsh, "DSH"@) + found_entry(minimax, "MiniMax"@)
}

fn push_found(out: &mut Vec<PersistedSource>, p: Option<String>, label: &str)
    ensures
        pairs_are(final(out)@, {
            let w = found_entry(p, label@);
            Seq::new(old(out)@.len(), |i: int| (old(out)@[i].path@, old(out)@[i].db_type@)) + w
        }),
{
    match p {
        Some(s) => {
            out.push(PersistedSource { path: s, db_type: crate::text::owned(label) });
        },
        None => {},
    }
}

/// The default sources to open, in order (see `default_list`).
pub fn default_sources(ccs: Option<String>, opencode: Option<String>, ai_proxy: Option<String>, cursor_caches: Vec<String>, proma: Option<String>, dsh: Option<String>, minimax: Option<String>) -> (out: Vec<PersistedSource>)
    ensures
        pairs_are(out@, default_list(ccs, opencode, ai_proxy, cursor_caches@, proma, dsh, minimax)),
{
    let ghost want = default_list(ccs, opencode, ai_proxy, cursor_caches@, proma, dsh, minimax);
    let ghost head = found_entry(ccs, "CCS"@) + found_entry(opencode, "OpenCode"@) + found_entry(ai_proxy, "AIProxy"@);
    let ghost caches = cursor_caches@.map_values(|c: String| (c@, "Cursor"@));
    let mut out: Vec<PersistedSource> = Vec::new();
    push_found(&mut out, ccs, "CCS");
    push_found(&mut out, opencode, "OpenCode");
    push_found(&mut out, ai_proxy, "AIProxy");
    assert(pairs_are(out@, head)) by {
        assert(Seq::new(0, |i: int| (out@[i].path@, out@[i].db_type@)) + found_entry(ccs, "CCS"@) =~= found_entry(ccs, "CCS"@));
    }
    let mut i: usize = 0;
    while i < cursor_caches.len()
        invariant
            i <= cursor_caches.len(),
            caches == cursor_caches@.map_values(|c: String| (c@, "Cursor"@)),
            pairs_are(out@, head + caches.take(i as int)),
        decreases cursor_caches.len() - i,
    {
        let c = cursor_caches[i].clone();
        out.push(PersistedSource { path: c, db_type: crate::text::owned("Cursor") });
        assert(head + caches.take(i + 1) =~= (head + caches.take(i as int)).push(caches[i as int]));
        i = i + 1;
    }
    assert(caches.take(cursor_caches.len() as int) =~= caches);
    push_found(&mut out, proma, "Proma");
    push_found(&mut out, dsh, "DSH");
    push_found(&mut out, minimax, "MiniMax");
    proof {
        let a = head + caches;
        let b = a + found_entry(proma, "Proma"@);
        let c = b + found_entry(dsh, "DSH"@);
        assert(want =~= c + found_entry(minimax, "MiniMax"@));
    }
    out
}

/// What start-up does with one entry.
#[derive(Debug, Clone, Copy, PartialEq, Eq, Structural)]
pub enum EntryAction {
    /// Leave it out.
    Skip,
    /// Open it as a source of this kind.
    Open(DbType),
    /// Open it with its kind detected from its content.
    Detect,
}

/// `path` is the old flat Cursor cache root (same text, or the same path
/// once slashes and case are ignored).
pub open spec fn is_cache_root(path: Seq<char>, cache_root: Option<Seq<char>>) -> bool {
    cache_root matches Some(r) && (path == r || path_key(path) == path_key(r))
}

/// The action for a stored entry: the old cache root is skipped unless it
/// holds a `usage.csv`; an entry with a known kind name is opened as that
/// kind; an entry without one has its kind detected.
pub open spec fn entry_action_spec(path: Seq<char>, db_type: Seq<char>, cache_root: Option<Seq<char>>, has_usage_csv: bool) -> EntryAction {
    if is_cache_root(path, cache_root) && !has_usage_csv {
        EntryAction::Skip
    } else {
        match db_from_label(db_type) {
            Some(t) => EntryAction::Open(t),
            None => EntryAction::Detect,
        }
    }
}

/// Decides how to open a stored entry; `has_usage_csv` says whether
/// `usage.csv` is a file in its directory.
pub fn entry_action(path: &str, db_type: &str, cache_root: Option<&str>, has_usage_csv: bool) -> (a: EntryAction)
    ensures
        a == entry_action_spec(path@, db_type@, match cache_root { Some(r) => Some(r@), None => None }, has_usage_csv),
{
    let is_root = match cache_root {
        Some(r) => crate::text::str_eq(path, r) || path_equals_ignore_slash(path, r),
        None => false,
    };
    if is_root && !has_usage_csv {
        return EntryAction::Skip;
    }
    match DbType::from_label(db_type) {
        Some(t) => EntryAction::Open(t),
        None => EntryAction::Detect,
    }
}

/// A Cursor source with the path of `cache` is among `loaded`.
pub open spec fn cache_loaded(loaded: Seq<(DbType, String)>, cache: Seq<char>) -> bool {
    exists|i: int| 0 <= i < loaded.len() && (#[trigger] loaded[i]).0 == DbType::Cursor && path_key(loaded[i].1@) == path_key(cache)
}

/// An account cache found on disk is registered unless a Cursor source with
/// its path (slashes and case ignored) is loaded already.
pub fn cache_needs_register(loaded: &Vec<(DbType, String)>, cache: &str) -> (b: bool)
    ensures
        b == !cache_loaded(loaded@, cache@),
{
    let mut i: usize = 0;
    while i < loaded.len()
        invariant
            i <= loaded.len(),
            forall|k: int| 0 <= k < i ==> !((#[trigger] loaded@[k]).0 == DbType::Cursor && path_key(loaded@[k].1@) == path_key(cache@)),
        decreases loaded.len() - i,
    {
        if loaded[i].0 == DbType::Cursor && path_equals_ignore_slash(loaded[i].1.as_str(), cache) {
            return false;
        }
        i = i + 1;
    }
    true
}

/// DSH and MiniMax are registered once: when their data is there and no
/// source of their kind is loaded.
pub fn needs_source(available: bool, loaded: &Vec<DbType>, kind: DbType) -> (b: bool)
    ensures
        b == (available && !loaded@.contains(kind)),
{
    if !available {
        return false;
    }
    let mut i: usize = 0;
    while i < loaded.len()
        invariant
            i <= loaded.len(),
            forall|k: int| 0 <= k < i ==> loaded@[k] != kind,
        decreases loaded.len() - i,
    {
        if loaded[i] == kind {
            return false;
        }
        i = i + 1;
    }
    true
}

} // verus!
