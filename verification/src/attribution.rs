//! Local attribution of Cursor CSV rows: a CSV row counts as local usage when
//! a local hook event of the same model family lies within a time slack.
use crate::text::{self, ends_with, lowercase, starts_with, to_lowercase, trim};
use vstd::prelude::*;

verus! {

pub const ATTRIBUTION_SETTING_KEY: &'static str = "cursor_local_attribution_enabled";

pub const ATTRIBUTION_FILTER_START_SETTING_KEY: &'static str = "cursor_attribution_filter_start";

pub const ATTRIBUTION_SLACK_SECS: i64 = 300;

pub const OVERRIDES_FILE_NAME: &'static str = "attribution-overrides.json";

/// Whether a CSV timestamp falls under local attribution (`start_epoch` is
/// the configured or default start).
pub fn should_apply_attribution_for_ts(csv_ts: i64, start_epoch: i64) -> (b: bool)
    ensures
        b == (csv_ts >= start_epoch),
{
    csv_ts >= start_epoch
}

/// Four token totals: input, output, cache read, cache write.
#[derive(Debug, Clone, Copy, PartialEq, Eq, Structural, Default)]
pub struct TokenQuad {
    pub input: i64,
    pub output: i64,
    pub cache_read: i64,
    pub cache_creation: i64,
}

/// `a + b`, each total added.
pub open spec fn quad_sum(a: TokenQuad, input: int, output: int, cache_read: int, cache_creation: int) -> (int, int, int, int) {
    (a.input + input, a.output + output, a.cache_read + cache_read, a.cache_creation + cache_creation)
}

/// The four totals fit in `i64` after adding the given amounts.
pub open spec fn quad_fits(a: TokenQuad, input: int, output: int, cache_read: int, cache_creation: int) -> bool {
    &&& i64::MIN <= a.input + input <= i64::MAX
    &&& i64::MIN <= a.output + output <= i64::MAX
    &&& i64::MIN <= a.cache_read + cache_read <= i64::MAX
    &&& i64::MIN <= a.cache_creation + cache_creation <= i64::MAX
}

impl TokenQuad {
    pub fn add_record_tokens(&mut self, input: i64, output: i64, cache_read: i64, cache_creation: i64)
        requires
            quad_fits(*old(self), input as int, output as int, cache_read as int, cache_creation as int),
        ensures
            final(self).input == old(self).input + input,
            final(self).output == old(self).output + output,
            final(self).cache_read == old(self).cache_read + cache_read,
            final(self).cache_creation == old(self).cache_creation + cache_creation,
    {
        self.input = self.input + input;
        self.output = self.output + output;
        self.cache_read = self.cache_read + cache_read;
        self.cache_creation = self.cache_creation + cache_creation;
    }
}

/// CSV totals against the totals filtered out by attribution.
#[derive(Debug, Clone, Copy, PartialEq, Eq, Structural, Default)]
pub struct AttributionTokenStats {
    pub csv_total: TokenQuad,
    pub filtered_out: TokenQuad,
}

/// Why a row is filtered out.
#[derive(Debug, Clone, Copy, PartialEq, Eq, Structural)]
pub enum FilterReason {
    /// Local hooks fire within the slack, but for another model family.
    Model,
    /// Same-family hooks exist, but none within the slack.
    Time,
    /// Neither a hook within the slack nor one of the same family.
    NoMatch,
}

/// A manual verdict on one row.
#[derive(Debug, Clone, Copy, PartialEq, Eq, Structural)]
pub enum OverrideAction {
    Keep,
    Filter,
}

/// One manual verdict as stored in the sidecar file.
#[derive(Debug)]
pub struct OverrideEntry {
    pub action: OverrideAction,
    pub created_at: i64,
    pub model: String,
    pub updated_at: i64,
}

impl Clone for OverrideEntry {
    fn clone(&self) -> (r: Self)
        ensures
            r == *self,
    {
        OverrideEntry {
            action: self.action,
            created_at: self.created_at,
            model: self.model.clone(),
            updated_at: self.updated_at,
        }
    }
}

/// The verdict after the algorithm and any manual override.
#[derive(Debug, Clone, Copy, PartialEq, Eq, Structural)]
pub struct EffectiveAttribution {
    pub filtered: bool,
    pub reason: Option<FilterReason>,
    pub override_action: Option<OverrideAction>,
}

/// One row of the CSV preview.
#[derive(Debug)]
pub struct CursorCsvPreviewRow {
    pub created_at: i64,
    pub model: String,
    pub input: i64,
    pub output: i64,
    pub cache_read: i64,
    pub cache_creation: i64,
    pub filtered: bool,
    pub reason: Option<FilterReason>,
    pub row_key: String,
    pub override_action: Option<OverrideAction>,
    pub user_id: Option<String>,
    pub cache_path: Option<String>,
}

/// One page of the CSV preview.
#[derive(Debug)]
pub struct CursorCsvPreviewPage {
    pub items: Vec<CursorCsvPreviewRow>,
    pub total: usize,
    pub page: usize,
    pub page_size: usize,
    pub available_models: Vec<String>,
}

/// A local hook event usable for attribution.
#[derive(Debug)]
pub struct LocalHookEvent {
    pub ts_epoch: i64,
    pub model: String,
    pub family: String,
    pub hook_event_name: String,
}

impl Clone for LocalHookEvent {
    fn clone(&self) -> (r: Self)
        ensures
            r == *self,
    {
        LocalHookEvent {
            ts_epoch: self.ts_epoch,
            model: self.model.clone(),
            family: self.family.clone(),
            hook_event_name: self.hook_event_name.clone(),
        }
    }
}

// ---------------------------------------------------------------------------
// Model family
// ---------------------------------------------------------------------------

/// Suffixes that mark an effort tier of one model family, tried in order.
pub open spec fn family_suffixes() -> Seq<Seq<char>> {
    seq![
        "-thinking-high"@,
        "-thinking-medium"@,
        "-thinking-low"@,
        "-high"@,
        "-medium"@,
        "-low"@,
        "-max"@,
    ]
}

/// `n` without the first suffix of `sufs` (from index `i` on) that ends it.
pub open spec fn strip_first_suffix(n: Seq<char>, sufs: Seq<Seq<char>>, i: int) -> Seq<char>
    decreases sufs.len() - i,
{
    if i < 0 || i >= sufs.len() {
        n
    } else if ends_with(n, sufs[i]) {
        n.take(n.len() - sufs[i].len())
    } else {
        strip_first_suffix(n, sufs, i + 1)
    }
}

/// The model family of a model name: trimmed, lower-cased, without a
/// `cursor-` prefix and without one effort suffix. `-fast` is kept: it names
/// a model of its own.
pub open spec fn model_family(name: Seq<char>) -> Seq<char> {
    let n0 = lowercase(trim(name));
    let n1 = if starts_with(n0, "cursor-"@) {
        n0.skip(7)
    } else {
        n0
    };
    strip_first_suffix(n1, family_suffixes(), 0)
}

fn family_suffix(i: usize) -> (s: &'static str)
    requires
        i < 7,
    ensures
        s@ == family_suffixes()[i as int],
{
    match i {
        0 => "-thinking-high",
        1 => "-thinking-medium",
        2 => "-thinking-low",
        3 => "-high",
        4 => "-medium",
        5 => "-low",
        _ => "-max",
    }
}

/// Normalises a model name to its family so that CSV rows and hook events
/// compare. Example: `cursor-grok-4.5-high` and `grok-4.5` both give
/// `grok-4.5`.
pub fn normalize_model_family(name: &str) -> (r: String)
    ensures
        r@ == model_family(name@),
{
    let trimmed = text::trim_str(name);
    let lower = to_lowercase(trimmed.as_str());
    let v = text::chars_of(lower.as_str());
    let prefix = text::chars_of("cursor-");
    proof {
        reveal_strlit("cursor-");
    }
    let start: usize = if text::starts_with_exec(&v, &prefix) {
        7
    } else {
        0
    };
    let ghost n1 = v@.skip(start as int);
    assert(n1 =~= v@.subrange(start as int, v@.len() as int));
    assert(v@.skip(0) =~= v@);
    assert(n1 == if starts_with(v@, "cursor-"@) { v@.skip(7) } else { v@ });
    let mut i: usize = 0;
    let mut end: usize = v.len();
    let mut found = false;
    while i < 7
        invariant
            start <= v.len(),
            n1 == v@.subrange(start as int, v@.len() as int),
            i <= 7,
            family_suffixes().len() == 7,
            !found ==> end == v.len(),
            !found ==> strip_first_suffix(n1, family_suffixes(), 0) == strip_first_suffix(
                n1,
                family_suffixes(),
                i as int,
            ),
            found ==> start <= end <= v.len() && strip_first_suffix(n1, family_suffixes(), 0)
                == v@.subrange(start as int, end as int),
        decreases 7 - i,
    {
        if !found {
            let suf = text::chars_of(family_suffix(i));
            let tail = string_tail(&v, start);
            let tv = text::chars_of(tail.as_str());
            if text::ends_with_exec(&tv, &suf) {
                end = v.len() - suf.len();
                found = true;
                assert(n1.take(n1.len() - suf@.len()) =~= v@.subrange(start as int, end as int));
            }
        }
        i = i + 1;
    }
    assert(strip_first_suffix(n1, family_suffixes(), 7) == n1);
    text::string_from_range(&v, start, end)
}

fn string_tail(v: &Vec<char>, start: usize) -> (s: String)
    requires
        start <= v.len(),
    ensures
        s@ == v@.subrange(start as int, v@.len() as int),
{
    text::string_from_range(v, start, v.len())
}

// ---------------------------------------------------------------------------
// Filter reasons
// ---------------------------------------------------------------------------

/// The event has a family and lies within `slack` seconds of `ts`.
pub open spec fn in_slack(e: LocalHookEvent, ts: i64, slack: i64) -> bool {
    e.family@.len() > 0 && -slack <= e.ts_epoch - ts <= slack
}

/// The event has a family and it is `fam`.
pub open spec fn same_family(e: LocalHookEvent, fam: Seq<char>) -> bool {
    e.family@.len() > 0 && e.family@ == fam
}

/// Why a CSV row at `ts` with model `model` is filtered out, or `None` when
/// it is kept. No events at all keeps every row (fail open). The model
/// reason goes before the time reason.
pub open spec fn filter_reason(ts: i64, model: Seq<char>, events: Seq<LocalHookEvent>, slack: i64) -> Option<FilterReason> {
    let fam = model_family(model);
    if events.len() == 0 {
        Option::None
    } else if fam.len() == 0 {
        Some(FilterReason::NoMatch)
    } else if exists|i: int| 0 <= i < events.len() && in_slack(events[i], ts, slack) && same_family(events[i], fam) {
        Option::None
    } else if exists|i: int| 0 <= i < events.len() && in_slack(events[i], ts, slack) {
        Some(FilterReason::Model)
    } else if exists|i: int| 0 <= i < events.len() && same_family(events[i], fam) {
        Some(FilterReason::Time)
    } else {
        Some(FilterReason::NoMatch)
    }
}

/// Explains why a CSV row would be filtered out; `None` keeps it.
pub fn explain_filter_reason(csv_ts: i64, csv_model: &str, events: &[LocalHookEvent], slack_secs: i64) -> (r: Option<FilterReason>)
    ensures
        r == filter_reason(csv_ts, csv_model@, events@, slack_secs),
{
    if events.len() == 0 {
        return Option::None;
    }
    let fam = normalize_model_family(csv_model);
    let fv = text::chars_of(fam.as_str());
    if fv.len() == 0 {
        return Some(FilterReason::NoMatch);
    }
    let ghost f = fam@;
    let mut family_in_slack = false;
    let mut any_in_slack = false;
    let mut family_outside_slack = false;
    let mut i: usize = 0;
    while i < events.len()
        invariant
            i <= events.len(),
            f == fv@,
            f.len() > 0,
            family_in_slack == exists|k: int| 0 <= k < i && in_slack(events@[k], csv_ts, slack_secs) && same_family(events@[k], f),
            any_in_slack == exists|k: int| 0 <= k < i && in_slack(events@[k], csv_ts, slack_secs),
            family_outside_slack ==> exists|k: int| 0 <= k < i && same_family(events@[k], f),
            (exists|k: int| 0 <= k < i && same_family(events@[k], f)) ==> (family_outside_slack || any_in_slack),
        decreases events.len() - i,
    {
        let e = &events[i];
        let ev = text::chars_of(e.family.as_str());
        if ev.len() > 0 {
            let diff: i128 = e.ts_epoch as i128 - csv_ts as i128;
            let inside = -(slack_secs as i128) <= diff && diff <= slack_secs as i128;
            let same = text::seq_eq(&ev, &fv);
            if inside {
                any_in_slack = true;
                if same {
                    family_in_slack = true;
                }
            } else if same {
                family_outside_slack = true;
            }
        }
        proof {
            assert(events@[i as int] == *e);
        }
        i = i + 1;
    }
    if family_in_slack {
        return Option::None;
    }
    if any_in_slack {
        return Some(FilterReason::Model);
    }
    if family_outside_slack {
        return Some(FilterReason::Time);
    }
    Some(FilterReason::NoMatch)
}

/// Whether a CSV row looks like local usage.
pub fn is_likely_local(csv_ts: i64, csv_model: &str, events: &[LocalHookEvent], slack_secs: i64) -> (b: bool)
    ensures
        b == (filter_reason(csv_ts, csv_model@, events@, slack_secs) is None),
{
    explain_filter_reason(csv_ts, csv_model, events, slack_secs).is_none()
}

/// Law: with no local events every row is kept (fail open).
pub proof fn lemma_no_events_keeps_all(ts: i64, model: Seq<char>, slack: i64)
    ensures
        filter_reason(ts, model, Seq::<LocalHookEvent>::empty(), slack) is None,
{
}

/// Law: when there are local events, a row with no event of its model
/// family inside the slack is filtered out: for the model when some other
/// event lies inside the slack, for the time when only events of its family
/// outside the slack exist, and as unmatched otherwise.
pub proof fn lemma_unmatched_row_filtered(ts: i64, model: Seq<char>, events: Seq<LocalHookEvent>, slack: i64)
    requires
        events.len() > 0,
        forall|i: int| 0 <= i < events.len() ==> !(in_slack(#[trigger] events[i], ts, slack) && same_family(events[i], model_family(model))),
    ensures
        filter_reason(ts, model, events, slack) is Some,
        model_family(model).len() > 0 && (exists|i: int| 0 <= i < events.len() && in_slack(#[trigger] events[i], ts, slack))
            ==> filter_reason(ts, model, events, slack) == Some(FilterReason::Model),
        model_family(model).len() > 0 && (forall|i: int| 0 <= i < events.len() ==> !in_slack(#[trigger] events[i], ts, slack))
            && (exists|i: int| 0 <= i < events.len() && same_family(#[trigger] events[i], model_family(model)))
            ==> filter_reason(ts, model, events, slack) == Some(FilterReason::Time),
        (forall|i: int| 0 <= i < events.len() ==> !in_slack(#[trigger] events[i], ts, slack) && !same_family(events[i], model_family(model)))
            ==> filter_reason(ts, model, events, slack) == Some(FilterReason::NoMatch),
{
}

/// Law: a row with a same-family event inside the slack is kept, whatever
/// else the events hold.
pub proof fn lemma_same_family_in_slack_keeps(ts: i64, model: Seq<char>, events: Seq<LocalHookEvent>, slack: i64, i: int)
    requires
        0 <= i < events.len(),
        in_slack(events[i], ts, slack),
        same_family(events[i], model_family(model)),
    ensures
        filter_reason(ts, model, events, slack) is None,
{
}

// ---------------------------------------------------------------------------
// Manual overrides
// ---------------------------------------------------------------------------

/// The final verdict of a row.
pub open spec fn effective(algo: Option<FilterReason>, ov: Option<OverrideAction>) -> EffectiveAttribution {
    match ov {
        Some(OverrideAction::Keep) => EffectiveAttribution { filtered: false, reason: algo, override_action: ov },
        Some(OverrideAction::Filter) => EffectiveAttribution {
            filtered: true,
            reason: if algo is Some { algo } else { Some(FilterReason::NoMatch) },
            override_action: ov,
        },
        Option::None => EffectiveAttribution { filtered: algo is Some, reason: algo, override_action: Option::None },
    }
}

/// Combines the algorithm's reason (`Some` filters) with a manual override.
pub fn resolve_effective(algo_reason: Option<FilterReason>, override_action: Option<OverrideAction>) -> (e: EffectiveAttribution)
    ensures
        e == effective(algo_reason, override_action),
{
    match override_action {
        Some(OverrideAction::Keep) => EffectiveAttribution {
            filtered: false,
            reason: algo_reason,
            override_action,
        },
        Some(OverrideAction::Filter) => EffectiveAttribution {
            filtered: true,
            reason: match algo_reason {
                Some(r) => Some(r),
                Option::None => Some(FilterReason::NoMatch),
            },
            override_action,
        },
        Option::None => EffectiveAttribution {
            filtered: algo_reason.is_some(),
            reason: algo_reason,
            override_action: Option::None,
        },
    }
}

/// Law: a manual override decides whether a row is filtered; without one the
/// algorithm decides. The algorithm's reason is kept in every case.
pub proof fn lemma_override_decides(algo: Option<FilterReason>, ov: Option<OverrideAction>)
    ensures
        ov == Some(OverrideAction::Keep) ==> !effective(algo, ov).filtered,
        ov == Some(OverrideAction::Filter) ==> effective(algo, ov).filtered,
        ov is None ==> effective(algo, ov).filtered == algo is Some,
        algo is Some ==> effective(algo, ov).reason == algo,
        effective(algo, ov).override_action == ov,
{
}

// ---------------------------------------------------------------------------
// Row keys
// ---------------------------------------------------------------------------

pub const FNV_PRIME: u64 = 0x100000001b3;

/// FNV-1a over `data`, starting from `basis`.
pub open spec fn fnv(data: Seq<u8>, basis: u64) -> u64
    decreases data.len(),
{
    if data.len() == 0 {
        basis
    } else {
        (fnv(data.drop_last(), basis) ^ (data.last() as u64)).wrapping_mul(FNV_PRIME)
    }
}

/// FNV-1a 64-bit hash of `data` from `offset_basis`.
pub fn fnv1a64(data: &[u8], offset_basis: u64) -> (h: u64)
    ensures
        h == fnv(data@, offset_basis),
{
    let mut hash = offset_basis;
    let mut i: usize = 0;
    while i < data.len()
        invariant
            i <= data.len(),
            hash == fnv(data@.take(i as int), offset_basis),
        decreases data.len() - i,
    {
        let b = data[i];
        hash = hash ^ (b as u64);
        hash = hash.wrapping_mul(FNV_PRIME);
        proof {
            let t = data@.take(i + 1);
            assert(t.drop_last() =~= data@.take(i as int));
        }
        i = i + 1;
    }
    assert(data@.take(data.len() as int) =~= data@);
    hash
}

/// The text that a row key hashes: the six fields joined by `|`.
pub open spec fn row_key_text(created_at: i64, model: Seq<char>, input: i64, output: i64, cache_read: i64, cache_creation: i64) -> Seq<char> {
    text::dec_i64(created_at) + seq!['|'] + model + seq!['|'] + text::dec_i64(input) + seq!['|']
        + text::dec_i64(output) + seq!['|'] + text::dec_i64(cache_read) + seq!['|'] + text::dec_i64(
        cache_creation,
    )
}

/// A stable row key: two FNV-1a hashes of the UTF-8 row text, 32 hex digits.
pub open spec fn row_key_spec(created_at: i64, model: Seq<char>, input: i64, output: i64, cache_read: i64, cache_creation: i64) -> Seq<char> {
    let bytes = vstd::utf8::encode_utf8(row_key_text(created_at, model, input, output, cache_read, cache_creation));
    text::hex16(fnv(bytes, 0xcbf29ce484222325)) + text::hex16(fnv(bytes, 0x84222325cbf29ce4))
}

/// A lower-case hex digit.
pub open spec fn is_lower_hex(c: char) -> bool {
    ('0' <= c && c <= '9') || ('a' <= c && c <= 'f')
}

/// Law: a row key is 32 lower-case hex digits.
pub proof fn lemma_row_key_hex(created_at: i64, model: Seq<char>, input: i64, output: i64, cache_read: i64, cache_creation: i64)
    ensures
        row_key_spec(created_at, model, input, output, cache_read, cache_creation).len() == 32,
        forall|i: int| 0 <= i < 32 ==> is_lower_hex(#[trigger] row_key_spec(created_at, model, input, output, cache_read, cache_creation)[i]),
{
    let k = row_key_spec(created_at, model, input, output, cache_read, cache_creation);
    assert forall|h: u64, i: int| 0 <= i < 16 implies is_lower_hex(#[trigger] text::hex16(h)[i]) by {
        let x: u64 = h >> ((60 - 4 * i) as u64);
        assert(x & 0xf < 16) by (bit_vector);
    }
}

/// The stable key of a CSV row.
pub fn row_key(created_at: i64, model: &str, input: i64, output: i64, cache_read: i64, cache_creation: i64) -> (k: String)
    ensures
        k@ == row_key_spec(created_at, model@, input, output, cache_read, cache_creation),
        k@.len() == 32,
{
    let mut raw = String::new();
    text::push_dec_i64(&mut raw, created_at);
    text::push_str(&mut raw, "|");
    text::push_str(&mut raw, model);
    text::push_str(&mut raw, "|");
    text::push_dec_i64(&mut raw, input);
    text::push_str(&mut raw, "|");
    text::push_dec_i64(&mut raw, output);
    text::push_str(&mut raw, "|");
    text::push_dec_i64(&mut raw, cache_read);
    text::push_str(&mut raw, "|");
    text::push_dec_i64(&mut raw, cache_creation);
    proof {
        reveal_strlit("|");
        assert(raw@ =~= row_key_text(created_at, model@, input, output, cache_read, cache_creation));
    }
    let bytes = raw.as_str().as_bytes();
    let h1 = fnv1a64(bytes, 0xcbf29ce484222325);
    let h2 = fnv1a64(bytes, 0x84222325cbf29ce4);
    let mut k = String::new();
    text::push_hex16(&mut k, h1);
    text::push_hex16(&mut k, h2);
    k
}

// ---------------------------------------------------------------------------
// Override store
// ---------------------------------------------------------------------------

/// The manual verdicts by row key. Keys are distinct.
pub struct OverrideStore {
    entries: Vec<(String, OverrideEntry)>,
}

/// No two entries share a key.
pub open spec fn entries_distinct(s: Seq<(String, OverrideEntry)>) -> bool {
    forall|i: int, j: int| 0 <= i < j < s.len() ==> (#[trigger] s[i]).0@ != (#[trigger] s[j]).0@
}

/// The entry stored under `k`, if any.
pub open spec fn entry_for(s: Seq<(String, OverrideEntry)>, k: Seq<char>) -> Option<OverrideEntry> {
    if exists|i: int| 0 <= i < s.len() && (#[trigger] s[i]).0@ == k {
        Some(s[choose|i: int| 0 <= i < s.len() && (#[trigger] s[i]).0@ == k].1)
    } else {
        Option::None
    }
}

proof fn lemma_entry_at(s: Seq<(String, OverrideEntry)>, i: int)
    requires
        entries_distinct(s),
        0 <= i < s.len(),
    ensures
        entry_for(s, s[i].0@) == Some(s[i].1),
{
    let k = s[i].0@;
    let j = choose|j: int| 0 <= j < s.len() && (#[trigger] s[j]).0@ == k;
    if j < i {
    } else if i < j {
    }
}

impl OverrideStore {
    /// The store's invariant: distinct keys.
    pub closed spec fn wf(&self) -> bool {
        entries_distinct(self.entries@)
    }

    /// The verdict stored for key `k`.
    pub closed spec fn spec_get(&self, k: Seq<char>) -> Option<OverrideEntry> {
        entry_for(self.entries@, k)
    }

    /// The number of stored verdicts.
    pub closed spec fn spec_len(&self) -> nat {
        self.entries@.len()
    }

    pub fn new() -> (s: Self)
        ensures
            s.wf(),
            s.spec_len() == 0,
            forall|k: Seq<char>| s.spec_get(k) is None,
    {
        OverrideStore { entries: Vec::new() }
    }

    pub fn len(&self) -> (n: usize)
        ensures
            n == self.spec_len(),
    {
        self.entries.len()
    }

    fn index_of(&self, key: &str) -> (r: Option<usize>)
        requires
            self.wf(),
        ensures
            r matches Some(i) ==> i < self.entries@.len() && self.entries@[i as int].0@ == key@,
            r is None ==> forall|i: int| 0 <= i < self.entries@.len() ==> (#[trigger] self.entries@[i]).0@ != key@,
    {
        let kv = text::chars_of(key);
        let mut i: usize = 0;
        while i < self.entries.len()
            invariant
                i <= self.entries.len(),
                kv@ == key@,
                forall|m: int| 0 <= m < i ==> (#[trigger] self.entries@[m]).0@ != key@,
            decreases self.entries.len() - i,
        {
            let ev = text::chars_of(self.entries[i].0.as_str());
            if text::seq_eq(&ev, &kv) {
                return Some(i);
            }
            i = i + 1;
        }
        Option::None
    }

    /// The action stored for `key`.
    pub fn get_action(&self, key: &str) -> (a: Option<OverrideAction>)
        requires
            self.wf(),
        ensures
            a == (match self.spec_get(key@) {
                Some(e) => Some(e.action),
                Option::None => Option::None,
            }),
    {
        match self.index_of(key) {
            Some(i) => {
                proof {
                    lemma_entry_at(self.entries@, i as int);
                }
                Some(self.entries[i].1.action)
            },
            Option::None => Option::None,
        }
    }

    /// The entries as key / entry pairs.
    pub fn entries(&self) -> (r: &[(String, OverrideEntry)])
        requires
            self.wf(),
        ensures
            forall|i: int| 0 <= i < r@.len() ==> self.spec_get((#[trigger] r@[i]).0@) == Some(r@[i].1),
            r@.len() == self.spec_len(),
    {
        proof {
            assert forall|i: int| 0 <= i < self.entries@.len() implies self.spec_get((#[trigger] self.entries@[i]).0@) == Some(self.entries@[i].1) by {
                lemma_entry_at(self.entries@, i);
            }
        }
        self.entries.as_slice()
    }
}

/// Sets the verdict for `key` (inserting or replacing it); `now` becomes its
/// update time.
pub fn upsert_override(overrides: &mut OverrideStore, key: &str, action: OverrideAction, created_at: i64, model: &str, now: i64)
    requires
        old(overrides).wf(),
    ensures
        final(overrides).wf(),
        final(overrides).spec_get(key@) == Some(OverrideEntry { action, created_at, model: final(overrides).spec_get(key@).unwrap().model, updated_at: now }),
        final(overrides).spec_get(key@).unwrap().model@ == model@,
        forall|k: Seq<char>| k != key@ ==> final(overrides).spec_get(k) == old(overrides).spec_get(k),
{
    let entry = OverrideEntry { action, created_at, model: text::owned(model), updated_at: now };
    let ghost e = entry;
    let ghost old_entries = overrides.entries@;
    match overrides.index_of(key) {
        Some(i) => {
            let k = text::owned(key);
            overrides.entries.set(i, (k, entry));
            proof {
                let s = overrides.entries@;
                assert forall|a: int, b: int| 0 <= a < b < s.len() implies (#[trigger] s[a]).0@ != (#[trigger] s[b]).0@ by {
                    if a != i as int && b != i as int {
                        assert(s[a] == old_entries[a] && s[b] == old_entries[b]);
                    } else if a == i as int {
                        assert(s[b] == old_entries[b]);
                    } else {
                        assert(s[a] == old_entries[a]);
                    }
                }
                lemma_entry_at(s, i as int);
                assert forall|kk: Seq<char>| kk != key@ implies entry_for(s, kk) == entry_for(old_entries, kk) by {
                    if exists|m: int| 0 <= m < old_entries.len() && (#[trigger] old_entries[m]).0@ == kk {
                        let m = choose|m: int| 0 <= m < old_entries.len() && (#[trigger] old_entries[m]).0@ == kk;
                        lemma_entry_at(old_entries, m);
                        assert(s[m] == old_entries[m]);
                        lemma_entry_at(s, m);
                    } else {
                        assert forall|m: int| 0 <= m < s.len() implies (#[trigger] s[m]).0@ != kk by {
                            if m != i as int {
                                assert(s[m] == old_entries[m]);
                            }
                        }
                    }
                }
            }
        },
        Option::None => {
            let k = text::owned(key);
            overrides.entries.push((k, entry));
            proof {
                let s = overrides.entries@;
                let n = old_entries.len() as int;
                assert forall|a: int, b: int| 0 <= a < b < s.len() implies (#[trigger] s[a]).0@ != (#[trigger] s[b]).0@ by {
                    assert(s[a] == old_entries[a]);
                    if b < n {
                        assert(s[b] == old_entries[b]);
                    }
                }
                lemma_entry_at(s, n);
                assert forall|kk: Seq<char>| kk != key@ implies entry_for(s, kk) == entry_for(old_entries, kk) by {
                    if exists|m: int| 0 <= m < old_entries.len() && (#[trigger] old_entries[m]).0@ == kk {
                        let m = choose|m: int| 0 <= m < old_entries.len() && (#[trigger] old_entries[m]).0@ == kk;
                        lemma_entry_at(old_entries, m);
                        assert(s[m] == old_entries[m]);
                        lemma_entry_at(s, m);
                    } else {
                        assert forall|m: int| 0 <= m < s.len() implies (#[trigger] s[m]).0@ != kk by {
                            if m < n {
                                assert(s[m] == old_entries[m]);
                            }
                        }
                    }
                }
            }
        },
    }
}

/// Removes the verdict for `key`.
pub fn delete_override(overrides: &mut OverrideStore, key: &str)
    requires
        old(overrides).wf(),
    ensures
        final(overrides).wf(),
        final(overrides).spec_get(key@) is None,
        forall|k: Seq<char>| k != key@ ==> final(overrides).spec_get(k) == old(overrides).spec_get(k),
{
    let ghost old_entries = overrides.entries@;
    match overrides.index_of(key) {
        Some(i) => {
            overrides.entries.remove(i);
            proof {
                let s = overrides.entries@;
                assert(s =~= old_entries.remove(i as int));
                assert forall|a: int| 0 <= a < s.len() implies #[trigger] s[a] == old_entries[if a < i { a } else { a + 1 }] by {}
                assert forall|a: int, b: int| 0 <= a < b < s.len() implies (#[trigger] s[a]).0@ != (#[trigger] s[b]).0@ by {
                    assert(s[a] == old_entries[if a < i { a } else { a + 1 }]);
                    assert(s[b] == old_entries[if b < i { b } else { b + 1 }]);
                }
                assert forall|m: int| 0 <= m < s.len() implies (#[trigger] s[m]).0@ != key@ by {
                    assert(s[m] == old_entries[if m < i { m } else { m + 1 }]);
                }
                assert forall|kk: Seq<char>| kk != key@ implies entry_for(s, kk) == entry_for(old_entries, kk) by {
                    if exists|m: int| 0 <= m < old_entries.len() && (#[trigger] old_entries[m]).0@ == kk {
                        let m = choose|m: int| 0 <= m < old_entries.len() && (#[trigger] old_entries[m]).0@ == kk;
                        lemma_entry_at(old_entries, m);
                        let m2 = if m < i { m } else { m - 1 };
                        assert(m != i);
                        assert(s[m2] == old_entries[m]);
                        lemma_entry_at(s, m2);
                    } else {
                        assert forall|m: int| 0 <= m < s.len() implies (#[trigger] s[m]).0@ != kk by {
                            assert(s[m] == old_entries[if m < i { m } else { m + 1 }]);
                        }
                    }
                }
            }
        },
        Option::None => {},
    }
}

/// Whether `key` is one of `live`.
fn is_live(live_keys: &[String], key: &str) -> (b: bool)
    ensures
        b == exists|i: int| 0 <= i < live_keys@.len() && (#[trigger] live_keys@[i])@ == key@,
{
    let kv = text::chars_of(key);
    let mut i: usize = 0;
    while i < live_keys.len()
        invariant
            i <= live_keys.len(),
            kv@ == key@,
            forall|m: int| 0 <= m < i ==> (#[trigger] live_keys@[m])@ != key@,
        decreases live_keys.len() - i,
    {
        let lv = text::chars_of(live_keys[i].as_str());
        if text::seq_eq(&lv, &kv) {
            return true;
        }
        i = i + 1;
    }
    false
}

/// `k` is one of the live keys.
pub open spec fn key_live(live_keys: Seq<String>, k: Seq<char>) -> bool {
    exists|i: int| 0 <= i < live_keys.len() && (#[trigger] live_keys[i])@ == k
}

/// Drops the verdicts whose key is not live; returns how many were dropped.
pub fn gc_overrides(overrides: &mut OverrideStore, live_keys: &[String]) -> (removed: usize)
    requires
        old(overrides).wf(),
    ensures
        final(overrides).wf(),
        forall|k: Seq<char>| #[trigger] final(overrides).spec_get(k) == if key_live(live_keys@, k) {
            old(overrides).spec_get(k)
        } else {
            Option::None
        },
        removed == old(overrides).spec_len() - final(overrides).spec_len(),
{
    let ghost old_entries = overrides.entries@;
    let mut kept: Vec<(String, OverrideEntry)> = Vec::new();
    let mut taken = Vec::new();
    std::mem::swap(&mut taken, &mut overrides.entries);
    let mut i: usize = 0;
    let ghost mut idx: Seq<int> = Seq::empty();
    while i < taken.len()
        invariant
            taken@ == old_entries,
            entries_distinct(old_entries),
            i <= taken.len(),
            kept.len() <= i,
            idx.len() == kept.len(),
            forall|a: int| 0 <= a < idx.len() ==> 0 <= #[trigger] idx[a] < i && kept@[a] == old_entries[idx[a]],
            forall|a: int, b: int| 0 <= a < b < idx.len() ==> #[trigger] idx[a] < #[trigger] idx[b],
            forall|a: int| 0 <= a < kept.len() ==> key_live(live_keys@, (#[trigger] kept@[a]).0@),
            forall|m: int| 0 <= m < i && key_live(live_keys@, (#[trigger] old_entries[m]).0@) ==> exists|a: int| 0 <= a < idx.len() && idx[a] == m,
        decreases taken.len() - i,
    {
        let ghost idx0 = idx;
        let live = is_live(live_keys, taken[i].0.as_str());
        if live {
            let k = taken[i].0.clone();
            let e = taken[i].1.clone();
            kept.push((k, e));
            proof {
                idx = idx.push(i as int);
            }
        }
        proof {
            assert forall|m: int| 0 <= m < i + 1 && key_live(live_keys@, (#[trigger] old_entries[m]).0@) implies exists|a: int| 0 <= a < idx.len() && idx[a] == m by {
                if m == i {
                    assert(live);
                    assert(idx[idx.len() - 1] == m);
                } else {
                    let a = choose|a: int| 0 <= a < idx0.len() && idx0[a] == m;
                    assert(idx[a] == m);
                }
            }
        }
        i = i + 1;
    }
    let removed = taken.len() - kept.len();
    overrides.entries = kept;
    proof {
        let s = overrides.entries@;
        assert forall|a: int, b: int| 0 <= a < b < s.len() implies (#[trigger] s[a]).0@ != (#[trigger] s[b]).0@ by {
            assert(idx[a] < idx[b]);
        }
        assert forall|k: Seq<char>| #[trigger] entry_for(s, k) == if key_live(live_keys@, k) {
            entry_for(old_entries, k)
        } else {
            Option::None
        } by {
            if exists|m: int| 0 <= m < s.len() && (#[trigger] s[m]).0@ == k {
                let m = choose|m: int| 0 <= m < s.len() && (#[trigger] s[m]).0@ == k;
                lemma_entry_at(s, m);
                lemma_entry_at(old_entries, idx[m]);
            } else if exists|m: int| 0 <= m < old_entries.len() && (#[trigger] old_entries[m]).0@ == k {
                let m = choose|m: int| 0 <= m < old_entries.len() && (#[trigger] old_entries[m]).0@ == k;
                if key_live(live_keys@, k) {
                    let a = choose|a: int| 0 <= a < idx.len() && idx[a] == m;
                    assert(s[a].0@ == k);
                }
            }
        }
    }
    removed
}

} // verus!
