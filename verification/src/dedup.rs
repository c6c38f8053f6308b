//! Request-level deduplication across data sources.
//!
//! A request is identified by its fingerprint. Non-codex requests use
//! session id, model, input and output tokens; codex requests use session id,
//! a normalised input count (cache reads taken out) and output tokens. The
//! first record of each fingerprint wins.
use crate::models::{RawRecord, SessionRequestToken};
use crate::text;
use vstd::prelude::*;

verus! {

// ---------------------------------------------------------------------------
// Generic first-wins dedup over a key function
// ---------------------------------------------------------------------------

/// No element before position `i` has the key of `s[i]`.
pub open spec fn first_seen<T, K>(s: Seq<T>, key: spec_fn(T) -> K, i: int) -> bool {
    forall|j: int| 0 <= j < i ==> key(#[trigger] s[j]) != key(s[i])
}

/// The elements of `s` whose key has not occurred earlier, in order.
pub open spec fn dedup_by<T, K>(s: Seq<T>, key: spec_fn(T) -> K) -> Seq<T>
    decreases s.len(),
{
    if s.len() == 0 {
        Seq::empty()
    } else {
        let p = dedup_by(s.drop_last(), key);
        if first_seen(s, key, s.len() - 1) {
            p.push(s.last())
        } else {
            p
        }
    }
}

/// The keys of `s` are pairwise distinct.
pub open spec fn keys_distinct<T, K>(s: Seq<T>, key: spec_fn(T) -> K) -> bool {
    forall|i: int, j: int| 0 <= i < j < s.len() ==> key(#[trigger] s[i]) != key(#[trigger] s[j])
}

/// Every element of the dedup result is an element of the input that is the
/// first of its key.
pub proof fn lemma_dedup_by_members<T, K>(s: Seq<T>, key: spec_fn(T) -> K)
    ensures
        dedup_by(s, key).len() <= s.len(),
        forall|k: int|
            0 <= k < dedup_by(s, key).len() ==> exists|j: int|
                0 <= j < s.len() && s[j] == #[trigger] dedup_by(s, key)[k] && first_seen(s, key, j),
    decreases s.len(),
{
    if s.len() > 0 {
        let t = s.drop_last();
        lemma_dedup_by_members(t, key);
        let p = dedup_by(t, key);
        let d = dedup_by(s, key);
        assert forall|k: int| 0 <= k < p.len() implies exists|j: int|
            0 <= j < s.len() && s[j] == #[trigger] p[k] && first_seen(s, key, j) by {
            let j = choose|j: int| 0 <= j < t.len() && t[j] == p[k] && first_seen(t, key, j);
            assert(s[j] == t[j]);
            assert forall|m: int| 0 <= m < j implies key(#[trigger] s[m]) != key(s[j]) by {
                assert(s[m] == t[m]);
            }
        }
        if first_seen(s, key, s.len() - 1) {
            assert(d == p.push(s.last()));
            assert forall|k: int| 0 <= k < d.len() implies exists|j: int|
                0 <= j < s.len() && s[j] == #[trigger] d[k] && first_seen(s, key, j) by {
                if k < p.len() {
                    assert(d[k] == p[k]);
                } else {
                    assert(s[s.len() - 1] == d[k]);
                }
            }
        } else {
            assert(d == p);
        }
    }
}

/// Every key of the input occurs in the dedup result.
pub proof fn lemma_dedup_by_covers<T, K>(s: Seq<T>, key: spec_fn(T) -> K)
    ensures
        forall|j: int|
            #![trigger s[j]]
            0 <= j < s.len() ==> exists|k: int|
                0 <= k < dedup_by(s, key).len() && key(#[trigger] dedup_by(s, key)[k]) == key(
                    s[j],
                ),
    decreases s.len(),
{
    if s.len() > 0 {
        let t = s.drop_last();
        lemma_dedup_by_covers(t, key);
        let p = dedup_by(t, key);
        let d = dedup_by(s, key);
        assert forall|k: int| 0 <= k < p.len() implies d[k] == p[k] by {
            if first_seen(s, key, s.len() - 1) {
                assert(d == p.push(s.last()));
            }
        }
        assert forall|j: int| #![trigger s[j]] 0 <= j < s.len() implies exists|k: int|
            0 <= k < d.len() && key(#[trigger] d[k]) == key(s[j]) by {
            if j < t.len() {
                assert(s[j] == t[j]);
                let k = choose|k: int| 0 <= k < p.len() && key(#[trigger] p[k]) == key(t[j]);
                assert(d[k] == p[k]);
            } else if first_seen(s, key, j) {
                assert(d == p.push(s.last()));
                assert(d[d.len() - 1] == s[j]);
            } else {
                let m = choose|m: int| 0 <= m < j && key(#[trigger] s[m]) == key(s[j]);
                assert(s[m] == t[m]);
                let k = choose|k: int| 0 <= k < p.len() && key(#[trigger] p[k]) == key(t[m]);
                assert(d[k] == p[k]);
            }
        }
    }
}

/// Law: no two records of a dedup result share a key.
pub proof fn lemma_dedup_by_distinct<T, K>(s: Seq<T>, key: spec_fn(T) -> K)
    ensures
        keys_distinct(dedup_by(s, key), key),
    decreases s.len(),
{
    if s.len() > 0 {
        let t = s.drop_last();
        lemma_dedup_by_distinct(t, key);
        lemma_dedup_by_members(t, key);
        let p = dedup_by(t, key);
        let d = dedup_by(s, key);
        if first_seen(s, key, s.len() - 1) {
            assert forall|i: int, j: int| 0 <= i < j < d.len() implies key(#[trigger] d[i]) != key(
                #[trigger] d[j],
            ) by {
                if j < p.len() {
                    assert(d[i] == p[i] && d[j] == p[j]);
                } else {
                    assert(d[i] == p[i]);
                    let m = choose|m: int| 0 <= m < t.len() && t[m] == #[trigger] p[i] && first_seen(t, key, m);
                    assert(s[m] == t[m]);
                }
            }
        }
    }
}

/// A sequence whose keys are already distinct is its own dedup.
pub proof fn lemma_dedup_by_distinct_fixed<T, K>(s: Seq<T>, key: spec_fn(T) -> K)
    requires
        keys_distinct(s, key),
    ensures
        dedup_by(s, key) == s,
    decreases s.len(),
{
    if s.len() > 0 {
        let t = s.drop_last();
        assert forall|i: int, j: int| 0 <= i < j < t.len() implies key(#[trigger] t[i]) != key(
            #[trigger] t[j],
        ) by {
            assert(s[i] == t[i] && s[j] == t[j]);
        }
        lemma_dedup_by_distinct_fixed(t, key);
        assert forall|j: int| 0 <= j < s.len() - 1 implies key(#[trigger] s[j]) != key(
            s[s.len() - 1],
        ) by {}
        assert(s =~= t.push(s.last()));
    }
}

/// Law: deduplicating twice gives what deduplicating once gave.
pub proof fn lemma_dedup_by_idempotent<T, K>(s: Seq<T>, key: spec_fn(T) -> K)
    ensures
        dedup_by(dedup_by(s, key), key) == dedup_by(s, key),
{
    lemma_dedup_by_distinct(s, key);
    lemma_dedup_by_distinct_fixed(dedup_by(s, key), key);
}

/// One step of a left-to-right dedup: the next element is kept exactly when
/// no kept element has its key.
#[verifier::rlimit(40)]
pub proof fn lemma_dedup_by_step<T, K>(s: Seq<T>, key: spec_fn(T) -> K, i: int)
    requires
        0 <= i < s.len(),
    ensures
        dedup_by(s.take(i + 1), key) == if exists|k: int|
            0 <= k < dedup_by(s.take(i), key).len() && key(#[trigger] dedup_by(s.take(i), key)[k])
                == key(s[i]) {
            dedup_by(s.take(i), key)
        } else {
            dedup_by(s.take(i), key).push(s[i])
        },
{
    let u = s.take(i + 1);
    let t = s.take(i);
    assert(u.drop_last() =~= t);
    assert(u.last() == s[i]);
    lemma_dedup_by_members(t, key);
    lemma_dedup_by_covers(t, key);
    let out = dedup_by(t, key);
    if exists|k: int| 0 <= k < out.len() && key(#[trigger] out[k]) == key(s[i]) {
        let k = choose|k: int| 0 <= k < out.len() && key(#[trigger] out[k]) == key(s[i]);
        let j = choose|j: int| 0 <= j < t.len() && t[j] == #[trigger] out[k] && first_seen(t, key, j);
        assert(u[j] == t[j]);
        assert(!first_seen(u, key, i));
    } else {
        assert forall|j: int| 0 <= j < i implies key(#[trigger] u[j]) != key(u[i]) by {
            assert(u[j] == t[j]);
            if key(u[j]) == key(u[i]) {
                let k = choose|k: int| 0 <= k < out.len() && key(#[trigger] out[k]) == key(t[j]);
            }
        }
    }
}

// ---------------------------------------------------------------------------
// Fingerprints
// ---------------------------------------------------------------------------

/// What a fingerprint is made of: session id, model, input, output, codex flag.
pub type FingerprintView = (Seq<char>, Seq<char>, i64, i64, bool);

/// A request fingerprint, the dedup key across data sources.
#[derive(Debug, Hash)]
pub struct RequestFingerprint {
    session_id: String,
    model: String,
    input_tokens: i64,
    output_tokens: i64,
    is_codex: bool,
}

impl View for RequestFingerprint {
    type V = FingerprintView;

    closed spec fn view(&self) -> FingerprintView {
        (self.session_id@, self.model@, self.input_tokens, self.output_tokens, self.is_codex)
    }
}

impl Clone for RequestFingerprint {
    fn clone(&self) -> (r: Self)
        ensures
            r@ == self@,
    {
        RequestFingerprint {
            session_id: self.session_id.clone(),
            model: self.model.clone(),
            input_tokens: self.input_tokens,
            output_tokens: self.output_tokens,
            is_codex: self.is_codex,
        }
    }
}

impl PartialEq for RequestFingerprint {
    fn eq(&self, other: &Self) -> (r: bool) {
        self.session_id == other.session_id && self.model == other.model && self.input_tokens
            == other.input_tokens && self.output_tokens == other.output_tokens && self.is_codex
            == other.is_codex
    }
}

impl vstd::std_specs::cmp::PartialEqSpecImpl for RequestFingerprint {
    open spec fn obeys_eq_spec() -> bool {
        true
    }

    open spec fn eq_spec(&self, other: &Self) -> bool {
        self@ == other@
    }
}

impl Eq for RequestFingerprint {

}

impl RequestFingerprint {
    /// Fingerprint of a non-codex request.
    pub fn new(session_id: &str, model: &str, input_tokens: i64, output_tokens: i64) -> (r: Self)
        ensures
            r@ == (session_id@, model@, input_tokens, output_tokens, false),
    {
        RequestFingerprint {
            session_id: text::owned(session_id),
            model: text::owned(model),
            input_tokens,
            output_tokens,
            is_codex: false,
        }
    }

    /// Fingerprint of a codex request: no model, input already normalised.
    pub fn new_codex(session_id: &str, normalized_input: i64, output_tokens: i64) -> (r: Self)
        ensures
            r@ == (session_id@, Seq::<char>::empty(), normalized_input, output_tokens, true),
    {
        RequestFingerprint {
            session_id: text::owned(session_id),
            model: String::new(),
            input_tokens: normalized_input,
            output_tokens,
            is_codex: true,
        }
    }
}

/// `a - b`, clamped to the range of `i64` (what `i64::saturating_sub` gives).
pub open spec fn sat_sub(a: i64, b: i64) -> i64 {
    if a - b > i64::MAX {
        i64::MAX
    } else if a - b < i64::MIN {
        i64::MIN
    } else {
        (a - b) as i64
    }
}

/// `a - b`, clamped to the range of `i64`.
pub fn saturating_sub_i64(a: i64, b: i64) -> (r: i64)
    ensures
        r == sat_sub(a, b),
{
    let d: i128 = a as i128 - b as i128;
    if d > i64::MAX as i128 {
        i64::MAX
    } else if d < i64::MIN as i128 {
        i64::MIN
    } else {
        d as i64
    }
}

/// The provider id of records that come from AI Proxy.
pub open spec fn ai_proxy_id() -> Seq<char> {
    seq!['a', 'i', '-', 'p', 'r', 'o', 'x', 'y']
}

/// Input tokens of a codex record without its cache reads; AI Proxy already
/// reports them that way.
pub open spec fn codex_input(r: RawRecord) -> i64 {
    if r.provider_id@ == ai_proxy_id() {
        r.input_tokens
    } else {
        sat_sub(r.input_tokens, r.cache_read)
    }
}

/// The fingerprint of a raw record.
pub open spec fn record_fp(r: RawRecord) -> FingerprintView {
    if r.is_codex {
        (r.session_id@, Seq::empty(), codex_input(r), r.output_tokens, true)
    } else {
        (r.session_id@, r.model@, r.input_tokens, r.output_tokens, false)
    }
}

/// The fingerprint of a request-token row (always non-codex).
pub open spec fn token_fp(t: SessionRequestToken) -> FingerprintView {
    (t.session_id@, t.model@, t.input_tokens, t.output_tokens, false)
}

pub open spec fn record_key() -> spec_fn(RawRecord) -> FingerprintView {
    |r: RawRecord| record_fp(r)
}

pub open spec fn token_key() -> spec_fn(SessionRequestToken) -> FingerprintView {
    |t: SessionRequestToken| token_fp(t)
}

fn is_ai_proxy(provider_id: &String) -> (b: bool)
    ensures
        b == (provider_id@ == ai_proxy_id()),
{
    let v = text::chars_of(provider_id.as_str());
    let mut p: Vec<char> = Vec::new();
    p.push('a');
    p.push('i');
    p.push('-');
    p.push('p');
    p.push('r');
    p.push('o');
    p.push('x');
    p.push('y');
    assert(p@ =~= ai_proxy_id());
    text::seq_eq(&v, &p)
}

/// The fingerprint of a raw record.
pub fn fingerprint_of_record(r: &RawRecord) -> (f: RequestFingerprint)
    ensures
        f@ == record_fp(*r),
{
    if r.is_codex {
        let normalized = if is_ai_proxy(&r.provider_id) {
            r.input_tokens
        } else {
            saturating_sub_i64(r.input_tokens, r.cache_read)
        };
        RequestFingerprint::new_codex(r.session_id.as_str(), normalized, r.output_tokens)
    } else {
        RequestFingerprint::new(
            r.session_id.as_str(),
            r.model.as_str(),
            r.input_tokens,
            r.output_tokens,
        )
    }
}

/// The fingerprint of a request-token row.
pub fn fingerprint_of_token(t: &SessionRequestToken) -> (f: RequestFingerprint)
    ensures
        f@ == token_fp(*t),
{
    RequestFingerprint::new(t.session_id.as_str(), t.model.as_str(), t.input_tokens, t.output_tokens)
}

fn seen_contains(seen: &Vec<RequestFingerprint>, fp: &RequestFingerprint) -> (b: bool)
    ensures
        b == exists|k: int| 0 <= k < seen.len() && (#[trigger] seen@[k])@ == fp@,
{
    let mut i: usize = 0;
    while i < seen.len()
        invariant
            i <= seen.len(),
            forall|k: int| 0 <= k < i ==> (#[trigger] seen@[k])@ != fp@,
        decreases seen.len() - i,
    {
        if seen[i] == *fp {
            return true;
        }
        i = i + 1;
    }
    false
}

/// Dedups raw records by fingerprint; the first record of each fingerprint
/// is kept. Codex records use the normalised fingerprint.
pub fn dedup_records(records: Vec<RawRecord>) -> (out: Vec<RawRecord>)
    ensures
        out@ == dedup_by(records@, record_key()),
{
    let mut out: Vec<RawRecord> = Vec::new();
    let mut seen: Vec<RequestFingerprint> = Vec::new();
    let mut i: usize = 0;
    while i < records.len()
        invariant
            i <= records.len(),
            out@ == dedup_by(records@.take(i as int), record_key()),
            seen.len() == out.len(),
            forall|k: int| 0 <= k < seen.len() ==> (#[trigger] seen@[k])@ == record_fp(out@[k]),
        decreases records.len() - i,
    {
        let fp = fingerprint_of_record(&records[i]);
        let dup = seen_contains(&seen, &fp);
        proof {
            lemma_dedup_by_step(records@, record_key(), i as int);
            if dup {
                let k = choose|k: int| 0 <= k < seen.len() && (#[trigger] seen@[k])@ == fp@;
                assert(record_key()(out@[k]) == record_key()(records@[i as int]));
            } else {
                assert forall|k: int| 0 <= k < out@.len() implies record_key()(#[trigger] out@[k]) != record_key()(records@[i as int]) by {
                    assert(seen@[k]@ == record_fp(out@[k]));
                }
            }
        }
        if !dup {
            let r = records[i].clone();
            out.push(r);
            seen.push(fp);
        }
        i = i + 1;
    }
    assert(records@.take(records.len() as int) =~= records@);
    out
}

/// Dedups request-token rows by fingerprint; the first row of each
/// fingerprint is kept.
pub fn dedup_request_tokens(items: Vec<SessionRequestToken>) -> (out: Vec<SessionRequestToken>)
    ensures
        out@ == dedup_by(items@, token_key()),
{
    let mut out: Vec<SessionRequestToken> = Vec::new();
    let mut seen: Vec<RequestFingerprint> = Vec::new();
    let mut i: usize = 0;
    while i < items.len()
        invariant
            i <= items.len(),
            out@ == dedup_by(items@.take(i as int), token_key()),
            seen.len() == out.len(),
            forall|k: int| 0 <= k < seen.len() ==> (#[trigger] seen@[k])@ == token_fp(out@[k]),
        decreases items.len() - i,
    {
        let fp = fingerprint_of_token(&items[i]);
        let dup = seen_contains(&seen, &fp);
        proof {
            lemma_dedup_by_step(items@, token_key(), i as int);
            if dup {
                let k = choose|k: int| 0 <= k < seen.len() && (#[trigger] seen@[k])@ == fp@;
                assert(token_key()(out@[k]) == token_key()(items@[i as int]));
            } else {
                assert forall|k: int| 0 <= k < out@.len() implies token_key()(#[trigger] out@[k]) != token_key()(items@[i as int]) by {
                    assert(seen@[k]@ == token_fp(out@[k]));
                }
            }
        }
        if !dup {
            let r = items[i].clone();
            out.push(r);
            seen.push(fp);
        }
        i = i + 1;
    }
    assert(items@.take(items.len() as int) =~= items@);
    out
}


// ---------------------------------------------------------------------------
// Stable sort, newest first
// ---------------------------------------------------------------------------

/// `x` inserted into `s` before the first element whose key is smaller.
pub open spec fn ins_desc<T>(s: Seq<T>, x: T, key: spec_fn(T) -> int) -> Seq<T>
    decreases s.len(),
{
    if s.len() == 0 {
        seq![x]
    } else if key(s[0]) < key(x) {
        seq![x] + s
    } else {
        seq![s[0]] + ins_desc(s.drop_first(), x, key)
    }
}

/// Stable sort of `s` by descending key (insertion sort, elements with equal
/// keys keep their order).
pub open spec fn sort_desc<T>(s: Seq<T>, key: spec_fn(T) -> int) -> Seq<T>
    decreases s.len(),
{
    if s.len() == 0 {
        Seq::empty()
    } else {
        ins_desc(sort_desc(s.drop_last(), key), s.last(), key)
    }
}

/// Keys do not increase along `s`.
pub open spec fn sorted_desc<T>(s: Seq<T>, key: spec_fn(T) -> int) -> bool {
    forall|i: int, j: int| 0 <= i < j < s.len() ==> key(#[trigger] s[i]) >= key(#[trigger] s[j])
}

pub(crate) proof fn lemma_ins_desc_at<T>(s: Seq<T>, x: T, key: spec_fn(T) -> int, pos: int)
    requires
        0 <= pos <= s.len(),
        forall|k: int| 0 <= k < pos ==> !(key(#[trigger] s[k]) < key(x)),
        pos < s.len() ==> key(s[pos]) < key(x),
    ensures
        ins_desc(s, x, key) == s.insert(pos, x),
    decreases s.len(),
{
    if s.len() == 0 {
        assert(s.insert(pos, x) =~= seq![x]);
    } else if pos == 0 {
        assert(s.insert(0, x) =~= seq![x] + s);
    } else {
        let t = s.drop_first();
        assert forall|k: int| 0 <= k < pos - 1 implies !(key(#[trigger] t[k]) < key(x)) by {
            assert(t[k] == s[k + 1]);
        }
        if pos - 1 < t.len() {
            assert(t[pos - 1] == s[pos]);
        }
        assert(!(key(s[0]) < key(x)));
        lemma_ins_desc_at(t, x, key, pos - 1);
        assert(seq![s[0]] + t.insert(pos - 1, x) =~= s.insert(pos, x));
    }
}

proof fn lemma_ins_desc_members<T>(s: Seq<T>, x: T, key: spec_fn(T) -> int)
    ensures
        ins_desc(s, x, key).len() == s.len() + 1,
        ins_desc(s, x, key).to_multiset() == s.to_multiset().insert(x),
        sorted_desc(s, key) ==> sorted_desc(ins_desc(s, x, key), key),
    decreases s.len(),
{
    broadcast use vstd::seq_lib::group_to_multiset_ensures;
    let r = ins_desc(s, x, key);
    if s.len() == 0 {
        assert(r =~= seq![x]);
        assert(seq![x] =~= Seq::<T>::empty().push(x));
    } else if key(s[0]) < key(x) {
        vstd::seq_lib::lemma_multiset_commutative(seq![x], s);
        assert(seq![x] =~= Seq::<T>::empty().push(x));
        if sorted_desc(s, key) {
            assert forall|i: int, j: int| 0 <= i < j < r.len() implies key(#[trigger] r[i]) >= key(
                #[trigger] r[j],
            ) by {
                if i == 0 {
                    assert(r[j] == s[j - 1]);
                    if j - 1 > 0 {
                        assert(key(s[0]) >= key(s[j - 1]));
                    }
                } else {
                    assert(r[i] == s[i - 1] && r[j] == s[j - 1]);
                }
            }
        }
    } else {
        let t = s.drop_first();
        lemma_ins_desc_members(t, x, key);
        let rt = ins_desc(t, x, key);
        assert(r == seq![s[0]] + rt);
        vstd::seq_lib::lemma_multiset_commutative(seq![s[0]], rt);
        vstd::seq_lib::lemma_multiset_commutative(seq![s[0]], t);
        assert(s =~= seq![s[0]] + t);
        assert(seq![s[0]] =~= Seq::<T>::empty().push(s[0]));
        if sorted_desc(s, key) {
            assert forall|i: int, j: int| 0 <= i < j < t.len() implies key(#[trigger] t[i]) >= key(
                #[trigger] t[j],
            ) by {
                assert(t[i] == s[i + 1] && t[j] == s[j + 1]);
            }
            assert forall|i: int, j: int| 0 <= i < j < r.len() implies key(#[trigger] r[i]) >= key(
                #[trigger] r[j],
            ) by {
                if i == 0 {
                    assert(rt.to_multiset().count(r[j]) > 0) by {
                        assert(rt[j - 1] == r[j]);
                        vstd::seq_lib::lemma_seq_contains_after_push(rt, r[j], r[j]);
                        assert(rt.contains(r[j]));
                    }
                    assert(t.to_multiset().insert(x).count(r[j]) > 0);
                    if r[j] != x {
                        assert(t.to_multiset().count(r[j]) > 0);
                        assert(t.contains(r[j]));
                        let m = choose|m: int| 0 <= m < t.len() && t[m] == r[j];
                        assert(s[m + 1] == t[m]);
                    }
                } else {
                    assert(r[i] == rt[i - 1] && r[j] == rt[j - 1]);
                }
            }
        }
    }
}

/// Law: a stable sort by descending key is ordered and keeps every element.
pub proof fn lemma_sort_desc<T>(s: Seq<T>, key: spec_fn(T) -> int)
    ensures
        sort_desc(s, key).len() == s.len(),
        sort_desc(s, key).to_multiset() == s.to_multiset(),
        sorted_desc(sort_desc(s, key), key),
    decreases s.len(),
{
    broadcast use vstd::seq_lib::group_to_multiset_ensures;
    if s.len() > 0 {
        let t = s.drop_last();
        lemma_sort_desc(t, key);
        lemma_ins_desc_members(sort_desc(t, key), s.last(), key);
        assert(s =~= t.push(s.last()));
    }
}

/// The key by which the request cache orders rows: creation time.
pub open spec fn created_key() -> spec_fn(SessionRequestToken) -> int {
    |t: SessionRequestToken| t.created_at as int
}

/// Stable sort of request-token rows, newest first.
pub fn sort_tokens_newest_first(v: Vec<SessionRequestToken>) -> (out: Vec<SessionRequestToken>)
    ensures
        out@ == sort_desc(v@, created_key()),
{
    let mut out: Vec<SessionRequestToken> = Vec::new();
    let mut i: usize = 0;
    while i < v.len()
        invariant
            i <= v.len(),
            out@ == sort_desc(v@.take(i as int), created_key()),
        decreases v.len() - i,
    {
        let x = v[i].clone();
        let mut pos: usize = 0;
        while pos < out.len() && !(out[pos].created_at < x.created_at)
            invariant
                pos <= out.len(),
                forall|k: int| 0 <= k < pos ==> !(created_key()(#[trigger] out@[k]) < created_key()(x)),
            decreases out.len() - pos,
        {
            pos = pos + 1;
        }
        proof {
            lemma_ins_desc_at(out@, x, created_key(), pos as int);
            let u = v@.take(i + 1);
            assert(u.drop_last() =~= v@.take(i as int));
            assert(u.last() == x);
        }
        out.insert(pos, x);
        i = i + 1;
    }
    assert(v@.take(v.len() as int) =~= v@);
    out
}

// ---------------------------------------------------------------------------
// Request cache
// ---------------------------------------------------------------------------

/// A request-level dedup cache that keeps state across refreshes: rows with
/// distinct fingerprints, at most `max_size` of them.
pub struct RequestCache {
    records: Vec<SessionRequestToken>,
    max_size: usize,
}

impl RequestCache {
    /// The cache invariant: distinct fingerprints, at most `max_size` rows.
    pub closed spec fn wf(&self) -> bool {
        &&& keys_distinct(self.records@, token_key())
        &&& self.records.len() <= self.max_size
    }

    /// The rows the cache holds, in their current order.
    pub closed spec fn spec_records(&self) -> Seq<SessionRequestToken> {
        self.records@
    }

    /// The most rows the cache keeps.
    pub closed spec fn spec_max_size(&self) -> nat {
        self.max_size as nat
    }

    /// Law: the rows of a cache have pairwise distinct fingerprints and there
    /// are at most `max_size` of them.
    pub proof fn lemma_wf(&self)
        requires
            self.wf(),
        ensures
            keys_distinct(self.spec_records(), token_key()),
            self.spec_records().len() <= self.spec_max_size(),
    {
    }

    pub fn new(max_size: usize) -> (c: Self)
        ensures
            c.wf(),
            c.spec_records() == Seq::<SessionRequestToken>::empty(),
            c.spec_max_size() == max_size,
    {
        RequestCache { records: Vec::new(), max_size }
    }

    pub fn records(&self) -> (r: &[SessionRequestToken])
        ensures
            r@ == self.spec_records(),
    {
        self.records.as_slice()
    }

    pub fn len(&self) -> (n: usize)
        ensures
            n == self.spec_records().len(),
    {
        self.records.len()
    }

    /// Merges new rows: rows whose fingerprint is already held are skipped.
    /// Returns the number of rows added (before eviction). When the cache then
    /// holds more than `max_size` rows it keeps the newest `max_size` of them,
    /// by a stable sort on `created_at`, newest first.
    pub fn merge(&mut self, new_records: Vec<SessionRequestToken>) -> (added: usize)
        requires
            old(self).wf(),
        ensures
            final(self).wf(),
            ({
                let combined = dedup_by(old(self).spec_records() + new_records@, token_key());
                &&& added == combined.len() - old(self).spec_records().len()
                &&& final(self).spec_max_size() == old(self).spec_max_size()
                &&& combined.len() <= old(self).spec_max_size() ==> final(self).spec_records()
                    == combined
                &&& combined.len() > old(self).spec_max_size() ==> final(self).spec_records()
                    == sort_desc(combined, created_key()).take(
                    old(self).spec_max_size() as int,
                )
            }),
    {
        let ghost old_records = self.records@;
        let ghost all = old_records + new_records@;
        let mut records = Vec::new();
        std::mem::swap(&mut records, &mut self.records);
        proof {
            lemma_dedup_by_distinct_fixed(old_records, token_key());
            assert(all.take(old_records.len() as int) =~= old_records);
        }
        let mut added: usize = 0;
        let mut seen: Vec<RequestFingerprint> = Vec::new();
        let mut k: usize = 0;
        while k < records.len()
            invariant
                records@ == old_records,
                k <= records.len(),
                seen.len() == k,
                forall|m: int| 0 <= m < k ==> (#[trigger] seen@[m])@ == token_fp(records@[m]),
            decreases records.len() - k,
        {
            let fp = fingerprint_of_token(&records[k]);
            seen.push(fp);
            k = k + 1;
        }
        let mut i: usize = 0;
        while i < new_records.len()
            invariant
                i <= new_records.len(),
                records@ == dedup_by(all.take(old_records.len() + i), token_key()),
                records.len() == old_records.len() + added,
                added <= i,
                seen.len() == records.len(),
                forall|m: int| 0 <= m < seen.len() ==> (#[trigger] seen@[m])@ == token_fp(records@[m]),
                all == old_records + new_records@,
            decreases new_records.len() - i,
        {
            let fp = fingerprint_of_token(&new_records[i]);
            let dup = seen_contains(&seen, &fp);
            let ghost n = old_records.len() + i;
            proof {
                lemma_dedup_by_step(all, token_key(), n as int);
                assert(all[n as int] == new_records@[i as int]);
                if dup {
                    let m = choose|m: int| 0 <= m < seen.len() && (#[trigger] seen@[m])@ == fp@;
                    assert(token_key()(records@[m]) == token_key()(all[n as int]));
                } else {
                    assert forall|m: int| 0 <= m < records@.len() implies token_key()(
                        #[trigger] records@[m],
                    ) != token_key()(all[n as int]) by {
                        assert(seen@[m]@ == token_fp(records@[m]));
                    }
                }
            }
            if !dup {
                let r = new_records[i].clone();
                records.push(r);
                seen.push(fp);
                added = added + 1;
            }
            i = i + 1;
        }
        proof {
            assert(all.take(all.len() as int) =~= all);
            assert(records@ == dedup_by(all, token_key()));
            lemma_dedup_by_distinct(all, token_key());
        }
        if records.len() > self.max_size {
            let ghost combined = records@;
            let mut sorted = sort_tokens_newest_first(records);
            proof {
                lemma_sort_desc(combined, created_key());
                lemma_sort_desc_keeps_distinct(combined);
            }
            sorted.truncate(self.max_size);
            assert(sorted@ == sort_desc(combined, created_key()).take(self.max_size as int));
            self.records = sorted;
        } else {
            self.records = records;
        }
        added
    }

    /// Empties the cache.
    pub fn clear(&mut self)
        requires
            old(self).wf(),
        ensures
            final(self).wf(),
            final(self).spec_records() == Seq::<SessionRequestToken>::empty(),
            final(self).spec_max_size() == old(self).spec_max_size(),
    {
        self.records = Vec::new();
    }
}

/// Sorting rows whose fingerprints are distinct keeps them distinct, and so
/// does any prefix of the result.
proof fn lemma_sort_desc_keeps_distinct(s: Seq<SessionRequestToken>)
    requires
        keys_distinct(s, token_key()),
    ensures
        forall|n: int|
            0 <= n <= s.len() ==> keys_distinct(
                #[trigger] sort_desc(s, created_key()).take(n),
                token_key(),
            ),
{
    broadcast use vstd::seq_lib::group_to_multiset_ensures;
    lemma_sort_desc(s, created_key());
    let r = sort_desc(s, created_key());
    assert forall|i: int, j: int| 0 <= i < j < r.len() implies token_key()(#[trigger] r[i])
        != token_key()(#[trigger] r[j]) by {
        if token_key()(r[i]) == token_key()(r[j]) {
            lemma_distinct_keys_count(s, r[i]);
            lemma_distinct_keys_count(s, r[j]);
            assert(r.to_multiset().count(r[i]) >= 1);
            if r[i] == r[j] {
                lemma_two_positions_count(r, i, j);
            } else {
                let a = choose|a: int| 0 <= a < s.len() && s[a] == r[i];
                let b = choose|b: int| 0 <= b < s.len() && s[b] == r[j];
                if a < b {
                } else if b < a {
                } else {
                }
            }
        }
    }
    assert forall|n: int| 0 <= n <= s.len() implies keys_distinct(
        #[trigger] r.take(n),
        token_key(),
    ) by {
        assert forall|i: int, j: int| 0 <= i < j < r.take(n).len() implies token_key()(
            #[trigger] r.take(n)[i],
        ) != token_key()(#[trigger] r.take(n)[j]) by {
            assert(r.take(n)[i] == r[i] && r.take(n)[j] == r[j]);
        }
    }
}

/// In a sequence with distinct keys each element occurs once, and an element
/// counted by the multiset sits at some position.
proof fn lemma_distinct_keys_count(s: Seq<SessionRequestToken>, x: SessionRequestToken)
    requires
        keys_distinct(s, token_key()),
    ensures
        s.to_multiset().count(x) <= 1,
        s.to_multiset().count(x) > 0 ==> exists|a: int| 0 <= a < s.len() && s[a] == x,
    decreases s.len(),
{
    broadcast use vstd::seq_lib::group_to_multiset_ensures;
    if s.len() > 0 {
        let t = s.drop_last();
        assert forall|i: int, j: int| 0 <= i < j < t.len() implies token_key()(#[trigger] t[i])
            != token_key()(#[trigger] t[j]) by {
            assert(t[i] == s[i] && t[j] == s[j]);
        }
        lemma_distinct_keys_count(t, x);
        assert(s =~= t.push(s.last()));
        if s.last() == x && t.to_multiset().count(x) > 0 {
            let a = choose|a: int| 0 <= a < t.len() && t[a] == x;
            assert(s[a] == x);
        }
        if t.to_multiset().count(x) > 0 {
            let a = choose|a: int| 0 <= a < t.len() && t[a] == x;
            assert(s[a] == t[a]);
        }
    }
}

/// An element at two positions is counted at least twice.
proof fn lemma_two_positions_count(r: Seq<SessionRequestToken>, i: int, j: int)
    requires
        0 <= i < j < r.len(),
        r[i] == r[j],
    ensures
        r.to_multiset().count(r[i]) >= 2,
    decreases r.len(),
{
    broadcast use vstd::seq_lib::group_to_multiset_ensures;
    let t = r.drop_last();
    assert(r =~= t.push(r.last()));
    if j < r.len() - 1 {
        assert(t[i] == r[i] && t[j] == r[j]);
        lemma_two_positions_count(t, i, j);
    } else {
        assert(t[i] == r[i]);
        assert(t.contains(r[i]));
    }
}

} // verus!
