//! Character-level text helpers with exact specifications.
//!
//! Strings are modelled by their view, a `Seq<char>`. The spec functions
//! here say what each helper computes; the executable functions are proved
//! against them.
use vstd::prelude::*;
use vstd::std_specs::iter::IteratorSpec;

verus! {

broadcast use vstd::string::group_string_axioms;

// ---------------------------------------------------------------------------
// Whitespace and trimming
// ---------------------------------------------------------------------------

/// Unicode `White_Space`, the property that `char::is_whitespace` tests.
pub open spec fn is_ws(c: char) -> bool {
    let u = c as u32;
    ||| (0x09 <= u && u <= 0x0d)
    ||| u == 0x20
    ||| u == 0x85
    ||| u == 0xa0
    ||| u == 0x1680
    ||| (0x2000 <= u && u <= 0x200a)
    ||| u == 0x2028
    ||| u == 0x2029
    ||| u == 0x202f
    ||| u == 0x205f
    ||| u == 0x3000
}

/// `s` without its leading whitespace.
pub open spec fn trim_start(s: Seq<char>) -> Seq<char>
    decreases s.len(),
{
    if s.len() > 0 && is_ws(s[0]) {
        trim_start(s.drop_first())
    } else {
        s
    }
}

/// `s` without its trailing whitespace.
pub open spec fn trim_end(s: Seq<char>) -> Seq<char>
    decreases s.len(),
{
    if s.len() > 0 && is_ws(s.last()) {
        trim_end(s.drop_last())
    } else {
        s
    }
}

/// `s` without leading and trailing whitespace (what `str::trim` returns).
pub open spec fn trim(s: Seq<char>) -> Seq<char> {
    trim_end(trim_start(s))
}

/// A string without whitespace at either end is its own trim.
pub proof fn lemma_trim_plain(s: Seq<char>)
    requires
        s.len() > 0 ==> !is_ws(s[0]) && !is_ws(s.last()),
    ensures
        trim(s) == s,
{
}

proof fn lemma_trim_start_first(s: Seq<char>)
    ensures
        trim_start(s).len() > 0 ==> !is_ws(trim_start(s)[0]),
    decreases s.len(),
{
    if s.len() > 0 && is_ws(s[0]) {
        lemma_trim_start_first(s.drop_first());
    }
}

proof fn lemma_trim_end_prefix(s: Seq<char>)
    ensures
        trim_end(s).len() <= s.len(),
        trim_end(s) =~= s.take(trim_end(s).len() as int),
        trim_end(s).len() > 0 ==> !is_ws(trim_end(s).last()),
    decreases s.len(),
{
    if s.len() > 0 && is_ws(s.last()) {
        lemma_trim_end_prefix(s.drop_last());
        let k = trim_end(s.drop_last()).len() as int;
        assert(s.drop_last().take(k) =~= s.take(k));
    } else {
        assert(s.take(s.len() as int) =~= s);
    }
}

/// Law: trimming twice is trimming once.
pub proof fn lemma_trim_idempotent(s: Seq<char>)
    ensures
        trim(trim(s)) == trim(s),
{
    let t = trim_start(s);
    lemma_trim_start_first(s);
    lemma_trim_end_prefix(t);
    let u = trim_end(t);
    if u.len() > 0 {
        assert(u[0] == t[0]);
    }
    lemma_trim_plain(u);
}

pub fn is_ws_char(c: char) -> (b: bool)
    ensures
        b == is_ws(c),
{
    let u = c as u32;
    (0x09 <= u && u <= 0x0d) || u == 0x20 || u == 0x85 || u == 0xa0 || u == 0x1680 || (0x2000
        <= u && u <= 0x200a) || u == 0x2028 || u == 0x2029 || u == 0x202f || u == 0x205f || u
        == 0x3000
}

proof fn lemma_trim_start_skip(s: Seq<char>, i: int)
    requires
        0 <= i <= s.len(),
        forall|k: int| 0 <= k < i ==> is_ws(#[trigger] s[k]),
    ensures
        trim_start(s) == trim_start(s.skip(i)),
    decreases i,
{
    if i > 0 {
        assert(s.drop_first().skip(i - 1) =~= s.skip(i));
        lemma_trim_start_skip(s.drop_first(), i - 1);
    } else {
        assert(s.skip(0) =~= s);
    }
}

proof fn lemma_trim_end_take(s: Seq<char>, j: int)
    requires
        0 <= j <= s.len(),
        forall|k: int| j <= k < s.len() ==> is_ws(#[trigger] s[k]),
    ensures
        trim_end(s) == trim_end(s.take(j)),
    decreases s.len() - j,
{
    if j < s.len() {
        assert(s.drop_last().take(j) =~= s.take(j));
        lemma_trim_end_take(s.drop_last(), j);
    } else {
        assert(s.take(j) =~= s);
    }
}

/// Bounds `(a, b)` such that `s[a..b]` is `trim(s)`.
pub fn trim_bounds(s: &Vec<char>) -> (r: (usize, usize))
    ensures
        r.0 <= r.1 <= s.len(),
        s@.subrange(r.0 as int, r.1 as int) == trim(s@),
{
    let mut a: usize = 0;
    while a < s.len() && is_ws_char(s[a])
        invariant
            a <= s.len(),
            forall|k: int| 0 <= k < a ==> is_ws(#[trigger] s@[k]),
        decreases s.len() - a,
    {
        a = a + 1;
    }
    proof {
        lemma_trim_start_skip(s@, a as int);
    }
    let ghost t = s@.skip(a as int);
    assert(trim_start(t) == t);
    let mut b: usize = s.len();
    while b > a && is_ws_char(s[b - 1])
        invariant
            a <= b <= s.len(),
            t == s@.skip(a as int),
            forall|k: int| b - a <= k < t.len() ==> is_ws(#[trigger] t[k]),
        decreases b,
    {
        b = b - 1;
    }
    proof {
        lemma_trim_end_take(t, (b - a) as int);
        assert(t.take((b - a) as int) =~= s@.subrange(a as int, b as int));
        let u = s@.subrange(a as int, b as int);
        if u.len() > 0 {
            assert(!is_ws(u.last()));
        }
    }
    (a, b)
}

// ---------------------------------------------------------------------------
// Building strings
// ---------------------------------------------------------------------------

/// The characters of `s`, in order.
pub fn chars_of(s: &str) -> (out: Vec<char>)
    ensures
        out@ == s@,
{
    let mut out: Vec<char> = Vec::new();
    for c in iter: s.chars()
        invariant
            out@ == iter.seq().take(iter.index() as int),
    {
        out.push(c);
    }
    out
}

/// Appends one character to a `String` (std's `String::push`).
#[verifier::external_body]
fn push_char(s: &mut String, c: char)
    ensures
        final(s)@ == old(s)@.push(c),
{
    s.push(c);
}

/// The `String` whose characters are `v[a..b]`.
pub fn string_from_range(v: &Vec<char>, a: usize, b: usize) -> (s: String)
    requires
        a <= b <= v.len(),
    ensures
        s@ == v@.subrange(a as int, b as int),
{
    let mut s = String::new();
    let mut i = a;
    while i < b
        invariant
            a <= i <= b <= v.len(),
            s@ == v@.subrange(a as int, i as int),
        decreases b - i,
    {
        push_char(&mut s, v[i]);
        assert(v@.subrange(a as int, i + 1) =~= v@.subrange(a as int, i as int).push(v@[i as int]));
        i = i + 1;
    }
    s
}

/// The `String` whose characters are `v`.
pub fn string_from_chars(v: &Vec<char>) -> (s: String)
    ensures
        s@ == v@,
{
    let s = string_from_range(v, 0, v.len());
    assert(v@.subrange(0, v@.len() as int) =~= v@);
    s
}

/// Appends the characters of `t` to `s`.
pub fn push_seq(s: &mut String, t: &Vec<char>)
    ensures
        final(s)@ == old(s)@ + t@,
{
    let mut i: usize = 0;
    while i < t.len()
        invariant
            i <= t.len(),
            s@ == old(s)@ + t@.take(i as int),
        decreases t.len() - i,
    {
        push_char(s, t[i]);
        assert(t@.take(i + 1) =~= t@.take(i as int).push(t@[i as int]));
        i = i + 1;
    }
    assert(t@.take(t.len() as int) =~= t@);
}

/// Appends the characters of `t` to `s`.
pub fn push_str(s: &mut String, t: &str)
    ensures
        final(s)@ == old(s)@ + t@,
{
    let v = chars_of(t);
    push_seq(s, &v);
}

/// A copy of `s` as an owned `String`.
pub fn owned(s: &str) -> (r: String)
    ensures
        r@ == s@,
{
    let v = chars_of(s);
    string_from_chars(&v)
}

/// `s` without leading and trailing whitespace.
pub fn trim_str(s: &str) -> (r: String)
    ensures
        r@ == trim(s@),
{
    let v = chars_of(s);
    let (a, b) = trim_bounds(&v);
    string_from_range(&v, a, b)
}

// ---------------------------------------------------------------------------
// Comparisons and searches
// ---------------------------------------------------------------------------

/// Whether two character sequences are equal.
pub fn seq_eq(a: &Vec<char>, b: &Vec<char>) -> (r: bool)
    ensures
        r == (a@ == b@),
{
    if a.len() != b.len() {
        return false;
    }
    let mut i: usize = 0;
    while i < a.len()
        invariant
            a.len() == b.len(),
            i <= a.len(),
            forall|k: int| 0 <= k < i ==> a@[k] == b@[k],
        decreases a.len() - i,
    {
        if a[i] != b[i] {
            return false;
        }
        i = i + 1;
    }
    assert(a@ =~= b@);
    true
}

/// Whether two strings are equal.
pub fn str_eq(a: &str, b: &str) -> (r: bool)
    ensures
        r == (a@ == b@),
{
    let va = chars_of(a);
    let vb = chars_of(b);
    seq_eq(&va, &vb)
}

/// `p` is a prefix of `s`.
pub open spec fn starts_with(s: Seq<char>, p: Seq<char>) -> bool {
    p.len() <= s.len() && s.take(p.len() as int) == p
}

/// `p` is a suffix of `s`.
pub open spec fn ends_with(s: Seq<char>, p: Seq<char>) -> bool {
    p.len() <= s.len() && s.skip(s.len() - p.len()) == p
}

/// `p` occurs in `s` at position `i`.
pub open spec fn occurs_at(s: Seq<char>, p: Seq<char>, i: int) -> bool {
    0 <= i && i + p.len() <= s.len() && s.subrange(i, i + p.len()) == p
}

/// `p` occurs somewhere in `s`.
pub open spec fn contains(s: Seq<char>, p: Seq<char>) -> bool {
    exists|i: int| occurs_at(s, p, i)
}

/// The first position at which `p` occurs in `s`, if any.
pub open spec fn find(s: Seq<char>, p: Seq<char>) -> Option<int> {
    if contains(s, p) {
        Some(choose|i: int| occurs_at(s, p, i) && forall|j: int| 0 <= j < i ==> !occurs_at(s, p, j))
    } else {
        None
    }
}

/// Whether `p` occurs in `v` at position `i`.
pub fn occurs_at_exec(v: &Vec<char>, p: &Vec<char>, i: usize) -> (r: bool)
    ensures
        r == occurs_at(v@, p@, i as int),
{
    if p.len() > v.len() || i > v.len() - p.len() {
        return false;
    }
    let mut k: usize = 0;
    while k < p.len()
        invariant
            i + p.len() <= v.len(),
            k <= p.len(),
            forall|m: int| 0 <= m < k ==> v@[i + m] == p@[m],
        decreases p.len() - k,
    {
        if v[i + k] != p[k] {
            assert(v@.subrange(i as int, i + p.len())[k as int] != p@[k as int]);
            return false;
        }
        k = k + 1;
    }
    assert(v@.subrange(i as int, i + p.len()) =~= p@);
    true
}

/// The first position at which `p` occurs in `v`, if any.
pub fn find_exec(v: &Vec<char>, p: &Vec<char>) -> (r: Option<usize>)
    ensures
        r matches Some(i) ==> find(v@, p@) == Some(i as int) && occurs_at(v@, p@, i as int) && forall|j: int| 0 <= j < i ==> !occurs_at(v@, p@, j),
        r is None ==> find(v@, p@) is None,
{
    if p.len() > v.len() {
        assert(!contains(v@, p@));
        return None;
    }
    let last = v.len() - p.len();
    let mut i: usize = 0;
    loop
        invariant
            last == v.len() - p.len(),
            i <= last,
            forall|j: int| 0 <= j < i ==> !occurs_at(v@, p@, j),
        ensures
            forall|j: int| 0 <= j <= last ==> !occurs_at(v@, p@, j),
        decreases last - i,
    {
        if occurs_at_exec(v, p, i) {
            proof {
                let w = choose|w: int|
                    occurs_at(v@, p@, w) && forall|j: int| 0 <= j < w ==> !occurs_at(v@, p@, j);
                assert(occurs_at(v@, p@, i as int));
                assert(contains(v@, p@));
                if w < i {
                } else if w > i {
                }
                assert(w == i);
            }
            return Some(i);
        }
        if i == last {
            break;
        }
        i = i + 1;
    }
    assert(!contains(v@, p@)) by {
        if contains(v@, p@) {
            let w = choose|w: int| occurs_at(v@, p@, w);
            assert(occurs_at(v@, p@, w));
        }
    }
    None
}

/// Whether `p` occurs in `v`.
pub fn contains_exec(v: &Vec<char>, p: &Vec<char>) -> (r: bool)
    ensures
        r == contains(v@, p@),
{
    find_exec(v, p).is_some()
}

/// Whether `p` is a prefix of `v`.
pub fn starts_with_exec(v: &Vec<char>, p: &Vec<char>) -> (r: bool)
    ensures
        r == starts_with(v@, p@),
{
    let r = occurs_at_exec(v, p, 0);
    proof {
        if p@.len() <= v@.len() {
            assert(v@.subrange(0, p@.len() as int) =~= v@.take(p@.len() as int));
        }
    }
    r
}

/// Whether `p` is a suffix of `v`.
pub fn ends_with_exec(v: &Vec<char>, p: &Vec<char>) -> (r: bool)
    ensures
        r == ends_with(v@, p@),
{
    if p.len() > v.len() {
        return false;
    }
    let r = occurs_at_exec(v, p, v.len() - p.len());
    proof {
        assert(v@.subrange(v@.len() - p@.len(), v@.len() as int) =~= v@.skip(v@.len() - p@.len()));
    }
    r
}

/// Whether `s` contains `p`.
pub fn str_contains(s: &str, p: &str) -> (r: bool)
    ensures
        r == contains(s@, p@),
{
    let v = chars_of(s);
    let q = chars_of(p);
    contains_exec(&v, &q)
}

/// Whether `s` starts with `p`.
pub fn str_starts_with(s: &str, p: &str) -> (r: bool)
    ensures
        r == starts_with(s@, p@),
{
    let v = chars_of(s);
    let q = chars_of(p);
    starts_with_exec(&v, &q)
}

/// Whether `s` ends with `p`.
pub fn str_ends_with(s: &str, p: &str) -> (r: bool)
    ensures
        r == ends_with(s@, p@),
{
    let v = chars_of(s);
    let q = chars_of(p);
    ends_with_exec(&v, &q)
}

// ---------------------------------------------------------------------------
// Decimal and hexadecimal numbers
// ---------------------------------------------------------------------------

/// The ASCII digit for `d < 10`.
pub open spec fn digit_char(d: nat) -> char {
    ((48 + d) as u32) as char
}

/// The decimal digits of `n`, without leading zeros ("0" for zero).
pub open spec fn dec_digits(n: nat) -> Seq<char>
    decreases n,
{
    if n < 10 {
        seq![digit_char(n)]
    } else {
        dec_digits(n / 10).push(digit_char(n % 10))
    }
}

/// How `i64`'s `Display` writes `n`: a minus sign for negatives, then the
/// decimal digits of the magnitude.
pub open spec fn dec_i64(n: i64) -> Seq<char> {
    if n < 0 {
        seq!['-'] + dec_digits((-n) as nat)
    } else {
        dec_digits(n as nat)
    }
}

fn digit_of(d: u64) -> (c: char)
    requires
        d < 10,
    ensures
        c == digit_char(d as nat),
{
    let u = (48 + d) as u8;
    let c = u as char;
    assert(c == digit_char(d as nat)) by {
        assert(u as u32 == 48 + d);
    }
    c
}

/// Appends the decimal digits of `n` to `s`.
pub fn push_dec_u64(s: &mut String, n: u64)
    ensures
        final(s)@ == old(s)@ + dec_digits(n as nat),
    decreases n,
{
    if n >= 10 {
        push_dec_u64(s, n / 10);
    }
    push_char(s, digit_of(n % 10));
    proof {
        if n >= 10 {
            assert(old(s)@ + dec_digits(n as nat) =~= old(s)@ + dec_digits((n / 10) as nat) + seq![digit_char((n % 10) as nat)]);
        } else {
            assert(dec_digits(n as nat) =~= seq![digit_char((n % 10) as nat)]);
        }
    }
}

/// Appends the decimal form of `n` to `s`.
pub fn push_dec_i64(s: &mut String, n: i64)
    ensures
        final(s)@ == old(s)@ + dec_i64(n),
{
    if n < 0 {
        push_char(s, '-');
        let m: u64 = (-(n as i128)) as u64;
        push_dec_u64(s, m);
        assert(final(s)@ =~= old(s)@ + dec_i64(n));
    } else {
        push_dec_u64(s, n as u64);
    }
}

/// The lower-case hex digit for `d < 16`.
pub open spec fn hex_char(d: u64) -> char {
    if d < 10 {
        ((48 + d) as u32) as char
    } else {
        ((87 + d) as u32) as char
    }
}

/// `h` as 16 lower-case hex digits, zero padded (what `{:016x}` writes).
pub open spec fn hex16(h: u64) -> Seq<char> {
    Seq::new(16, |i: int| hex_char((h >> ((60 - 4 * i) as u64)) & 0xf))
}

fn hex_of(d: u64) -> (c: char)
    requires
        d < 16,
    ensures
        c == hex_char(d),
{
    if d < 10 {
        let u = (48 + d) as u8;
        assert(u as u32 == 48 + d);
        u as char
    } else {
        let u = (87 + d) as u8;
        assert(u as u32 == 87 + d);
        u as char
    }
}

/// Appends `h` as 16 lower-case hex digits.
pub fn push_hex16(s: &mut String, h: u64)
    ensures
        final(s)@ == old(s)@ + hex16(h),
{
    let mut i: u64 = 0;
    while i < 16
        invariant
            i <= 16,
            s@ == old(s)@ + hex16(h).take(i as int),
        decreases 16 - i,
    {
        let sh: u64 = 60 - 4 * i;
        let d = (h >> sh) & 0xf;
        assert(d < 16) by (bit_vector)
            requires
                d == (h >> sh) & 0xf,
        ;
        push_char(s, hex_of(d));
        assert(hex16(h).take(i + 1) =~= hex16(h).take(i as int).push(hex16(h)[i as int]));
        i = i + 1;
    }
    assert(hex16(h).take(16) =~= hex16(h));
}

// ---------------------------------------------------------------------------
// Trimming one character
// ---------------------------------------------------------------------------

/// `s` without leading copies of `c`.
pub open spec fn strip_start(s: Seq<char>, c: char) -> Seq<char>
    decreases s.len(),
{
    if s.len() > 0 && s[0] == c {
        strip_start(s.drop_first(), c)
    } else {
        s
    }
}

/// `s` without trailing copies of `c`.
pub open spec fn strip_end(s: Seq<char>, c: char) -> Seq<char>
    decreases s.len(),
{
    if s.len() > 0 && s.last() == c {
        strip_end(s.drop_last(), c)
    } else {
        s
    }
}

/// `s` without leading and trailing copies of `c` (`str::trim_matches(c)`).
pub open spec fn strip(s: Seq<char>, c: char) -> Seq<char> {
    strip_end(strip_start(s, c), c)
}

proof fn lemma_strip_start_skip(s: Seq<char>, c: char, i: int)
    requires
        0 <= i <= s.len(),
        forall|k: int| 0 <= k < i ==> #[trigger] s[k] == c,
    ensures
        strip_start(s, c) == strip_start(s.skip(i), c),
    decreases i,
{
    if i > 0 {
        assert(s.drop_first().skip(i - 1) =~= s.skip(i));
        lemma_strip_start_skip(s.drop_first(), c, i - 1);
    } else {
        assert(s.skip(0) =~= s);
    }
}

proof fn lemma_strip_end_take(s: Seq<char>, c: char, j: int)
    requires
        0 <= j <= s.len(),
        forall|k: int| j <= k < s.len() ==> #[trigger] s[k] == c,
    ensures
        strip_end(s, c) == strip_end(s.take(j), c),
    decreases s.len() - j,
{
    if j < s.len() {
        assert(s.drop_last().take(j) =~= s.take(j));
        lemma_strip_end_take(s.drop_last(), c, j);
    } else {
        assert(s.take(j) =~= s);
    }
}

/// `v` without leading and trailing copies of `c`.
pub fn strip_vec(v: &Vec<char>, c: char) -> (r: Vec<char>)
    ensures
        r@ == strip(v@, c),
{
    let mut a: usize = 0;
    while a < v.len() && v[a] == c
        invariant
            a <= v.len(),
            forall|k: int| 0 <= k < a ==> #[trigger] v@[k] == c,
        decreases v.len() - a,
    {
        a = a + 1;
    }
    proof {
        lemma_strip_start_skip(v@, c, a as int);
    }
    let ghost t = v@.skip(a as int);
    assert(strip_start(t, c) == t);
    let mut b: usize = v.len();
    while b > a && v[b - 1] == c
        invariant
            a <= b <= v.len(),
            t == v@.skip(a as int),
            forall|k: int| b - a <= k < t.len() ==> #[trigger] t[k] == c,
        decreases b,
    {
        b = b - 1;
    }
    proof {
        lemma_strip_end_take(t, c, (b - a) as int);
        assert(t.take((b - a) as int) =~= v@.subrange(a as int, b as int));
    }
    let mut r: Vec<char> = Vec::new();
    let mut i = a;
    while i < b
        invariant
            a <= i <= b <= v.len(),
            r@ == v@.subrange(a as int, i as int),
        decreases b - i,
    {
        r.push(v[i]);
        assert(v@.subrange(a as int, i + 1) =~= v@.subrange(a as int, i as int).push(v@[i as int]));
        i = i + 1;
    }
    r
}

/// `v` without leading copies of `c`.
pub fn strip_start_vec(v: &Vec<char>, c: char) -> (r: Vec<char>)
    ensures
        r@ == strip_start(v@, c),
{
    let mut a: usize = 0;
    while a < v.len() && v[a] == c
        invariant
            a <= v.len(),
            forall|k: int| 0 <= k < a ==> #[trigger] v@[k] == c,
        decreases v.len() - a,
    {
        a = a + 1;
    }
    proof {
        lemma_strip_start_skip(v@, c, a as int);
        assert(strip_start(v@.skip(a as int), c) == v@.skip(a as int));
    }
    let mut r: Vec<char> = Vec::new();
    let mut i = a;
    while i < v.len()
        invariant
            a <= i <= v.len(),
            r@ == v@.subrange(a as int, i as int),
        decreases v.len() - i,
    {
        r.push(v[i]);
        assert(v@.subrange(a as int, i + 1) =~= v@.subrange(a as int, i as int).push(v@[i as int]));
        i = i + 1;
    }
    assert(r@ =~= v@.skip(a as int));
    r
}

/// `v` without leading and trailing whitespace.
pub fn trim_vec(v: &Vec<char>) -> (r: Vec<char>)
    ensures
        r@ == trim(v@),
{
    let (a, b) = trim_bounds(v);
    let mut r: Vec<char> = Vec::new();
    let mut i = a;
    while i < b
        invariant
            a <= i <= b <= v.len(),
            r@ == v@.subrange(a as int, i as int),
        decreases b - i,
    {
        r.push(v[i]);
        assert(v@.subrange(a as int, i + 1) =~= v@.subrange(a as int, i as int).push(v@[i as int]));
        i = i + 1;
    }
    r
}

// ---------------------------------------------------------------------------
// Lines
// ---------------------------------------------------------------------------

/// `cur` without one trailing carriage return.
pub open spec fn strip_cr(cur: Seq<char>) -> Seq<char> {
    if cur.len() > 0 && cur.last() == '\r' {
        cur.drop_last()
    } else {
        cur
    }
}

/// The lines of `s` after a partial line `cur` (see [`lines`]).
pub open spec fn lines_acc(s: Seq<char>, cur: Seq<char>) -> Seq<Seq<char>>
    decreases s.len(),
{
    if s.len() == 0 {
        if cur.len() == 0 {
            Seq::empty()
        } else {
            seq![cur]
        }
    } else if s[0] == '\n' {
        seq![strip_cr(cur)] + lines_acc(s.drop_first(), Seq::empty())
    } else {
        lines_acc(s.drop_first(), cur.push(s[0]))
    }
}

/// What `str::lines` yields: the text split at `\n`, a `\r` before each
/// `\n` dropped, and no empty last line.
pub open spec fn lines(s: Seq<char>) -> Seq<Seq<char>> {
    lines_acc(s, Seq::empty())
}

/// `s` holds no line break.
pub open spec fn no_newline(s: Seq<char>) -> bool {
    forall|i: int| 0 <= i < s.len() ==> s[i] != '\n'
}

/// The lines of a text hold no line break.
pub(crate) proof fn lemma_lines_no_newline(s: Seq<char>, cur: Seq<char>)
    requires
        no_newline(cur),
    ensures
        forall|i: int| 0 <= i < lines_acc(s, cur).len() ==> no_newline(#[trigger] lines_acc(s, cur)[i]),
    decreases s.len(),
{
    if s.len() == 0 {
        if cur.len() > 0 {
            assert(lines_acc(s, cur) =~= seq![cur]);
        }
    } else if s[0] == '\n' {
        lemma_lines_no_newline(s.drop_first(), Seq::empty());
        let r = lines_acc(s, cur);
        let t = lines_acc(s.drop_first(), Seq::empty());
        assert forall|i: int| 0 <= i < r.len() implies no_newline(#[trigger] r[i]) by {
            if i == 0 {
                assert(r[0] == strip_cr(cur));
            } else {
                assert(r[i] == t[i - 1]);
            }
        }
    } else {
        assert(no_newline(cur.push(s[0])));
        lemma_lines_no_newline(s.drop_first(), cur.push(s[0]));
        assert(lines_acc(s, cur) == lines_acc(s.drop_first(), cur.push(s[0])));
    }
}

/// Lines of text followed by more text: the lines split at the end of the
/// first part.
pub(crate) proof fn lemma_lines_acc_concat(p: Seq<char>, q: Seq<char>, cur: Seq<char>)
    requires
        p.len() > 0,
        p.last() == '\n',
    ensures
        lines_acc(p + q, cur) == lines_acc(p, cur) + lines_acc(q, Seq::empty()),
    decreases p.len(),
{
    assert((p + q).drop_first() =~= p.drop_first() + q);
    assert((p + q)[0] == p[0]);
    if p[0] == '\n' {
        if p.len() == 1 {
            assert(p.drop_first() + q =~= q);
            assert(lines_acc(p.drop_first(), Seq::empty()) =~= Seq::<Seq<char>>::empty());
            assert(lines_acc(p, cur) =~= seq![strip_cr(cur)]);
        } else {
            lemma_lines_acc_concat(p.drop_first(), q, Seq::empty());
        }
        assert(lines_acc(p + q, cur) =~= lines_acc(p, cur) + lines_acc(q, Seq::empty()));
    } else {
        lemma_lines_acc_concat(p.drop_first(), q, cur.push(p[0]));
    }
}

/// One line and its line break read back as that line (without a final
/// carriage return).
pub(crate) proof fn lemma_lines_acc_line(x: Seq<char>, cur: Seq<char>)
    requires
        no_newline(x),
    ensures
        lines_acc(x + seq!['\n'], cur) == seq![strip_cr(cur + x)],
    decreases x.len(),
{
    if x.len() == 0 {
        assert(x + seq!['\n'] =~= seq!['\n']);
        assert(seq!['\n'].drop_first() =~= Seq::<char>::empty());
        assert(cur + x =~= cur);
        assert(seq!['\n'][0] == '\n');
        assert(lines_acc(Seq::<char>::empty(), Seq::<char>::empty()) =~= Seq::<Seq<char>>::empty());
        assert(lines_acc(seq!['\n'], cur) =~= seq![strip_cr(cur)] + lines_acc(Seq::<char>::empty(), Seq::<char>::empty()));
    } else {
        assert((x + seq!['\n']).drop_first() =~= x.drop_first() + seq!['\n']);
        assert((x + seq!['\n'])[0] == x[0]);
        lemma_lines_acc_line(x.drop_first(), cur.push(x[0]));
        assert(cur.push(x[0]) + x.drop_first() =~= cur + x);
    }
}

/// The character sequences of a vector of character vectors.
pub open spec fn vv_view(v: Seq<Vec<char>>) -> Seq<Seq<char>> {
    Seq::new(v.len(), |i: int| v[i]@)
}

/// The lines of `v`.
pub fn split_lines(v: &Vec<char>) -> (out: Vec<Vec<char>>)
    ensures
        vv_view(out@) == lines(v@),
{
    let mut out: Vec<Vec<char>> = Vec::new();
    let mut cur: Vec<char> = Vec::new();
    let mut i: usize = 0;
    assert(v@.skip(0) =~= v@);
    assert(vv_view(out@) + lines_acc(v@.skip(0), cur@) =~= lines(v@));
    while i < v.len()
        invariant
            i <= v.len(),
            lines(v@) == vv_view(out@) + lines_acc(v@.skip(i as int), cur@),
        decreases v.len() - i,
    {
        let ghost rest = v@.skip(i as int);
        assert(rest[0] == v@[i as int]);
        assert(rest.drop_first() =~= v@.skip(i + 1));
        let c = v[i];
        if c == '\n' {
            let ghost before = vv_view(out@);
            let ghost stripped = strip_cr(cur@);
            if cur.len() > 0 && cur[cur.len() - 1] == '\r' {
                cur.pop();
            }
            assert(cur@ =~= stripped);
            let mut line = Vec::new();
            std::mem::swap(&mut line, &mut cur);
            out.push(line);
            assert(vv_view(out@) =~= before.push(stripped));
            assert(before + (seq![stripped] + lines_acc(v@.skip(i + 1), Seq::empty())) =~= vv_view(out@) + lines_acc(v@.skip(i + 1), cur@));
        } else {
            cur.push(c);
        }
        i = i + 1;
    }
    let ghost before = vv_view(out@);
    assert(v@.skip(v.len() as int) =~= Seq::<char>::empty());
    if cur.len() > 0 {
        let ghost curv = cur@;
        out.push(cur);
        assert(lines_acc(v@.skip(v.len() as int), curv) == seq![curv]);
        assert(vv_view(out@) =~= before + seq![curv]);
    } else {
        assert(before + lines_acc(v@.skip(v.len() as int), cur@) =~= before);
    }
    out
}

// ---------------------------------------------------------------------------
// Integers
// ---------------------------------------------------------------------------

pub open spec fn is_digit(c: char) -> bool {
    '0' <= c && c <= '9'
}

/// The value of a string of decimal digits.
pub open spec fn digits_value(ds: Seq<char>) -> nat
    decreases ds.len(),
{
    if ds.len() == 0 {
        0
    } else {
        digits_value(ds.drop_last()) * 10 + ((ds.last() as u32) - 48) as nat
    }
}

/// Every character of `ds` is an ASCII digit.
pub open spec fn all_digits(ds: Seq<char>) -> bool {
    forall|k: int| 0 <= k < ds.len() ==> is_digit(#[trigger] ds[k])
}

/// The length of the sign in front of a number: one for `-` or `+`.
pub open spec fn sign_len(s: Seq<char>) -> int {
    if s.len() > 0 && (s[0] == '-' || s[0] == '+') {
        1
    } else {
        0
    }
}

/// What `str::parse::<i64>` gives: an optional sign, one or more ASCII
/// digits, and a value that fits.
pub open spec fn parse_i64(s: Seq<char>) -> Option<i64> {
    let ds = s.skip(sign_len(s));
    if ds.len() == 0 || !all_digits(ds) {
        None
    } else {
        let v: int = if s[0] == '-' {
            -(digits_value(ds) as int)
        } else {
            digits_value(ds) as int
        };
        if i64::MIN <= v <= i64::MAX {
            Some(v as i64)
        } else {
            None
        }
    }
}

proof fn lemma_digits_value_grows(ds: Seq<char>, k: int)
    requires
        0 <= k <= ds.len(),
        forall|m: int| 0 <= m < ds.len() ==> is_digit(#[trigger] ds[m]),
    ensures
        digits_value(ds.take(k)) <= digits_value(ds),
    decreases ds.len() - k,
{
    if k < ds.len() {
        let t = ds.drop_last();
        assert(t.take(k) =~= ds.take(k));
        assert forall|m: int| 0 <= m < t.len() implies is_digit(#[trigger] t[m]) by {
            assert(t[m] == ds[m]);
        }
        lemma_digits_value_grows(t, k);
    } else {
        assert(ds.take(k) =~= ds);
    }
}

/// Parses a decimal `i64` the way `str::parse::<i64>` does.
pub fn parse_i64_chars(s: &Vec<char>) -> (r: Option<i64>)
    ensures
        r == parse_i64(s@),
{
    let n = s.len();
    if n == 0 {
        return None;
    }
    let neg = s[0] == '-';
    let start: usize = if s[0] == '-' || s[0] == '+' {
        1
    } else {
        0
    };
    let ghost ds = s@.skip(start as int);
    assert(sign_len(s@) == start);
    if start == n {
        return None;
    }
    let mut k: usize = start;
    let mut v: u128 = 0;
    while k < n
        invariant
            start <= k <= n,
            n == s.len(),
            ds == s@.skip(start as int),
            sign_len(s@) == start,
            forall|m: int| 0 <= m < k - start ==> is_digit(#[trigger] ds[m]),
            v == digits_value(ds.take(k - start)),
            v <= 0x8000_0000_0000_0000,
        decreases n - k,
    {
        let c = s[k];
        assert(ds[k - start] == s@[k as int]);
        if !('0' <= c && c <= '9') {
            assert(!is_digit(ds[k - start]));
            assert(!all_digits(ds));
            return None;
        }
        let d = (c as u32 - 48) as u128;
        let ghost t = ds.take(k - start + 1);
        assert(t.drop_last() =~= ds.take(k - start));
        assert(t.last() == c);
        let nv = v * 10 + d;
        if nv > 0x8000_0000_0000_0000 {
            // every further digit only makes the value larger
            let mut j = k + 1;
            while j < n
                invariant
                    k < j <= n,
                    start <= k,
                    n == s.len(),
                    ds == s@.skip(start as int),
                    sign_len(s@) == start,
                    forall|m: int| 0 <= m < j - start ==> is_digit(#[trigger] ds[m]),
                decreases n - j,
            {
                let cj = s[j];
                assert(ds[j - start] == s@[j as int]);
                if !('0' <= cj && cj <= '9') {
                    assert(!is_digit(ds[j - start]));
                    assert(!all_digits(ds));
                    return None;
                }
                j = j + 1;
            }
            proof {
                assert(digits_value(t) == nv);
                lemma_digits_value_grows(ds, (k - start + 1) as int);
                assert(digits_value(ds) > 0x8000_0000_0000_0000);
            }
            return None;
        }
        v = nv;
        k = k + 1;
    }
    assert(ds.take(n - start) =~= ds);
    if neg {
        if v == 0x8000_0000_0000_0000 {
            Some(i64::MIN)
        } else {
            Some(-(v as i64))
        }
    } else {
        if v > 0x7fff_ffff_ffff_ffff {
            None
        } else {
            Some(v as i64)
        }
    }
}

/// Parses a decimal `i64` the way `str::parse::<i64>` does.
pub fn parse_i64_str(s: &str) -> (r: Option<i64>)
    ensures
        r == parse_i64(s@),
{
    let v = chars_of(s);
    parse_i64_chars(&v)
}

// ---------------------------------------------------------------------------
// UTF-8 byte lengths
// ---------------------------------------------------------------------------

/// The number of bytes `s` takes in UTF-8.
pub open spec fn byte_len(s: Seq<char>) -> nat {
    vstd::utf8::encode_utf8(s).len()
}

/// The number of bytes `c` takes in UTF-8.
pub open spec fn char_width(c: char) -> nat {
    let u = c as u32;
    if u < 0x80 {
        1
    } else if u < 0x800 {
        2
    } else if u < 0x10000 {
        3
    } else {
        4
    }
}

proof fn lemma_encode_concat(a: Seq<char>, b: Seq<char>)
    ensures
        vstd::utf8::encode_utf8(a + b) == vstd::utf8::encode_utf8(a) + vstd::utf8::encode_utf8(b),
    decreases a.len(),
{
    if a.len() > 0 {
        assert((a + b).drop_first() =~= a.drop_first() + b);
        assert((a + b)[0] == a[0]);
        lemma_encode_concat(a.drop_first(), b);
        assert(vstd::utf8::encode_scalar(a[0] as u32) + (vstd::utf8::encode_utf8(a.drop_first()) + vstd::utf8::encode_utf8(b)) =~= vstd::utf8::encode_scalar(a[0] as u32) + vstd::utf8::encode_utf8(a.drop_first()) + vstd::utf8::encode_utf8(b));
    } else {
        assert(a + b =~= b);
    }
}

/// Law: the byte length of `s` and one more character.
pub proof fn lemma_byte_len_push(s: Seq<char>, c: char)
    ensures
        byte_len(s.push(c)) == byte_len(s) + char_width(c),
{
    lemma_encode_concat(s, seq![c]);
    assert(s.push(c) =~= s + seq![c]);
    assert(seq![c].drop_first() =~= Seq::<char>::empty());
    assert(vstd::utf8::encode_utf8(seq![c]) == vstd::utf8::encode_scalar(c as u32) + vstd::utf8::encode_utf8(Seq::<char>::empty()));
}

fn width_of(c: char) -> (w: usize)
    ensures
        w == char_width(c),
{
    let u = c as u32;
    if u < 0x80 {
        1
    } else if u < 0x800 {
        2
    } else if u < 0x10000 {
        3
    } else {
        4
    }
}

/// The first characters of `s` that take exactly `n` bytes, if a character
/// boundary falls there (what `str::get(..n)` returns).
pub open spec fn byte_prefix(s: Seq<char>, n: nat) -> Option<Seq<char>> {
    if exists|k: int| 0 <= k <= s.len() && byte_len(#[trigger] s.take(k)) == n {
        Some(s.take(choose|k: int| 0 <= k <= s.len() && byte_len(#[trigger] s.take(k)) == n))
    } else {
        None
    }
}

proof fn lemma_byte_len_take_mono(s: Seq<char>, i: int, j: int)
    requires
        0 <= i < j <= s.len(),
    ensures
        byte_len(s.take(i)) < byte_len(s.take(j)),
    decreases j - i,
{
    assert(s.take(j) =~= s.take(j - 1).push(s[j - 1]));
    lemma_byte_len_push(s.take(j - 1), s[j - 1]);
    if i < j - 1 {
        lemma_byte_len_take_mono(s, i, j - 1);
    }
}

/// The characters of `v` that take the first `n` bytes, if a character
/// boundary falls at byte `n`.
pub fn byte_prefix_exec(v: &Vec<char>, n: usize) -> (r: Option<Vec<char>>)
    ensures
        r matches Some(p) ==> byte_prefix(v@, n as nat) == Some(p@),
        r is None ==> byte_prefix(v@, n as nat) is None,
{
    let mut acc: u128 = 0;
    let mut k: usize = 0;
    let mut out: Vec<char> = Vec::new();
    assert(v@.take(0) =~= Seq::<char>::empty());
    while k < v.len() && acc < n as u128
        invariant
            acc <= n + 4,
            k <= v.len(),
            acc == byte_len(v@.take(k as int)),
            out@ == v@.take(k as int),
            forall|m: int| 0 <= m < k ==> byte_len(#[trigger] v@.take(m)) < n,
        decreases v.len() - k,
    {
        let c = v[k];
        proof {
            assert(v@.take(k + 1) =~= v@.take(k as int).push(c));
            lemma_byte_len_push(v@.take(k as int), c);
        }
        out.push(c);
        acc = acc + width_of(c) as u128;
        k = k + 1;
    }
    if acc == n as u128 {
        proof {
            let w = choose|w: int| 0 <= w <= v@.len() && byte_len(#[trigger] v@.take(w)) == n;
            if w < k {
                lemma_byte_len_take_mono(v@, w, k as int);
            } else if w > k {
                lemma_byte_len_take_mono(v@, k as int, w);
            }
        }
        Some(out)
    } else {
        proof {
            assert forall|w: int| 0 <= w <= v@.len() implies byte_len(#[trigger] v@.take(w)) != n by {
                if w < k {
                } else if w > k {
                    lemma_byte_len_take_mono(v@, k as int, w);
                }
            }
        }
        None
    }
}

// ---------------------------------------------------------------------------
// Ordering strings
// ---------------------------------------------------------------------------

/// `a` comes before `b` in lexicographic order of code points (the order of
/// `String`'s `Ord`, since UTF-8 keeps code point order).
pub open spec fn str_lt(a: Seq<char>, b: Seq<char>) -> bool
    decreases a.len(),
{
    if a.len() == 0 {
        b.len() > 0
    } else if b.len() == 0 {
        false
    } else if (a[0] as int) < (b[0] as int) {
        true
    } else if a[0] == b[0] {
        str_lt(a.drop_first(), b.drop_first())
    } else {
        false
    }
}

pub proof fn lemma_str_lt_irrefl(a: Seq<char>)
    ensures
        !str_lt(a, a),
    decreases a.len(),
{
    if a.len() > 0 {
        lemma_str_lt_irrefl(a.drop_first());
    }
}

pub proof fn lemma_str_lt_trans(a: Seq<char>, b: Seq<char>, c: Seq<char>)
    requires
        str_lt(a, b),
        str_lt(b, c),
    ensures
        str_lt(a, c),
    decreases a.len(),
{
    if a.len() > 0 && b.len() > 0 && c.len() > 0 {
        if a[0] == b[0] && b[0] == c[0] {
            lemma_str_lt_trans(a.drop_first(), b.drop_first(), c.drop_first());
        }
    }
}

pub proof fn lemma_str_lt_total(a: Seq<char>, b: Seq<char>)
    ensures
        a == b || str_lt(a, b) || str_lt(b, a),
    decreases a.len(),
{
    if a.len() > 0 && b.len() > 0 {
        if a[0] == b[0] {
            lemma_str_lt_total(a.drop_first(), b.drop_first());
            if a.drop_first() == b.drop_first() {
                assert(a =~= seq![a[0]] + a.drop_first());
                assert(b =~= seq![b[0]] + b.drop_first());
                assert(a =~= b);
            }
        } else {
            assert((a[0] as int) != (b[0] as int));
        }
    } else if a.len() == 0 && b.len() == 0 {
        assert(a =~= b);
    }
}

pub proof fn lemma_str_lt_asym(a: Seq<char>, b: Seq<char>)
    requires
        str_lt(a, b),
    ensures
        !str_lt(b, a),
{
    if str_lt(b, a) {
        lemma_str_lt_trans(a, b, a);
        lemma_str_lt_irrefl(a);
    }
}

/// Whether `a` comes before `b`.
pub fn str_lt_exec(a: &Vec<char>, b: &Vec<char>) -> (r: bool)
    ensures
        r == str_lt(a@, b@),
{
    let mut i: usize = 0;
    assert(a@.skip(0) =~= a@ && b@.skip(0) =~= b@);
    assert(a@.take(0) =~= b@.take(0));
    while i < a.len() && i < b.len() && a[i] == b[i]
        invariant
            i <= a.len(),
            i <= b.len(),
            a@.take(i as int) == b@.take(i as int),
            str_lt(a@, b@) == str_lt(a@.skip(i as int), b@.skip(i as int)),
        decreases a.len() - i,
    {
        proof {
            let x = a@.skip(i as int);
            let y = b@.skip(i as int);
            assert(x.drop_first() =~= a@.skip(i + 1));
            assert(y.drop_first() =~= b@.skip(i + 1));
            assert(a@.take(i + 1) =~= a@.take(i as int).push(a@[i as int]));
            assert(b@.take(i + 1) =~= b@.take(i as int).push(b@[i as int]));
        }
        i = i + 1;
    }
    let ghost x = a@.skip(i as int);
    let ghost y = b@.skip(i as int);
    if i == a.len() {
        assert(x.len() == 0);
        i < b.len()
    } else if i == b.len() {
        false
    } else {
        assert(x[0] == a@[i as int] && y[0] == b@[i as int]);
        a[i] < b[i]
    }
}

/// The views of a vector of strings.
pub open spec fn views(v: Seq<String>) -> Seq<Seq<char>> {
    Seq::new(v.len(), |i: int| v[i]@)
}

/// Strictly increasing, hence free of duplicates.
pub open spec fn strictly_sorted(s: Seq<Seq<char>>) -> bool {
    forall|i: int, j: int| 0 <= i < j < s.len() ==> str_lt(#[trigger] s[i], #[trigger] s[j])
}

/// Law: two strictly increasing sequences with the same elements are equal.
pub proof fn lemma_strictly_sorted_unique(a: Seq<Seq<char>>, b: Seq<Seq<char>>)
    requires
        strictly_sorted(a),
        strictly_sorted(b),
        forall|x: Seq<char>| a.contains(x) <==> b.contains(x),
    ensures
        a == b,
    decreases a.len(),
{
    if a.len() == 0 {
        if b.len() > 0 {
            assert(b.contains(b[0]));
        }
        assert(a =~= b);
    } else {
        assert(a.contains(a[0]));
        let k = choose|k: int| 0 <= k < b.len() && b[k] == a[0];
        assert(b.contains(b[0]));
        let m = choose|m: int| 0 <= m < a.len() && a[m] == b[0];
        if k > 0 {
            assert(str_lt(b[0], b[k]));
            if m > 0 {
                assert(str_lt(a[0], a[m]));
                lemma_str_lt_asym(a[0], a[m]);
            } else {
                lemma_str_lt_irrefl(a[0]);
            }
        }
        assert(a[0] == b[0]);
        let a1 = a.drop_first();
        let b1 = b.drop_first();
        assert forall|x: Seq<char>| a1.contains(x) <==> b1.contains(x) by {
            if a1.contains(x) {
                let i = choose|i: int| 0 <= i < a1.len() && a1[i] == x;
                assert(a[i + 1] == x);
                assert(str_lt(a[0], a[i + 1]));
                lemma_str_lt_irrefl(x);
                assert(b.contains(x));
                let j = choose|j: int| 0 <= j < b.len() && b[j] == x;
                assert(j != 0);
                assert(b1[j - 1] == x);
            }
            if b1.contains(x) {
                let i = choose|i: int| 0 <= i < b1.len() && b1[i] == x;
                assert(b[i + 1] == x);
                assert(str_lt(b[0], b[i + 1]));
                lemma_str_lt_irrefl(x);
                assert(a.contains(x));
                let j = choose|j: int| 0 <= j < a.len() && a[j] == x;
                assert(j != 0);
                assert(a1[j - 1] == x);
            }
        }
        assert forall|i: int, j: int| 0 <= i < j < a1.len() implies str_lt(#[trigger] a1[i], #[trigger] a1[j]) by {
            assert(a1[i] == a[i + 1] && a1[j] == a[j + 1]);
        }
        assert forall|i: int, j: int| 0 <= i < j < b1.len() implies str_lt(#[trigger] b1[i], #[trigger] b1[j]) by {
            assert(b1[i] == b[i + 1] && b1[j] == b[j + 1]);
        }
        lemma_strictly_sorted_unique(a1, b1);
        assert(a =~= seq![a[0]] + a1);
        assert(b =~= seq![b[0]] + b1);
    }
}

proof fn lemma_push_contains(s: Seq<Seq<char>>, y: Seq<char>, x: Seq<char>)
    ensures
        s.push(y).contains(x) <==> (s.contains(x) || x == y),
{
    if s.push(y).contains(x) {
        let k = choose|k: int| 0 <= k < s.push(y).len() && s.push(y)[k] == x;
        if k < s.len() {
            assert(s[k] == x);
        }
    }
    if s.contains(x) {
        let k = choose|k: int| 0 <= k < s.len() && s[k] == x;
        assert(s.push(y)[k] == x);
    }
    if x == y {
        assert(s.push(y)[s.len() as int] == x);
    }
}

/// The distinct strings of `v`, in increasing order (what sorting and then
/// `dedup` gives).
pub fn sorted_unique(v: &Vec<String>) -> (out: Vec<String>)
    ensures
        strictly_sorted(views(out@)),
        forall|x: Seq<char>| views(out@).contains(x) <==> views(v@).contains(x),
{
    let mut out: Vec<String> = Vec::new();
    let mut i: usize = 0;
    while i < v.len()
        invariant
            i <= v.len(),
            strictly_sorted(views(out@)),
            forall|x: Seq<char>| views(out@).contains(x) <==> views(v@.take(i as int)).contains(x),
        decreases v.len() - i,
    {
        let xv = chars_of(v[i].as_str());
        let mut pos: usize = 0;
        while pos < out.len() && str_lt_exec(&chars_of(out[pos].as_str()), &xv)
            invariant
                pos <= out.len(),
                xv@ == v@[i as int]@,
                forall|k: int| 0 <= k < pos ==> str_lt(#[trigger] views(out@)[k], xv@),
            decreases out.len() - pos,
        {
            pos = pos + 1;
        }
        let ghost before = views(out@);
        let dup = pos < out.len() && seq_eq(&chars_of(out[pos].as_str()), &xv);
        proof {
            assert(views(v@.take(i + 1)) =~= views(v@.take(i as int)).push(xv@));
        }
        if !dup {
            let s = string_from_chars(&xv);
            out.insert(pos, s);
            proof {
                let after = views(out@);
                assert(after =~= before.insert(pos as int, xv@));
                if pos < before.len() {
                    lemma_str_lt_total(before[pos as int], xv@);
                }
                assert forall|a: int, b: int| 0 <= a < b < after.len() implies str_lt(#[trigger] after[a], #[trigger] after[b]) by {
                    if b < pos {
                        assert(after[a] == before[a] && after[b] == before[b]);
                    } else if b == pos {
                        assert(after[a] == before[a]);
                    } else if a == pos {
                        assert(after[b] == before[b - 1]);
                        if b - 1 > pos {
                            lemma_str_lt_trans(xv@, before[pos as int], before[b - 1]);
                        }
                    } else if a < pos {
                        assert(after[a] == before[a] && after[b] == before[b - 1]);
                    } else {
                        assert(after[a] == before[a - 1] && after[b] == before[b - 1]);
                    }
                }
                assert forall|x: Seq<char>| after.contains(x) <==> views(v@.take(i + 1)).contains(x) by {
                    lemma_push_contains(views(v@.take(i as int)), xv@, x);
                    if after.contains(x) {
                        let k = choose|k: int| 0 <= k < after.len() && after[k] == x;
                        if k < pos {
                            assert(before[k] == x);
                        } else if k > pos {
                            assert(before[k - 1] == x);
                        }
                    }
                    if before.contains(x) {
                        let k = choose|k: int| 0 <= k < before.len() && before[k] == x;
                        if k < pos {
                            assert(after[k] == x);
                        } else {
                            assert(after[k + 1] == x);
                        }
                    }
                    if x == xv@ {
                        assert(after[pos as int] == x);
                    }
                }
            }
        } else {
            proof {
                assert(before[pos as int] == xv@);
                assert forall|x: Seq<char>| before.contains(x) <==> views(v@.take(i + 1)).contains(x) by {
                    lemma_push_contains(views(v@.take(i as int)), xv@, x);
                    if x == xv@ {
                        assert(before.contains(x));
                    }
                }
            }
        }
        i = i + 1;
    }
    assert(v@.take(v.len() as int) =~= v@);
    out
}


// ---------------------------------------------------------------------------
// Lower-casing
// ---------------------------------------------------------------------------

/// What `str::to_lowercase` returns for a string that is not all ASCII
/// (Unicode lower-casing).
pub uninterp spec fn unicode_lowercase(s: Seq<char>) -> Seq<char>;

/// Every character of `s` is ASCII.
pub open spec fn is_ascii_str(s: Seq<char>) -> bool {
    forall|i: int| 0 <= i < s.len() ==> (#[trigger] s[i] as u32) < 128
}

/// An ASCII upper-case letter lowered; any other character unchanged.
pub open spec fn ascii_lower_char(c: char) -> char {
    if 65 <= (c as u32) && (c as u32) <= 90 {
        (((c as u32) + 32) as u32) as char
    } else {
        c
    }
}

/// `s` with its ASCII upper-case letters lowered.
pub open spec fn ascii_lower(s: Seq<char>) -> Seq<char> {
    s.map_values(|c: char| ascii_lower_char(c))
}

/// The lower case of `s` (`str::to_lowercase`): ASCII text has its
/// upper-case letters lowered and nothing else changed.
pub open spec fn lowercase(s: Seq<char>) -> Seq<char> {
    if is_ascii_str(s) {
        ascii_lower(s)
    } else {
        unicode_lowercase(s)
    }
}

/// std's `str::to_lowercase`: the Unicode lower case of `s`, which on ASCII
/// text lowers `A`..`Z` and keeps every other character.
#[verifier::external_body]
pub(crate) fn to_lowercase(s: &str) -> (r: String)
    ensures
        r@ == if is_ascii_str(s@) {
            ascii_lower(s@)
        } else {
            unicode_lowercase(s@)
        },
{
    s.to_lowercase()
}

} // verus!
