//! Antigravity's language server: recognising its process from a process
//! listing, reading flags off its command line, its RPC address, and when a
//! session scan may move its cursor forward.
use crate::text::{self, contains, find, is_ws, lowercase, trim};
use vstd::prelude::*;

verus! {

pub const ANTIGRAVITY_SOURCE: &'static str = "Antigravity";

/// The RPC service of the language server.
pub const LS_SERVICE: &'static str = "exa.language_server_pb.LanguageServerService";

/// A session whose file has not changed for this many seconds is settled.
pub const RESCAN_GRACE_SECS: i64 = 600;

/// A language server endpoint that answered a probe.
#[derive(Debug)]
pub struct LsEndpoint {
    pub scheme: String,
    pub port: u16,
    pub csrf_token: String,
}

impl LsEndpoint {
    /// The address of RPC `method` on this endpoint.
    pub fn url(&self, method: &str) -> (u: String)
        ensures
            u@ == self.scheme@ + "://127.0.0.1:"@ + text::dec_digits(self.port as nat) + "/"@ + LS_SERVICE@ + "/"@ + method@,
    {
        let mut u = String::new();
        text::push_str(&mut u, self.scheme.as_str());
        text::push_str(&mut u, "://127.0.0.1:");
        text::push_dec_u64(&mut u, self.port as u64);
        text::push_str(&mut u, "/");
        text::push_str(&mut u, LS_SERVICE);
        text::push_str(&mut u, "/");
        text::push_str(&mut u, method);
        u
    }
}

/// `s` without leading `=`, spaces and tabs.
pub open spec fn skip_flag_separators(s: Seq<char>) -> Seq<char>
    decreases s.len(),
{
    if s.len() > 0 && (s[0] == '=' || s[0] == ' ' || s[0] == '\t') {
        skip_flag_separators(s.drop_first())
    } else {
        s
    }
}

/// The leading characters of `s` up to the first whitespace.
pub open spec fn up_to_whitespace(s: Seq<char>) -> Seq<char>
    decreases s.len(),
{
    if s.len() == 0 || is_ws(s[0]) {
        Seq::empty()
    } else {
        seq![s[0]] + up_to_whitespace(s.drop_first())
    }
}

/// The value of `flag` on a command line: after the flag's first occurrence
/// and any `=`, spaces and tabs, the text up to the next whitespace; `None`
/// when the flag is absent or the value empty.
pub open spec fn flag_value(command_line: Seq<char>, flag: Seq<char>) -> Option<Seq<char>> {
    match find(command_line, flag) {
        Some(i) => {
            let v = up_to_whitespace(skip_flag_separators(command_line.skip(i + flag.len())));
            if v.len() == 0 {
                None
            } else {
                Some(v)
            }
        },
        None => None,
    }
}

/// The value of `--flag value` or `--flag=value` on a command line.
pub fn extract_flag(command_line: &str, flag: &str) -> (r: Option<String>)
    ensures
        match flag_value(command_line@, flag@) {
            Some(v) => r matches Some(s) && s@ == v,
            None => r is None,
        },
{
    let v = text::chars_of(command_line);
    let f = text::chars_of(flag);
    let found = text::find_exec(&v, &f);
    if found.is_none() {
        return None;
    }
    let idx = found.unwrap();
    assert(text::occurs_at(v@, f@, idx as int));
    let mut a = idx + f.len();
    assert(v@.skip(a as int) == v@.skip(idx + flag@.len()));
    while a < v.len() && (v[a] == '=' || v[a] == ' ' || v[a] == '\t')
        invariant
            idx + f.len() <= a <= v.len(),
            f@ == flag@,
            skip_flag_separators(v@.skip(idx + f.len())) == skip_flag_separators(v@.skip(a as int)),
        decreases v.len() - a,
    {
        assert(v@.skip(a as int).drop_first() =~= v@.skip(a + 1));
        assert(v@.skip(a as int)[0] == v@[a as int]);
        a = a + 1;
    }
    proof {
        if a < v.len() {
            assert(v@.skip(a as int)[0] == v@[a as int]);
        }
    }
    let ghost rest = v@.skip(a as int);
    assert(skip_flag_separators(rest) == rest);
    let mut b = a;
    while b < v.len() && !text::is_ws_char(v[b])
        invariant
            a <= b <= v.len(),
            rest == v@.skip(a as int),
            up_to_whitespace(rest) == v@.subrange(a as int, b as int) + up_to_whitespace(v@.skip(b as int)),
        decreases v.len() - b,
    {
        proof {
            let t = v@.skip(b as int);
            assert(t[0] == v@[b as int]);
            assert(t.drop_first() =~= v@.skip(b + 1));
            assert(v@.subrange(a as int, b as int) + seq![v@[b as int]] =~= v@.subrange(a as int, b + 1));
        }
        b = b + 1;
    }
    proof {
        let t = v@.skip(b as int);
        if b < v.len() {
            assert(t[0] == v@[b as int]);
        }
        assert(v@.subrange(a as int, b as int) + Seq::<char>::empty() =~= v@.subrange(a as int, b as int));
    }
    if b == a {
        return None;
    }
    Some(text::string_from_range(&v, a, b))
}

/// A command line is Antigravity's language server: in lower case it names
/// a language server (`language_server` or `language-server`) and
/// `antigravity`.
pub open spec fn is_antigravity_ls_spec(command_line: Seq<char>) -> bool {
    let l = lowercase(command_line);
    (contains(l, "language_server"@) || contains(l, "language-server"@)) && contains(l, "antigravity"@)
}

/// Whether a command line is Antigravity's language server (and not that of
/// another product built on the same server).
pub fn is_antigravity_ls(command_line: &str) -> (b: bool)
    ensures
        b == is_antigravity_ls_spec(command_line@),
{
    let lower = text::to_lowercase(command_line);
    let is_ls = text::str_contains(lower.as_str(), "language_server") || text::str_contains(lower.as_str(), "language-server");
    if !is_ls {
        return false;
    }
    text::str_contains(lower.as_str(), "antigravity")
}

/// What `str::parse::<u32>` gives: an optional `+`, one or more ASCII
/// digits, and a value that fits.
pub open spec fn parse_u32(s: Seq<char>) -> Option<u32> {
    if s.len() > 0 && s[0] == '-' {
        None
    } else {
        match text::parse_i64(s) {
            Some(v) => if 0 <= v <= u32::MAX {
                Some(v as u32)
            } else {
                None
            },
            None => None,
        }
    }
}

fn parse_u32_chars(s: &Vec<char>) -> (r: Option<u32>)
    ensures
        r == parse_u32(s@),
{
    if s.len() > 0 && s[0] == '-' {
        return None;
    }
    match text::parse_i64_chars(s) {
        Some(v) => if 0 <= v && v <= 4294967295 {
            Some(v as u32)
        } else {
            None
        },
        None => None,
    }
}

/// The pid and command of a process line (`pid<TAB>command`, or split at
/// the first space when there is no tab); `None` for a blank line, a pid
/// that does not parse, or an empty command.
pub open spec fn process_line(line: Seq<char>) -> Option<(u32, Seq<char>)> {
    let t = trim(line);
    let cut = if find(t, "\t"@) is Some {
        find(t, "\t"@)
    } else {
        find(t, " "@)
    };
    if t.len() == 0 || cut is None {
        None
    } else {
        let i = cut->Some_0;
        let pid = parse_u32(trim(t.take(i)));
        let command = trim(t.skip(i + 1));
        if pid is None || command.len() == 0 {
            None
        } else {
            Some((pid->Some_0, command))
        }
    }
}

/// Reads one line of a process listing.
pub fn parse_process_line(line: &str) -> (r: Option<(u32, String)>)
    ensures
        match process_line(line@) {
            Some(p) => r matches Some(q) && q.0 == p.0 && q.1@ == p.1,
            None => r is None,
        },
{
    let t = text::trim_vec(&text::chars_of(line));
    if t.len() == 0 {
        return None;
    }
    let tab = text::chars_of("\t");
    let space = text::chars_of(" ");
    proof {
        reveal_strlit("\t");
        reveal_strlit(" ");
    }
    let tab_at = text::find_exec(&t, &tab);
    let space_at = text::find_exec(&t, &space);
    let cut = if tab_at.is_some() {
        let i = tab_at.unwrap();
        assert(text::occurs_at(t@, tab@, i as int));
        i
    } else if space_at.is_some() {
        let i = space_at.unwrap();
        assert(text::occurs_at(t@, space@, i as int));
        i
    } else {
        return None;
    };
    let mut head: Vec<char> = Vec::new();
    let mut k: usize = 0;
    while k < cut
        invariant
            k <= cut < t.len(),
            head@ == t@.take(k as int),
        decreases cut - k,
    {
        head.push(t[k]);
        assert(t@.take(k + 1) =~= t@.take(k as int).push(t@[k as int]));
        k = k + 1;
    }
    let mut tail: Vec<char> = Vec::new();
    let mut m: usize = cut + 1;
    while m < t.len()
        invariant
            cut + 1 <= m <= t.len(),
            tail@ == t@.subrange(cut + 1, m as int),
        decreases t.len() - m,
    {
        tail.push(t[m]);
        assert(t@.subrange(cut + 1, m + 1) =~= t@.subrange(cut + 1, m as int).push(t@[m as int]));
        m = m + 1;
    }
    assert(tail@ =~= t@.skip(cut + 1));
    let pid = match parse_u32_chars(&text::trim_vec(&head)) {
        Some(p) => p,
        None => {
            return None;
        },
    };
    let command = text::trim_vec(&tail);
    if command.len() == 0 {
        return None;
    }
    Some((pid, text::string_from_chars(&command)))
}

/// `a / b` rounded toward zero, as Rust divides integers.
pub open spec fn div_toward_zero(a: int, b: int) -> int {
    if a >= 0 {
        a / b
    } else {
        -((-a) / b)
    }
}

/// How long ago, in seconds, a file changed at `mtime_nanos` (whole seconds
/// of the time, rounded toward zero).
pub open spec fn settled_secs(mtime_nanos: i64, now_epoch: i64) -> int {
    now_epoch - div_toward_zero(mtime_nanos as int, 1_000_000_000)
}

/// A session scan moves its cursor forward when it got more rows than the
/// last scan, or when the session has been still for
/// [`RESCAN_GRACE_SECS`]; otherwise the session is scanned again next time.
pub fn should_advance_cursor(row_count: usize, prev_row_count: i64, mtime_nanos: i64, now_epoch: i64) -> (b: bool)
    requires
        i64::MIN <= settled_secs(mtime_nanos, now_epoch) <= i64::MAX,
    ensures
        b == ((row_count as i64) > prev_row_count || settled_secs(mtime_nanos, now_epoch) >= RESCAN_GRACE_SECS),
{
    if (row_count as i64) > prev_row_count {
        return true;
    }
    let m = mtime_nanos as i128;
    let secs: i128 = if m >= 0 { m / 1_000_000_000 } else { -((-m) / 1_000_000_000) };
    (now_epoch as i128) - secs >= RESCAN_GRACE_SECS as i128
}

} // verus!
