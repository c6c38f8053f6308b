//! What the session files of Grok and Kimi say about a session: its id, its
//! title and its project directory, from the fields their JSON holds.
use crate::misc::{clean_kimi_title, kimi_title, KimiSessionMetadata};
use crate::hooks::opt_view;
use crate::json_field::{doc_str, json_at, json_parses, json_value_at, parse_json, str_at, JsonField};
use crate::text::{self, trim};
use vstd::prelude::*;

verus! {

/// The longest Grok title, in characters, before it is cut.
pub const GROK_TITLE_MAX_CHARS: usize = 80;

/// A field's trimmed text, when it is not blank.
pub open spec fn nonblank(o: Option<Seq<char>>) -> Option<Seq<char>> {
    match o {
        Some(s) => if trim(s).len() > 0 {
            Some(trim(s))
        } else {
            None
        },
        None => None,
    }
}

/// A Grok title: the trimmed text, cut to `max - 1` characters and an
/// ellipsis when longer than `max`.
pub open spec fn grok_title(s: Seq<char>, max: nat) -> Seq<char> {
    let t = trim(s);
    if t.len() <= max {
        t
    } else {
        t.take(if max >= 1 { max - 1 } else { 0 }) + seq!['…']
    }
}

pub open spec fn opt_str(o: Option<&str>) -> Option<Seq<char>> {
    match o {
        Some(s) => Some(s@),
        None => None,
    }
}

fn nonblank_exec(o: Option<&str>) -> (r: Option<String>)
    ensures
        match r {
            Some(s) => nonblank(opt_str(o)) == Some(s@),
            None => nonblank(opt_str(o)) is None,
        },
{
    match o {
        Some(s) => {
            let t = text::trim_str(s);
            if text::chars_of(t.as_str()).len() > 0 {
                Some(t)
            } else {
                None
            }
        },
        None => None,
    }
}

fn grok_title_exec(s: &str) -> (r: String)
    ensures
        r@ == grok_title(s@, GROK_TITLE_MAX_CHARS as nat),
{
    let t = text::chars_of(text::trim_str(s).as_str());
    if t.len() <= GROK_TITLE_MAX_CHARS {
        return text::string_from_chars(&t);
    }
    let mut out: Vec<char> = Vec::new();
    let mut i: usize = 0;
    while i < GROK_TITLE_MAX_CHARS - 1
        invariant
            i <= GROK_TITLE_MAX_CHARS - 1,
            GROK_TITLE_MAX_CHARS < t.len(),
            out@ == t@.take(i as int),
        decreases GROK_TITLE_MAX_CHARS - 1 - i,
    {
        out.push(t[i]);
        assert(out@ =~= t@.take(i + 1));
        i = i + 1;
    }
    out.push('…');
    text::string_from_chars(&out)
}

/// The views of an optional string triple.
pub open spec fn triple_view(r: Option<(String, String, String)>) -> Option<(Seq<char>, Seq<char>, Seq<char>)> {
    match r {
        Some(v) => Some((v.0@, v.1@, v.2@)),
        None => None,
    }
}

/// The session of a Grok summary from its fields (see `grok_summary`).
pub open spec fn grok_summary_spec(info_id: Option<Seq<char>>, dir_name: Option<Seq<char>>, generated_title: Option<Seq<char>>, session_summary: Option<Seq<char>>, cwd: Option<Seq<char>>) -> Option<(Seq<char>, Seq<char>, Seq<char>)> {
    let sid: Option<Seq<char>> = if nonblank(info_id) is Some { info_id } else { dir_name };
    let t: Option<Seq<char>> = if nonblank(generated_title) is Some { nonblank(generated_title) } else { nonblank(session_summary) };
    let title: Seq<char> = match t { Some(x) => grok_title(x, GROK_TITLE_MAX_CHARS as nat), None => Seq::empty() };
    let project: Seq<char> = match nonblank(cwd) { Some(p) => p, None => Seq::empty() };
    match sid {
        None => None,
        Some(id) => if title.len() == 0 && project.len() == 0 { None } else { Some((id, title, project)) },
    }
}

/// The session of a Grok `summary.json`: its id (the file's `info.id` when
/// not blank, else the directory name), its title (the generated title, else
/// the summary, cut) and its directory; `None` without an id, or with
/// neither title nor directory.
pub fn grok_summary(info_id: Option<&str>, dir_name: Option<&str>, generated_title: Option<&str>, session_summary: Option<&str>, cwd: Option<&str>) -> (r: Option<(String, String, String)>)
    ensures
        triple_view(r) == grok_summary_spec(opt_str(info_id), opt_str(dir_name), opt_str(generated_title), opt_str(session_summary), opt_str(cwd)),
{
    let session_id = match nonblank_exec(info_id) {
        Some(_) => text::owned(info_id.unwrap()),
        None => match dir_name {
            Some(d) => text::owned(d),
            None => return None,
        },
    };
    let chosen = match nonblank_exec(generated_title) {
        Some(t) => Some(t),
        None => nonblank_exec(session_summary),
    };
    let title = match chosen {
        Some(t) => grok_title_exec(t.as_str()),
        None => String::new(),
    };
    proof {
        if chosen is Some {
            text::lemma_trim_idempotent(chosen->Some_0@);
        }
    }
    let project = match nonblank_exec(cwd) {
        Some(p) => p,
        None => String::new(),
    };
    if text::chars_of(title.as_str()).len() == 0 && text::chars_of(project.as_str()).len() == 0 {
        return None;
    }
    Some((session_id, title, project))
}

/// The fields of a Kimi session's `state.json`.
#[derive(Debug)]
pub struct KimiStateFields {
    pub id: Option<String>,
    pub work_dir: Option<String>,
    pub cwd: Option<String>,
    /// `custom.workspacePath`.
    pub workspace_path: Option<String>,
    pub title: Option<String>,
    pub last_prompt: Option<String>,
}

pub open spec fn first_of3(a: Option<String>, b: Option<String>, c: Option<String>) -> Seq<char> {
    match a {
        Some(s) => s@,
        None => match b {
            Some(s) => s@,
            None => match c {
                Some(s) => s@,
                None => Seq::empty(),
            },
        },
    }
}

/// What a Kimi session directory says of its session: without a readable
/// `state.json`, the directory name as id and nothing more; else the file's
/// id when not blank, its work directory (`workDir`, `cwd` or
/// `custom.workspacePath`, trimmed) and its title (`title` or `lastPrompt`,
/// cleaned; the id when that is empty).
pub fn kimi_state_metadata(dir_name: &str, state: Option<&KimiStateFields>) -> (m: KimiSessionMetadata)
    ensures
        state is None ==> m.session_id@ == dir_name@ && m.project_dir@.len() == 0 && m.title@.len() == 0,
        state matches Some(st) ==> ({
            let sid = match nonblank(match st.id { Some(s) => Some(s@), None => None }) {
                Some(i) => i,
                None => dir_name@,
            };
            let raw = match st.title { Some(t) => t@, None => match st.last_prompt { Some(p) => p@, None => Seq::empty() } };
            &&& m.session_id@ == sid
            &&& m.project_dir@ == trim(first_of3(st.work_dir, st.cwd, st.workspace_path))
            &&& m.title@ == (if kimi_title(raw).len() == 0 { sid } else { kimi_title(raw) })
        }),
{
    let st = match state {
        Some(st) => st,
        None => {
            return KimiSessionMetadata { session_id: text::owned(dir_name), project_dir: String::new(), title: String::new() };
        },
    };
    let id_ref: Option<&str> = match &st.id {
        Some(s) => Some(s.as_str()),
        None => None,
    };
    let session_id = match nonblank_exec(id_ref) {
        Some(i) => i,
        None => text::owned(dir_name),
    };
    let project_raw: &str = match &st.work_dir {
        Some(s) => s.as_str(),
        None => match &st.cwd {
            Some(s) => s.as_str(),
            None => match &st.workspace_path {
                Some(s) => s.as_str(),
                None => "",
            },
        },
    };
    proof {
        reveal_strlit("");
    }
    let project_dir = text::trim_str(project_raw);
    let raw: &str = match &st.title {
        Some(t) => t.as_str(),
        None => match &st.last_prompt {
            Some(p) => p.as_str(),
            None => "",
        },
    };
    assert(raw@ == (match st.title { Some(t) => t@, None => match st.last_prompt { Some(p) => p@, None => Seq::<char>::empty() } }));
    let cleaned = clean_kimi_title(raw);
    let title = if text::chars_of(cleaned.as_str()).len() == 0 {
        session_id.clone()
    } else {
        cleaned
    };
    assert(title@ == (if kimi_title(raw@).len() == 0 { session_id@ } else { kimi_title(raw@) }));
    let m = KimiSessionMetadata { session_id, project_dir, title };
    assert(m.project_dir@ == trim(first_of3(st.work_dir, st.cwd, st.workspace_path)));
    assert(m.session_id@ == (match nonblank(match st.id { Some(s) => Some(s@), None => None }) { Some(i) => i, None => dir_name@ }));
    m
}

/// The session of a Grok `summary.json` from its text: `None` when the text
/// is not JSON or has no `info`; else as `grok_summary` reads `info.id`,
/// `generated_title`, `session_summary` and `info.cwd` (strings).
pub fn grok_summary_of_text(summary: &str, dir_name: Option<&str>) -> (r: Option<(String, String, String)>)
    ensures
        (!json_parses(summary@) || json_at(summary@, "/info"@) is Absent) ==> r is None,
        (json_parses(summary@) && !(json_at(summary@, "/info"@) is Absent)) ==> triple_view(r) == grok_summary_spec(
            str_at(summary@, "/info/id"@),
            opt_str(dir_name),
            str_at(summary@, "/generated_title"@),
            str_at(summary@, "/session_summary"@),
            str_at(summary@, "/info/cwd"@),
        ),
{
    let doc = match parse_json(summary) {
        Ok(d) => d,
        Err(_) => return None,
    };
    match json_value_at(&doc, "/info") {
        JsonField::Absent => return None,
        _ => {},
    }
    let id = doc_str(&doc, "/info/id");
    let generated = doc_str(&doc, "/generated_title");
    let summary_text = doc_str(&doc, "/session_summary");
    let cwd = doc_str(&doc, "/info/cwd");
    grok_summary(as_str_opt(&id), dir_name, as_str_opt(&generated), as_str_opt(&summary_text), as_str_opt(&cwd))
}

fn as_str_opt(o: &Option<String>) -> (r: Option<&str>)
    ensures
        opt_str(r) == opt_view(*o),
{
    match o {
        Some(s) => Some(s.as_str()),
        None => None,
    }
}

/// The fields of a Kimi `state.json` text: `None` when it is not JSON; else
/// the strings `id`, `workDir`, `cwd`, `custom.workspacePath`, `title` and
/// `lastPrompt`.
pub fn kimi_state_of_text(state: &str) -> (r: Option<KimiStateFields>)
    ensures
        r is None <==> !json_parses(state@),
        r matches Some(st) ==> ({
            &&& opt_view(st.id) == str_at(state@, "/id"@)
            &&& opt_view(st.work_dir) == str_at(state@, "/workDir"@)
            &&& opt_view(st.cwd) == str_at(state@, "/cwd"@)
            &&& opt_view(st.workspace_path) == str_at(state@, "/custom/workspacePath"@)
            &&& opt_view(st.title) == str_at(state@, "/title"@)
            &&& opt_view(st.last_prompt) == str_at(state@, "/lastPrompt"@)
        }),
{
    let doc = match parse_json(state) {
        Ok(d) => d,
        Err(_) => return None,
    };
    Some(KimiStateFields {
        id: doc_str(&doc, "/id"),
        work_dir: doc_str(&doc, "/workDir"),
        cwd: doc_str(&doc, "/cwd"),
        workspace_path: doc_str(&doc, "/custom/workspacePath"),
        title: doc_str(&doc, "/title"),
        last_prompt: doc_str(&doc, "/lastPrompt"),
    })
}

} // verus!
