//! The server side of the review for a connected agent: newline-delimited
//! JSON-RPC requests, and what each of them is answered.

use crate::review_state::{HunkState, Reply, ReviewState};
use crate::text::{chars_of, string_of, trimmed};
use serde_json::Value;
use vstd::prelude::*;

verus! {

broadcast use {crate::seqs::lemma_views_push, crate::seqs::lemma_views_update};

/// The version of the protocol that is spoken.
pub const PROTOCOL_VERSION: &'static str = "2024-11-05";

/// The error code for a method that does not exist.
pub const METHOD_NOT_FOUND: i32 = -32601;

/// A JSON value, carried as a whole.
#[verifier::external_type_specification]
#[verifier::external_body]
pub struct ExValue(serde_json::Value);

/// The JSON value that a text is, if it is one.
pub uninterp spec fn json_value(text: Seq<char>) -> Option<Value>;

/// The member of a JSON object under a key.
pub uninterp spec fn json_member(v: Value, key: Seq<char>) -> Option<Value>;

/// The text of a JSON string.
pub uninterp spec fn json_text(v: Value) -> Option<Seq<char>>;

/// `serde_json::from_str` into a `Value`: nothing where the text is not JSON.
/// The result depends on the text alone.
#[verifier::external_body]
fn parse_json(text: &str) -> (r: Option<Value>)
    ensures
        r == json_value(text@),
{
    serde_json::from_str::<Value>(text).ok()
}

/// `Value::get` with a string: the member of an object under this key, nothing
/// where the value is no object or has no such key. The result depends on the
/// value and the key alone.
#[verifier::external_body]
fn member<'a>(v: &'a Value, key: &str) -> (r: Option<&'a Value>)
    ensures
        (match r {
            Some(x) => Some(*x),
            None => None,
        }) == json_member(*v, key@),
{
    v.get(key)
}

/// `Value::as_str`: the text of a JSON string, nothing for any other value. The
/// result depends on the value alone.
#[verifier::external_body]
fn text_of(v: &Value) -> (r: Option<&str>)
    ensures
        (match r {
            Some(s) => Some(s@),
            None => None,
        }) == json_text(*v),
{
    v.as_str()
}

/// The text under a key; empty where there is none.
pub open spec fn text_under(v: Option<Value>, key: Seq<char>) -> Seq<char> {
    match v {
        Some(o) => match json_member(o, key) {
            Some(m) => match json_text(m) {
                Some(s) => s,
                None => Seq::empty(),
            },
            None => Seq::empty(),
        },
        None => Seq::empty(),
    }
}

fn text_or_empty(v: Option<&Value>, key: &str) -> (r: String)
    ensures
        r@ == text_under(
            match v {
                Some(o) => Some(*o),
                None => None,
            },
            key@,
        ),
{
    if let Some(o) = v {
        if let Some(m) = member(o, key) {
            if let Some(s) = text_of(m) {
                return s.to_owned();
            }
        }
    }
    String::new()
}

/// A request: what the server reads of a message.
pub struct Request<'a> {
    /// What the answer is sent back under. A notification has none.
    pub id: Option<&'a Value>,
    pub method: String,
    /// The tool that a call names.
    pub tool: String,
    /// The arguments of a reply.
    pub file: String,
    pub hunk_header: String,
    pub text: String,
}

/// What the server reads of a message.
pub open spec fn reads(r: Request<'_>, msg: Value) -> bool {
    let params = json_member(msg, "params"@);
    let args = match params {
        Some(p) => json_member(p, "arguments"@),
        None => None,
    };
    &&& (match r.id {
        Some(x) => Some(*x),
        None => None,
    }) == json_member(msg, "id"@)
    &&& r.method@ == text_under(Some(msg), "method"@)
    &&& r.tool@ == text_under(params, "name"@)
    &&& r.file@ == text_under(args, "file"@)
    &&& r.hunk_header@ == text_under(args, "hunk_header"@)
    &&& r.text@ == text_under(args, "text"@)
}

/// Reads a message.
pub fn request_of<'a>(msg: &'a Value) -> (r: Request<'a>)
    ensures
        reads(r, *msg),
{
    let params = member(msg, "params");
    let args = match params {
        Some(p) => member(p, "arguments"),
        None => None,
    };
    Request {
        id: member(msg, "id"),
        method: text_or_empty(Some(msg), "method"),
        tool: text_or_empty(params, "name"),
        file: text_or_empty(args, "file"),
        hunk_header: text_or_empty(args, "hunk_header"),
        text: text_or_empty(args, "text"),
    }
}

/// A line of input.
#[derive(Debug)]
pub enum Line {
    /// Nothing to do.
    Blank,
    /// Not JSON: reported, and skipped.
    Malformed(String),
    Message(Value),
}

/// Reads a line of input.
pub fn read_line(line: &str) -> (r: Line)
    ensures
        match r {
            Line::Blank => crate::text::trim(line@).len() == 0,
            Line::Malformed(s) => {
                &&& s@ == crate::text::trim(line@)
                &&& s@.len() > 0
                &&& json_value(s@) is None
            },
            Line::Message(v) => {
                &&& crate::text::trim(line@).len() > 0
                &&& json_value(crate::text::trim(line@)) == Some(v)
            },
        },
{
    let cs = chars_of(line);
    let inner = trimmed(cs.as_slice());
    if inner.len() == 0 {
        return Line::Blank;
    }
    let text = string_of(inner);
    match parse_json(text.as_str()) {
        Some(v) => Line::Message(v),
        None => Line::Malformed(text),
    }
}

/// What a request asks for.
#[derive(Debug)]
pub enum Asked {
    /// A notification: no answer.
    Nothing,
    /// The capabilities of the server.
    Initialize,
    /// The tools.
    ListTools,
    /// The tool that the request names is to be called.
    CallTool,
    /// An error answer: its code and its message.
    NotFound(i32, String),
}

/// What a request with this method asks for.
pub fn dispatch(method: &str, has_id: bool) -> (r: Asked)
    ensures
        if method@ == "initialize"@ {
            r is Initialize
        } else if method@ == "tools/list"@ {
            r is ListTools
        } else if method@ == "tools/call"@ {
            r is CallTool
        } else if !has_id {
            r is Nothing
        } else {
            r matches Asked::NotFound(code, message) && code == METHOD_NOT_FOUND && message@
                == "method not found: "@ + method@
        },
{
    if *method == *"initialize" {
        Asked::Initialize
    } else if *method == *"tools/list" {
        Asked::ListTools
    } else if *method == *"tools/call" {
        Asked::CallTool
    } else if !has_id {
        Asked::Nothing
    } else {
        Asked::NotFound(METHOD_NOT_FOUND, "method not found: ".to_owned().concat(method))
    }
}

/// The tools.
#[derive(Clone, Copy, PartialEq, Eq, Debug, Structural)]
pub enum Tool {
    GetReviewState,
    GetReport,
    ListRejected,
    ReplyToComment,
}

/// The name of a tool.
pub open spec fn tool_name(t: Tool) -> Seq<char> {
    match t {
        Tool::GetReviewState => "get_review_state"@,
        Tool::GetReport => "get_report"@,
        Tool::ListRejected => "list_rejected"@,
        Tool::ReplyToComment => "reply_to_comment"@,
    }
}

/// The tool of this name.
pub open spec fn tool_named(name: Seq<char>) -> Option<Tool> {
    if name == tool_name(Tool::GetReviewState) {
        Some(Tool::GetReviewState)
    } else if name == tool_name(Tool::GetReport) {
        Some(Tool::GetReport)
    } else if name == tool_name(Tool::ListRejected) {
        Some(Tool::ListRejected)
    } else if name == tool_name(Tool::ReplyToComment) {
        Some(Tool::ReplyToComment)
    } else {
        None
    }
}

/// A tool as it is listed.
#[derive(Debug)]
pub struct ToolSpec {
    pub name: &'static str,
    pub description: &'static str,
    /// The names of its arguments, all of which are strings and have to be
    /// given.
    pub arguments: Vec<&'static str>,
}

/// The tools, as they are listed.
pub fn tool_specs() -> (r: Vec<ToolSpec>)
    ensures
        r@.map_values(|t: ToolSpec| t.name@) == seq![
            tool_name(Tool::GetReviewState),
            tool_name(Tool::GetReport),
            tool_name(Tool::ListRejected),
            tool_name(Tool::ReplyToComment),
        ],
        r@.map_values(|t: ToolSpec| t.description@) == seq![
            "Full review state: branch, diff range, and every changed file with its hunks and per-hunk review status (unreviewed/approved/rejected)."@,
            "The human-readable markdown review report (progress + rejected + still-unreviewed hunks)."@,
            "Just the rejected hunks (need changes), grouped by file. Use this to know what to fix."@,
            "Reply to the comment on a hunk. The reply appears in the hunk's thread."@,
        ],
        r@[0].arguments@.len() == 0,
        r@[1].arguments@.len() == 0,
        r@[2].arguments@.len() == 0,
        r@[3].arguments@.map_values(|a: &'static str| a@) == seq![
            "file"@,
            "hunk_header"@,
            "text"@,
        ],
{
    let args: Vec<&'static str> = vec!["file", "hunk_header", "text"];
    assert(args@.map_values(|a: &'static str| a@) == seq!["file"@, "hunk_header"@, "text"@]);
    let r = vec![
        ToolSpec {
            name: "get_review_state",
            description: "Full review state: branch, diff range, and every changed file with its hunks and per-hunk review status (unreviewed/approved/rejected).",
            arguments: Vec::new(),
        },
        ToolSpec {
            name: "get_report",
            description: "The human-readable markdown review report (progress + rejected + still-unreviewed hunks).",
            arguments: Vec::new(),
        },
        ToolSpec {
            name: "list_rejected",
            description: "Just the rejected hunks (need changes), grouped by file. Use this to know what to fix.",
            arguments: Vec::new(),
        },
        ToolSpec {
            name: "reply_to_comment",
            description: "Reply to the comment on a hunk. The reply appears in the hunk's thread.",
            arguments: args,
        },
    ];
    assert(r@.map_values(|t: ToolSpec| t.name@) == seq![
        tool_name(Tool::GetReviewState),
        tool_name(Tool::GetReport),
        tool_name(Tool::ListRejected),
        tool_name(Tool::ReplyToComment),
    ]);
    assert(r@.map_values(|t: ToolSpec| t.description@) == seq![
        "Full review state: branch, diff range, and every changed file with its hunks and per-hunk review status (unreviewed/approved/rejected)."@,
        "The human-readable markdown review report (progress + rejected + still-unreviewed hunks)."@,
        "Just the rejected hunks (need changes), grouped by file. Use this to know what to fix."@,
        "Reply to the comment on a hunk. The reply appears in the hunk's thread."@,
    ]);
    r
}

/// The result of a tool.
#[derive(Debug)]
pub struct ToolResult {
    pub text: String,
    pub is_error: bool,
}

/// What the first step of a call is.
#[derive(Debug)]
pub enum Step {
    /// The review state is to be loaded.
    LoadState(Tool),
    /// The report is to be read.
    ReadReport,
    /// There is no such tool.
    Refused(ToolResult),
}

/// How a call of the tool of this name begins.
pub fn begin_call(name: &str) -> (r: Step)
    ensures
        match tool_named(name@) {
            Some(Tool::GetReport) => r is ReadReport,
            Some(t) => r == Step::LoadState(t),
            None => r matches Step::Refused(res) && res.is_error && res.text@
                == "unknown tool: "@ + name@,
        },
{
    if *name == *"get_review_state" {
        Step::LoadState(Tool::GetReviewState)
    } else if *name == *"get_report" {
        Step::ReadReport
    } else if *name == *"list_rejected" {
        Step::LoadState(Tool::ListRejected)
    } else if *name == *"reply_to_comment" {
        Step::LoadState(Tool::ReplyToComment)
    } else {
        Step::Refused(
            ToolResult { text: "unknown tool: ".to_owned().concat(name), is_error: true },
        )
    }
}

/// The result of reading the report at `path`.
pub fn report_result(path: &str, read: Result<String, String>) -> (r: ToolResult)
    ensures
        match read {
            Ok(s) => !r.is_error && r.text == s,
            Err(e) => r.is_error && r.text@ == "no report at "@ + path@ + ": "@ + e@,
        },
{
    match read {
        Ok(s) => ToolResult { text: s, is_error: false },
        Err(e) => {
            let mut text = "no report at ".to_owned();
            text.append(path);
            text.append(": ");
            text.append(e.as_str());
            ToolResult { text, is_error: true }
        },
    }
}

/// The rejected hunks among these.
pub open spec fn rejected(
    hunks: Seq<crate::review_state::HunkStateModel>,
) -> Seq<crate::review_state::HunkStateModel> {
    hunks.filter(|h: crate::review_state::HunkStateModel| h.status == "rejected"@)
}

/// A rejected hunk as it is listed: its header, and its comment if it has one.
pub open spec fn rejected_entry(h: crate::review_state::HunkStateModel) -> Seq<char> {
    let line = "- "@ + crate::text::trim(h.header) + "\n"@;
    match h.comment {
        Some(c) => line + "  comment: "@ + c + "\n"@,
        None => line,
    }
}

/// Hunks as they are listed, one after the other.
pub open spec fn rejected_entries(hunks: Seq<crate::review_state::HunkStateModel>) -> Seq<char>
    decreases hunks.len(),
{
    if hunks.len() == 0 {
        Seq::empty()
    } else {
        rejected_entries(hunks.drop_last()) + rejected_entry(hunks.last())
    }
}

/// The rejected hunks of a file below its path; nothing where it has none.
pub open spec fn rejected_of_file(f: crate::review_state::FileStateModel) -> Seq<char> {
    if rejected(f.hunks).len() == 0 {
        Seq::empty()
    } else {
        "## "@ + f.path + "\n"@ + rejected_entries(rejected(f.hunks))
    }
}

/// The rejected hunks of files.
pub open spec fn rejected_of(files: Seq<crate::review_state::FileStateModel>) -> Seq<char>
    decreases files.len(),
{
    if files.len() == 0 {
        Seq::empty()
    } else {
        rejected_of(files.drop_last()) + rejected_of_file(files.last())
    }
}

/// The list of the rejected hunks.
pub open spec fn rejected_list(files: Seq<crate::review_state::FileStateModel>) -> Seq<char> {
    if rejected_of(files).len() == 0 {
        "No rejected hunks."@
    } else {
        rejected_of(files)
    }
}

fn push_entry(s: &mut String, h: &HunkState)
    ensures
        final(s)@ == old(s)@ + rejected_entry(h@),
{
    let ghost start = s@;
    let cs = chars_of(h.header.as_str());
    s.append("- ");
    s.append(string_of(trimmed(cs.as_slice())).as_str());
    s.append("\n");
    assert(s@ == start + ("- "@ + crate::text::trim(h@.header) + "\n"@));
    if let Some(c) = &h.comment {
        s.append("  comment: ");
        s.append(c.as_str());
        s.append("\n");
    }
    assert(s@ == start + rejected_entry(h@));
}

/// Lists the rejected hunks, grouped by file, each with its comment.
pub fn list_rejected(state: &ReviewState) -> (r: String)
    ensures
        r@ == rejected_list(state@.files),
{
    let ghost fs = state@.files;
    let mut s = String::new();
    assert(s@ == rejected_of(fs.take(0)));
    for i in 0..state.files.len()
        invariant
            fs == crate::seqs::views(state.files@),
            s@ == rejected_of(fs.take(i as int)),
    {
        let f = &state.files[i];
        let ghost before = s@;
        let ghost keep = |h: crate::review_state::HunkStateModel| h.status == "rejected"@;
        let ghost hs = f@.hunks;
        let mut entries = String::new();
        let mut any = false;
        proof {
            crate::seqs::lemma_filter_empty(hs, keep);
        }
        for j in 0..f.hunks.len()
            invariant
                hs == crate::seqs::views(f.hunks@),
                keep == (|h: crate::review_state::HunkStateModel| h.status == "rejected"@),
                entries@ == rejected_entries(rejected(hs.take(j as int))),
                any == (rejected(hs.take(j as int)).len() > 0),
        {
            let h = &f.hunks[j];
            assert(hs[j as int] == h@);
            proof {
                crate::seqs::lemma_filter_take(hs, keep, j as int);
            }
            let ghost sofar = rejected(hs.take(j as int));
            if *h.status.as_str() == *"rejected" {
                push_entry(&mut entries, h);
                any = true;
                assert(rejected(hs.take(j + 1)) == sofar.push(h@));
                assert(sofar.push(h@).drop_last() == sofar);
            } else {
                assert(rejected(hs.take(j + 1)) == sofar);
            }
        }
        assert(hs.take(hs.len() as int) == hs);
        assert(fs.take(i + 1).drop_last() == fs.take(i as int));
        assert(fs.take(i + 1).last() == f@);
        if any {
            s.append("## ");
            s.append(f.path.as_str());
            s.append("\n");
            s.append(entries.as_str());
            assert(s@ == before + rejected_of_file(f@));
        } else {
            assert(before + Seq::<char>::empty() == before);
        }
    }
    assert(fs.take(fs.len() as int) == fs);
    if chars_of(s.as_str()).len() == 0 {
        "No rejected hunks.".to_owned()
    } else {
        s
    }
}

/// The review has a hunk with this header in this file.
pub open spec fn has_hunk(
    files: Seq<crate::review_state::FileStateModel>,
    file: Seq<char>,
    header: Seq<char>,
) -> bool {
    exists|i: int, j: int|
        #![trigger files[i].hunks[j]]
        0 <= i < files.len() && files[i].path == file && 0 <= j < files[i].hunks.len()
            && files[i].hunks[j].header == header
}

fn find_hunk(state: &ReviewState, file: &str, header: &str) -> (r: bool)
    ensures
        r == has_hunk(state@.files, file@, header@),
{
    let ghost fs = state@.files;
    for i in 0..state.files.len()
        invariant
            fs == crate::seqs::views(state.files@),
            state@.files == fs,
            forall|a: int, b: int|
                #![trigger fs[a].hunks[b]]
                0 <= a < i && fs[a].path == file@ && 0 <= b < fs[a].hunks.len()
                    ==> fs[a].hunks[b].header != header@,
    {
        let f = &state.files[i];
        assert(fs[i as int] == f@);
        if *f.path.as_str() == *file {
            for j in 0..f.hunks.len()
                invariant
                    fs == state@.files,
                    0 <= i < fs.len(),
                    fs[i as int] == f@,
                    f@.path == file@,
                    f@.hunks == crate::seqs::views(f.hunks@),
                    forall|b: int|
                        #![trigger fs[i as int].hunks[b]]
                        0 <= b < j ==> fs[i as int].hunks[b].header != header@,
            {
                assert(fs[i as int].hunks[j as int] == f.hunks@[j as int]@);
                if *f.hunks[j].header.as_str() == *header {
                    return true;
                }
            }
        }
    }
    false
}

/// What follows once the review state is loaded.
#[derive(Debug)]
pub enum Outcome {
    Done(ToolResult),
    /// This reply is to be posted.
    Post(Reply),
}

/// Goes on with a call once the review state was loaded, together with its text
/// as JSON. A reply is only posted to a hunk that is in the review.
pub fn on_state(
    tool: Tool,
    loaded: Result<(ReviewState, String), String>,
    file: &str,
    hunk_header: &str,
    text: &str,
) -> (r: Outcome)
    requires
        tool != Tool::GetReport,
    ensures
        match loaded {
            Err(e) => r matches Outcome::Done(res) && res.is_error && res.text@
                == "no review state: "@ + e@,
            Ok((state, json)) => match tool {
                Tool::GetReviewState => r matches Outcome::Done(res) && !res.is_error && res.text
                    == json,
                Tool::ListRejected => r matches Outcome::Done(res) && !res.is_error && res.text@
                    == rejected_list(state@.files),
                _ => if has_hunk(state@.files, file@, hunk_header@) {
                    r matches Outcome::Post(reply) && reply@ == (crate::review_state::ReplyModel {
                        file: file@,
                        hunk_header: hunk_header@,
                        text: text@,
                        anchor: Seq::empty(),
                    })
                } else {
                    r matches Outcome::Done(res) && res.is_error && res.text@
                        == "no such hunk in the review: "@ + file@ + " "@ + hunk_header@
                },
            },
        },
{
    match loaded {
        Err(e) => Outcome::Done(
            ToolResult {
                text: "no review state: ".to_owned().concat(e.as_str()),
                is_error: true,
            },
        ),
        Ok((state, json)) => match tool {
            Tool::GetReviewState => Outcome::Done(ToolResult { text: json, is_error: false }),
            Tool::ListRejected => Outcome::Done(
                ToolResult { text: list_rejected(&state), is_error: false },
            ),
            _ => {
                if find_hunk(&state, file, hunk_header) {
                    Outcome::Post(
                        Reply {
                            file: file.to_owned(),
                            hunk_header: hunk_header.to_owned(),
                            text: text.to_owned(),
                            anchor: String::new(),
                        },
                    )
                } else {
                    let mut text = "no such hunk in the review: ".to_owned();
                    text.append(file);
                    text.append(" ");
                    text.append(hunk_header);
                    Outcome::Done(ToolResult { text, is_error: true })
                }
            },
        },
    }
}

/// The result of posting a reply.
pub fn posted(written: Result<(), String>) -> (r: ToolResult)
    ensures
        match written {
            Ok(_) => !r.is_error && r.text@ == "reply posted"@,
            Err(e) => r.is_error && r.text@ == "cannot post reply: "@ + e@,
        },
{
    match written {
        Ok(_) => ToolResult { text: "reply posted".to_owned(), is_error: false },
        Err(e) => ToolResult {
            text: "cannot post reply: ".to_owned().concat(e.as_str()),
            is_error: true,
        },
    }
}

/// Exactly the tools that are listed can be called.
pub proof fn listed_tools_are_known(name: Seq<char>)
    ensures
        tool_named(name) is Some <==> seq![
            tool_name(Tool::GetReviewState),
            tool_name(Tool::GetReport),
            tool_name(Tool::ListRejected),
            tool_name(Tool::ReplyToComment),
        ].contains(name),
{
    let names = seq![
        tool_name(Tool::GetReviewState),
        tool_name(Tool::GetReport),
        tool_name(Tool::ListRejected),
        tool_name(Tool::ReplyToComment),
    ];
    assert(names[0] == tool_name(Tool::GetReviewState));
    assert(names[1] == tool_name(Tool::GetReport));
    assert(names[2] == tool_name(Tool::ListRejected));
    assert(names[3] == tool_name(Tool::ReplyToComment));
}

/// A rejected hunk stands among those that are listed of its file, and only a
/// rejected one does.
pub proof fn rejected_hunks_are_kept(
    hunks: Seq<crate::review_state::HunkStateModel>,
    h: crate::review_state::HunkStateModel,
)
    ensures
        rejected(hunks).contains(h) <==> hunks.contains(h) && h.status == "rejected"@,
    decreases hunks.len(),
{
    reveal(Seq::filter);
    if hunks.len() > 0 {
        let front = hunks.drop_last();
        rejected_hunks_are_kept(front, h);
        let last = hunks.last();
        assert(hunks == front.push(last));
        assert(hunks.contains(h) <==> front.contains(h) || last == h) by {
            if front.contains(h) {
                let k = choose|k: int| 0 <= k < front.len() && front[k] == h;
                assert(hunks[k] == h);
            }
            if last == h {
                assert(hunks[hunks.len() - 1] == h);
            }
        }
        let kept = rejected(front);
        if last.status == "rejected"@ {
            assert(rejected(hunks) == kept.push(last));
            assert(kept.push(last).contains(h) <==> kept.contains(h) || last == h) by {
                if kept.contains(h) {
                    let k = choose|k: int| 0 <= k < kept.len() && kept[k] == h;
                    assert(kept.push(last)[k] == h);
                }
                if last == h {
                    assert(kept.push(last)[kept.len() as int] == h);
                }
            }
        }
    }
}

/// Every rejected hunk is listed below the path of its file, with its comment.
pub proof fn every_rejected_hunk_is_listed(
    files: Seq<crate::review_state::FileStateModel>,
    i: int,
    h: crate::review_state::HunkStateModel,
)
    requires
        0 <= i < files.len(),
        files[i].hunks.contains(h),
        h.status == "rejected"@,
    ensures
        exists|a: Seq<char>, b: Seq<char>, c: Seq<char>|
            rejected_list(files) == #[trigger] (a + ("## "@ + files[i].path + "\n"@) + b
                + rejected_entry(h) + c),
{
    rejected_hunks_are_kept(files[i].hunks, h);
    let kept = rejected(files[i].hunks);
    let k = choose|k: int| 0 <= k < kept.len() && kept[k] == h;
    let (b, c) = lemma_entry_listed(kept, k);
    let (a, d) = lemma_file_listed(files, i);
    let head = "## "@ + files[i].path + "\n"@;
    assert(rejected_of_file(files[i]) == head + (b + rejected_entry(h) + c));
    assert(rejected_of(files) == a + head + b + rejected_entry(h) + (c + d)) by {
        assert(a + (head + (b + rejected_entry(h) + c)) + d == a + head + b + rejected_entry(h) + (c
            + d));
    }
    reveal_strlit("## ");
    assert(head.len() > 0);
    assert(rejected_of(files).len() > 0);
}

proof fn lemma_entry_listed(hunks: Seq<crate::review_state::HunkStateModel>, k: int) -> (r: (
    Seq<char>,
    Seq<char>,
))
    requires
        0 <= k < hunks.len(),
    ensures
        rejected_entries(hunks) == r.0 + rejected_entry(hunks[k]) + r.1,
    decreases hunks.len(),
{
    if k == hunks.len() - 1 {
        let r = (rejected_entries(hunks.drop_last()), Seq::<char>::empty());
        assert(rejected_entries(hunks) == r.0 + rejected_entry(hunks[k]) + r.1);
        r
    } else {
        let (b, c) = lemma_entry_listed(hunks.drop_last(), k);
        let r = (b, c + rejected_entry(hunks.last()));
        assert(rejected_entries(hunks) == r.0 + rejected_entry(hunks[k]) + r.1);
        r
    }
}

proof fn lemma_file_listed(files: Seq<crate::review_state::FileStateModel>, i: int) -> (r: (
    Seq<char>,
    Seq<char>,
))
    requires
        0 <= i < files.len(),
    ensures
        rejected_of(files) == r.0 + rejected_of_file(files[i]) + r.1,
    decreases files.len(),
{
    if i == files.len() - 1 {
        let r = (rejected_of(files.drop_last()), Seq::<char>::empty());
        assert(rejected_of(files) == r.0 + rejected_of_file(files[i]) + r.1);
        r
    } else {
        let (b, c) = lemma_file_listed(files.drop_last(), i);
        let r = (b, c + rejected_of_file(files.last()));
        assert(rejected_of(files) == r.0 + rejected_of_file(files[i]) + r.1);
        r
    }
}

/// A hunk that is rejected in the review is listed for the agent, with its
/// comment.
pub proof fn rejecting_a_hunk_lists_it(r: crate::session::ReviewModel, i: int, j: int)
    requires
        0 <= i < r.files.len(),
        0 <= j < r.files[i].hunks.len(),
        r.files[i].hunks[j].status == crate::diff::ReviewStatus::Rejected,
    ensures
        exists|a: Seq<char>, b: Seq<char>, c: Seq<char>|
            rejected_list(crate::session::state_of(r).files) == #[trigger] (a + ("## "@
                + r.files[i].path + "\n"@) + b + rejected_entry(
                crate::review_state::saved_hunk(r.files[i].hunks[j]),
            ) + c),
{
    let files = crate::session::state_of(r).files;
    let h = crate::review_state::saved_hunk(r.files[i].hunks[j]);
    assert(files[i] == crate::review_state::saved_file(r.files[i]));
    assert(files[i].hunks[j] == h);
    every_rejected_hunk_is_listed(files, i, h);
}

/// Where no hunk is rejected, the list says so.
pub proof fn without_a_rejection_nothing_is_listed(
    files: Seq<crate::review_state::FileStateModel>,
)
    requires
        forall|i: int, h: crate::review_state::HunkStateModel|
            0 <= i < files.len() && #[trigger] files[i].hunks.contains(h) ==> h.status
                != "rejected"@,
    ensures
        rejected_list(files) == "No rejected hunks."@,
{
    lemma_nothing_listed(files);
}

proof fn lemma_nothing_listed(files: Seq<crate::review_state::FileStateModel>)
    requires
        forall|i: int, h: crate::review_state::HunkStateModel|
            0 <= i < files.len() && #[trigger] files[i].hunks.contains(h) ==> h.status
                != "rejected"@,
    ensures
        rejected_of(files).len() == 0,
    decreases files.len(),
{
    if files.len() > 0 {
        let front = files.drop_last();
        assert forall|i: int, h: crate::review_state::HunkStateModel|
            0 <= i < front.len() && #[trigger] front[i].hunks.contains(h) implies h.status
            != "rejected"@ by {
            assert(files[i].hunks.contains(h));
        }
        lemma_nothing_listed(front);
        let last = files[files.len() - 1];
        let kept = rejected(last.hunks);
        if kept.len() > 0 {
            assert(kept.contains(kept[0]));
            rejected_hunks_are_kept(last.hunks, kept[0]);
            assert(files[files.len() - 1].hunks.contains(kept[0]));
        }
    }
}

/// Every hunk of the review can be replied to.
pub proof fn every_hunk_can_be_replied_to(r: crate::session::ReviewModel, i: int, j: int)
    requires
        0 <= i < r.files.len(),
        0 <= j < r.files[i].hunks.len(),
    ensures
        has_hunk(
            crate::session::state_of(r).files,
            r.files[i].path,
            r.files[i].hunks[j].header,
        ),
{
    let files = crate::session::state_of(r).files;
    assert(files[i] == crate::review_state::saved_file(r.files[i]));
    assert(files[i].hunks[j] == crate::review_state::saved_hunk(r.files[i].hunks[j]));
}

/// A reply that is posted to a hunk comes last in the thread of that hunk, and
/// in no other.
pub proof fn a_reply_reaches_its_thread(
    before: Seq<crate::review_state::ReplyModel>,
    reply: crate::review_state::ReplyModel,
    file: Seq<char>,
    header: Seq<char>,
)
    ensures
        ({
            let to = |x: crate::review_state::ReplyModel|
                crate::review_state::replies_to(x, file, header);
            before.push(reply).filter(to) == if reply.file == file && reply.hunk_header == header {
                before.filter(to).push(reply)
            } else {
                before.filter(to)
            }
        }),
{
    reveal(Seq::filter);
    assert(before.push(reply).drop_last() == before);
}

} // verus!
