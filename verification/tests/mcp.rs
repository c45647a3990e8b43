use purview::mcp::{
    begin_call, dispatch, list_rejected, on_state, posted, read_line, report_result, request_of,
    tool_specs, Asked, Line, Outcome, Step, Tool,
};
use purview::review_state::{FileState, HunkState, Replies, Reply, ReviewState};
use serde_json::Value;

fn state() -> ReviewState {
    ReviewState {
        branch: "feat".into(),
        range: "main...HEAD".into(),
        files: vec![FileState {
            path: "src/a.rs".into(),
            hunks: vec![HunkState {
                header: "@@ -1 +1 @@".into(),
                status: "rejected".into(),
                comment: Some("why?".into()),
                anchor: String::new(),
                changed_since_review: false,
            }],
        }],
        orphaned: Vec::new(),
    }
}

fn message(line: &str) -> Value {
    match read_line(line) {
        Line::Message(v) => v,
        other => panic!("{other:?}"),
    }
}

#[test]
fn lines_are_blank_or_malformed_or_messages() {
    assert!(matches!(read_line("  \n"), Line::Blank));
    match read_line(" not even json ") {
        Line::Malformed(s) => assert_eq!(s, "not even json"),
        other => panic!("{other:?}"),
    }
    assert_eq!(message(" 7 "), Value::from(7));
}

#[test]
fn a_request_is_read_as_it_was_sent() {
    let v = message(
        r#"{"jsonrpc":"2.0","id":2,"method":"tools/call","params":{"name":"reply_to_comment","arguments":{"file":"src/a.rs","hunk_header":"@@ -1 +1 @@","text":"fixed it"}}}"#,
    );
    let r = request_of(&v);
    assert_eq!(r.id, Some(&Value::from(2)));
    assert_eq!(r.method, "tools/call");
    assert_eq!(r.tool, "reply_to_comment");
    assert_eq!(r.file, "src/a.rs");
    assert_eq!(r.hunk_header, "@@ -1 +1 @@");
    assert_eq!(r.text, "fixed it");
    // What is missing, or is no string, reads as empty.
    let v = message(r#"{"method":7}"#);
    let r = request_of(&v);
    assert_eq!(r.id, None);
    assert_eq!((r.method.as_str(), r.tool.as_str(), r.text.as_str()), ("", "", ""));
}

#[test]
fn methods_are_dispatched() {
    assert!(matches!(dispatch("initialize", true), Asked::Initialize));
    assert!(matches!(dispatch("tools/list", true), Asked::ListTools));
    assert!(matches!(dispatch("tools/call", true), Asked::CallTool));
    // A notification gets no answer; an unknown method does.
    assert!(matches!(dispatch("notifications/initialized", false), Asked::Nothing));
    match dispatch("no/such/method", true) {
        Asked::NotFound(code, m) => {
            assert_eq!(code, -32601);
            assert_eq!(m, "method not found: no/such/method");
        }
        other => panic!("{other:?}"),
    }
}

#[test]
fn every_listed_tool_can_be_called() {
    let names: Vec<&str> = tool_specs().iter().map(|t| t.name).collect();
    assert_eq!(
        names,
        ["get_review_state", "get_report", "list_rejected", "reply_to_comment"]
    );
    for n in names {
        assert!(!matches!(begin_call(n), Step::Refused(_)), "{n}");
    }
    match begin_call("nope") {
        Step::Refused(r) => {
            assert!(r.is_error);
            assert_eq!(r.text, "unknown tool: nope");
        }
        other => panic!("{other:?}"),
    }
}

#[test]
fn rejected_hunks_are_listed_with_their_comments() {
    assert_eq!(
        list_rejected(&state()),
        "## src/a.rs\n- @@ -1 +1 @@\n  comment: why?\n"
    );
    let mut s = state();
    s.files[0].hunks[0].status = "approved".into();
    assert_eq!(list_rejected(&s), "No rejected hunks.");
}

#[test]
fn a_reply_goes_only_to_a_hunk_of_the_review() {
    let call = |header: &str| {
        on_state(
            Tool::ReplyToComment,
            Ok((state(), String::new())),
            "src/a.rs",
            header,
            "fixed it",
        )
    };
    match call("@@ -1 +1 @@") {
        Outcome::Post(r) => {
            assert_eq!((r.file.as_str(), r.text.as_str()), ("src/a.rs", "fixed it"));
            assert_eq!(r.anchor, "");
        }
        other => panic!("{other:?}"),
    }
    match call("@@ -99 +99 @@") {
        Outcome::Done(r) => {
            assert!(r.is_error);
            assert_eq!(r.text, "no such hunk in the review: src/a.rs @@ -99 +99 @@");
        }
        other => panic!("{other:?}"),
    }
    let r = posted(Ok(()));
    assert_eq!((r.text.as_str(), r.is_error), ("reply posted", false));
    let r = posted(Err("disk full".into()));
    assert_eq!((r.text.as_str(), r.is_error), ("cannot post reply: disk full", true));
}

#[test]
fn tools_answer_with_what_was_loaded() {
    let done = |o: Outcome| match o {
        Outcome::Done(r) => (r.text, r.is_error),
        other => panic!("{other:?}"),
    };
    let loaded = || Ok((state(), "{}".to_string()));
    assert_eq!(
        done(on_state(Tool::GetReviewState, loaded(), "", "", "")),
        ("{}".to_string(), false)
    );
    assert_eq!(
        done(on_state(Tool::ListRejected, loaded(), "", "", "")).0,
        list_rejected(&state())
    );
    assert_eq!(
        done(on_state(Tool::ListRejected, Err("gone".into()), "", "", "")),
        ("no review state: gone".to_string(), true)
    );
    let r = report_result("/r", Err("gone".into()));
    assert_eq!((r.text.as_str(), r.is_error), ("no report at /r: gone", true));
    assert_eq!(report_result("/r", Ok("# r".into())).text, "# r");
}

#[test]
fn a_posted_reply_comes_last_in_its_thread() {
    let mut replies = Replies::default();
    for (header, text) in [("@@ -1 +1 @@", "first"), ("@@ -9 +9 @@", "other"), ("@@ -1 +1 @@", "second")] {
        replies.replies.push(Reply {
            file: "src/a.rs".into(),
            hunk_header: header.into(),
            text: text.into(),
            anchor: String::new(),
        });
    }
    let thread: Vec<&str> =
        replies.for_hunk("src/a.rs", "@@ -1 +1 @@").iter().map(|r| r.text.as_str()).collect();
    assert_eq!(thread, ["first", "second"]);
}
