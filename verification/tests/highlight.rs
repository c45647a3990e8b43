use purview::highlight::{Highlighter, SpanCache, Spans};
use purview::diff::LineKind;
use purview::rows::{plain_rows, RenderRow};

fn src() -> &'static str {
    "fn a() {}\n\
     /* this block comment\n\
        spans several\n\
        lines */\n\
     fn b() {}\n"
}

#[test]
fn incremental_matches_stateful_one_pass() {
    let hl = Highlighter::new();
    let lines: Vec<&str> = src().lines().collect();
    let reference = hl.highlight_file("x.rs", &lines);

    let mut st = hl.new_incremental("x.rs");
    let incremental: Vec<Spans> = src()
        .lines()
        .map(|line| hl.highlight_incremental(&mut st, line))
        .collect();

    assert_eq!(incremental, reference, "incremental must equal stateful");
}

#[test]
fn block_comment_interior_differs_from_naive_per_line() {
    // The middle comment line, highlighted with full state, should NOT
    // match highlighting it in isolation (proving cross-line state is
    // actually being carried — i.e. it's colored as a comment).
    let hl = Highlighter::new();
    let interior = "   spans several";
    let isolated = hl.highlight_line("x.rs", interior);

    let mut st = hl.new_incremental("x.rs");
    let mut stateful = Vec::new();
    for line in src().lines() {
        stateful.push(hl.highlight_incremental(&mut st, line));
    }
    // src()'s 3rd line (index 2) is the "spans several" interior line.
    assert_ne!(
        stateful[2], isolated,
        "interior comment line should color differently with carried state"
    );
}

fn text(spans: &Spans) -> String {
    spans.iter().map(|s| s.1.as_str()).collect()
}

#[test]
fn spans_make_up_the_line_and_have_colours() {
    let hl = Highlighter::new();
    let spans = hl.highlight_line("src/x.rs", "let s = \"a\"; // c");
    assert_eq!(text(&spans), "let s = \"a\"; // c");
    assert!(spans.len() > 3);
    assert!(spans.iter().all(|s| s.0.is_some()));
    let mut colours: Vec<_> = spans.iter().map(|s| s.0).collect();
    colours.sort();
    colours.dedup();
    assert!(colours.len() > 2, "keyword, string and comment differ");
}

#[test]
fn the_extension_picks_the_syntax() {
    let hl = Highlighter::new();
    let line = "fn main() {}";
    assert_ne!(hl.highlight_line("x.rs", line), hl.highlight_line("x.txt", line));
    // No syntax for it: plain text, in one colour.
    assert_eq!(hl.highlight_line("x.nosuch", line), hl.highlight_line("README", line));
    assert_eq!(hl.highlight_line("x.nosuch", line).len(), 1);
}

#[test]
fn rows_show_the_same_whatever_is_looked_at_first() {
    let hl = Highlighter::new();
    let rows = plain_rows(src());
    let lines: Vec<&str> = src().lines().collect();
    let whole = hl.highlight_file("x.rs", &lines);
    let mut down = SpanCache::new(rows.len());
    let mut up = SpanCache::new(rows.len());
    for i in 0..rows.len() {
        assert_eq!(down.row_spans(&hl, "x.rs", &rows, i), whole[i]);
        let j = rows.len() - 1 - i;
        assert_eq!(up.row_spans(&hl, "x.rs", &rows, j), whole[j]);
        assert_eq!(up.row_spans(&hl, "x.rs", &rows, j), whole[j]);
    }
}

#[test]
fn diff_rows_are_highlighted_on_their_own() {
    let hl = Highlighter::new();
    let rows = [
        RenderRow::HunkHeader { hunk_idx: 0, text: "@@".into(), whole_file: false },
        RenderRow::DiffLine {
            kind: LineKind::Add,
            text: "fn a() {}".into(),
            old_lineno: None,
            new_lineno: Some(1),
        },
        RenderRow::SplitLine {
            left: Some((LineKind::Del, "fn b() {}".into(), Some(1))),
            right: None,
        },
    ];
    let mut c = SpanCache::new(3);
    assert!(c.row_spans(&hl, "x.rs", &rows, 0).is_empty());
    assert_eq!(c.row_spans(&hl, "x.rs", &rows, 1), hl.highlight_line("x.rs", "fn a() {}"));
    assert!(c.row_spans(&hl, "x.rs", &rows, 2).is_empty());
    for _ in 0..2 {
        let (l, r) = c.split_spans(&hl, "x.rs", &rows, 2);
        assert_eq!(l, hl.highlight_line("x.rs", "fn b() {}"));
        assert!(r.is_empty());
    }
    assert_eq!(c.split_spans(&hl, "x.rs", &rows, 1), (Vec::new(), Vec::new()));
}
