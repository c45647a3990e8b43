use purview::diff::LineKind;
use purview::rows::RenderRow;
use purview::search::{find_matches, row_search_text, Search, Tint};

fn rows() -> Vec<RenderRow> {
    vec![
        RenderRow::HunkHeader {
            hunk_idx: 0,
            text: "@@ -1,3 +1,4 @@ fn Foo()".into(),
            whole_file: false,
        },
        RenderRow::Plain { text: "let foo = 1;".into(), lineno: 1 },
        RenderRow::DiffLine {
            kind: LineKind::Add,
            text: "    FOO.bar();".into(),
            old_lineno: None,
            new_lineno: Some(2),
        },
        RenderRow::Plain { text: "let baz = 2;".into(), lineno: 3 },
        RenderRow::SplitLine {
            left: Some((LineKind::Del, "old line".into(), Some(4))),
            right: Some((LineKind::Add, "contains FoObar".into(), Some(4))),
        },
    ]
}

/// `find_matches` returns the matching rows in display order; the count is
/// just the result length. Covers multiple matches, no matches, and
/// case-insensitivity, across the different RenderRow kinds.
#[test]
fn find_matches_returns_ordered_positions_and_count() {
    let rows = rows();

    // Case-insensitive "foo" matches rows 0 (header), 1 (plain), 2 (diff),
    // and 4 (split right cell) — in ascending order.
    let m = find_matches(&rows, "foo");
    assert_eq!(m, vec![0, 1, 2, 4], "ordered, case-insensitive matches");
    assert_eq!(m.len(), 4, "the count is the match-list length");

    // A different query hits a single row.
    assert_eq!(find_matches(&rows, "baz"), vec![3]);

    // No matches → empty.
    assert!(find_matches(&rows, "nonexistent").is_empty());

    // Empty / whitespace query matches nothing (so the bar isn't a no-op
    // full highlight).
    assert!(find_matches(&rows, "").is_empty());
    assert!(find_matches(&rows, "   ").is_empty());

    // Mixed-case query, lowercase content → still matches (case-insensitive).
    assert_eq!(find_matches(&rows, "OLD LINE"), vec![4]);
}

#[test]
fn case_is_folded_for_any_script() {
    let rows = [RenderRow::Plain { text: "Größe ΔΕΛΤΑ".into(), lineno: 1 }];
    assert_eq!(find_matches(&rows, "GRÖSSE").len(), 0);
    assert_eq!(find_matches(&rows, "GRÖßE"), [0]);
    assert_eq!(find_matches(&rows, "δελτα"), [0]);
}

#[test]
fn the_search_steps_round_its_matches() {
    let rows = rows();
    let mut s = Search::open();
    s.query = "foo".into();
    assert_eq!(s.step(&rows, false, false), Some(0));
    assert_eq!(s.count_label(), "1 of 4");
    assert_eq!(s.step(&rows, false, false), None, "already scrolled there");
    assert_eq!(s.step(&rows, true, false), Some(1));
    assert_eq!(s.step(&rows, false, true), Some(0));
    assert_eq!(s.step(&rows, false, true), Some(4), "round to the last");
    assert_eq!(s.step(&rows, true, false), Some(0), "and to the first");
    assert_eq!(s.tint(0), Tint::Current);
    assert_eq!(s.tint(2), Tint::Match);
    assert_eq!(s.tint(3), Tint::Plain);
    // Other rows under the same query are searched anew.
    assert_eq!(s.step(&rows[3..], false, false), Some(1));
    assert_eq!(s.matches, [1]);
    assert_eq!(s.step(&rows[..2], false, false), Some(0));
    assert_eq!((s.matches.as_slice(), s.current), ([0, 1].as_slice(), 0));
    assert_eq!(s.step(&rows[3..4], false, false), None);
    assert_eq!(s.count_label(), "no matches");
}

#[test]
fn labels_say_what_was_found() {
    let mut s = Search::open();
    assert_eq!(s.count_label(), "");
    s.query = "zzz".into();
    s.step(&rows(), true, false);
    assert_eq!(s.count_label(), "no matches");
    assert_eq!(s.last_scrolled, None);
}

#[test]
fn both_cells_of_a_row_are_searched() {
    let text = row_search_text(&rows()[4]);
    assert!(text.contains("old line") && text.contains("contains FoObar"));
}

#[test]
fn keys_of_the_search() {
    assert_eq!(Search::direction(true, false, false, false), (true, false));
    assert_eq!(Search::direction(false, true, false, true), (false, true));
    assert_eq!(Search::direction(false, false, true, false), (true, false));
    assert_eq!(Search::direction(false, false, false, true), (false, false));
    assert!(Search::toggled(false, false));
    assert!(!Search::toggled(false, true));
    assert!(!Search::toggled(true, false) && !Search::toggled(true, true));
}
