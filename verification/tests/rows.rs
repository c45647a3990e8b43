use purview::diff::{parse_unified_patch, DiffLineRow, Hunk, LineKind};
use purview::rows::{
    full_rows, hunk_change_key, hunk_rows, lineno_width, plain_rows, row_matches_change_key,
    split_align, summary_rows, Layout, RenderRow,
};

fn row(kind: LineKind, text: &str) -> DiffLineRow {
    DiffLineRow {
        kind,
        text: text.into(),
        old_lineno: None,
        new_lineno: None,
    }
}

#[test]
fn split_align_pairs_dels_with_adds_and_mirrors_context() {
    // ctx, then 2 dels + 3 adds, then ctx.
    let rows = vec![
        row(LineKind::Ctx, "a"),
        row(LineKind::Del, "old1"),
        row(LineKind::Del, "old2"),
        row(LineKind::Add, "new1"),
        row(LineKind::Add, "new2"),
        row(LineKind::Add, "new3"),
        row(LineKind::Ctx, "z"),
    ];
    let out = split_align(&rows);
    // ctx(a) | 3 paired/surplus rows | ctx(z) = 5 rows.
    assert_eq!(out.len(), 5);

    let cell = |r: &RenderRow, side: usize| -> Option<(LineKind, String)> {
        match r {
            RenderRow::SplitLine { left, right } => {
                let c = if side == 0 { left } else { right };
                c.as_ref().map(|(k, t, _)| (*k, t.clone()))
            }
            _ => None,
        }
    };
    // Row 0: context on both sides.
    assert_eq!(cell(&out[0], 0), Some((LineKind::Ctx, "a".into())));
    assert_eq!(cell(&out[0], 1), Some((LineKind::Ctx, "a".into())));
    // Row 1: del1 ↔ add1.
    assert_eq!(cell(&out[1], 0), Some((LineKind::Del, "old1".into())));
    assert_eq!(cell(&out[1], 1), Some((LineKind::Add, "new1".into())));
    // Row 2: del2 ↔ add2.
    assert_eq!(cell(&out[2], 0), Some((LineKind::Del, "old2".into())));
    assert_eq!(cell(&out[2], 1), Some((LineKind::Add, "new2".into())));
    // Row 3: surplus add3 → right only, left empty.
    assert_eq!(cell(&out[3], 0), None);
    assert_eq!(cell(&out[3], 1), Some((LineKind::Add, "new3".into())));
    // Row 4: context on both sides.
    assert_eq!(cell(&out[4], 0), Some((LineKind::Ctx, "z".into())));
}

/// A 30-line file with an edit near the top and one near the bottom.
fn two_hunks() -> (Vec<Hunk>, Vec<Hunk>) {
    let mut small = String::from("diff --git a/a.txt b/a.txt\n--- a/a.txt\n+++ b/a.txt\n");
    for (start, edit) in [(1, 3), (24, 27)] {
        let end = if start == 1 { 6 } else { 30 };
        small.push_str(&format!("@@ -{start},{n} +{start},{n} @@\n", n = end - start + 1));
        for i in start..=end {
            if i == edit {
                small.push_str(&format!("-line {i}\n+LINE {i} EDIT\n"));
            } else {
                small.push_str(&format!(" line {i}\n"));
            }
        }
    }
    let mut full = String::from(
        "diff --git a/a.txt b/a.txt\n--- a/a.txt\n+++ b/a.txt\n@@ -1,30 +1,30 @@\n",
    );
    for i in 1..=30 {
        if i == 3 || i == 27 {
            full.push_str(&format!("-line {i}\n+LINE {i} EDIT\n"));
        } else {
            full.push_str(&format!(" line {i}\n"));
        }
    }
    let hunks = |p: &str| parse_unified_patch(p).remove(0).hunks;
    (hunks(&small), hunks(&full))
}

fn headers(rows: &[RenderRow]) -> Vec<(usize, usize)> {
    rows.iter()
        .enumerate()
        .filter_map(|(i, r)| match r {
            RenderRow::HunkHeader { hunk_idx, whole_file, .. } => {
                assert!(!whole_file);
                Some((i, *hunk_idx))
            }
            _ => None,
        })
        .collect()
}

#[test]
fn each_summary_header_carries_its_own_hunk() {
    let (review, _) = two_hunks();
    for layout in [Layout::Inline, Layout::Split] {
        let rows = summary_rows(&review, layout);
        let hs = headers(&rows);
        assert_eq!(hs.iter().map(|h| h.1).collect::<Vec<_>>(), [0, 1]);
        assert_eq!(hunk_rows(&rows), hs.iter().map(|h| h.0).collect::<Vec<_>>());
    }
}

#[test]
fn whole_file_headers_stand_where_their_changes_begin() {
    let (review, full) = two_hunks();
    let rows = full_rows(&review, &full, Layout::Inline);
    let hs = headers(&rows);
    assert_eq!(hs.iter().map(|h| h.1).collect::<Vec<_>>(), [0, 1]);
    for (i, hunk) in hs {
        match &rows[i + 1] {
            RenderRow::DiffLine { kind, text, .. } => {
                assert_eq!(*kind, LineKind::Del);
                assert_eq!(text, if hunk == 0 { "line 3" } else { "line 27" });
            }
            other => panic!("{other:?}"),
        }
    }
    // Every line of the file is there: 30 of context and change, and 2 more
    // for the other side of the two edits.
    assert_eq!(rows.len(), 32 + 2);
}

#[test]
fn both_layouts_show_both_sides() {
    let (review, full) = two_hunks();
    let new_side = |rows: &[RenderRow]| -> Vec<String> {
        rows.iter()
            .filter_map(|r| match r {
                RenderRow::DiffLine { kind, text, .. } if *kind != LineKind::Del => {
                    Some(text.clone())
                }
                RenderRow::SplitLine { right: Some((_, text, _)), .. } => Some(text.clone()),
                _ => None,
            })
            .collect()
    };
    let inline = new_side(&full_rows(&review, &full, Layout::Inline));
    let split = new_side(&full_rows(&review, &full, Layout::Split));
    assert_eq!(inline, split);
    assert_eq!(inline.len(), 30);
    assert_eq!(inline[26], "LINE 27 EDIT");
}

#[test]
fn a_hunk_is_found_again_by_its_first_change() {
    let (review, full) = two_hunks();
    assert_eq!(hunk_change_key(&review[0]), Some((LineKind::Del, 3)));
    assert_eq!(hunk_change_key(&Hunk::new("@@".into())), None);
    assert!(row_matches_change_key(&full[0].rows[2], (LineKind::Del, 3)));
    assert!(!row_matches_change_key(&full[0].rows[3], (LineKind::Del, 3)));
    assert!(!row_matches_change_key(&full[0].rows[0], (LineKind::Ctx, 1)));
}

#[test]
fn plain_rows_are_numbered_from_one() {
    let rows = plain_rows("a\nb\r\n\nc");
    let got: Vec<(&str, u32)> = rows
        .iter()
        .map(|r| match r {
            RenderRow::Plain { text, lineno } => (text.as_str(), *lineno),
            other => panic!("{other:?}"),
        })
        .collect();
    assert_eq!(got, [("a", 1), ("b", 2), ("", 3), ("c", 4)]);
    assert!(plain_rows("").is_empty());
}

#[test]
fn the_number_column_is_as_wide_as_the_largest_number() {
    let text: String = (0..120).map(|_| "x\n").collect();
    assert_eq!(lineno_width(&plain_rows(&text)), 3);
    assert_eq!(lineno_width(&[]), 1);
}
