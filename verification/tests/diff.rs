use purview::diff::{
    group_patch_lines, number_files, parse_diff_git_path, parse_hunk_starts, parse_unified_patch, replace_nth_line,
    try_parse_unified_patch, untracked_as_changed_file, ChangedFile, Hunk, LineKind, PatchLine,
    ReviewStatus,
};

#[test]
fn line_numbers_across_multiple_hunks() {
    // Two hunks. Hunk 1 starts at old 1 / new 1; hunk 2 at old 10 / new 11
    // (the new side is one ahead because hunk 1 added a net line).
    let patch = "\
diff --git a/f.txt b/f.txt
--- a/f.txt
+++ b/f.txt
@@ -1,3 +1,4 @@
 alpha
-beta
+BETA
+gamma
 delta
@@ -10,2 +11,2 @@
 ten
-eleven
+ELEVEN
";
    let files = parse_unified_patch(patch);
    assert_eq!(files.len(), 1);
    assert_eq!(files[0].hunks.len(), 2);

    // Hunk 1 rows: ctx, del, add, add, ctx.
    let h0 = &files[0].hunks[0].rows;
    // ctx "alpha": both advance from the starts.
    assert_eq!((h0[0].old_lineno, h0[0].new_lineno), (Some(1), Some(1)));
    // del "beta": old only.
    assert_eq!((h0[1].old_lineno, h0[1].new_lineno), (Some(2), None));
    // add "BETA": new only.
    assert_eq!((h0[2].old_lineno, h0[2].new_lineno), (None, Some(2)));
    // add "gamma": new only, continues.
    assert_eq!((h0[3].old_lineno, h0[3].new_lineno), (None, Some(3)));
    // ctx "delta": old advanced past the single deletion (3), new past the
    // two additions (4).
    assert_eq!((h0[4].old_lineno, h0[4].new_lineno), (Some(3), Some(4)));

    // Hunk 2 restarts from its OWN @@ starts (10 / 11), not continuing h0.
    let h1 = &files[0].hunks[1].rows;
    assert_eq!((h1[0].old_lineno, h1[0].new_lineno), (Some(10), Some(11)));
    assert_eq!((h1[1].old_lineno, h1[1].new_lineno), (Some(11), None));
    assert_eq!((h1[2].old_lineno, h1[2].new_lineno), (None, Some(12)));
}

#[test]
fn line_numbers_for_non_one_start() {
    // A hunk that doesn't start at line 1: numbers must honor the @@ starts.
    let patch = "\
diff --git a/g.txt b/g.txt
--- a/g.txt
+++ b/g.txt
@@ -40,6 +40,7 @@ fn context()
 a
 b
 c
+inserted
 d
 e
 f
";
    let files = parse_unified_patch(patch);
    let rows = &files[0].hunks[0].rows;
    // First context line is line 40 on both sides.
    assert_eq!((rows[0].old_lineno, rows[0].new_lineno), (Some(40), Some(40)));
    assert_eq!((rows[1].old_lineno, rows[1].new_lineno), (Some(41), Some(41)));
    assert_eq!((rows[2].old_lineno, rows[2].new_lineno), (Some(42), Some(42)));
    // The insertion: new only, at 43; old unchanged.
    assert_eq!((rows[3].old_lineno, rows[3].new_lineno), (None, Some(43)));
    // Context after the insertion: old continues at 43, new at 44.
    assert_eq!((rows[4].old_lineno, rows[4].new_lineno), (Some(43), Some(44)));
    assert_eq!((rows[5].old_lineno, rows[5].new_lineno), (Some(44), Some(45)));
}

#[test]
fn parse_hunk_starts_handles_both_forms() {
    assert_eq!(parse_hunk_starts("@@ -1,3 +1,4 @@"), Some((1, 1)));
    assert_eq!(parse_hunk_starts("@@ -40,6 +40,7 @@ fn foo()"), Some((40, 40)));
    // Single-line hunks omit the count.
    assert_eq!(parse_hunk_starts("@@ -5 +6 @@"), Some((5, 6)));
    // Non-headers / synthesized headers don't parse.
    assert_eq!(parse_hunk_starts("(binary file)"), None);
    assert_eq!(parse_hunk_starts(""), None);
}

#[test]
fn progress_counts() {
    let mut f = ChangedFile {
        path: "x".into(),
        hunks: vec![Hunk::new("h1".into()), Hunk::new("h2".into())],
    };
    assert_eq!(f.progress(), (0, 2));
    f.hunks[0].status = ReviewStatus::Approved;
    assert_eq!(f.progress(), (1, 2));
}

#[test]
fn replace_nth_line_preserves_trailing_newline() {
    assert_eq!(
        replace_nth_line("a\nb\nc\n", 1, "B"),
        Some("a\nB\nc\n".to_string())
    );
    // no trailing newline preserved
    assert_eq!(
        replace_nth_line("a\nb\nc", 2, "C"),
        Some("a\nb\nC".to_string())
    );
    // out of range
    assert_eq!(replace_nth_line("a\nb\n", 5, "x"), None);
}

#[test]
fn parse_unified_patch_full_context_keeps_all_lines() {
    // 6-line file; line 3 changed from "three" to "THREE".
    let patch = "\
diff --git a/f.txt b/f.txt
index 1111111..2222222 100644
--- a/f.txt
+++ b/f.txt
@@ -1,6 +1,6 @@
 one
 two
-three
+THREE
 four
 five
 six
";
    let files = parse_unified_patch(patch);
    assert_eq!(files.len(), 1);
    assert_eq!(files[0].path, "f.txt");
    let rows = &files[0].hunks[0].rows;
    // All 6 source lines are present (5 context + 1 add; the deletion of
    // "three" is also a row). Reconstruct the NEW-side file from the rows.
    let new_side: Vec<&str> = rows
        .iter()
        .filter(|r| r.kind != LineKind::Del)
        .map(|r| r.text.as_str())
        .collect();
    assert_eq!(new_side, ["one", "two", "THREE", "four", "five", "six"]);
    // And the removed line is represented as a deletion row.
    assert!(rows
        .iter()
        .any(|r| r.kind == LineKind::Del && r.text == "three"));
}

#[test]
fn an_unnumberable_patch_is_refused() {
    let patch = "diff --git a/f b/f\n--- a/f\n+++ b/f\n@@ -4294967295,2 +1,2 @@\n x\n y\n";
    assert!(try_parse_unified_patch(patch).is_none());
    assert!(try_parse_unified_patch("").unwrap().is_empty());
}

#[test]
fn untracked_files_are_all_additions() {
    let f = untracked_as_changed_file("new.txt", "one\ntwo\n");
    assert_eq!(f.path, "new.txt");
    assert_eq!(f.hunks[0].header, "@@ -0,0 +1,2 @@");
    let rows: Vec<(LineKind, &str, Option<u32>, Option<u32>)> = f.hunks[0]
        .rows
        .iter()
        .map(|r| (r.kind, r.text.as_str(), r.old_lineno, r.new_lineno))
        .collect();
    assert_eq!(
        rows,
        [
            (LineKind::Add, "one", None, Some(1)),
            (LineKind::Add, "two", None, Some(2)),
        ]
    );
}

fn line(path: &str, origin: char, content: &[u8]) -> PatchLine {
    PatchLine {
        new_path: Some(path.into()),
        old_path: None,
        origin,
        content: content.to_vec(),
    }
}

#[test]
fn lines_of_a_diff_are_grouped_into_files_and_hunks() {
    let files = group_patch_lines(&[
        line("a.txt", 'F', b"diff --git a/a.txt b/a.txt\n"),
        line("a.txt", 'H', b"@@ -1,2 +1,2 @@\n"),
        line("a.txt", ' ', b"ctx\n"),
        line("a.txt", '-', b"old\n"),
        line("a.txt", '+', b"n\xffw\n"),
        line("b.txt", 'F', b"diff --git a/b.txt b/b.txt\n"),
        line("b.txt", 'H', b"@@ -0,0 +1 @@\n"),
        line("b.txt", '+', b"b\n"),
    ])
    .unwrap();
    let paths: Vec<&str> = files.iter().map(|f| f.path.as_str()).collect();
    assert_eq!(paths, ["a.txt", "b.txt"]);
    let rows = &files[0].hunks[0].rows;
    assert_eq!(rows.len(), 3);
    assert_eq!((rows[1].kind, rows[1].old_lineno), (LineKind::Del, Some(2)));
    // Bytes that are not UTF-8 are replaced.
    assert_eq!(rows[2].text, "n\u{fffd}w");
    assert_eq!(rows[2].new_lineno, Some(2));
}

#[test]
fn numbering_again_changes_nothing() {
    let mut files = parse_unified_patch(
        "diff --git a/f b/f\n--- a/f\n+++ b/f\n@@ -5,1 +6,1 @@\n-a\n+b\n",
    );
    let anchor = files[0].hunks[0].content_anchor();
    number_files(&mut files);
    assert_eq!(files[0].hunks[0].rows[0].old_lineno, Some(5));
    assert_eq!(files[0].hunks[0].rows[1].new_lineno, Some(6));
    assert_eq!(files[0].hunks[0].content_anchor(), anchor);
}

#[test]
fn statuses_have_words() {
    assert_eq!(ReviewStatus::Unreviewed.as_str(), "unreviewed");
    assert_eq!(ReviewStatus::Approved.as_str(), "approved");
    assert_eq!(ReviewStatus::Rejected.as_str(), "rejected");
}

#[test]
fn replacing_a_line_keeps_the_others() {
    assert_eq!(replace_nth_line("a\r\nb\n", 1, "B").as_deref(), Some("a\r\nB\n"));
    assert_eq!(replace_nth_line("", 0, "x"), None);
}

#[test]
fn a_printed_diff_reads_as_the_diff() {
    let lines = [
        line(
            "src/a.rs",
            'F',
            b"diff --git a/src/a.rs b/src/a.rs\nindex 1..2 100644\n--- a/src/a.rs\n+++ b/src/a.rs\n",
        ),
        line("src/a.rs", 'H', b"@@ -3,2 +3,2 @@ fn f()\n"),
        line("src/a.rs", ' ', b"same\n"),
        line("src/a.rs", '-', b"@@ old\n"),
        line("src/a.rs", '+', b"diff --git new\n"),
        line("b.rs", 'F', b"diff --git a/b.rs b/b.rs\nnew file mode 100644\n"),
        line("b.rs", 'H', b"@@ -0,0 +1 @@\n"),
        line("b.rs", '+', b"first\n"),
    ];
    let mut printed = String::new();
    for l in &lines {
        if l.origin == '+' || l.origin == '-' || l.origin == ' ' {
            printed.push(l.origin);
        }
        printed.push_str(&String::from_utf8_lossy(&l.content));
    }
    let read = parse_unified_patch(&printed);
    let grouped = group_patch_lines(&lines).unwrap();
    assert_eq!(read.len(), 2);
    assert_eq!(read.len(), grouped.len());
    for (r, g) in read.iter().zip(&grouped) {
        assert_eq!(r.path, g.path);
        assert_eq!(r.hunks.len(), 1);
        assert_eq!(g.hunks.len(), 1);
        assert_eq!(r.hunks[0].header, g.hunks[0].header);
        assert_eq!(r.hunks[0].rows.len(), g.hunks[0].rows.len());
        for (a, b) in r.hunks[0].rows.iter().zip(&g.hunks[0].rows) {
            assert!(a.kind == b.kind);
            assert_eq!(a.text, b.text);
            assert_eq!((a.old_lineno, a.new_lineno), (b.old_lineno, b.new_lineno));
        }
    }
    assert_eq!(read[0].hunks[0].rows[2].text, "diff --git new");
    assert_eq!(read[0].hunks[0].rows[2].new_lineno, Some(4));
}

#[test]
fn a_header_without_its_closing_marks_has_no_starts() {
    assert_eq!(parse_hunk_starts("@@ -1,3 +1,4"), None);
    assert_eq!(parse_hunk_starts("@@ -1,3 +1,4 fn foo()"), None);
}

#[test]
fn paths_with_spaces_are_read() {
    let path = |rest: &str| parse_diff_git_path(&rest.chars().collect::<Vec<char>>());
    assert_eq!(path("a/x b/y b/x b/y"), "x b/y");
    assert_eq!(path("a/my file b/my file"), "my file");
    assert_eq!(path("a/f b/f"), "f");
    // The sides differ: the new one counts.
    assert_eq!(path("a/old b/new"), "new");
    assert_eq!(path("a/only"), "only");
    assert_eq!(path("odd"), "odd");
}

#[test]
fn no_newline_markers_are_no_rows() {
    let marker = b"\n\\ No newline at end of file\n";
    let lines = [
        line("nonl.txt", 'F', b"diff --git a/nonl.txt b/nonl.txt\n"),
        line("nonl.txt", 'H', b"@@ -1,2 +1,2 @@\n"),
        line("nonl.txt", ' ', b"first\n"),
        line("nonl.txt", '-', b"second"),
        line("nonl.txt", '<', marker),
        line("nonl.txt", '+', b"SECOND"),
        line("nonl.txt", '>', marker),
    ];
    let grouped = group_patch_lines(&lines).unwrap();
    let rows: Vec<_> = grouped[0].hunks[0]
        .rows
        .iter()
        .map(|r| (r.kind, r.text.as_str(), r.old_lineno, r.new_lineno))
        .collect();
    assert_eq!(
        rows,
        [
            (LineKind::Ctx, "first", Some(1), Some(1)),
            (LineKind::Del, "second", Some(2), None),
            (LineKind::Add, "SECOND", None, Some(2)),
        ]
    );
    // The printed patch reads the same.
    let printed = "diff --git a/nonl.txt b/nonl.txt\n@@ -1,2 +1,2 @@\n first\n-second\n\
        \\ No newline at end of file\n+SECOND\n\\ No newline at end of file\n";
    let read = parse_unified_patch(printed);
    let read: Vec<_> = read[0].hunks[0]
        .rows
        .iter()
        .map(|r| (r.kind, r.text.as_str(), r.old_lineno, r.new_lineno))
        .collect();
    assert_eq!(read, rows);
}

#[test]
fn replacing_a_line_keeps_the_line_ends() {
    let replaced = |s: &str, n: usize| replace_nth_line(s, n, "X");
    assert_eq!(replaced("a\r\nb\r\n", 0).as_deref(), Some("X\r\nb\r\n"));
    assert_eq!(replaced("a\r\nb\n", 1).as_deref(), Some("a\r\nX\n"));
    assert_eq!(replaced("a\nb\r", 1).as_deref(), Some("a\nX"));
    assert_eq!(replaced("a\n\nb", 1).as_deref(), Some("a\nX\nb"));
    assert_eq!(replaced("a\n", 1), None);
}
