use purview::content::Selection;
use purview::controls::{
    aggregate_status, comment_editor, edit_note, hunk_header_controls, progress_glyph,
    resolve_edit, status_glyph, EditEvent, EditorEvents,
};
use purview::diff::{ChangedFile, Hunk, LineKind, ReviewStatus};
use purview::display::{
    cell_gutter, diff_gutter, empty_message, fmt_lineno, ident_runs, is_ident_char, keybindings,
    pane_state, plain_gutter, PaneState,
};
use purview::review_state::{Replies, Reply};
use purview::rows::Layout;

/// `aggregate_status`: a whole-file strip is Approved only when every hunk
/// is approved, Rejected only when every hunk is rejected, else Unreviewed.
#[test]
fn aggregate_status_is_all_or_nothing() {
    let mut f = ChangedFile {
        path: "x".into(),
        hunks: vec![
            Hunk::new("h0".into()),
            Hunk::new("h1".into()),
            Hunk::new("h2".into()),
        ],
    };
    let all = [0usize, 1, 2];
    assert_eq!(aggregate_status(&f, &all), ReviewStatus::Unreviewed);
    f.hunks[0].status = ReviewStatus::Approved;
    // Mixed (one approved, two unreviewed) → still Unreviewed.
    assert_eq!(aggregate_status(&f, &all), ReviewStatus::Unreviewed);
    for h in f.hunks.iter_mut() {
        h.status = ReviewStatus::Approved;
    }
    assert_eq!(aggregate_status(&f, &all), ReviewStatus::Approved);
    for h in f.hunks.iter_mut() {
        h.status = ReviewStatus::Rejected;
    }
    assert_eq!(aggregate_status(&f, &all), ReviewStatus::Rejected);
    // A single target reflects exactly that hunk.
    f.hunks[1].status = ReviewStatus::Approved;
    assert_eq!(aggregate_status(&f, &[1]), ReviewStatus::Approved);
    assert_eq!(aggregate_status(&f, &[0]), ReviewStatus::Rejected);
    // Empty targets → Unreviewed.
    assert_eq!(aggregate_status(&f, &[]), ReviewStatus::Unreviewed);
}

/// The cheat-sheet lists the bindings the code actually handles. Lock in a
/// few load-bearing ones so the help can't silently drift.
#[test]
fn keybindings_cover_the_real_bindings() {
    let kb = keybindings();
    let keys: Vec<&str> = kb.iter().map(|(k, _)| *k).collect();
    for k in ["Ctrl+P", "Ctrl+F", "j / k", "n / p", "a / r", "F12", "g", "?"] {
        assert!(keys.contains(&k), "help must list {k:?}");
    }
    assert!(
        keys.iter().any(|k| k.contains("PageUp")),
        "help must mention PageUp/PageDown"
    );
    assert!(!kb.is_empty());
}

fn files() -> Vec<ChangedFile> {
    let mut hunks: Vec<Hunk> = (0..3).map(|i| Hunk::new(format!("h{i}"))).collect();
    hunks[1].status = ReviewStatus::Approved;
    hunks[1].comment = "  note".into();
    hunks[1].changed_since_review = true;
    hunks[2].comment = " \n".into();
    vec![ChangedFile { path: "a.rs".into(), hunks }]
}

#[test]
fn a_header_acts_on_its_own_hunk_or_on_all() {
    let files = files();
    let replies = Replies {
        replies: vec![Reply {
            file: "a.rs".into(),
            hunk_header: "h1".into(),
            text: "done".into(),
            anchor: String::new(),
        }],
    };
    let c = hunk_header_controls(&files, Some(0), 1, "h1", false, &replies);
    assert_eq!(c.targets, [1]);
    assert_eq!(c.status, ReviewStatus::Approved);
    assert!(c.has_comment && c.changed_since);
    assert_eq!((c.comment_label(), c.replies_label().as_deref()), ("💬*", Some("↩1")));
    assert_eq!(c.clicks(ReviewStatus::Rejected), [(1, ReviewStatus::Rejected)]);

    let c = hunk_header_controls(&files, Some(0), 2, "h2", true, &replies);
    assert_eq!(c.targets, [0, 1, 2]);
    assert_eq!(c.status, ReviewStatus::Unreviewed);
    assert!(!c.has_comment, "a blank comment is none");
    assert_eq!((c.comment_label(), c.replies_label()), ("💬", None));
    assert_eq!(c.clicks(ReviewStatus::Approved).len(), 3);

    let c = hunk_header_controls(&files, None, 1, "h1", false, &replies);
    assert!(c.targets.is_empty() && c.replies == 0 && !c.has_comment);
}

#[test]
fn signs() {
    assert_eq!(status_glyph(ReviewStatus::Approved), "✓");
    assert_eq!(status_glyph(ReviewStatus::Rejected), "✗");
    assert_eq!(status_glyph(ReviewStatus::Unreviewed), "○");
    assert_eq!(progress_glyph(0, 0), "○");
    assert_eq!(progress_glyph(0, 3), "○");
    assert_eq!(progress_glyph(1, 3), "◐");
    assert_eq!(progress_glyph(3, 3), "✓");
}

#[test]
fn comments_are_saved_when_the_editor_closes() {
    let ev = |edited: bool, submit: bool, cancel: bool| EditorEvents { edited, submit, cancel };
    let out = comment_editor(false, ev(true, false, false));
    assert_eq!((out.dirty, out.save, out.close), (true, false, false));
    let out = comment_editor(true, ev(false, false, true));
    assert_eq!((out.dirty, out.save, out.close), (false, true, true));
    let out = comment_editor(false, ev(false, false, true));
    assert_eq!((out.dirty, out.save, out.close), (false, false, true));
    let out = comment_editor(false, ev(false, true, false));
    assert_eq!((out.dirty, out.save, out.close), (false, true, true));
}

#[test]
fn inline_edits_are_written_in_an_open_file_only() {
    let out = resolve_edit(None, Some("a.rs"), EditEvent::Start(3, "x".into()));
    assert_eq!(out.editing, Some((3, "x".to_string())));
    let out = resolve_edit(Some(3), Some("a.rs"), EditEvent::Typed("xy".into()));
    assert_eq!(out.editing, Some((3, "xy".to_string())));
    let out = resolve_edit(Some(3), Some("a.rs"), EditEvent::Commit(3, "xy".into()));
    assert_eq!(out.write, Some(("a.rs".to_string(), 3, "xy".to_string())));
    assert_eq!(out.editing, None);
    let out = resolve_edit(Some(3), None, EditEvent::Commit(3, "xy".into()));
    assert_eq!((out.write, out.editing), (None, None));
    let out = resolve_edit(Some(3), Some("a.rs"), EditEvent::Cancel);
    assert_eq!((out.write, out.editing), (None, None));
    let out = resolve_edit(None, Some("a.rs"), EditEvent::Typed(String::new()));
    assert_eq!(out.editing, None);
    assert_eq!(edit_note("a.rs", 3, None), "edited a.rs:4");
    assert_eq!(edit_note("a.rs", 3, Some("no")), "edit failed: no");
}

#[test]
fn gutters_line_up() {
    assert_eq!(fmt_lineno(Some(7), 3), "  7");
    assert_eq!(fmt_lineno(Some(1234), 3), "1234");
    assert_eq!(fmt_lineno(None, 3), "   ");
    assert_eq!(diff_gutter(Some(7), None, LineKind::Del, 2), " 7    - ");
    assert_eq!(diff_gutter(None, Some(12), LineKind::Add, 2), "   12 + ");
    assert_eq!(cell_gutter(Some(LineKind::Ctx), Some(1), 2), " 1   ");
    assert_eq!(cell_gutter(None, None, 2), "     ");
    assert_eq!(plain_gutter(12, 3), " 12 ");
}

#[test]
fn identifiers_are_whole_runs() {
    let runs: Vec<(bool, String)> =
        ident_runs("let größe_1 = f(x);").into_iter().map(|r| (r.ident, r.text)).collect();
    let want = [
        (true, "let"),
        (false, " "),
        (true, "größe_1"),
        (false, " = "),
        (true, "f"),
        (false, "("),
        (true, "x"),
        (false, ");"),
    ];
    assert_eq!(runs, want.map(|(i, t)| (i, t.to_string())));
    assert!(ident_runs("").is_empty());
    assert!(is_ident_char('_') && !is_ident_char('-'));
}

#[test]
fn only_a_changed_file_is_shown_side_by_side() {
    let changed = Selection::Changed(0);
    let path = Selection::Path("a.rs".into());
    let show = |sel: Option<&Selection>, layout: Layout| pane_state(false, false, sel, layout);
    assert_eq!(show(Some(&changed), Layout::Split), PaneState::Split);
    assert_eq!(show(Some(&changed), Layout::Inline), PaneState::Unified);
    assert_eq!(show(Some(&path), Layout::Split), PaneState::Unified);
    assert_eq!(show(None, Layout::Split), PaneState::Empty);
    assert_eq!(pane_state(true, true, None, Layout::Split), PaneState::Computing);
    assert_eq!(pane_state(false, true, Some(&path), Layout::Inline), PaneState::Fetching);
}

#[test]
fn an_empty_pane_says_why() {
    assert_eq!(empty_message(true), "diff failed — see the error above");
    assert_eq!(empty_message(false), "no changes — working tree matches HEAD");
}
