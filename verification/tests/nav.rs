use purview::content::Selection;
use purview::diff::{ChangedFile, Hunk, ReviewStatus};
use purview::nav::{
    nav_hunk_from_scroll, row_in_viewport, set_status, Nav, NavAction, NavKeys, RowAlign,
};
use purview::session::settle_scroll;

/// When the focused hunk IS on screen, n/p step from it (the familiar
/// next/prev-hunk behavior). Hunk headers at cache rows 2, 8, 15; a 12-row
/// viewport at the top shows hunks 0 and 1.
#[test]
fn nav_hunk_steps_from_focus_when_visible() {
    let rows = [2usize, 8, 15];
    // Viewport rows 0..=12 → focus hunk 0 (row 2) is visible.
    // n steps to hunk 1, p clamps (no hunk before 0).
    assert_eq!(nav_hunk_from_scroll(&rows, 0, 12, 0, true), Some(1));
    assert_eq!(nav_hunk_from_scroll(&rows, 0, 12, 0, false), None);
    // Focus hunk 1 (row 8) visible → n to hunk 2, p to hunk 0.
    assert_eq!(nav_hunk_from_scroll(&rows, 0, 12, 1, true), Some(2));
    assert_eq!(nav_hunk_from_scroll(&rows, 0, 12, 1, false), Some(0));
    // Focus on the last hunk (visible) → n clamps (nothing after).
    assert_eq!(nav_hunk_from_scroll(&rows, 8, 20, 2, true), None);
    assert_eq!(nav_hunk_from_scroll(&rows, 8, 20, 2, false), Some(1));
}

/// The viewport is scrolled into a large context region BETWEEN hunks, so the
/// FOCUSED hunk's header is off-screen (no hunk header visible). n/p must
/// anchor on the viewport — `n` → first hunk below the viewport top, `p` → last
/// hunk above it — NOT step blindly from the stale focus.
#[test]
fn nav_hunk_between_hunks_anchors_on_viewport() {
    // Hunks far apart; viewport rows 50..=62 sit in the gap between the
    // hunk at row 5 and the hunk at row 80. Focus is the STALE hunk 0
    // (row 5), now scrolled off above the viewport.
    let rows = [5usize, 80, 120];
    assert_eq!(
        nav_hunk_from_scroll(&rows, 50, 62, 0, true),
        Some(1),
        "n from a between-hunks position selects the first hunk BELOW the viewport, \
         not focus+1 which would still be the off-screen hunk 1's neighbor"
    );
    assert_eq!(
        nav_hunk_from_scroll(&rows, 50, 62, 0, false),
        Some(0),
        "p from a between-hunks position selects the first hunk ABOVE the viewport"
    );
    // Scrolled deep past the last hunk (rows 200..=212), focus stale at 0:
    // p → last hunk, n → none (clamp handled by the caller).
    assert_eq!(nav_hunk_from_scroll(&rows, 200, 212, 0, false), Some(2));
    assert_eq!(nav_hunk_from_scroll(&rows, 200, 212, 0, true), None);
    // Empty hunk list → no target either way.
    assert_eq!(nav_hunk_from_scroll(&[], 0, 10, 0, true), None);
    assert_eq!(nav_hunk_from_scroll(&[], 0, 10, 0, false), None);
}

/// The "should I scroll?" decision for n/p. A target row inside the inclusive
/// [top,bottom] viewport is already on screen → DON'T scroll (so the user keeps
/// their place); a row above the top or below the bottom is off-screen → scroll
/// it into view.
#[test]
fn row_in_viewport_decides_scroll_vs_keep_place() {
    // Viewport spans rows 10..=20 inclusive.
    // Inside (incl. both edges) → visible → no scroll.
    assert!(row_in_viewport(10, 10, 20), "top edge counts as visible");
    assert!(row_in_viewport(15, 10, 20), "mid-viewport is visible");
    assert!(row_in_viewport(20, 10, 20), "bottom edge counts as visible");
    // Outside → off-screen → scroll.
    assert!(!row_in_viewport(9, 10, 20), "one above the top is off-screen");
    assert!(!row_in_viewport(21, 10, 20), "one below the bottom is off-screen");
    assert!(!row_in_viewport(0, 10, 20), "well above is off-screen");
    assert!(!row_in_viewport(100, 10, 20), "well below is off-screen");
    // Degenerate single-row viewport (viewport_h ~0 on first frame): only
    // that exact row is "visible".
    assert!(row_in_viewport(5, 5, 5));
    assert!(!row_in_viewport(6, 5, 5));
}

fn no_keys() -> NavKeys {
    NavKeys {
        help: false,
        esc: false,
        page_up: false,
        page_down: false,
        f12: false,
        g: false,
        j: false,
        k: false,
        n: false,
        p: false,
        a: false,
        r: false,
        c: false,
    }
}

fn files() -> Vec<ChangedFile> {
    ["x", "y"]
        .iter()
        .map(|p| ChangedFile {
            path: p.to_string(),
            hunks: (0..3).map(|i| Hunk::new(format!("h{i}"))).collect(),
        })
        .collect()
}

#[test]
fn approve_hits_the_focused_hunk_alone() {
    let mut nav = Nav::new();
    nav.selected = Some(Selection::Changed(0));
    let mut fs = files();
    let rows = [0usize, 10, 20];
    let keys = NavKeys { n: true, ..no_keys() };
    assert_eq!(
        nav.handle_nav_keys(&mut fs, &rows, Some((0, 30)), false, keys),
        NavAction::Nothing
    );
    assert_eq!(nav.focus_hunk, 1);
    assert_eq!(nav.scroll_to_row, None, "it was on screen");
    let keys = NavKeys { a: true, ..no_keys() };
    assert_eq!(
        nav.handle_nav_keys(&mut fs, &rows, Some((0, 30)), false, keys),
        NavAction::Save
    );
    let got: Vec<ReviewStatus> = fs[0].hunks.iter().map(|h| h.status).collect();
    assert_eq!(
        got,
        [ReviewStatus::Unreviewed, ReviewStatus::Approved, ReviewStatus::Unreviewed]
    );
    assert!(fs[1].hunks.iter().all(|h| h.status == ReviewStatus::Unreviewed));
}

#[test]
fn an_off_screen_hunk_is_scrolled_to() {
    let mut nav = Nav::new();
    nav.selected = Some(Selection::Changed(0));
    let keys = NavKeys { n: true, ..no_keys() };
    nav.handle_nav_keys(&mut files(), &[0, 40, 80], Some((0, 20)), false, keys);
    assert_eq!(nav.scroll_to_row, Some((40, RowAlign::Center)));
}

#[test]
fn switching_files_focuses_the_first_hunk() {
    let mut nav = Nav::new();
    nav.selected = Some(Selection::Changed(0));
    nav.focus_hunk = 2;
    let keys = NavKeys { j: true, ..no_keys() };
    nav.handle_nav_keys(&mut files(), &[0, 1, 2], None, false, keys);
    assert_eq!(nav.selected_file(), Some(1));
    assert_eq!(nav.focus_hunk, 0);
    assert!(nav.scroll_to_first_hunk);
    // The last file: j stays there, and keeps the focus.
    nav.focus_hunk = 2;
    nav.handle_nav_keys(&mut files(), &[0, 1, 2], None, false, keys);
    assert_eq!((nav.selected_file(), nav.focus_hunk), (Some(1), 2));
}

#[test]
fn other_keys_ask_for_their_action() {
    let mut nav = Nav::new();
    let mut fs = files();
    let mut press = |nav: &mut Nav, symbol: bool, keys: NavKeys| {
        nav.handle_nav_keys(&mut fs, &[], None, symbol, keys)
    };
    assert_eq!(
        press(&mut nav, false, NavKeys { page_down: true, ..no_keys() }),
        NavAction::Page { down: true }
    );
    assert_eq!(press(&mut nav, true, NavKeys { f12: true, ..no_keys() }), NavAction::GotoSelected);
    assert_eq!(press(&mut nav, false, NavKeys { f12: true, ..no_keys() }), NavAction::Nothing);
    assert_eq!(press(&mut nav, false, NavKeys { g: true, ..no_keys() }), NavAction::OpenGoto);
    press(&mut nav, false, NavKeys { help: true, ..no_keys() });
    assert!(nav.show_help);
    press(&mut nav, false, NavKeys { esc: true, ..no_keys() });
    assert!(!nav.show_help);
    nav.selected = Some(Selection::Changed(0));
    press(&mut nav, false, NavKeys { c: true, ..no_keys() });
    assert_eq!((nav.active_hunk, nav.comment_just_opened), (Some(0), true));
}

#[test]
fn a_status_lands_only_on_a_hunk_that_exists() {
    let mut fs = files();
    set_status(&mut fs, 1, 2, ReviewStatus::Rejected);
    set_status(&mut fs, 9, 0, ReviewStatus::Rejected);
    set_status(&mut fs, 0, 9, ReviewStatus::Rejected);
    assert_eq!(fs[1].hunks[2].status, ReviewStatus::Rejected);
    assert_eq!(fs[1].progress(), (1, 3));
    assert_eq!(fs[0].progress(), (0, 3));
}

#[test]
fn scroll_requests_settle_on_one_row() {
    let asked = Some((7, RowAlign::Center));
    assert_eq!(settle_scroll(asked, None, false, 50, &[3]), asked);
    assert_eq!(
        settle_scroll(asked, Some(20), false, 50, &[3]),
        Some((19, RowAlign::Center))
    );
    assert_eq!(settle_scroll(None, Some(99), false, 50, &[]), Some((49, RowAlign::Center)));
    assert_eq!(settle_scroll(None, Some(0), false, 0, &[]), Some((0, RowAlign::Center)));
    assert_eq!(settle_scroll(asked, Some(20), true, 50, &[3, 9]), Some((3, RowAlign::Top)));
    assert_eq!(settle_scroll(asked, None, true, 50, &[]), Some((0, RowAlign::Top)));
}
