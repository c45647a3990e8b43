//! Keyboard navigation: files, hunks, verdicts, and where the content pane is
//! to be scrolled.

use crate::content::Selection;
use crate::diff::{ChangedFile, ReviewStatus};
use vstd::prelude::*;

verus! {

broadcast use {crate::seqs::lemma_views_push, crate::seqs::lemma_views_update};

/// Where a row is to land in the viewport.
#[derive(Clone, Copy, PartialEq, Eq, Debug, Structural)]
pub enum RowAlign {
    Center,
    Top,
}

/// What is selected and focused, and the scroll requests that follow from it.
#[derive(Debug)]
pub struct Nav {
    pub selected: Option<Selection>,
    /// Which hunk is current for n/p navigation and a/r/c actions.
    pub focus_hunk: usize,
    /// The hunk whose comment editor is open.
    pub active_hunk: Option<usize>,
    /// The comment editor is to take the keyboard focus.
    pub comment_just_opened: bool,
    pub show_help: bool,
    /// Once the rows of the selected file are there, its first hunk is to be
    /// scrolled to the top.
    pub scroll_to_first_hunk: bool,
    /// The row that is to be brought into view.
    pub scroll_to_row: Option<(usize, RowAlign)>,
}

/// What a [`Nav`] holds.
pub struct NavModel {
    pub selected: Option<crate::content::SelectionModel>,
    pub focus_hunk: usize,
    pub active_hunk: Option<usize>,
    pub comment_just_opened: bool,
    pub show_help: bool,
    pub scroll_to_first_hunk: bool,
    pub scroll_to_row: Option<(usize, RowAlign)>,
}

impl View for Nav {
    type V = NavModel;

    open spec fn view(&self) -> NavModel {
        NavModel {
            selected: crate::seqs::opt_view(self.selected),
            focus_hunk: self.focus_hunk,
            active_hunk: self.active_hunk,
            comment_just_opened: self.comment_just_opened,
            show_help: self.show_help,
            scroll_to_first_hunk: self.scroll_to_first_hunk,
            scroll_to_row: self.scroll_to_row,
        }
    }
}

/// Whether cache `row` falls within the inclusive `[top_row, bottom_row]`
/// viewport span (the rows currently on screen).
pub fn row_in_viewport(row: usize, top_row: usize, bottom_row: usize) -> (r: bool)
    ensures
        r == (top_row <= row <= bottom_row),
{
    row >= top_row && row <= bottom_row
}

/// The first of `rows`, from `from` on, that is below `top`.
pub open spec fn first_below(rows: Seq<usize>, top: usize, from: int) -> Option<usize>
    decreases rows.len() - from,
{
    if from < 0 || from >= rows.len() {
        None
    } else if rows[from] > top {
        Some(from as usize)
    } else {
        first_below(rows, top, from + 1)
    }
}

/// The last of the first `n` of `rows` that is above `top`.
pub open spec fn last_above(rows: Seq<usize>, top: usize, n: int) -> Option<usize>
    decreases n,
{
    if n <= 0 {
        None
    } else if rows[n - 1] < top {
        Some((n - 1) as usize)
    } else {
        last_above(rows, top, n - 1)
    }
}

/// The focused hunk is on screen.
pub open spec fn focus_visible(rows: Seq<usize>, top: usize, bottom: usize, focus: usize) -> bool {
    focus < rows.len() && top <= rows[focus as int] <= bottom
}

/// The hunk to go to. From a focused hunk on screen it is the next or previous
/// one; else the first below the top of the viewport or the last above it.
pub open spec fn hunk_target(
    rows: Seq<usize>,
    top: usize,
    bottom: usize,
    focus: usize,
    forward: bool,
) -> Option<usize> {
    if focus_visible(rows, top, bottom, focus) {
        if forward && focus + 1 < rows.len() {
            Some((focus + 1) as usize)
        } else if !forward && focus > 0 {
            Some((focus - 1) as usize)
        } else {
            None
        }
    } else if forward {
        first_below(rows, top, 0)
    } else {
        last_above(rows, top, rows.len() as int)
    }
}

/// Pick the n/p target hunk so n/p always move to the NEXT / PREVIOUS hunk
/// relative to where the user is looking. `hunk_rows` is the ascending list of
/// each hunk header's row. `top_row` / `bottom_row` bracket the visible rows.
/// `focus` is the current focus hunk (index into `hunk_rows`). `forward` = `n`.
/// Returns the index INTO `hunk_rows`, or `None` if there is no hunk in that
/// direction.
pub fn nav_hunk_from_scroll(
    hunk_rows: &[usize],
    top_row: usize,
    bottom_row: usize,
    focus: usize,
    forward: bool,
) -> (r: Option<usize>)
    ensures
        r == hunk_target(hunk_rows@, top_row, bottom_row, focus, forward),
{
    let n: usize = hunk_rows.len();
    if focus < n && row_in_viewport(hunk_rows[focus], top_row, bottom_row) {
        return if forward {
            if focus + 1 < n {
                Some(focus + 1)
            } else {
                None
            }
        } else if focus > 0 {
            Some(focus - 1)
        } else {
            None
        };
    }
    if forward {
        for i in 0..n
            invariant
                n == hunk_rows@.len(),
                hunk_target(hunk_rows@, top_row, bottom_row, focus, forward) == first_below(
                    hunk_rows@,
                    top_row,
                    i as int,
                ),
        {
            if hunk_rows[i] > top_row {
                return Some(i);
            }
        }
        None
    } else {
        let mut i: usize = n;
        while i > 0
            invariant
                n == hunk_rows@.len(),
                i <= n,
                hunk_target(hunk_rows@, top_row, bottom_row, focus, forward) == last_above(
                    hunk_rows@,
                    top_row,
                    i as int,
                ),
            decreases i,
        {
            if hunk_rows[i - 1] < top_row {
                return Some(i - 1);
            }
            i = i - 1;
        }
        None
    }
}

proof fn lemma_first_below(rows: Seq<usize>, top: usize, from: int)
    requires
        0 <= from,
        rows.len() <= usize::MAX,
    ensures
        match first_below(rows, top, from) {
            Some(i) => from <= i < rows.len() && rows[i as int] > top && forall|j: int|
                from <= j < i ==> #[trigger] rows[j] <= top,
            None => forall|j: int| from <= j < rows.len() ==> #[trigger] rows[j] <= top,
        },
    decreases rows.len() - from,
{
    if from < rows.len() && rows[from] <= top {
        lemma_first_below(rows, top, from + 1);
    }
}

proof fn lemma_last_above(rows: Seq<usize>, top: usize, n: int)
    requires
        n <= rows.len() <= usize::MAX,
    ensures
        match last_above(rows, top, n) {
            Some(i) => i < n && rows[i as int] < top && forall|j: int|
                i < j < n ==> #[trigger] rows[j] >= top,
            None => forall|j: int| 0 <= j < n ==> #[trigger] rows[j] >= top,
        },
    decreases n,
{
    if n > 0 && rows[n - 1] >= top {
        lemma_last_above(rows, top, n - 1);
    }
}

/// `n` never goes up and `p` never goes down. Where the focused hunk is on
/// screen the target is past it in that direction; where it is not, the target
/// is the nearest one past the top of the viewport, and None means that there
/// is none.
pub proof fn hunk_step_goes_the_right_way(
    rows: Seq<usize>,
    top: usize,
    bottom: usize,
    focus: usize,
    forward: bool,
)
    requires
        rows.len() <= usize::MAX,
        forall|i: int, j: int| 0 <= i < j < rows.len() ==> rows[i] < rows[j],
    ensures
        ({
            let from = if focus_visible(rows, top, bottom, focus) {
                rows[focus as int]
            } else {
                top
            };
            match hunk_target(rows, top, bottom, focus, forward) {
                Some(t) => {
                    &&& t < rows.len()
                    &&& forward ==> rows[t as int] > from && forall|j: int|
                        0 <= j < t ==> #[trigger] rows[j] <= from
                    &&& !forward ==> rows[t as int] < from && forall|j: int|
                        t < j < rows.len() ==> #[trigger] rows[j] >= from
                },
                None => {
                    &&& forward ==> forall|j: int|
                        0 <= j < rows.len() ==> #[trigger] rows[j] <= from
                    &&& !forward ==> forall|j: int|
                        0 <= j < rows.len() ==> #[trigger] rows[j] >= from
                },
            }
        }),
{
    lemma_first_below(rows, top, 0);
    lemma_last_above(rows, top, rows.len() as int);
}

/// The keys that were pressed.
#[derive(Clone, Copy, Debug)]
pub struct NavKeys {
    pub help: bool,
    pub esc: bool,
    pub page_up: bool,
    pub page_down: bool,
    pub f12: bool,
    pub g: bool,
    pub j: bool,
    pub k: bool,
    pub n: bool,
    pub p: bool,
    pub a: bool,
    pub r: bool,
    pub c: bool,
}

/// What is left to be done for the keys.
#[derive(Clone, Copy, PartialEq, Eq, Debug, Structural)]
pub enum NavAction {
    Nothing,
    /// Scroll the content by a page.
    Page { down: bool },
    /// Go to the definition of the selected symbol.
    GotoSelected,
    /// Open the go-to-definition overlay.
    OpenGoto,
    /// The review changed: persist it.
    Save,
}

/// The changed file that is selected.
pub open spec fn selected_file(nav: NavModel) -> Option<usize> {
    match nav.selected {
        Some(crate::content::SelectionModel::Changed(i)) => Some(i),
        _ => None,
    }
}

/// j / k: the next or previous changed file, within the list. A switch focuses
/// the first hunk of the new file.
pub open spec fn step_file(nav: NavModel, files: nat, keys: NavKeys) -> NavModel {
    if !(keys.j || keys.k) || files == 0 {
        nav
    } else {
        let at = match selected_file(nav) {
            Some(i) => i,
            None => 0,
        };
        let next = if keys.j {
            if at + 1 < files {
                (at + 1) as usize
            } else {
                (files - 1) as usize
            }
        } else if at > 0 {
            (at - 1) as usize
        } else {
            0
        };
        let switched = selected_file(nav) != Some(next);
        NavModel {
            selected: Some(crate::content::SelectionModel::Changed(next)),
            focus_hunk: if switched {
                0
            } else {
                nav.focus_hunk
            },
            scroll_to_first_hunk: switched || nav.scroll_to_first_hunk,
            ..nav
        }
    }
}

/// n / p: the next or previous hunk, or the last or first where there is none.
/// It is scrolled to only where it is off screen.
pub open spec fn step_hunk(
    nav: NavModel,
    rows: Seq<usize>,
    visible: Option<(usize, usize)>,
    keys: NavKeys,
) -> NavModel {
    if !(keys.n || keys.p) || rows.len() == 0 {
        nav
    } else {
        let (top, bottom) = match visible {
            Some(v) => v,
            None => (0, 0),
        };
        let focus = match hunk_target(rows, top, bottom, nav.focus_hunk, keys.n) {
            Some(t) => t,
            None => if keys.n {
                (rows.len() - 1) as usize
            } else {
                0
            },
        };
        let row = if focus < rows.len() {
            rows[focus as int]
        } else {
            0
        };
        NavModel {
            focus_hunk: focus,
            scroll_to_row: if top <= row <= bottom {
                nav.scroll_to_row
            } else {
                Some((row, RowAlign::Center))
            },
            ..nav
        }
    }
}

/// The verdict that a or r gives.
pub open spec fn verdict(keys: NavKeys) -> Option<ReviewStatus> {
    if keys.a {
        Some(ReviewStatus::Approved)
    } else if keys.r {
        Some(ReviewStatus::Rejected)
    } else {
        None
    }
}

/// `files` with this status on this hunk, where there is such a hunk.
pub open spec fn with_verdict(
    files: Seq<crate::diff::FileModel>,
    fi: int,
    hi: int,
    status: ReviewStatus,
) -> Seq<crate::diff::FileModel> {
    if 0 <= fi < files.len() && 0 <= hi < files[fi].hunks.len() {
        let h = files[fi].hunks[hi];
        files.update(
            fi,
            crate::diff::FileModel {
                path: files[fi].path,
                hunks: files[fi].hunks.update(hi, crate::diff::HunkModel { status, ..h }),
            },
        )
    } else {
        files
    }
}

/// A verdict touches the one hunk that it is given to: no other hunk, no other
/// file, and nothing of the hunk but its status.
pub proof fn verdict_touches_one_hunk(
    files: Seq<crate::diff::FileModel>,
    fi: int,
    hi: int,
    status: ReviewStatus,
)
    requires
        0 <= fi < files.len(),
        0 <= hi < files[fi].hunks.len(),
    ensures
        ({
            let after = with_verdict(files, fi, hi, status);
            &&& after.len() == files.len()
            &&& forall|f: int| 0 <= f < files.len() && f != fi ==> #[trigger] after[f] == files[f]
            &&& after[fi].path == files[fi].path
            &&& after[fi].hunks.len() == files[fi].hunks.len()
            &&& forall|h: int|
                0 <= h < files[fi].hunks.len() && h != hi ==> #[trigger] after[fi].hunks[h]
                    == files[fi].hunks[h]
            &&& after[fi].hunks[hi] == (crate::diff::HunkModel { status, ..files[fi].hunks[hi] })
        }),
{
}

/// What the keys lead to.
pub struct NavOutcome {
    pub nav: NavModel,
    pub files: Seq<crate::diff::FileModel>,
    pub action: NavAction,
}

/// The keys that step through the review. Verdicts and comments are for the
/// file that was selected before.
pub open spec fn stepped(
    nav: NavModel,
    files: Seq<crate::diff::FileModel>,
    rows: Seq<usize>,
    visible: Option<(usize, usize)>,
    keys: NavKeys,
) -> NavOutcome {
    let moved = step_hunk(step_file(nav, files.len(), keys), rows, visible, keys);
    match (selected_file(nav), verdict(keys)) {
        (Some(fi), Some(status)) => NavOutcome {
            nav: moved,
            files: with_verdict(files, fi as int, moved.focus_hunk as int, status),
            action: NavAction::Save,
        },
        (Some(fi), None) => NavOutcome {
            nav: if keys.c {
                NavModel {
                    active_hunk: Some(moved.focus_hunk),
                    comment_just_opened: true,
                    ..moved
                }
            } else {
                moved
            },
            files,
            action: NavAction::Nothing,
        },
        (None, _) => NavOutcome { nav: moved, files, action: NavAction::Nothing },
    }
}

/// What the keys lead to: the help overlay first, then paging, then the two
/// ways to a definition; where none of these was asked for, the review itself.
pub open spec fn handled(
    nav: NavModel,
    files: Seq<crate::diff::FileModel>,
    rows: Seq<usize>,
    visible: Option<(usize, usize)>,
    has_symbol: bool,
    keys: NavKeys,
) -> NavOutcome {
    if keys.help {
        NavOutcome {
            nav: NavModel { show_help: !nav.show_help, ..nav },
            files,
            action: NavAction::Nothing,
        }
    } else if nav.show_help && keys.esc {
        NavOutcome {
            nav: NavModel { show_help: false, ..nav },
            files,
            action: NavAction::Nothing,
        }
    } else if keys.page_up || keys.page_down {
        NavOutcome { nav, files, action: NavAction::Page { down: keys.page_down } }
    } else if keys.f12 {
        NavOutcome {
            nav,
            files,
            action: if has_symbol {
                NavAction::GotoSelected
            } else {
                NavAction::Nothing
            },
        }
    } else if keys.g {
        NavOutcome { nav, files, action: NavAction::OpenGoto }
    } else {
        stepped(nav, files, rows, visible, keys)
    }
}

impl Nav {
    /// Nothing selected.
    pub fn new() -> (r: Self)
        ensures
            r@ == (NavModel {
                selected: None,
                focus_hunk: 0,
                active_hunk: None,
                comment_just_opened: false,
                show_help: false,
                scroll_to_first_hunk: false,
                scroll_to_row: None,
            }),
    {
        Nav {
            selected: None,
            focus_hunk: 0,
            active_hunk: None,
            comment_just_opened: false,
            show_help: false,
            scroll_to_first_hunk: false,
            scroll_to_row: None,
        }
    }

    /// The changed file that is selected.
    pub fn selected_file(&self) -> (r: Option<usize>)
        ensures
            r == selected_file(self@),
    {
        match &self.selected {
            Some(Selection::Changed(i)) => Some(*i),
            _ => None,
        }
    }

    fn step_file(&mut self, files: usize, keys: NavKeys)
        ensures
            final(self)@ == step_file(old(self)@, files as nat, keys),
    {
        if !(keys.j || keys.k) || files == 0 {
            return ;
        }
        let current = self.selected_file();
        let at: usize = match current {
            Some(i) => i,
            None => 0,
        };
        let next: usize = if keys.j {
            if at < files - 1 {
                at + 1
            } else {
                files - 1
            }
        } else if at > 0 {
            at - 1
        } else {
            0
        };
        let switched = match current {
            Some(i) => i != next,
            None => true,
        };
        if switched {
            self.focus_hunk = 0;
            self.scroll_to_first_hunk = true;
        }
        self.selected = Some(Selection::Changed(next));
    }

    fn step_hunk(&mut self, rows: &[usize], visible: Option<(usize, usize)>, keys: NavKeys)
        ensures
            final(self)@ == step_hunk(old(self)@, rows@, visible, keys),
    {
        if !(keys.n || keys.p) || rows.len() == 0 {
            return ;
        }
        let (top, bottom) = match visible {
            Some(v) => v,
            None => (0, 0),
        };
        let focus: usize = match nav_hunk_from_scroll(rows, top, bottom, self.focus_hunk, keys.n) {
            Some(t) => t,
            None => if keys.n {
                rows.len() - 1
            } else {
                0
            },
        };
        self.focus_hunk = focus;
        let row: usize = if focus < rows.len() {
            rows[focus]
        } else {
            0
        };
        if !row_in_viewport(row, top, bottom) {
            self.scroll_to_row = Some((row, RowAlign::Center));
        }
    }

    /// Modal keyboard navigation:
    ///   ?            help
    ///   j / k        next / prev changed file
    ///   n / p        next / prev hunk (scrolls to it where it is off screen)
    ///   a / r        approve / reject the focused hunk
    ///   c            open the comment editor for the focused hunk
    /// `rows` are the rows of the hunk headers and `visible` the rows that are
    /// on screen.
    pub fn handle_nav_keys(
        &mut self,
        files: &mut Vec<ChangedFile>,
        rows: &[usize],
        visible: Option<(usize, usize)>,
        has_symbol: bool,
        keys: NavKeys,
    ) -> (r: NavAction)
        ensures
            ({
                let out = handled(
                    old(self)@,
                    crate::seqs::views(old(files)@),
                    rows@,
                    visible,
                    has_symbol,
                    keys,
                );
                &&& final(self)@ == out.nav
                &&& crate::seqs::views(final(files)@) == out.files
                &&& r == out.action
            }),
    {
        if keys.help {
            self.show_help = !self.show_help;
            return NavAction::Nothing;
        }
        if self.show_help && keys.esc {
            self.show_help = false;
            return NavAction::Nothing;
        }
        if keys.page_up || keys.page_down {
            return NavAction::Page { down: keys.page_down };
        }
        if keys.f12 {
            return if has_symbol {
                NavAction::GotoSelected
            } else {
                NavAction::Nothing
            };
        }
        if keys.g {
            return NavAction::OpenGoto;
        }
        let file = self.selected_file();
        self.step_file(files.len(), keys);
        self.step_hunk(rows, visible, keys);
        if let Some(fi) = file {
            if keys.a {
                set_status(files, fi, self.focus_hunk, ReviewStatus::Approved);
                return NavAction::Save;
            } else if keys.r {
                set_status(files, fi, self.focus_hunk, ReviewStatus::Rejected);
                return NavAction::Save;
            } else if keys.c {
                self.active_hunk = Some(self.focus_hunk);
                self.comment_just_opened = true;
            }
        }
        NavAction::Nothing
    }
}

/// Gives a hunk a status, where there is such a hunk.
pub fn set_status(files: &mut Vec<ChangedFile>, fi: usize, hi: usize, status: ReviewStatus)
    ensures
        crate::seqs::views(final(files)@) == with_verdict(
            crate::seqs::views(old(files)@),
            fi as int,
            hi as int,
            status,
        ),
{
    let ghost fs = crate::seqs::views(files@);
    if fi < files.len() {
        assert(fs[fi as int] == files@[fi as int]@);
        if hi < files[fi].hunks.len() {
            let ghost file = files@[fi as int]@;
            files[fi].hunks[hi].status = status;
            assert(files@[fi as int]@.hunks == file.hunks.update(
                hi as int,
                files@[fi as int].hunks@[hi as int]@,
            ));
            assert(crate::seqs::views(files@) == fs.update(fi as int, files@[fi as int]@));
        }
    }
}

} // verus!
