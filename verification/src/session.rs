//! A review in progress: the diff with its verdicts, and what happens to it
//! when the diff is computed anew, a control is used or a comment is written.

use crate::content::{ContentLoader, Selection};
use crate::diff::{ChangedFile, DiffSource, ReviewStatus};
use crate::nav::{Nav, RowAlign};
use crate::pane::Pane;
use crate::review_state::{ComparisonKey, OrphanedHunk, ReviewState};
use crate::text::{blank_str, chars_of, string_of, trimmed};
use vstd::prelude::*;

verus! {

broadcast use {crate::seqs::lemma_views_push, crate::seqs::lemma_views_update};

/// The comparison under review, its diff, and the verdicts given in it.
#[derive(Debug)]
pub struct Review {
    pub branch: String,
    pub source: DiffSource,
    pub base: String,
    pub files: Vec<ChangedFile>,
    /// Reviewed hunks that are no longer in the diff.
    pub orphaned: Vec<OrphanedHunk>,
}

/// What a [`Review`] holds.
#[verifier::ext_equal]
pub struct ReviewModel {
    pub branch: Seq<char>,
    pub source: DiffSource,
    pub base: Seq<char>,
    pub files: Seq<crate::diff::FileModel>,
    pub orphaned: Seq<crate::review_state::OrphanModel>,
}

impl View for Review {
    type V = ReviewModel;

    open spec fn view(&self) -> ReviewModel {
        ReviewModel {
            branch: self.branch@,
            source: self.source,
            base: self.base@,
            files: crate::seqs::views(self.files@),
            orphaned: crate::seqs::views(self.orphaned@),
        }
    }
}

/// The review as it is kept.
pub open spec fn state_of(r: ReviewModel) -> crate::review_state::StateModel {
    crate::review_state::StateModel {
        branch: r.branch,
        range: crate::review_state::label(crate::review_state::key_of(r.source, r.base)),
        files: crate::review_state::saved_files(r.files),
        orphaned: r.orphaned,
    }
}

/// Verdicts and comments survive a reload: when the diff has not changed, what
/// was kept of a review puts it back, with blank comments left out. Left out
/// are diffs in which two files have the same path.
pub proof fn verdicts_and_comments_survive_a_reload(
    r: ReviewModel,
    later: ReviewModel,
    branch: Seq<char>,
    live: Seq<crate::diff::FileModel>,
)
    requires
        crate::reanchor_laws::paths_distinct(r.files),
        crate::reanchor_laws::computed_anew(r.files, live),
    ensures
        with_diff(later, branch, live, Some(state_of(r))).files == crate::reanchor_laws::restored(
            r.files,
        ),
{
    crate::reanchor_laws::review_survives_a_reload(state_of(r), r.files, live);
}

/// The hunk has a verdict or a comment that is not blank.
pub open spec fn is_marked(h: crate::diff::HunkModel) -> bool {
    h.status != ReviewStatus::Unreviewed || !crate::text::is_blank(h.comment)
}

/// There is something to keep: an orphan, a verdict or a comment.
pub open spec fn holds_review(r: ReviewModel) -> bool {
    r.orphaned.len() > 0 || exists|f: int, h: int|
        0 <= f < r.files.len() && 0 <= h < r.files[f].hunks.len() && is_marked(
            #[trigger] r.files[f].hunks[h],
        )
}

/// The review of a diff that was just computed, when `saved` was kept for it.
pub open spec fn with_diff(
    r: ReviewModel,
    branch: Seq<char>,
    files: Seq<crate::diff::FileModel>,
    saved: Option<crate::review_state::StateModel>,
) -> ReviewModel {
    match saved {
        Some(s) => ReviewModel {
            branch,
            files: crate::reanchor::reanchored(s.files, files),
            orphaned: crate::reanchor::orphans_of(s, files),
            ..r
        },
        None => ReviewModel { branch, files, orphaned: Seq::empty(), ..r },
    }
}

impl Review {
    /// The comparison the current `source`/`base` selects.
    pub fn comparison_key(&self) -> (r: ComparisonKey)
        ensures
            r@ == crate::review_state::key_of(self@.source, self@.base),
    {
        ComparisonKey::of(self.source, self.base.as_str())
    }

    /// The review as it is to be kept.
    pub fn save_review_state(&self) -> (r: ReviewState)
        ensures
            r@ == state_of(self@),
    {
        ReviewState::capture(
            self.branch.as_str(),
            self.source,
            self.base.as_str(),
            self.files.as_slice(),
            self.orphaned.as_slice(),
        )
    }

    /// Whether there is anything to keep.
    pub fn has_review(&self) -> (r: bool)
        ensures
            r == holds_review(self@),
    {
        let ghost fs = self@.files;
        if self.orphaned.len() > 0 {
            return true;
        }
        for f in 0..self.files.len()
            invariant
                fs == crate::seqs::views(self.files@),
                forall|i: int, h: int|
                    0 <= i < f && 0 <= h < fs[i].hunks.len() ==> !is_marked(
                        #[trigger] fs[i].hunks[h],
                    ),
        {
            let hunks = &self.files[f].hunks;
            let n: usize = hunks.len();
            assert(fs[f as int].hunks == crate::seqs::views(hunks@));
            for h in 0..n
                invariant
                    0 <= f < fs.len(),
                    fs == self@.files,
                    n == hunks@.len(),
                    fs[f as int].hunks == crate::seqs::views(hunks@),
                    forall|k: int| 0 <= k < h ==> !is_marked(#[trigger] fs[f as int].hunks[k]),
            {
                assert(fs[f as int].hunks[h as int] == hunks@[h as int]@);
                if hunks[h].status != ReviewStatus::Unreviewed || !blank_str(
                    hunks[h].comment.as_str(),
                ) {
                    assert(is_marked(self@.files[f as int].hunks[h as int]));
                    return true;
                }
            }
        }
        false
    }

    /// Takes over a diff that was just computed. What was saved for this
    /// comparison is re-anchored onto it.
    pub fn take_diff(
        &mut self,
        branch: String,
        files: Vec<ChangedFile>,
        saved: Option<&ReviewState>,
    )
        ensures
            final(self)@ == with_diff(
                old(self)@,
                branch@,
                crate::seqs::views(files@),
                crate::seqs::opt_view(saved),
            ),
    {
        let mut files = files;
        self.branch = branch;
        self.orphaned = match saved {
            Some(s) => s.reanchor_onto(files.as_mut_slice()),
            None => Vec::new(),
        };
        assert(saved is None ==> crate::seqs::views(self.orphaned@) == Seq::<
            crate::review_state::OrphanModel,
        >::empty());
        self.files = files;
    }

    /// Drops the diff.
    pub fn drop_files(&mut self)
        ensures
            final(self)@ == (ReviewModel { files: Seq::empty(), ..old(self)@ }),
    {
        self.files.clear();
        assert(crate::seqs::views(self.files@) == Seq::<crate::diff::FileModel>::empty());
    }
}

/// Which saved state a comparison starts from.
#[derive(Debug)]
pub enum Resumed {
    /// The one in the comparison's own file.
    Own(ReviewState),
    /// The one in the single-file layout: it has to be moved.
    Migrated(ReviewState),
    /// None.
    Fresh,
}

/// What a [`Resumed`] holds.
#[verifier::ext_equal]
pub enum ResumedModel {
    Own(crate::review_state::StateModel),
    Migrated(crate::review_state::StateModel),
    Fresh,
}

impl View for Resumed {
    type V = ResumedModel;

    open spec fn view(&self) -> ResumedModel {
        match self {
            Resumed::Own(s) => ResumedModel::Own(s@),
            Resumed::Migrated(s) => ResumedModel::Migrated(s@),
            Resumed::Fresh => ResumedModel::Fresh,
        }
    }
}

/// Which of the two states a comparison starts from: the one in its own file
/// first, then the one in the single file, if it is of this comparison.
pub open spec fn resumed(
    own: Option<crate::review_state::StateModel>,
    single: Option<crate::review_state::StateModel>,
    key: crate::review_state::KeyModel,
) -> ResumedModel {
    match (own, single) {
        (Some(s), _) => ResumedModel::Own(s),
        (None, Some(s)) => if s.range == crate::review_state::label(key) {
            ResumedModel::Migrated(s)
        } else {
            ResumedModel::Fresh
        },
        (None, None) => ResumedModel::Fresh,
    }
}

/// The texts of the files that hold the state of a comparison, where they are
/// there.
#[verifier::ext_equal]
pub struct StateFiles {
    /// The comparison's own file.
    pub own: Option<Seq<char>>,
    /// The single file.
    pub single: Option<Seq<char>>,
    /// The single file, put aside.
    pub backup: Option<Seq<char>>,
}

/// What a comparison starts from, where texts read as states in this way.
pub open spec fn resumed_from(
    files: StateFiles,
    read: spec_fn(Seq<char>) -> Option<crate::review_state::StateModel>,
    key: crate::review_state::KeyModel,
) -> ResumedModel {
    let state = |text: Option<Seq<char>>|
        match text {
            Some(t) => read(t),
            None => None,
        };
    resumed(state(files.own), state(files.single), key)
}

/// The files afterwards. A state that has to be moved is written to the
/// comparison's own file, as `written`, and the single file is put aside.
pub open spec fn files_after(
    files: StateFiles,
    from: ResumedModel,
    written: Seq<char>,
) -> StateFiles {
    match from {
        ResumedModel::Migrated(_) => StateFiles {
            own: Some(written),
            single: None,
            backup: files.single,
        },
        _ => files,
    }
}

/// A state in the single file is taken over by the comparison that it is of: it
/// then stands in that comparison's own file, the single file is kept aside, and
/// the comparison starts from the same state again.
pub proof fn single_file_is_moved_once(
    files: StateFiles,
    read: spec_fn(Seq<char>) -> Option<crate::review_state::StateModel>,
    key: crate::review_state::KeyModel,
    text: Seq<char>,
    state: crate::review_state::StateModel,
    written: Seq<char>,
)
    requires
        files.own matches Some(t) ==> read(t) is None,
        files.single == Some(text),
        read(text) == Some(state),
        state.range == crate::review_state::label(key),
        read(written) == Some(state),
    ensures
        resumed_from(files, read, key) == ResumedModel::Migrated(state),
        files_after(files, resumed_from(files, read, key), written) == (StateFiles {
            own: Some(written),
            single: None,
            backup: Some(text),
        }),
        resumed_from(
            files_after(files, resumed_from(files, read, key), written),
            read,
            key,
        ) == ResumedModel::Own(state),
{
}

/// A state in the single file that is of another comparison is left where it is.
pub proof fn other_single_file_is_left_alone(
    files: StateFiles,
    read: spec_fn(Seq<char>) -> Option<crate::review_state::StateModel>,
    key: crate::review_state::KeyModel,
    text: Seq<char>,
    state: crate::review_state::StateModel,
    written: Seq<char>,
)
    requires
        files.own matches Some(t) ==> read(t) is None,
        files.single == Some(text),
        read(text) == Some(state),
        state.range != crate::review_state::label(key),
    ensures
        resumed_from(files, read, key) == ResumedModel::Fresh,
        files_after(files, resumed_from(files, read, key), written) == files,
{
}

/// Decides from what could be read: the comparison's own file first, then the
/// single file, if it is of this comparison.
pub fn load_for_comparison(
    own: Option<ReviewState>,
    single: Option<ReviewState>,
    key: &ComparisonKey,
) -> (r: Resumed)
    ensures
        r@ == resumed(crate::seqs::opt_view(own), crate::seqs::opt_view(single), key@),
{
    match own {
        Some(s) => Resumed::Own(s),
        None => match single {
            Some(s) => {
                if s.range == key.range_label() {
                    Resumed::Migrated(s)
                } else {
                    Resumed::Fresh
                }
            },
            None => Resumed::Fresh,
        },
    }
}

/// A review on screen.
#[derive(Debug)]
pub struct Session {
    pub review: Review,
    pub nav: Nav,
    pub pane: Pane,
    pub loader: ContentLoader,
    /// Goes up with every reload, so that rows and results of an earlier diff
    /// are told apart from those of this one.
    pub generation: u64,
    /// A diff is being computed.
    pub loading: bool,
    /// The open comment has edits that are not saved yet.
    pub comment_dirty: bool,
    pub error: Option<String>,
    pub note: String,
}

/// The selection that a diff starts with.
pub open spec fn first_selection(files: nat) -> Option<crate::content::SelectionModel> {
    if files == 0 {
        None
    } else {
        Some(crate::content::SelectionModel::Changed(0))
    }
}

impl Session {
    /// Starts over for a diff that is about to be computed. Returns the number
    /// of this reload and, where a comment was not saved yet, the review with it,
    /// which is to be persisted.
    pub fn reload(&mut self) -> (r: (u64, Option<ReviewState>))
        ensures
            r.0 == crate::content::next_gen(old(self).generation),
            crate::seqs::opt_view(r.1) == (if old(self).comment_dirty {
                Some(state_of(old(self).review@))
            } else {
                None
            }),
            final(self).generation == r.0,
            final(self).loading,
            !final(self).comment_dirty,
            final(self).review@ == (ReviewModel {
                files: Seq::empty(),
                ..old(self).review@
            }),
            final(self).nav@ == (crate::nav::NavModel {
                selected: None,
                active_hunk: None,
                ..old(self).nav@
            }),
            final(self).pane.rows@.len() == 0,
            final(self).pane.key is None,
            final(self).pane.path == old(self).pane.path,
            final(self).pane.lineno_width == old(self).pane.lineno_width,
            final(self).pane.hunk_rows == old(self).pane.hunk_rows,
            final(self).loader.cache@ == Seq::<crate::content::EntryModel>::empty(),
            final(self).loader.cache.capacity() == old(self).loader.cache.capacity(),
            final(self).loader.gen == old(self).loader.gen,
            final(self).loader.wanted is None,
            !final(self).loader.loading,
            final(self).error is None,
            final(self).note@.len() == 0,
    {
        let unsaved = if self.comment_dirty {
            Some(self.review.save_review_state())
        } else {
            None
        };
        self.comment_dirty = false;
        self.review.drop_files();
        self.nav.selected = None;
        self.nav.active_hunk = None;
        self.error = None;
        self.note = String::new();
        self.pane.rows.clear();
        self.pane.key = None;
        self.loader.invalidate_content_cache();
        self.generation = self.generation.wrapping_add(1);
        self.loading = true;
        (self.generation, unsaved)
    }

    /// Whether the result of reload number `gen` counts: not where a newer
    /// reload was started since.
    pub fn poll_reload(&mut self, gen: u64) -> (r: bool)
        ensures
            r == (gen == old(self).generation),
            !r ==> *final(self) == *old(self),
            r ==> *final(self) == (Session { loading: false, ..*old(self) }),
    {
        if gen != self.generation {
            return false;
        }
        self.loading = false;
        true
    }

    /// Apply a finished diff. `saved` is what was kept for this comparison; it
    /// is re-anchored onto the diff. Returns whether there is a review to
    /// persist: a comparison that nobody has reviewed writes nothing.
    pub fn apply_diff_result(
        &mut self,
        res: Result<(String, Vec<ChangedFile>), String>,
        saved: Option<&ReviewState>,
    ) -> (persist: bool)
        ensures
            final(self).nav@ == (crate::nav::NavModel {
                selected: match res {
                    Ok((_, files)) => first_selection(files@.len()),
                    Err(_) => None,
                },
                focus_hunk: 0,
                ..old(self).nav@
            }),
            final(self).pane.rows@.len() == 0,
            final(self).pane.key is None,
            final(self).pane.path == old(self).pane.path,
            final(self).pane.lineno_width == old(self).pane.lineno_width,
            final(self).pane.hunk_rows == old(self).pane.hunk_rows,
            final(self).loader == old(self).loader,
            final(self).generation == old(self).generation,
            final(self).loading == old(self).loading,
            final(self).comment_dirty == old(self).comment_dirty,
            final(self).note == old(self).note,
            match res {
                Ok((branch, files)) => {
                    &&& final(self).review@ == with_diff(
                        old(self).review@,
                        branch@,
                        crate::seqs::views(files@),
                        crate::seqs::opt_view(saved),
                    )
                    &&& persist == holds_review(final(self).review@)
                    &&& final(self).error == old(self).error
                },
                Err(e) => {
                    &&& final(self).review@ == (ReviewModel {
                        files: Seq::empty(),
                        orphaned: Seq::empty(),
                        ..old(self).review@
                    })
                    &&& !persist
                    &&& crate::seqs::opt_view(final(self).error) == Some(e@)
                },
            },
    {
        let persist = match res {
            Ok((branch, files)) => {
                let n: usize = files.len();
                self.review.take_diff(branch, files, saved);
                self.nav.selected = if n == 0 {
                    None
                } else {
                    Some(Selection::Changed(0))
                };
                self.review.has_review()
            },
            Err(e) => {
                self.review.drop_files();
                self.nav.selected = None;
                self.review.orphaned = Vec::new();
                assert(crate::seqs::views(self.review.orphaned@) == Seq::<
                    crate::review_state::OrphanModel,
                >::empty());
                self.error = Some(e);
                false
            },
        };
        self.pane.rows.clear();
        self.pane.key = None;
        self.nav.focus_hunk = 0;
        persist
    }

    /// The path of the file currently open in the content pane, whether it was
    /// opened from the changed-files list or the tree. `None` when nothing is
    /// selected.
    pub fn open_path(&self) -> (r: Option<String>)
        ensures
            crate::seqs::opt_view(r) == open_file_path(self.nav@, self.review@.files),
    {
        match &self.nav.selected {
            Some(Selection::Changed(i)) => {
                let i: usize = *i;
                if i < self.review.files.len() {
                    assert(self.review@.files[i as int] == self.review.files@[i as int]@);
                    Some(self.review.files[i].path.clone())
                } else {
                    None
                }
            },
            Some(Selection::Path(p)) => Some(p.clone()),
            None => None,
        }
    }
}

/// The path of the open file.
pub open spec fn open_file_path(
    nav: crate::nav::NavModel,
    files: Seq<crate::diff::FileModel>,
) -> Option<Seq<char>> {
    match nav.selected {
        Some(crate::content::SelectionModel::Changed(i)) => if i < files.len() {
            Some(files[i as int].path)
        } else {
            None
        },
        Some(crate::content::SelectionModel::Path(p)) => Some(p),
        None => None,
    }
}

/// `files` after the verdicts that were clicked in the file `fi`, in order. A
/// hunk that was acted on is freshly reviewed, so its warning goes.
pub open spec fn with_clicks(
    files: Seq<crate::diff::FileModel>,
    fi: int,
    clicks: Seq<(usize, ReviewStatus)>,
) -> Seq<crate::diff::FileModel>
    decreases clicks.len(),
{
    if clicks.len() == 0 {
        files
    } else {
        let before = with_clicks(files, fi, clicks.drop_last());
        let (hi, status) = clicks.last();
        if 0 <= fi < before.len() && hi < before[fi].hunks.len() {
            let h = before[fi].hunks[hi as int];
            before.update(
                fi,
                crate::diff::FileModel {
                    path: before[fi].path,
                    hunks: before[fi].hunks.update(
                        hi as int,
                        crate::diff::HunkModel { status, changed_since_review: false, ..h },
                    ),
                },
            )
        } else {
            before
        }
    }
}

/// Applies the verdicts that were clicked in the file `fi`. Returns whether
/// there were any, and so whether the review has to be persisted.
pub fn apply_clicks(
    files: &mut Vec<ChangedFile>,
    fi: usize,
    clicks: &[(usize, ReviewStatus)],
) -> (persist: bool)
    ensures
        crate::seqs::views(final(files)@) == with_clicks(
            crate::seqs::views(old(files)@),
            fi as int,
            clicks@,
        ),
        persist == (clicks@.len() > 0),
{
    let ghost fs = crate::seqs::views(files@);
    for i in 0..clicks.len()
        invariant
            crate::seqs::views(files@) == with_clicks(fs, fi as int, clicks@.take(i as int)),
    {
        let (hi, status) = clicks[i];
        let ghost before = crate::seqs::views(files@);
        assert(clicks@.take(i + 1).drop_last() == clicks@.take(i as int));
        assert(clicks@.take(i + 1).last() == (hi, status));
        if fi < files.len() {
            assert(before[fi as int] == files@[fi as int]@);
            if hi < files[fi].hunks.len() {
                let ghost file = files@[fi as int]@;
                files[fi].hunks[hi].status = status;
                files[fi].hunks[hi].changed_since_review = false;
                assert(files@[fi as int]@.hunks == file.hunks.update(
                    hi as int,
                    files@[fi as int].hunks@[hi as int]@,
                ));
                assert(crate::seqs::views(files@) == before.update(fi as int, files@[fi as int]@));
            }
        }
    }
    assert(clicks@.take(clicks@.len() as int) == clicks@);
    clicks.len() > 0
}

/// Clicks change the verdicts of the hunks that they name and nothing else: the
/// text of every hunk stays, its comment stays, and so does every hunk of another
/// file and every hunk that no click names.
pub proof fn clicks_touch_only_their_hunks(
    files: Seq<crate::diff::FileModel>,
    fi: int,
    clicks: Seq<(usize, ReviewStatus)>,
)
    ensures
        with_clicks(files, fi, clicks).len() == files.len(),
        forall|f: int|
            0 <= f < files.len() && f != fi ==> #[trigger] with_clicks(files, fi, clicks)[f]
                == files[f],
        0 <= fi < files.len() ==> {
            let after = with_clicks(files, fi, clicks)[fi];
            &&& after.path == files[fi].path
            &&& after.hunks.len() == files[fi].hunks.len()
            &&& forall|h: int|
                0 <= h < files[fi].hunks.len() ==> {
                    &&& (#[trigger] after.hunks[h]).header == files[fi].hunks[h].header
                    &&& after.hunks[h].rows == files[fi].hunks[h].rows
                    &&& after.hunks[h].comment == files[fi].hunks[h].comment
                    &&& (forall|k: int| 0 <= k < clicks.len() ==> (#[trigger] clicks[k]).0 != h)
                        ==> after.hunks[h] == files[fi].hunks[h]
                }
        },
    decreases clicks.len(),
{
    if clicks.len() > 0 {
        let front = clicks.drop_last();
        clicks_touch_only_their_hunks(files, fi, front);
        assert(forall|k: int| 0 <= k < front.len() ==> front[k] == clicks[k]);
        if 0 <= fi < files.len() {
            let before = with_clicks(files, fi, front)[fi];
            let after = with_clicks(files, fi, clicks)[fi];
            assert forall|h: int| 0 <= h < files[fi].hunks.len() implies {
                &&& (#[trigger] after.hunks[h]).header == files[fi].hunks[h].header
                &&& after.hunks[h].rows == files[fi].hunks[h].rows
                &&& after.hunks[h].comment == files[fi].hunks[h].comment
                &&& (forall|k: int| 0 <= k < clicks.len() ==> (#[trigger] clicks[k]).0 != h)
                    ==> after.hunks[h] == files[fi].hunks[h]
            } by {
                assert(before.hunks[h].header == files[fi].hunks[h].header);
                if forall|k: int| 0 <= k < clicks.len() ==> (#[trigger] clicks[k]).0 != h {
                    assert(clicks[clicks.len() - 1].0 != h);
                    assert(forall|k: int| 0 <= k < front.len() ==> (#[trigger] front[k]).0 != h);
                }
            }
        }
    }
}

/// A hunk that was clicked has the verdict of the last click on it, and is no
/// longer marked as changed since it was reviewed.
pub proof fn last_click_decides(
    files: Seq<crate::diff::FileModel>,
    fi: int,
    clicks: Seq<(usize, ReviewStatus)>,
    k: int,
)
    requires
        0 <= fi < files.len(),
        0 <= k < clicks.len(),
        clicks[k].0 < files[fi].hunks.len(),
        forall|j: int| k < j < clicks.len() ==> (#[trigger] clicks[j]).0 != clicks[k].0,
    ensures
        with_clicks(files, fi, clicks)[fi].hunks[clicks[k].0 as int].status == clicks[k].1,
        !with_clicks(files, fi, clicks)[fi].hunks[clicks[k].0 as int].changed_since_review,
    decreases clicks.len(),
{
    let front = clicks.drop_last();
    clicks_touch_only_their_hunks(files, fi, front);
    if k < clicks.len() - 1 {
        assert(forall|j: int| 0 <= j < front.len() ==> front[j] == clicks[j]);
        assert(clicks[clicks.len() - 1].0 != clicks[k].0);
        last_click_decides(files, fi, front, k);
    }
}

/// The base that was typed, ready for use.
pub fn base_from_input(input: &str) -> (r: String)
    ensures
        r@ == crate::text::trim(input@),
{
    let cs = chars_of(input);
    string_of(trimmed(cs.as_slice()))
}

/// The row that is to be brought into view, once the rows are there: a line to
/// go to comes after a row that was asked for, and the first hunk after both.
pub open spec fn settled_scroll(
    asked: Option<(usize, RowAlign)>,
    line: Option<usize>,
    first_hunk: bool,
    total: nat,
    hunk_rows: Seq<usize>,
) -> Option<(usize, RowAlign)> {
    if first_hunk {
        Some(
            (
                if hunk_rows.len() > 0 {
                    hunk_rows[0]
                } else {
                    0
                },
                RowAlign::Top,
            ),
        )
    } else {
        match line {
            Some(n) => {
                let row = if n > 0 {
                    n - 1
                } else {
                    0
                };
                let last = if total > 0 {
                    total - 1
                } else {
                    0
                };
                Some(
                    (
                        if row < last {
                            row as usize
                        } else {
                            last as usize
                        },
                        RowAlign::Center,
                    ),
                )
            },
            None => asked,
        }
    }
}

/// Settles where to scroll. `line` is a 1-based line to go to, in a file that
/// is shown line by line.
pub fn settle_scroll(
    asked: Option<(usize, RowAlign)>,
    line: Option<usize>,
    first_hunk: bool,
    total: usize,
    hunk_rows: &[usize],
) -> (r: Option<(usize, RowAlign)>)
    ensures
        r == settled_scroll(asked, line, first_hunk, total as nat, hunk_rows@),
{
    if first_hunk {
        let row: usize = if hunk_rows.len() > 0 {
            hunk_rows[0]
        } else {
            0
        };
        return Some((row, RowAlign::Top));
    }
    match line {
        Some(n) => {
            let row: usize = if n > 0 {
                n - 1
            } else {
                0
            };
            let last: usize = if total > 0 {
                total - 1
            } else {
                0
            };
            Some(
                (
                    if row < last {
                        row
                    } else {
                        last
                    },
                    RowAlign::Center,
                ),
            )
        },
        None => asked,
    }
}

} // verus!
