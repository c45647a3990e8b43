//! The controls of a hunk header: which hunks they act on, what they show, and
//! what a click on them means; the comment editor and the inline edit.

use crate::diff::{ChangedFile, ReviewStatus};
use crate::number::push_decimal;
use crate::review_state::Replies;
use crate::text::blank_str;
use vstd::prelude::*;

verus! {

broadcast use {crate::seqs::lemma_views_push, crate::seqs::lemma_views_update};

/// Some target is a hunk.
pub open spec fn any_target(hunks: Seq<crate::diff::HunkModel>, targets: Seq<usize>) -> bool {
    exists|i: int| 0 <= i < targets.len() && #[trigger] targets[i] < hunks.len()
}

/// Every target that is a hunk has this status.
pub open spec fn all_targets(
    hunks: Seq<crate::diff::HunkModel>,
    targets: Seq<usize>,
    status: ReviewStatus,
) -> bool {
    forall|i: int|
        0 <= i < targets.len() && #[trigger] targets[i] < hunks.len()
            ==> hunks[targets[i] as int].status == status
}

/// The status of several hunks together: the one that they all have, if it is a
/// verdict.
pub open spec fn aggregate(
    hunks: Seq<crate::diff::HunkModel>,
    targets: Seq<usize>,
) -> ReviewStatus {
    if !any_target(hunks, targets) {
        ReviewStatus::Unreviewed
    } else if all_targets(hunks, targets, ReviewStatus::Approved) {
        ReviewStatus::Approved
    } else if all_targets(hunks, targets, ReviewStatus::Rejected) {
        ReviewStatus::Rejected
    } else {
        ReviewStatus::Unreviewed
    }
}

/// The status to show for a control strip that targets `targets` hunks of
/// `file`. A single target reflects that hunk exactly. A whole-file strip
/// shows Approved only if EVERY targeted hunk is approved, Rejected if every
/// one is rejected, else Unreviewed. Empty targets: Unreviewed.
pub fn aggregate_status(file: &ChangedFile, targets: &[usize]) -> (r: ReviewStatus)
    ensures
        r == aggregate(file@.hunks, targets@),
{
    let ghost hs = file@.hunks;
    let mut any = false;
    let mut approved = true;
    let mut rejected = true;
    for i in 0..targets.len()
        invariant
            hs == crate::seqs::views(file.hunks@),
            any == any_target(hs, targets@.take(i as int)),
            approved == all_targets(hs, targets@.take(i as int), ReviewStatus::Approved),
            rejected == all_targets(hs, targets@.take(i as int), ReviewStatus::Rejected),
    {
        let t: usize = targets[i];
        let ghost before = targets@.take(i as int);
        let ghost after = targets@.take(i + 1);
        assert(after == before.push(t));
        assert(after[i as int] == t);
        assert(forall|k: int| 0 <= k < i ==> after[k] == before[k]);
        if t < file.hunks.len() {
            assert(hs[t as int] == file.hunks@[t as int]@);
            any = true;
            if file.hunks[t].status != ReviewStatus::Approved {
                approved = false;
            }
            if file.hunks[t].status != ReviewStatus::Rejected {
                rejected = false;
            }
        }
        assert(any == any_target(hs, after)) by {
            if any_target(hs, before) {
                let w = choose|w: int| 0 <= w < before.len() && #[trigger] before[w] < hs.len();
                assert(after[w] < hs.len());
            }
        }
        assert(approved == all_targets(hs, after, ReviewStatus::Approved)) by {
            if !all_targets(hs, before, ReviewStatus::Approved) {
                let w = choose|w: int|
                    0 <= w < before.len() && #[trigger] before[w] < hs.len()
                        && hs[before[w] as int].status != ReviewStatus::Approved;
                assert(after[w] == before[w]);
            }
        }
        assert(rejected == all_targets(hs, after, ReviewStatus::Rejected)) by {
            if !all_targets(hs, before, ReviewStatus::Rejected) {
                let w = choose|w: int|
                    0 <= w < before.len() && #[trigger] before[w] < hs.len()
                        && hs[before[w] as int].status != ReviewStatus::Rejected;
                assert(after[w] == before[w]);
            }
        }
    }
    assert(targets@.take(targets@.len() as int) == targets@);
    if !any {
        ReviewStatus::Unreviewed
    } else if approved {
        ReviewStatus::Approved
    } else if rejected {
        ReviewStatus::Rejected
    } else {
        ReviewStatus::Unreviewed
    }
}

/// One hunk alone shows its own status.
pub proof fn single_target_shows_its_status(hunks: Seq<crate::diff::HunkModel>, i: usize)
    requires
        i < hunks.len(),
    ensures
        aggregate(hunks, seq![i]) == hunks[i as int].status,
{
    assert(seq![i][0] == i);
}

/// What the strip of a hunk header shows and acts on.
#[derive(Debug)]
pub struct HeaderControls {
    /// The hunks that the buttons act on.
    pub targets: Vec<usize>,
    pub status: ReviewStatus,
    pub has_comment: bool,
    /// How many replies the agent has posted to this hunk.
    pub replies: usize,
    pub changed_since: bool,
}

/// The hunks that a header acts on: its own, or all of the file.
pub open spec fn targets_of(hunks: nat, hunk_idx: usize, whole_file: bool) -> Seq<usize> {
    if whole_file {
        Seq::new(hunks, |i: int| i as usize)
    } else {
        seq![hunk_idx]
    }
}

/// The strip of the header `text`, which belongs to the hunk `hunk_idx` of the
/// active file, if a changed file is active.
pub fn hunk_header_controls(
    files: &[ChangedFile],
    active_file: Option<usize>,
    hunk_idx: usize,
    text: &str,
    whole_file: bool,
    replies: &Replies,
) -> (r: HeaderControls)
    requires
        active_file matches Some(f) ==> f < files@.len(),
    ensures
        active_file is None ==> {
            &&& r.targets@.len() == 0
            &&& r.status == ReviewStatus::Unreviewed
            &&& !r.has_comment
            &&& r.replies == 0
            &&& !r.changed_since
        },
        active_file matches Some(f) ==> {
            let file = files@[f as int]@;
            &&& r.targets@ == targets_of(file.hunks.len(), hunk_idx, whole_file)
            &&& r.status == aggregate(file.hunks, r.targets@)
            &&& r.has_comment == (hunk_idx < file.hunks.len() && !crate::text::is_blank(
                file.hunks[hunk_idx as int].comment,
            ))
            &&& r.changed_since == (hunk_idx < file.hunks.len()
                && file.hunks[hunk_idx as int].changed_since_review)
            &&& r.replies == crate::seqs::views(replies.replies@).filter(
                |x: crate::review_state::ReplyModel|
                    crate::review_state::replies_to(x, file.path, text@),
            ).len()
        },
{
    let f: usize = match active_file {
        Some(f) => f,
        None => {
            return HeaderControls {
                targets: Vec::new(),
                status: ReviewStatus::Unreviewed,
                has_comment: false,
                replies: 0,
                changed_since: false,
            };
        },
    };
    let file = &files[f];
    let mut targets: Vec<usize> = Vec::new();
    let n: usize = file.hunks.len();
    if whole_file {
        for i in 0..n
            invariant
                targets@ == Seq::new(i as nat, |k: int| k as usize),
        {
            targets.push(i);
            assert(targets@ == Seq::new((i + 1) as nat, |k: int| k as usize));
        }
    } else {
        targets.push(hunk_idx);
    }
    assert(targets@ == targets_of(file@.hunks.len(), hunk_idx, whole_file));
    let status = aggregate_status(file, targets.as_slice());
    let thread = replies.for_hunk(file.path.as_str(), text);
    assert(crate::seqs::views(thread@).len() == thread@.len());
    assert(hunk_idx < n ==> file@.hunks[hunk_idx as int] == file.hunks@[hunk_idx as int]@);
    HeaderControls {
        targets,
        status,
        has_comment: hunk_idx < n && !blank_str(file.hunks[hunk_idx].comment.as_str()),
        replies: thread.len(),
        changed_since: hunk_idx < n && file.hunks[hunk_idx].changed_since_review,
    }
}

impl HeaderControls {
    /// What a click on approve, reject or clear asks for: this status on every
    /// target.
    pub fn clicks(&self, status: ReviewStatus) -> (r: Vec<(usize, ReviewStatus)>)
        ensures
            r@ == self.targets@.map_values(|t: usize| (t, status)),
    {
        let mut r: Vec<(usize, ReviewStatus)> = Vec::new();
        let ghost goal = self.targets@.map_values(|t: usize| (t, status));
        for i in 0..self.targets.len()
            invariant
                goal == self.targets@.map_values(|t: usize| (t, status)),
                r@ == goal.take(i as int),
        {
            r.push((self.targets[i], status));
            assert(r@ == goal.take(i + 1));
        }
        assert(goal.take(goal.len() as int) == goal);
        r
    }

    /// The label of the comment button: starred where there is a comment.
    pub fn comment_label(&self) -> (r: &'static str)
        ensures
            r@ == (if self.has_comment {
                "💬*"@
            } else {
                "💬"@
            }),
    {
        if self.has_comment {
            "💬*"
        } else {
            "💬"
        }
    }

    /// The label of the replies, where there are any.
    pub fn replies_label(&self) -> (r: Option<String>)
        ensures
            crate::seqs::opt_view(r) == (if self.replies > 0 {
                Some("↩"@ + crate::number::decimal(self.replies as nat))
            } else {
                None
            }),
    {
        if self.replies > 0 {
            let mut s = "↩".to_owned();
            push_decimal(&mut s, self.replies as u64);
            Some(s)
        } else {
            None
        }
    }
}

/// The sign of a status.
pub fn status_glyph(status: ReviewStatus) -> (r: &'static str)
    ensures
        r@ == match status {
            ReviewStatus::Approved => "✓"@,
            ReviewStatus::Rejected => "✗"@,
            ReviewStatus::Unreviewed => "○"@,
        },
{
    match status {
        ReviewStatus::Approved => "✓",
        ReviewStatus::Rejected => "✗",
        ReviewStatus::Unreviewed => "○",
    }
}

/// The sign of a file's progress: all hunks reviewed, some, or none.
pub fn progress_glyph(reviewed: usize, total: usize) -> (r: &'static str)
    ensures
        r@ == (if total > 0 && reviewed == total {
            "✓"@
        } else if reviewed > 0 {
            "◐"@
        } else {
            "○"@
        }),
{
    if total > 0 && reviewed == total {
        "✓"
    } else if reviewed > 0 {
        "◐"
    } else {
        "○"
    }
}

/// What the comment editor did in a frame.
#[derive(Clone, Copy, Debug)]
pub struct EditorEvents {
    /// The text was edited.
    pub edited: bool,
    /// Ctrl+Enter.
    pub submit: bool,
    /// Esc.
    pub cancel: bool,
}

/// What follows for the comment editor.
#[derive(Clone, Copy, Debug)]
pub struct EditorOutcome {
    /// There are edits that are not saved.
    pub dirty: bool,
    /// The review has to be persisted.
    pub save: bool,
    /// The editor closes.
    pub close: bool,
}

/// The comment editor after a frame. Edits are saved when it closes, not with
/// every keystroke.
pub fn comment_editor(dirty: bool, ev: EditorEvents) -> (r: EditorOutcome)
    ensures
        r.close == (ev.submit || ev.cancel),
        r.save == (r.close && (dirty || ev.edited || ev.submit)),
        r.dirty == (!r.close && (dirty || ev.edited)),
{
    let close = ev.submit || ev.cancel;
    let pending = dirty || ev.edited || ev.submit;
    EditorOutcome { dirty: !close && pending, save: close && pending, close }
}

/// What happened to an inline edit in a frame.
#[derive(Debug)]
pub enum EditEvent {
    /// Nothing, or typing: the edit goes on with this buffer.
    Typed(String),
    /// An edit of this row began with this text.
    Start(usize, String),
    Cancel,
    /// The row is to be written with this text.
    Commit(usize, String),
}

/// An inline edit after a frame, and what has to be written.
#[derive(Debug)]
pub struct EditOutcome {
    pub editing: Option<(usize, String)>,
    /// The file, the 0-based line and its new text.
    pub write: Option<(String, usize, String)>,
}

/// Resolves an inline edit. `path` is the file that is open line by line, if
/// one is: only there is a row a line of the file.
pub fn resolve_edit(row: Option<usize>, path: Option<&str>, ev: EditEvent) -> (r: EditOutcome)
    ensures
        match ev {
            EditEvent::Typed(buf) => {
                &&& r.write is None
                &&& r.editing == (match row {
                    Some(i) => Some((i, buf)),
                    None => None,
                })
            },
            EditEvent::Start(i, text) => r.write is None && r.editing == Some((i, text)),
            EditEvent::Cancel => r.write is None && r.editing is None,
            EditEvent::Commit(i, text) => {
                &&& r.editing is None
                &&& r.write is Some <==> path is Some
                &&& (r.write matches Some((p, line, t)) ==> p@ == path->0@ && line == i && t
                    == text)
            },
        },
{
    match ev {
        EditEvent::Typed(buf) => EditOutcome {
            editing: match row {
                Some(i) => Some((i, buf)),
                None => None,
            },
            write: None,
        },
        EditEvent::Start(i, text) => EditOutcome { editing: Some((i, text)), write: None },
        EditEvent::Cancel => EditOutcome { editing: None, write: None },
        EditEvent::Commit(i, text) => EditOutcome {
            editing: None,
            write: match path {
                Some(p) => Some((p.to_owned(), i, text)),
                None => None,
            },
        },
    }
}

/// The note after an inline edit was written, or was not.
pub fn edit_note(path: &str, line0: usize, failure: Option<&str>) -> (r: String)
    requires
        line0 < usize::MAX,
    ensures
        r@ == match failure {
            None => "edited "@ + path@ + ":"@ + crate::number::decimal((line0 + 1) as nat),
            Some(e) => "edit failed: "@ + e@,
        },
{
    match failure {
        None => {
            let mut s = "edited ".to_owned();
            s.append(path);
            s.append(":");
            push_decimal(&mut s, line0 as u64 + 1);
            s
        },
        Some(e) => "edit failed: ".to_owned().concat(e),
    }
}

} // verus!
