//! Carrying a saved review over onto a freshly computed diff.
//!
//! Each live hunk takes at most one saved hunk of the file with the same path,
//! and each saved hunk goes to at most one live hunk. Three passes decide who
//! takes whom, the strongest evidence first: the same changed lines, the same
//! header, a start nearby. What no live hunk took is kept as an orphan, if it
//! holds a verdict or a comment.

use crate::diff::{parse_hunk_starts, ChangedFile, Hunk, ReviewStatus};
use crate::review_state::{copy_opt, FileState, HunkState, OrphanedHunk, ReviewState};
use crate::text::blank_str;
use vstd::prelude::*;

verus! {

broadcast use {crate::seqs::lemma_views_push, crate::seqs::lemma_views_update};

/// By what a live hunk takes a saved one.
#[derive(Clone, Copy)]
pub enum Pass {
    /// The same changed lines.
    Anchor,
    /// The same header.
    Header,
    /// A new-side start nearby.
    Near,
}

/// How many lines apart two hunks may start to be near each other.
pub const WINDOW: u32 = 8;

/// The new-side starts of the two headers are near each other.
pub open spec fn near(live: Seq<char>, saved: Seq<char>) -> bool {
    match (crate::diff::hunk_starts(live), crate::diff::hunk_starts(saved)) {
        (Some((_, a)), Some((_, b))) => -WINDOW <= b - a <= WINDOW,
        _ => false,
    }
}

/// The saved hunk holds a verdict, or a comment of any kind.
pub open spec fn has_mark(s: crate::review_state::HunkStateModel) -> bool {
    s.status != "unreviewed"@ || (s.comment matches Some(c) && c.len() > 0)
}

/// The saved hunk holds a verdict, or a comment that is not blank.
pub open spec fn worth_keeping(s: crate::review_state::HunkStateModel) -> bool {
    s.status != "unreviewed"@ || (s.comment matches Some(c) && !crate::text::is_blank(c))
}

/// In this pass the live hunk would take the saved one.
pub open spec fn fits(
    pass: Pass,
    live: crate::diff::HunkModel,
    saved: crate::review_state::HunkStateModel,
) -> bool {
    match pass {
        Pass::Anchor => same_changes(live, saved),
        Pass::Header => saved.header == live.header,
        Pass::Near => has_mark(saved) && near(live.header, saved.header),
    }
}

/// The two hunks have the same, non-empty, anchor.
pub open spec fn same_changes(
    live: crate::diff::HunkModel,
    saved: crate::review_state::HunkStateModel,
) -> bool {
    saved.anchor.len() > 0 && saved.anchor == crate::diff::anchor(live)
}

/// A verdict taken in this pass was given to other changed lines, as far as can
/// be told.
pub open spec fn is_changed(
    pass: Pass,
    live: crate::diff::HunkModel,
    saved: crate::review_state::HunkStateModel,
) -> bool {
    pass is Near || !same_changes(live, saved)
}

/// What a live hunk took: the index of the saved hunk, and whether its verdict
/// was given to other changed lines.
pub struct Taken {
    pub saved: int,
    pub changed: bool,
}

/// Who took whom in one file.
#[verifier::ext_equal]
pub struct Matching {
    /// Which saved hunks are taken.
    pub used: Seq<bool>,
    /// What each live hunk took.
    pub taken: Seq<Option<Taken>>,
}

/// The first saved hunk from `from` on that is free and fits.
pub open spec fn first_fit(
    pass: Pass,
    live: crate::diff::HunkModel,
    saved: Seq<crate::review_state::HunkStateModel>,
    used: Seq<bool>,
    from: int,
) -> Option<int>
    decreases saved.len() - from,
{
    if from < 0 || from >= saved.len() {
        None
    } else if !used[from] && fits(pass, live, saved[from]) {
        Some(from)
    } else {
        first_fit(pass, live, saved, used, from + 1)
    }
}

/// The live hunk at `li`, if it has none yet, takes the first that fits.
pub open spec fn match_step(
    pass: Pass,
    live: Seq<crate::diff::HunkModel>,
    saved: Seq<crate::review_state::HunkStateModel>,
    m: Matching,
    li: int,
) -> Matching {
    if m.taken[li] is Some {
        m
    } else {
        match first_fit(pass, live[li], saved, m.used, 0) {
            Some(si) => Matching {
                used: m.used.update(si, true),
                taken: m.taken.update(
                    li,
                    Some(Taken { saved: si, changed: is_changed(pass, live[li], saved[si]) }),
                ),
            },
            None => m,
        }
    }
}

/// One pass over the first `n` live hunks, in order.
pub open spec fn match_pass(
    pass: Pass,
    live: Seq<crate::diff::HunkModel>,
    saved: Seq<crate::review_state::HunkStateModel>,
    m: Matching,
    n: nat,
) -> Matching
    decreases n,
{
    if n == 0 {
        m
    } else {
        match_step(pass, live, saved, match_pass(pass, live, saved, m, (n - 1) as nat), n - 1)
    }
}

/// Nobody has taken anything in this file yet; `used` says what is gone.
pub open spec fn unmatched(live: Seq<crate::diff::HunkModel>, used: Seq<bool>) -> Matching {
    Matching { used, taken: Seq::new(live.len(), |i: int| None) }
}

/// Who takes whom in one file, when `used` of the saved hunks are gone.
pub open spec fn match_file(
    live: Seq<crate::diff::HunkModel>,
    saved: Seq<crate::review_state::HunkStateModel>,
    used: Seq<bool>,
) -> Matching {
    let a = match_pass(Pass::Anchor, live, saved, unmatched(live, used), live.len());
    let b = match_pass(Pass::Header, live, saved, a, live.len());
    match_pass(Pass::Near, live, saved, b, live.len())
}

/// The decision that a word stands for.
pub open spec fn word_status(word: Seq<char>) -> ReviewStatus {
    if word == "approved"@ {
        ReviewStatus::Approved
    } else if word == "rejected"@ {
        ReviewStatus::Rejected
    } else {
        ReviewStatus::Unreviewed
    }
}

/// The live hunk with what it took: the verdict and, where there is one, the
/// comment.
pub open spec fn carried(
    live: crate::diff::HunkModel,
    saved: Seq<crate::review_state::HunkStateModel>,
    t: Option<Taken>,
) -> crate::diff::HunkModel {
    match t {
        None => live,
        Some(t) => crate::diff::HunkModel {
            status: word_status(saved[t.saved].status),
            comment: match saved[t.saved].comment {
                Some(c) => c,
                None => live.comment,
            },
            changed_since_review: t.changed,
            ..live
        },
    }
}

/// The first saved file with this path, from `from` on.
pub open spec fn file_with_path(
    files: Seq<crate::review_state::FileStateModel>,
    path: Seq<char>,
    from: int,
) -> Option<int>
    decreases files.len() - from,
{
    if from < 0 || from >= files.len() {
        None
    } else if files[from].path == path {
        Some(from)
    } else {
        file_with_path(files, path, from + 1)
    }
}

/// No saved hunk is taken.
pub open spec fn none_used(files: Seq<crate::review_state::FileStateModel>) -> Seq<Seq<bool>> {
    files.map_values(
        |f: crate::review_state::FileStateModel| Seq::new(f.hunks.len(), |i: int| false),
    )
}

/// Which saved hunks, file by file, the first `n` live files have taken.
pub open spec fn used_after(
    saved: Seq<crate::review_state::FileStateModel>,
    live: Seq<crate::diff::FileModel>,
    n: nat,
) -> Seq<Seq<bool>>
    decreases n,
{
    if n == 0 {
        none_used(saved)
    } else {
        let before = used_after(saved, live, (n - 1) as nat);
        match file_with_path(saved, live[n - 1].path, 0) {
            Some(fi) => before.update(
                fi,
                match_file(live[n - 1].hunks, saved[fi].hunks, before[fi]).used,
            ),
            None => before,
        }
    }
}

/// The live file at `k` with what its hunks took.
pub open spec fn reanchored_file(
    saved: Seq<crate::review_state::FileStateModel>,
    live: Seq<crate::diff::FileModel>,
    k: int,
) -> crate::diff::FileModel {
    match file_with_path(saved, live[k].path, 0) {
        Some(fi) => {
            let m = match_file(
                live[k].hunks,
                saved[fi].hunks,
                used_after(saved, live, k as nat)[fi],
            );
            crate::diff::FileModel {
                path: live[k].path,
                hunks: Seq::new(
                    live[k].hunks.len(),
                    |li: int| carried(live[k].hunks[li], saved[fi].hunks, m.taken[li]),
                ),
            }
        },
        None => live[k],
    }
}

/// The live files with what their hunks took.
pub open spec fn reanchored(
    saved: Seq<crate::review_state::FileStateModel>,
    live: Seq<crate::diff::FileModel>,
) -> Seq<crate::diff::FileModel> {
    Seq::new(live.len(), |k: int| reanchored_file(saved, live, k))
}

/// The saved hunk as an orphan.
pub open spec fn orphan(
    path: Seq<char>,
    s: crate::review_state::HunkStateModel,
) -> crate::review_state::OrphanModel {
    crate::review_state::OrphanModel {
        file: path,
        header: s.header,
        status: s.status,
        comment: s.comment,
        anchor: s.anchor,
    }
}

/// The orphans among the first `n` hunks of a saved file.
pub open spec fn file_orphans(
    f: crate::review_state::FileStateModel,
    used: Seq<bool>,
    n: nat,
) -> Seq<crate::review_state::OrphanModel>
    decreases n,
{
    if n == 0 {
        Seq::empty()
    } else {
        let before = file_orphans(f, used, (n - 1) as nat);
        if !used[n - 1] && worth_keeping(f.hunks[n - 1]) {
            before.push(orphan(f.path, f.hunks[n - 1]))
        } else {
            before
        }
    }
}

/// The orphans of the first `n` saved files.
pub open spec fn fresh_orphans(
    files: Seq<crate::review_state::FileStateModel>,
    used: Seq<Seq<bool>>,
    n: nat,
) -> Seq<crate::review_state::OrphanModel>
    decreases n,
{
    if n == 0 {
        Seq::empty()
    } else {
        fresh_orphans(files, used, (n - 1) as nat) + file_orphans(
            files[n - 1],
            used[n - 1],
            files[n - 1].hunks.len(),
        )
    }
}

/// The two orphans stand for the same hunk.
pub open spec fn same_orphan(
    a: crate::review_state::OrphanModel,
    b: crate::review_state::OrphanModel,
) -> bool {
    a.file == b.file && a.header == b.header && a.anchor == b.anchor
}

/// `orphans` and, behind them, the first `n` of `olds` that are not there yet.
pub open spec fn with_olds(
    orphans: Seq<crate::review_state::OrphanModel>,
    olds: Seq<crate::review_state::OrphanModel>,
    n: nat,
) -> Seq<crate::review_state::OrphanModel>
    decreases n,
{
    if n == 0 {
        orphans
    } else {
        let before = with_olds(orphans, olds, (n - 1) as nat);
        if exists|i: int| 0 <= i < before.len() && same_orphan(#[trigger] before[i], olds[n - 1]) {
            before
        } else {
            before.push(olds[n - 1])
        }
    }
}

/// The saved hunks that no live hunk took, and the orphans there were before.
pub open spec fn orphans_of(
    saved: crate::review_state::StateModel,
    live: Seq<crate::diff::FileModel>,
) -> Seq<crate::review_state::OrphanModel> {
    with_olds(
        fresh_orphans(saved.files, used_after(saved.files, live, live.len()), saved.files.len()),
        saved.orphaned,
        saved.orphaned.len(),
    )
}

fn marked(s: &HunkState) -> (r: bool)
    ensures
        r == has_mark(s@),
{
    !(*s.status.as_str() == *"unreviewed") || match &s.comment {
        Some(c) => !c.as_str().is_empty(),
        None => false,
    }
}

fn keeping(s: &HunkState) -> (r: bool)
    ensures
        r == worth_keeping(s@),
{
    !(*s.status.as_str() == *"unreviewed") || match &s.comment {
        Some(c) => !blank_str(c.as_str()),
        None => false,
    }
}

fn starts_near(live: &str, saved: &str) -> (r: bool)
    ensures
        r == near(live@, saved@),
{
    match (parse_hunk_starts(live), parse_hunk_starts(saved)) {
        (Some((_, a)), Some((_, b))) => {
            let apart: u32 = if a < b {
                b - a
            } else {
                a - b
            };
            apart <= WINDOW
        },
        _ => false,
    }
}

fn takes(pass: Pass, live: &Hunk, live_anchor: &String, saved: &HunkState) -> (r: bool)
    requires
        live_anchor@ == crate::diff::anchor(live@),
    ensures
        r == fits(pass, live@, saved@),
{
    match pass {
        Pass::Anchor => !saved.anchor.as_str().is_empty() && saved.anchor == *live_anchor,
        Pass::Header => saved.header == live.header,
        Pass::Near => marked(saved) && starts_near(live.header.as_str(), saved.header.as_str()),
    }
}

/// The decision that `word` stands for.
fn status_of(word: &str) -> (r: ReviewStatus)
    ensures
        r == word_status(word@),
{
    if *word == *"approved" {
        ReviewStatus::Approved
    } else if *word == *"rejected" {
        ReviewStatus::Rejected
    } else {
        ReviewStatus::Unreviewed
    }
}

/// Carry a saved hunk's verdict + comment onto a live diff hunk, setting the
/// `changed_since_review` flag.
pub fn apply_saved(live: &mut Hunk, saved: &HunkState, changed: bool)
    ensures
        final(live)@ == (crate::diff::HunkModel {
            status: word_status(saved@.status),
            comment: match saved@.comment {
                Some(c) => c,
                None => old(live)@.comment,
            },
            changed_since_review: changed,
            ..old(live)@
        }),
{
    live.status = status_of(saved.status.as_str());
    if let Some(c) = &saved.comment {
        live.comment = c.clone();
    }
    live.changed_since_review = changed;
}

/// What the executable passes keep for each live hunk.
type Slot = Option<(usize, bool)>;

/// The model of what a live hunk took.
spec fn slot_model(s: Slot) -> Option<Taken> {
    match s {
        Some((si, changed)) => Some(Taken { saved: si as int, changed }),
        None => None,
    }
}

spec fn slots_model(s: Seq<Slot>) -> Seq<Option<Taken>> {
    s.map_values(|x: Slot| slot_model(x))
}

fn find_fit(
    pass: Pass,
    live: &Hunk,
    live_anchor: &String,
    saved: &[HunkState],
    used: &[bool],
) -> (r: Option<usize>)
    requires
        live_anchor@ == crate::diff::anchor(live@),
        used@.len() == saved@.len(),
    ensures
        match r {
            Some(si) => first_fit(pass, live@, crate::seqs::views(saved@), used@, 0) == Some(
                si as int,
            ) && si < saved@.len(),
            None => first_fit(pass, live@, crate::seqs::views(saved@), used@, 0) is None,
        },
{
    let ghost ss = crate::seqs::views(saved@);
    for i in 0..saved.len()
        invariant
            live_anchor@ == crate::diff::anchor(live@),
            used@.len() == saved@.len(),
            ss == crate::seqs::views(saved@),
            first_fit(pass, live@, ss, used@, 0) == first_fit(pass, live@, ss, used@, i as int),
    {
        assert(ss[i as int] == saved@[i as int]@);
        if !used[i] && takes(pass, live, live_anchor, &saved[i]) {
            return Some(i);
        }
    }
    None
}

fn run_pass(
    pass: Pass,
    live: &[Hunk],
    live_anchors: &[String],
    saved: &[HunkState],
    used: &mut Vec<bool>,
    slots: &mut Vec<Slot>,
)
    requires
        live_anchors@.len() == live@.len(),
        forall|i: int|
            0 <= i < live@.len() ==> (#[trigger] live_anchors@[i])@ == crate::diff::anchor(
                live@[i]@,
            ),
        old(used)@.len() == saved@.len(),
        old(slots)@.len() == live@.len(),
        forall|i: int|
            0 <= i < old(slots)@.len() ==> (#[trigger] old(slots)@[i] matches Some((si, _)) ==> si
                < saved@.len()),
    ensures
        final(used)@.len() == saved@.len(),
        final(slots)@.len() == live@.len(),
        forall|i: int|
            0 <= i < final(slots)@.len() ==> (#[trigger] final(slots)@[i] matches Some((si, _))
                ==> si < saved@.len()),
        (Matching { used: final(used)@, taken: slots_model(final(slots)@) }) == match_pass(
            pass,
            crate::seqs::views(live@),
            crate::seqs::views(saved@),
            Matching { used: old(used)@, taken: slots_model(old(slots)@) },
            live@.len(),
        ),
{
    let ghost ls = crate::seqs::views(live@);
    let ghost ss = crate::seqs::views(saved@);
    let ghost start = Matching { used: used@, taken: slots_model(slots@) };
    for li in 0..live.len()
        invariant
            live_anchors@.len() == live@.len(),
            forall|i: int|
                0 <= i < live@.len() ==> (#[trigger] live_anchors@[i])@ == crate::diff::anchor(
                    live@[i]@,
                ),
            ls == crate::seqs::views(live@),
            ss == crate::seqs::views(saved@),
            used@.len() == saved@.len(),
            slots@.len() == live@.len(),
            forall|i: int|
                0 <= i < slots@.len() ==> (#[trigger] slots@[i] matches Some((si, _)) ==> si
                    < saved@.len()),
            (Matching { used: used@, taken: slots_model(slots@) }) == match_pass(
                pass,
                ls,
                ss,
                start,
                li as nat,
            ),
    {
        let ghost before = Matching { used: used@, taken: slots_model(slots@) };
        assert(ls[li as int] == live@[li as int]@);
        assert(before.taken[li as int] == slot_model(slots@[li as int]));
        if slots[li].is_none() {
            let anchor = &live_anchors[li];
            assert(anchor@ == crate::diff::anchor(live@[li as int]@));
            let fit = find_fit(pass, &live[li], anchor, saved, used.as_slice());
            if let Some(si) = fit {
                let same = !saved[si].anchor.as_str().is_empty() && saved[si].anchor == *anchor;
                let changed = match pass {
                    Pass::Near => true,
                    _ => !same,
                };
                assert(ss[si as int] == saved@[si as int]@);
                used.set(si, true);
                slots.set(li, Some((si, changed)));
                assert(slots_model(slots@) == before.taken.update(
                    li as int,
                    Some(Taken { saved: si as int, changed }),
                ));
            }
        }
    }
}

/// Runs the three passes over one file. Returns what each live hunk took.
fn run_file(live: &[Hunk], saved: &[HunkState], used: &mut Vec<bool>) -> (slots: Vec<Slot>)
    requires
        old(used)@.len() == saved@.len(),
    ensures
        final(used)@.len() == saved@.len(),
        slots@.len() == live@.len(),
        forall|i: int|
            0 <= i < slots@.len() ==> (#[trigger] slots@[i] matches Some((si, _)) ==> si
                < saved@.len()),
        (Matching { used: final(used)@, taken: slots_model(slots@) }) == match_file(
            crate::seqs::views(live@),
            crate::seqs::views(saved@),
            old(used)@,
        ),
{
    let mut anchors: Vec<String> = Vec::new();
    let mut slots: Vec<Slot> = Vec::new();
    for i in 0..live.len()
        invariant
            anchors@.len() == i,
            slots@.len() == i,
            forall|k: int|
                0 <= k < i ==> (#[trigger] anchors@[k])@ == crate::diff::anchor(live@[k]@),
            forall|k: int| 0 <= k < i ==> #[trigger] slots@[k] == None::<(usize, bool)>,
    {
        anchors.push(live[i].content_anchor());
        slots.push(None);
    }
    assert(slots_model(slots@) == unmatched(crate::seqs::views(live@), used@).taken);
    run_pass(Pass::Anchor, live, anchors.as_slice(), saved, used, &mut slots);
    run_pass(Pass::Header, live, anchors.as_slice(), saved, used, &mut slots);
    run_pass(Pass::Near, live, anchors.as_slice(), saved, used, &mut slots);
    slots
}

fn find_file(files: &[FileState], path: &String) -> (r: Option<usize>)
    ensures
        match r {
            Some(fi) => fi < files@.len() && file_with_path(crate::seqs::views(files@), path@, 0)
                == Some(fi as int),
            None => file_with_path(crate::seqs::views(files@), path@, 0) is None,
        },
{
    let ghost fs = crate::seqs::views(files@);
    for i in 0..files.len()
        invariant
            fs == crate::seqs::views(files@),
            file_with_path(fs, path@, 0) == file_with_path(fs, path@, i as int),
    {
        assert(fs[i as int] == files@[i as int]@);
        if files[i].path == *path {
            return Some(i);
        }
    }
    None
}

spec fn used_model(used: Seq<Vec<bool>>) -> Seq<Seq<bool>> {
    used.map_values(|u: Vec<bool>| u@)
}

/// Puts what the hunks took onto them.
fn apply_slots(hunks: &mut Vec<Hunk>, saved: &[HunkState], slots: &[Slot])
    requires
        slots@.len() == old(hunks)@.len(),
        forall|i: int|
            0 <= i < slots@.len() ==> (#[trigger] slots@[i] matches Some((si, _)) ==> si
                < saved@.len()),
    ensures
        crate::seqs::views(final(hunks)@) == Seq::new(
            old(hunks)@.len(),
            |li: int|
                carried(
                    crate::seqs::views(old(hunks)@)[li],
                    crate::seqs::views(saved@),
                    slots_model(slots@)[li],
                ),
        ),
{
    let ghost before = crate::seqs::views(hunks@);
    let ghost ss = crate::seqs::views(saved@);
    let ghost goal = Seq::new(
        before.len(),
        |li: int| carried(before[li], ss, slots_model(slots@)[li]),
    );
    let n: usize = hunks.len();
    assert(crate::seqs::views(hunks@) == goal.take(0) + before.skip(0));
    for i in 0..n
        invariant
            n == slots@.len(),
            n == hunks@.len(),
            n == before.len(),
            ss == crate::seqs::views(saved@),
            goal == Seq::new(
                before.len(),
                |li: int| carried(before[li], ss, slots_model(slots@)[li]),
            ),
            forall|i: int|
                0 <= i < slots@.len() ==> (#[trigger] slots@[i] matches Some((si, _)) ==> si
                    < saved@.len()),
            crate::seqs::views(hunks@) == goal.take(i as int) + before.skip(i as int),
    {
        let ghost now = crate::seqs::views(hunks@);
        assert(now[i as int] == before[i as int]);
        assert(hunks@[i as int]@ == before[i as int]);
        assert(slots_model(slots@)[i as int] == slot_model(slots@[i as int]));
        if let Some((si, changed)) = slots[i] {
            assert(ss[si as int] == saved@[si as int]@);
            apply_saved(&mut hunks[i], &saved[si], changed);
            assert(hunks@[i as int]@ == goal[i as int]);
            assert(crate::seqs::views(hunks@) == now.update(i as int, hunks@[i as int]@));
        }
        assert(crate::seqs::views(hunks@) == goal.take(i + 1) + before.skip(i + 1));
    }
    assert(crate::seqs::views(hunks@) == goal);
}

fn fresh_used(files: &[FileState]) -> (used: Vec<Vec<bool>>)
    ensures
        used_model(used@) == none_used(crate::seqs::views(files@)),
{
    let ghost goal = none_used(crate::seqs::views(files@));
    let mut used: Vec<Vec<bool>> = Vec::new();
    for i in 0..files.len()
        invariant
            goal == none_used(crate::seqs::views(files@)),
            used_model(used@) == goal.take(i as int),
    {
        let mut row: Vec<bool> = Vec::new();
        let n: usize = files[i].hunks.len();
        for k in 0..n
            invariant
                row@ == Seq::new(k as nat, |j: int| false),
        {
            row.push(false);
            assert(row@ == Seq::new((k + 1) as nat, |j: int| false));
        }
        assert(row@ == goal[i as int]);
        let ghost old_used = used@;
        used.push(row);
        assert(used_model(used@) == used_model(old_used).push(row@));
        assert(goal.take(i + 1) == goal.take(i as int).push(goal[i as int]));
    }
    assert(goal.take(goal.len() as int) == goal);
    used
}

fn collect_orphans(files: &[FileState], used: &[Vec<bool>]) -> (r: Vec<OrphanedHunk>)
    requires
        used@.len() == files@.len(),
        forall|i: int|
            0 <= i < files@.len() ==> (#[trigger] used@[i])@.len() == files@[i].hunks@.len(),
    ensures
        crate::seqs::views(r@) == fresh_orphans(
            crate::seqs::views(files@),
            used_model(used@),
            files@.len(),
        ),
{
    let ghost fs = crate::seqs::views(files@);
    let ghost us = used_model(used@);
    let mut r: Vec<OrphanedHunk> = Vec::new();
    assert(crate::seqs::views(r@) == Seq::<crate::review_state::OrphanModel>::empty());
    for i in 0..files.len()
        invariant
            fs == crate::seqs::views(files@),
            us == used_model(used@),
            used@.len() == files@.len(),
            forall|i: int|
                0 <= i < files@.len() ==> (#[trigger] used@[i])@.len() == files@[i].hunks@.len(),
            crate::seqs::views(r@) == fresh_orphans(fs, us, i as nat),
    {
        let f = &files[i];
        let row = &used[i];
        let n: usize = f.hunks.len();
        let ghost before = fresh_orphans(fs, us, i as nat);
        assert(fs[i as int] == f@);
        assert(us[i as int] == row@);
        assert(before + file_orphans(f@, row@, 0) == before);
        for k in 0..n
            invariant
                n == f.hunks@.len(),
                row@.len() == n,
                crate::seqs::views(r@) == before + file_orphans(f@, row@, k as nat),
        {
            let h = &f.hunks[k];
            assert(f@.hunks[k as int] == h@);
            if !row[k] && keeping(h) {
                let o = OrphanedHunk {
                    file: f.path.clone(),
                    header: h.header.clone(),
                    status: h.status.clone(),
                    comment: copy_opt(&h.comment),
                    anchor: h.anchor.clone(),
                };
                assert(o@ == orphan(f@.path, h@));
                r.push(o);
                assert(before + file_orphans(f@, row@, k as nat).push(o@) == (before
                    + file_orphans(f@, row@, k as nat)).push(o@));
            }
        }
    }
    r
}

fn add_olds(r: &mut Vec<OrphanedHunk>, olds: &[OrphanedHunk])
    ensures
        crate::seqs::views(final(r)@) == with_olds(
            crate::seqs::views(old(r)@),
            crate::seqs::views(olds@),
            olds@.len(),
        ),
{
    let ghost start = crate::seqs::views(r@);
    let ghost os = crate::seqs::views(olds@);
    for i in 0..olds.len()
        invariant
            os == crate::seqs::views(olds@),
            crate::seqs::views(r@) == with_olds(start, os, i as nat),
    {
        let o = &olds[i];
        let ghost before = crate::seqs::views(r@);
        assert(os[i as int] == o@);
        let mut known = false;
        let n: usize = r.len();
        for k in 0..n
            invariant
                n == r@.len(),
                before == crate::seqs::views(r@),
                known == exists|j: int| 0 <= j < k && same_orphan(#[trigger] before[j], o@),
        {
            let x = &r[k];
            assert(before[k as int] == x@);
            if x.file == o.file && x.header == o.header && x.anchor == o.anchor {
                known = true;
            }
        }
        if !known {
            r.push(o.clone());
        }
    }
}

impl ReviewState {
    /// Re-anchor this saved state onto a freshly-recomputed diff (the SAME
    /// comparison: the caller must not have changed base/source). Mutates the
    /// live `files`' hunks in place, carrying verdicts + comments over, and
    /// returns the orphaned (no-longer-present) reviewed hunks.
    ///
    /// Per live hunk, in priority order:
    /// 1. **Anchor match**: a saved hunk in the same file with the same
    ///    non-empty `content_anchor`: carry status + comment SILENTLY
    ///    (`changed_since_review = false`).
    /// 2. **Header match**: a saved hunk in the same file with the same `@@`
    ///    header: carry status + comment, flag `changed_since_review`.
    /// 3. **Near-location**: a saved reviewed hunk in the same file whose `@@`
    ///    new-side start is within a small window of the live hunk's start:
    ///    carry status + comment, flag `changed_since_review`.
    ///
    /// Any saved hunk with a verdict or comment that matched no live hunk is
    /// collected into the returned orphaned list.
    pub fn reanchor_onto(&self, files: &mut [ChangedFile]) -> (r: Vec<OrphanedHunk>)
        ensures
            final(files)@.len() == old(files)@.len(),
            crate::seqs::views(final(files)@) == reanchored(
                self@.files,
                crate::seqs::views(old(files)@),
            ),
            crate::seqs::views(r@) == orphans_of(self@, crate::seqs::views(old(files)@)),
    {
        let ghost live = crate::seqs::views(files@);
        let ghost saved = self@.files;
        let ghost goal = reanchored(saved, live);
        let mut used = fresh_used(self.files.as_slice());
        let n: usize = files.len();
        proof {
            assert(crate::seqs::views(files@) == goal.take(0) + live.skip(0));
            assert(used_model(used@).len() == used@.len());
            assert forall|i: int| 0 <= i < self.files@.len() implies (#[trigger] used@[i])@.len()
                == self.files@[i].hunks@.len() by {
                assert(used_model(used@)[i] == used@[i]@);
                assert(saved[i] == self.files@[i]@);
            }
        }
        for k in 0..n
            invariant
                n == files@.len(),
                n == live.len(),
                saved == self@.files,
                goal == reanchored(saved, live),
                used@.len() == self.files@.len(),
                forall|i: int|
                    0 <= i < self.files@.len() ==> (#[trigger] used@[i])@.len()
                        == self.files@[i].hunks@.len(),
                used_model(used@) == used_after(saved, live, k as nat),
                crate::seqs::views(files@) == goal.take(k as int) + live.skip(k as int),
        {
            let ghost now = crate::seqs::views(files@);
            assert(now[k as int] == live[k as int]);
            assert(files@[k as int]@ == live[k as int]);
            let at = find_file(self.files.as_slice(), &files[k].path);
            if let Some(fi) = at {
                let ghost used_before = used@;
                let saved_hunks = self.files[fi].hunks.as_slice();
                assert(saved[fi as int] == self.files@[fi as int]@);
                assert(used_model(used@)[fi as int] == used@[fi as int]@);
                let slots = run_file(files[k].hunks.as_slice(), saved_hunks, &mut used[fi]);
                apply_slots(&mut files[k].hunks, saved_hunks, slots.as_slice());
                assert(used_model(used@) == used_model(used_before).update(
                    fi as int,
                    used@[fi as int]@,
                ));
                assert(files@[k as int]@.hunks == goal[k as int].hunks);
                assert(files@[k as int]@ == goal[k as int]);
                assert(crate::seqs::views(files@) == now.update(k as int, files@[k as int]@));
            }
            assert(crate::seqs::views(files@) == goal.take(k + 1) + live.skip(k + 1));
        }
        assert(crate::seqs::views(files@) == goal);
        let mut r = collect_orphans(self.files.as_slice(), used.as_slice());
        add_olds(&mut r, self.orphaned.as_slice());
        r
    }
}

} // verus!
