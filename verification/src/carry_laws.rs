//! Which verdicts and comments a recomputed diff gets back, and what becomes of
//! the others.

use crate::diff::{FileModel, HunkModel, ReviewStatus};
use crate::reanchor::{Matching, Pass};
use crate::reanchor_laws::{sound, source_of, took};
use crate::review_state::{FileStateModel, HunkStateModel, OrphanModel, StateModel};
use vstd::prelude::*;

verus! {

/// The saved hunk is known by the changed lines of the live one.
pub open spec fn same_lines(live: HunkModel, saved: HunkStateModel) -> bool {
    saved.anchor.len() > 0 && saved.anchor == crate::diff::anchor(live)
}

/// The saved hunk has a verdict or a comment, and starts within eight lines of
/// the live one.
pub open spec fn nearby(live: HunkModel, saved: HunkStateModel) -> bool {
    &&& saved.status != "unreviewed"@ || (saved.comment matches Some(c) && c.len() > 0)
    &&& match (
        crate::diff::hunk_starts(live.header),
        crate::diff::hunk_starts(saved.header),
    ) {
        (Some((_, a)), Some((_, b))) => a <= b + 8 && b <= a + 8,
        _ => false,
    }
}

/// The saved hunk could be the live one.
pub open spec fn could_be(live: HunkModel, saved: HunkStateModel) -> bool {
    same_lines(live, saved) || saved.header == live.header || nearby(live, saved)
}

/// The verdict that was saved.
pub open spec fn saved_verdict(saved: HunkStateModel) -> ReviewStatus {
    if saved.status == "approved"@ {
        ReviewStatus::Approved
    } else if saved.status == "rejected"@ {
        ReviewStatus::Rejected
    } else {
        ReviewStatus::Unreviewed
    }
}

proof fn lemma_fits(pass: Pass, live: HunkModel, saved: HunkStateModel)
    ensures
        crate::reanchor::fits(pass, live, saved) == match pass {
            Pass::Anchor => same_lines(live, saved),
            Pass::Header => saved.header == live.header,
            Pass::Near => nearby(live, saved),
        },
        crate::reanchor::same_changes(live, saved) == same_lines(live, saved),
{
}

/// What was taken could be taken.
spec fn taken_fits(m: Matching, live: Seq<HunkModel>, saved: Seq<HunkStateModel>) -> bool {
    forall|li: int|
        0 <= li < live.len() ==> (#[trigger] m.taken[li] matches Some(t) ==> could_be(
            live[li],
            saved[t.saved],
        ))
}

proof fn lemma_pass_fits(
    pass: Pass,
    live: Seq<HunkModel>,
    saved: Seq<HunkStateModel>,
    m: Matching,
    n: nat,
    start: Seq<bool>,
)
    requires
        sound(m, live.len(), saved.len(), start),
        taken_fits(m, live, saved),
        n <= live.len(),
    ensures
        taken_fits(crate::reanchor::match_pass(pass, live, saved, m, n), live, saved),
    decreases n,
{
    if n > 0 {
        let before = crate::reanchor::match_pass(pass, live, saved, m, (n - 1) as nat);
        let after = crate::reanchor::match_pass(pass, live, saved, m, n);
        lemma_pass_fits(pass, live, saved, m, (n - 1) as nat, start);
        crate::reanchor_laws::lemma_pass_sound(pass, live, saved, m, (n - 1) as nat, start);
        crate::reanchor_laws::lemma_first_fit(pass, live[n - 1], saved, before.used, 0);
        assert forall|li: int| 0 <= li < live.len() implies (#[trigger] after.taken[li] matches Some(
            t,
        ) ==> could_be(live[li], saved[t.saved])) by {
            if after.taken[li] is Some && before.taken[li] is None {
                lemma_fits(pass, live[li], saved[after.taken[li]->0.saved]);
            } else {
                assert(after.taken[li] == before.taken[li]);
            }
        }
    }
}

/// Who took nothing in the first `n` steps of a pass has nothing left that fits.
proof fn lemma_pass_leaves_nothing(
    pass: Pass,
    live: Seq<HunkModel>,
    saved: Seq<HunkStateModel>,
    m: Matching,
    n: nat,
    start: Seq<bool>,
    li: int,
    si: int,
)
    requires
        sound(m, live.len(), saved.len(), start),
        n <= live.len(),
        0 <= li < n,
        0 <= si < saved.len(),
        crate::reanchor::match_pass(pass, live, saved, m, n).taken[li] is None,
        crate::reanchor::fits(pass, live[li], saved[si]),
    ensures
        crate::reanchor::match_pass(pass, live, saved, m, n).used[si],
    decreases n,
{
    let before = crate::reanchor::match_pass(pass, live, saved, m, (n - 1) as nat);
    crate::reanchor_laws::lemma_pass_sound(pass, live, saved, m, (n - 1) as nat, start);
    crate::reanchor_laws::lemma_first_fit(pass, live[n - 1], saved, before.used, 0);
    if li < n - 1 {
        lemma_pass_leaves_nothing(pass, live, saved, m, (n - 1) as nat, start, li, si);
    }
}

proof fn lemma_used_stays(
    pass: Pass,
    live: Seq<HunkModel>,
    saved: Seq<HunkStateModel>,
    m: Matching,
    n: nat,
    start: Seq<bool>,
    si: int,
)
    requires
        sound(m, live.len(), saved.len(), start),
        n <= live.len(),
        0 <= si < saved.len(),
        m.used[si],
    ensures
        crate::reanchor::match_pass(pass, live, saved, m, n).used[si],
    decreases n,
{
    if n > 0 {
        let before = crate::reanchor::match_pass(pass, live, saved, m, (n - 1) as nat);
        lemma_used_stays(pass, live, saved, m, (n - 1) as nat, start, si);
        crate::reanchor_laws::lemma_pass_sound(pass, live, saved, m, (n - 1) as nat, start);
        crate::reanchor_laws::lemma_first_fit(pass, live[n - 1], saved, before.used, 0);
    }
}

/// In one file: what was taken could be taken; who took nothing has nothing left
/// that could be; and stronger evidence comes first.
proof fn lemma_file(
    live: Seq<HunkModel>,
    saved: Seq<HunkStateModel>,
    used: Seq<bool>,
    li: int,
    si: int,
)
    requires
        used.len() == saved.len(),
        0 <= li < live.len(),
        0 <= si < saved.len(),
    ensures
        ({
            let m = crate::reanchor::match_file(live, saved, used);
            &&& sound(m, live.len(), saved.len(), used)
            &&& m.taken[li] matches Some(t) ==> could_be(live[li], saved[t.saved]) && t.changed
                == !same_lines(live[li], saved[t.saved])
            &&& m.taken[li] is None && could_be(live[li], saved[si]) ==> m.used[si]
            &&& m.taken[li] matches Some(t) ==> {
                &&& !same_lines(live[li], saved[t.saved]) && same_lines(live[li], saved[si])
                    ==> m.used[si]
                &&& !same_lines(live[li], saved[t.saved]) && saved[t.saved].header
                    != live[li].header && saved[si].header == live[li].header ==> m.used[si]
            }
        }),
{
    let n = live.len();
    let start = crate::reanchor::unmatched(live, used);
    let a = crate::reanchor::match_pass(Pass::Anchor, live, saved, start, n);
    let b = crate::reanchor::match_pass(Pass::Header, live, saved, a, n);
    let c = crate::reanchor::match_pass(Pass::Near, live, saved, b, n);
    assert(sound(start, n, saved.len(), used));
    crate::reanchor_laws::lemma_pass_sound(Pass::Anchor, live, saved, start, n, used);
    crate::reanchor_laws::lemma_pass_sound(Pass::Header, live, saved, a, n, used);
    crate::reanchor_laws::lemma_pass_sound(Pass::Near, live, saved, b, n, used);
    lemma_pass_fits(Pass::Anchor, live, saved, start, n, used);
    lemma_pass_fits(Pass::Header, live, saved, a, n, used);
    lemma_pass_fits(Pass::Near, live, saved, b, n, used);
    crate::reanchor_laws::warned_exactly_when_changes_differ(live, saved, used);
    lemma_fits(Pass::Anchor, live[li], saved[si]);
    lemma_fits(Pass::Header, live[li], saved[si]);
    lemma_fits(Pass::Near, live[li], saved[si]);
    if let Some(t) = c.taken[li] {
        assert(could_be(live[li], saved[t.saved]));
        lemma_fits(Pass::Anchor, live[li], saved[t.saved]);
        assert(t.changed == !crate::reanchor::same_changes(live[li], saved[t.saved]));
    }
    if a.taken[li] is Some {
        crate::reanchor_laws::lemma_taken_stays_taken(Pass::Header, live, saved, a, li, n, used);
        crate::reanchor_laws::lemma_taken_stays_taken(Pass::Near, live, saved, b, li, n, used);
        lemma_taken_by(Pass::Anchor, live, saved, start, n, used, li);
        lemma_fits(Pass::Anchor, live[li], saved[a.taken[li]->0.saved]);
    } else {
        if same_lines(live[li], saved[si]) {
            lemma_pass_leaves_nothing(Pass::Anchor, live, saved, start, n, used, li, si);
            lemma_used_stays(Pass::Header, live, saved, a, n, used, si);
            lemma_used_stays(Pass::Near, live, saved, b, n, used, si);
        }
        if b.taken[li] is Some {
            crate::reanchor_laws::lemma_taken_stays_taken(Pass::Near, live, saved, b, li, n, used);
            lemma_taken_by(Pass::Header, live, saved, a, n, used, li);
            lemma_fits(Pass::Header, live[li], saved[b.taken[li]->0.saved]);
        } else {
            if saved[si].header == live[li].header {
                lemma_pass_leaves_nothing(Pass::Header, live, saved, a, n, used, li, si);
                lemma_used_stays(Pass::Near, live, saved, b, n, used, si);
            }
            if c.taken[li] is None && nearby(live[li], saved[si]) {
                lemma_pass_leaves_nothing(Pass::Near, live, saved, b, n, used, li, si);
            }
        }
    }
}

/// What a pass gave to a hunk that had nothing fits in that pass, was free before
/// it, and is the first that was.
proof fn lemma_taken_by(
    pass: Pass,
    live: Seq<HunkModel>,
    saved: Seq<HunkStateModel>,
    m: Matching,
    n: nat,
    start: Seq<bool>,
    li: int,
)
    requires
        sound(m, live.len(), saved.len(), start),
        n <= live.len(),
        0 <= li < live.len(),
        m.taken[li] is None,
        crate::reanchor::match_pass(pass, live, saved, m, n).taken[li] is Some,
    ensures
        crate::reanchor::fits(
            pass,
            live[li],
            saved[crate::reanchor::match_pass(pass, live, saved, m, n).taken[li]->0.saved],
        ),
        !m.used[crate::reanchor::match_pass(pass, live, saved, m, n).taken[li]->0.saved],
        forall|sj: int|
            0 <= sj < crate::reanchor::match_pass(pass, live, saved, m, n).taken[li]->0.saved
                && crate::reanchor::fits(pass, live[li], #[trigger] saved[sj])
                ==> crate::reanchor::match_pass(pass, live, saved, m, n).used[sj],
    decreases n,
{
    if n > 0 {
        let before = crate::reanchor::match_pass(pass, live, saved, m, (n - 1) as nat);
        let after = crate::reanchor::match_pass(pass, live, saved, m, n);
        crate::reanchor_laws::lemma_pass_sound(pass, live, saved, m, (n - 1) as nat, start);
        crate::reanchor_laws::lemma_first_fit(pass, live[n - 1], saved, before.used, 0);
        if before.taken[li] is Some {
            lemma_taken_by(pass, live, saved, m, (n - 1) as nat, start, li);
        } else {
            let si = after.taken[li]->0.saved;
            if m.used[si] {
                lemma_used_stays(pass, live, saved, m, (n - 1) as nat, start, si);
            }
        }
    }
}

/// In one file: of several saved hunks with the same evidence the first that is
/// free is taken.
proof fn lemma_first_of_equals(
    live: Seq<HunkModel>,
    saved: Seq<HunkStateModel>,
    used: Seq<bool>,
    li: int,
    sj: int,
)
    requires
        used.len() == saved.len(),
        0 <= li < live.len(),
        crate::reanchor::match_file(live, saved, used).taken[li] is Some,
        0 <= sj < crate::reanchor::match_file(live, saved, used).taken[li]->0.saved,
        equal_evidence(
            live[li],
            saved[crate::reanchor::match_file(live, saved, used).taken[li]->0.saved],
            saved[sj],
        ),
    ensures
        crate::reanchor::match_file(live, saved, used).used[sj],
{
    let n = live.len();
    let start = crate::reanchor::unmatched(live, used);
    let a = crate::reanchor::match_pass(Pass::Anchor, live, saved, start, n);
    let b = crate::reanchor::match_pass(Pass::Header, live, saved, a, n);
    let c = crate::reanchor::match_pass(Pass::Near, live, saved, b, n);
    let si = c.taken[li]->0.saved;
    assert(sound(start, n, saved.len(), used));
    crate::reanchor_laws::lemma_pass_sound(Pass::Anchor, live, saved, start, n, used);
    crate::reanchor_laws::lemma_pass_sound(Pass::Header, live, saved, a, n, used);
    crate::reanchor_laws::lemma_pass_sound(Pass::Near, live, saved, b, n, used);
    lemma_fits(Pass::Anchor, live[li], saved[si]);
    lemma_fits(Pass::Header, live[li], saved[si]);
    lemma_fits(Pass::Near, live[li], saved[si]);
    lemma_fits(Pass::Anchor, live[li], saved[sj]);
    lemma_fits(Pass::Header, live[li], saved[sj]);
    lemma_fits(Pass::Near, live[li], saved[sj]);
    if a.taken[li] is Some {
        crate::reanchor_laws::lemma_taken_stays_taken(Pass::Header, live, saved, a, li, n, used);
        crate::reanchor_laws::lemma_taken_stays_taken(Pass::Near, live, saved, b, li, n, used);
        lemma_taken_by(Pass::Anchor, live, saved, start, n, used, li);
        assert(crate::reanchor::fits(Pass::Anchor, live[li], saved[sj]));
        lemma_used_stays(Pass::Header, live, saved, a, n, used, sj);
        lemma_used_stays(Pass::Near, live, saved, b, n, used, sj);
    } else {
        if same_lines(live[li], saved[si]) {
            lemma_pass_leaves_nothing(Pass::Anchor, live, saved, start, n, used, li, si);
            lemma_used_stays(Pass::Header, live, saved, a, n, used, si);
        }
        if b.taken[li] is Some {
            crate::reanchor_laws::lemma_taken_stays_taken(Pass::Near, live, saved, b, li, n, used);
            lemma_taken_by(Pass::Header, live, saved, a, n, used, li);
            assert(crate::reanchor::fits(Pass::Header, live[li], saved[sj]));
            lemma_used_stays(Pass::Near, live, saved, b, n, used, sj);
        } else {
            lemma_taken_by(Pass::Near, live, saved, b, n, used, li);
            if saved[si].header == live[li].header {
                lemma_pass_leaves_nothing(Pass::Header, live, saved, a, n, used, li, si);
            }
            assert(crate::reanchor::fits(Pass::Near, live[li], saved[sj]));
        }
    }
}

/// A saved hunk that is used up when the live file `k` is done went to a live
/// hunk.
proof fn lemma_went_somewhere(
    saved: Seq<FileStateModel>,
    live: Seq<FileModel>,
    k: int,
    fi: int,
    si: int,
)
    requires
        0 <= k < live.len(),
        crate::reanchor::file_with_path(saved, live[k].path, 0) == Some(fi),
        0 <= fi < saved.len(),
        0 <= si < saved[fi].hunks.len(),
        crate::reanchor::match_file(
            live[k].hunks,
            saved[fi].hunks,
            crate::reanchor::used_after(saved, live, k as nat)[fi],
        ).used[si],
    ensures
        exists|k2: int, li2: int| took(saved, live, k2, li2, fi, si),
{
    crate::reanchor_laws::lemma_used_shape(saved, live, k as nat);
    assert(crate::reanchor::used_after(saved, live, (k + 1) as nat)[fi][si]);
    crate::reanchor_laws::lemma_used_has_taker(saved, live, (k + 1) as nat, fi, si);
}

/// A live hunk gets back what was saved for it: the verdict, the comment if
/// there was one, and a warning exactly where the changed lines are not those
/// that were reviewed. What it gets was saved in a file of the same path, for a
/// hunk with the same changed lines or the same header, or for a reviewed one
/// nearby. A hunk for which nothing was saved stays as it is.
pub proof fn a_hunk_gets_back_what_was_saved_for_it(
    saved: Seq<FileStateModel>,
    live: Seq<FileModel>,
    k: int,
    li: int,
)
    requires
        0 <= k < live.len(),
        0 <= li < live[k].hunks.len(),
    ensures
        ({
            let before = live[k].hunks[li];
            let after = crate::reanchor::reanchored(saved, live)[k].hunks[li];
            match source_of(saved, live, k, li) {
                Some((fi, si)) => {
                    let s = saved[fi].hunks[si];
                    &&& 0 <= fi < saved.len()
                    &&& 0 <= si < saved[fi].hunks.len()
                    &&& saved[fi].path == live[k].path
                    &&& could_be(before, s)
                    &&& after.header == before.header
                    &&& after.rows == before.rows
                    &&& after.status == saved_verdict(s)
                    &&& after.comment == match s.comment {
                        Some(c) => c,
                        None => before.comment,
                    }
                    &&& after.changed_since_review == !same_lines(before, s)
                },
                None => after == before,
            }
        }),
{
    crate::reanchor_laws::lemma_file_with_path(saved, live[k].path, 0);
    crate::reanchor_laws::lemma_used_shape(saved, live, k as nat);
    if let Some(fi) = crate::reanchor::file_with_path(saved, live[k].path, 0) {
        let used = crate::reanchor::used_after(saved, live, k as nat)[fi];
        if let Some((f, si)) = source_of(saved, live, k, li) {
            crate::reanchor_laws::lemma_match_file_sound(live[k].hunks, saved[fi].hunks, used);
            lemma_file(live[k].hunks, saved[fi].hunks, used, li, si);
        }
    }
}

/// A live hunk goes away empty-handed only where every saved hunk that could be
/// it has gone to another.
pub proof fn nothing_is_left_for_an_empty_handed_hunk(
    saved: Seq<FileStateModel>,
    live: Seq<FileModel>,
    k: int,
    li: int,
    fi: int,
    si: int,
)
    requires
        0 <= k < live.len(),
        0 <= li < live[k].hunks.len(),
        source_of(saved, live, k, li) is None,
        0 <= fi < saved.len(),
        saved[fi].path == live[k].path,
        forall|j: int| 0 <= j < fi ==> (#[trigger] saved[j]).path != live[k].path,
        0 <= si < saved[fi].hunks.len(),
        could_be(live[k].hunks[li], saved[fi].hunks[si]),
    ensures
        exists|k2: int, li2: int| took(saved, live, k2, li2, fi, si),
{
    crate::reanchor_laws::lemma_file_with_path(saved, live[k].path, 0);
    crate::reanchor_laws::lemma_used_shape(saved, live, k as nat);
    let used = crate::reanchor::used_after(saved, live, k as nat)[fi];
    lemma_file(live[k].hunks, saved[fi].hunks, used, li, si);
    lemma_went_somewhere(saved, live, k, fi, si);
}

/// Stronger evidence comes first. A hunk that took one with other changed lines
/// had none with its own left, and one that took a hunk nearby had none with its
/// header left either.
pub proof fn stronger_evidence_comes_first(
    saved: Seq<FileStateModel>,
    live: Seq<FileModel>,
    k: int,
    li: int,
    fi: int,
    si: int,
    sj: int,
)
    requires
        0 <= k < live.len(),
        0 <= li < live[k].hunks.len(),
        source_of(saved, live, k, li) == Some((fi, si)),
        0 <= sj < saved[fi].hunks.len(),
        !same_lines(live[k].hunks[li], saved[fi].hunks[si]),
        same_lines(live[k].hunks[li], saved[fi].hunks[sj]) || (saved[fi].hunks[si].header
            != live[k].hunks[li].header && saved[fi].hunks[sj].header == live[k].hunks[li].header),
    ensures
        exists|k2: int, li2: int| took(saved, live, k2, li2, fi, sj),
{
    crate::reanchor_laws::lemma_file_with_path(saved, live[k].path, 0);
    crate::reanchor_laws::lemma_used_shape(saved, live, k as nat);
    let used = crate::reanchor::used_after(saved, live, k as nat)[fi];
    lemma_file(live[k].hunks, saved[fi].hunks, used, li, sj);
    lemma_went_somewhere(saved, live, k, fi, sj);
}

/// The two saved hunks could be the live one on the same evidence, and no
/// stronger one speaks for the first.
pub open spec fn equal_evidence(
    live: HunkModel,
    a: HunkStateModel,
    b: HunkStateModel,
) -> bool {
    if same_lines(live, a) {
        same_lines(live, b)
    } else if a.header == live.header {
        b.header == live.header
    } else {
        nearby(live, b)
    }
}

/// Of several saved hunks that could be a live one on the same evidence, it takes
/// the first that is left.
pub proof fn the_first_of_equals_is_taken(
    saved: Seq<FileStateModel>,
    live: Seq<FileModel>,
    k: int,
    li: int,
    fi: int,
    si: int,
    sj: int,
)
    requires
        0 <= k < live.len(),
        0 <= li < live[k].hunks.len(),
        source_of(saved, live, k, li) == Some((fi, si)),
        0 <= sj < si,
        equal_evidence(live[k].hunks[li], saved[fi].hunks[si], saved[fi].hunks[sj]),
    ensures
        exists|k2: int, li2: int| took(saved, live, k2, li2, fi, sj),
{
    crate::reanchor_laws::lemma_file_with_path(saved, live[k].path, 0);
    crate::reanchor_laws::lemma_used_shape(saved, live, k as nat);
    let used = crate::reanchor::used_after(saved, live, k as nat)[fi];
    crate::reanchor_laws::lemma_match_file_sound(live[k].hunks, saved[fi].hunks, used);
    lemma_first_of_equals(live[k].hunks, saved[fi].hunks, used, li, sj);
    lemma_went_somewhere(saved, live, k, fi, sj);
}

/// What is kept of a saved hunk that no live hunk took: all of it.
pub open spec fn kept_of(path: Seq<char>, s: HunkStateModel) -> OrphanModel {
    OrphanModel {
        file: path,
        header: s.header,
        status: s.status,
        comment: s.comment,
        anchor: s.anchor,
    }
}

/// There is something to keep of a saved hunk: a verdict, or a comment that is
/// more than white space.
pub open spec fn is_reviewed(s: HunkStateModel) -> bool {
    s.status != "unreviewed"@ || (s.comment matches Some(c) && exists|i: int|
        0 <= i < c.len() && !crate::text::is_white(#[trigger] c[i]))
}

proof fn lemma_worth_keeping(s: HunkStateModel)
    ensures
        crate::reanchor::worth_keeping(s) == is_reviewed(s),
{
    if let Some(c) = s.comment {
        if crate::text::is_blank(c) {
            assert forall|i: int| 0 <= i < c.len() implies crate::text::is_white(
                #[trigger] c[i],
            ) by {
            }
        }
    }
}

/// A reviewed hunk that no live hunk took is kept among the orphans, with its
/// verdict and its comment.
pub proof fn what_nobody_took_is_kept(saved: StateModel, live: Seq<FileModel>, fi: int, si: int)
    requires
        0 <= fi < saved.files.len(),
        0 <= si < saved.files[fi].hunks.len(),
        is_reviewed(saved.files[fi].hunks[si]),
        forall|k: int, li: int| !took(saved.files, live, k, li, fi, si),
    ensures
        crate::reanchor::orphans_of(saved, live).contains(
            kept_of(saved.files[fi].path, saved.files[fi].hunks[si]),
        ),
{
    let s = saved.files[fi].hunks[si];
    let used = crate::reanchor::used_after(saved.files, live, live.len());
    let n = saved.files.len();
    let fresh = crate::reanchor::fresh_orphans(saved.files, used, n);
    let o = kept_of(saved.files[fi].path, s);
    lemma_worth_keeping(s);
    if used[fi][si] {
        crate::reanchor_laws::lemma_used_has_taker(saved.files, live, live.len(), fi, si);
    }
    crate::reanchor_laws::lemma_fresh_orphans_hold(saved.files, used, n, fi, si);
    assert(crate::reanchor::orphan(saved.files[fi].path, s) == o);
    let i = choose|i: int| 0 <= i < fresh.len() && fresh[i] == o;
    crate::reanchor_laws::lemma_with_olds_keeps(fresh, saved.orphaned, saved.orphaned.len(), i);
    assert(crate::reanchor::orphans_of(saved, live)[i] == o);
}

/// The orphan stands for a saved hunk that was reviewed and that nobody took.
pub open spec fn comes_from(
    o: OrphanModel,
    saved: Seq<FileStateModel>,
    live: Seq<FileModel>,
    fi: int,
    si: int,
) -> bool {
    &&& 0 <= fi < saved.len()
    &&& 0 <= si < saved[fi].hunks.len()
    &&& is_reviewed(saved[fi].hunks[si])
    &&& o == kept_of(saved[fi].path, saved[fi].hunks[si])
    &&& forall|k: int, li: int| !took(saved, live, k, li, fi, si)
}

proof fn lemma_taken_is_used(
    saved: Seq<FileStateModel>,
    live: Seq<FileModel>,
    k: int,
    li: int,
    fi: int,
    si: int,
)
    requires
        took(saved, live, k, li, fi, si),
    ensures
        0 <= fi < saved.len(),
        0 <= si < saved[fi].hunks.len(),
        crate::reanchor::used_after(saved, live, live.len())[fi][si],
{
    crate::reanchor_laws::lemma_file_with_path(saved, live[k].path, 0);
    crate::reanchor_laws::lemma_used_shape(saved, live, k as nat);
    let used = crate::reanchor::used_after(saved, live, k as nat)[fi];
    crate::reanchor_laws::lemma_match_file_sound(live[k].hunks, saved[fi].hunks, used);
    assert(crate::reanchor::used_after(saved, live, (k + 1) as nat)[fi][si]);
    crate::reanchor_laws::lemma_used_grows(
        saved,
        live,
        (k + 1) as nat,
        live.len(),
        fi,
        si,
    );
}

proof fn lemma_file_orphans_from(
    saved: Seq<FileStateModel>,
    live: Seq<FileModel>,
    fi: int,
    n: nat,
    i: int,
)
    requires
        0 <= fi < saved.len(),
        n <= saved[fi].hunks.len(),
        0 <= i < crate::reanchor::file_orphans(
            saved[fi],
            crate::reanchor::used_after(saved, live, live.len())[fi],
            n,
        ).len(),
    ensures
        exists|si: int|
            #[trigger] comes_from(
                crate::reanchor::file_orphans(
                    saved[fi],
                    crate::reanchor::used_after(saved, live, live.len())[fi],
                    n,
                )[i],
                saved,
                live,
                fi,
                si,
            ),
    decreases n,
{
    let used = crate::reanchor::used_after(saved, live, live.len())[fi];
    if n > 0 {
        let before = crate::reanchor::file_orphans(saved[fi], used, (n - 1) as nat);
        let all = crate::reanchor::file_orphans(saved[fi], used, n);
        if i < before.len() {
            lemma_file_orphans_from(saved, live, fi, (n - 1) as nat, i);
            assert(all[i] == before[i]);
        } else {
            lemma_worth_keeping(saved[fi].hunks[n - 1]);
            assert forall|k: int, li: int| !#[trigger] took(saved, live, k, li, fi, n - 1) by {
                if took(saved, live, k, li, fi, n - 1) {
                    lemma_taken_is_used(saved, live, k, li, fi, n - 1);
                }
            }
            assert(comes_from(all[i], saved, live, fi, n - 1));
        }
    }
}

proof fn lemma_fresh_from(saved: Seq<FileStateModel>, live: Seq<FileModel>, n: nat, i: int)
    requires
        n <= saved.len(),
        0 <= i < crate::reanchor::fresh_orphans(
            saved,
            crate::reanchor::used_after(saved, live, live.len()),
            n,
        ).len(),
    ensures
        exists|fi: int, si: int|
            #[trigger] comes_from(
                crate::reanchor::fresh_orphans(
                    saved,
                    crate::reanchor::used_after(saved, live, live.len()),
                    n,
                )[i],
                saved,
                live,
                fi,
                si,
            ),
    decreases n,
{
    let used = crate::reanchor::used_after(saved, live, live.len());
    if n > 0 {
        let before = crate::reanchor::fresh_orphans(saved, used, (n - 1) as nat);
        let all = crate::reanchor::fresh_orphans(saved, used, n);
        let fi = n - 1;
        if i < before.len() {
            lemma_fresh_from(saved, live, (n - 1) as nat, i);
            assert(all[i] == before[i]);
        } else {
            lemma_file_orphans_from(saved, live, fi, saved[fi].hunks.len(), i - before.len());
            assert(all[i] == crate::reanchor::file_orphans(
                saved[fi],
                used[fi],
                saved[fi].hunks.len(),
            )[i - before.len()]);
        }
    }
}

proof fn lemma_olds_from(orphans: Seq<OrphanModel>, olds: Seq<OrphanModel>, n: nat, i: int)
    requires
        n <= olds.len(),
        0 <= i < crate::reanchor::with_olds(orphans, olds, n).len(),
    ensures
        i < orphans.len() && crate::reanchor::with_olds(orphans, olds, n)[i] == orphans[i]
            || olds.contains(crate::reanchor::with_olds(orphans, olds, n)[i]),
    decreases n,
{
    if n > 0 {
        let before = crate::reanchor::with_olds(orphans, olds, (n - 1) as nat);
        let all = crate::reanchor::with_olds(orphans, olds, n);
        if i < before.len() {
            lemma_olds_from(orphans, olds, (n - 1) as nat, i);
            assert(all[i] == before[i]);
        } else {
            assert(all[i] == olds[n - 1]);
        }
    }
}

/// Nothing else is an orphan: each one was an orphan before, or is what was
/// saved of a reviewed hunk that nobody took.
pub proof fn orphans_are_what_nobody_took(saved: StateModel, live: Seq<FileModel>, i: int)
    requires
        0 <= i < crate::reanchor::orphans_of(saved, live).len(),
    ensures
        saved.orphaned.contains(crate::reanchor::orphans_of(saved, live)[i]) || exists|
            fi: int,
            si: int,
        |
            #[trigger] comes_from(
                crate::reanchor::orphans_of(saved, live)[i],
                saved.files,
                live,
                fi,
                si,
            ),
{
    let used = crate::reanchor::used_after(saved.files, live, live.len());
    let fresh = crate::reanchor::fresh_orphans(saved.files, used, saved.files.len());
    lemma_olds_from(fresh, saved.orphaned, saved.orphaned.len(), i);
    if !saved.orphaned.contains(crate::reanchor::orphans_of(saved, live)[i]) {
        lemma_fresh_from(saved.files, live, saved.files.len(), i);
    }
}

/// An orphan that there was before is still there, itself or as another of the
/// same file, header and changed lines.
pub proof fn an_orphan_stays(saved: StateModel, live: Seq<FileModel>, j: int)
    requires
        0 <= j < saved.orphaned.len(),
    ensures
        exists|i: int|
            0 <= i < crate::reanchor::orphans_of(saved, live).len() && {
                let o = #[trigger] crate::reanchor::orphans_of(saved, live)[i];
                &&& o.file == saved.orphaned[j].file
                &&& o.header == saved.orphaned[j].header
                &&& o.anchor == saved.orphaned[j].anchor
            },
{
    let all = crate::reanchor::orphans_of(saved, live);
    crate::reanchor_laws::orphans_stay_listed(saved, live, j);
    let i = choose|i: int|
        0 <= i < all.len() && crate::reanchor::same_orphan(#[trigger] all[i], saved.orphaned[j]);
    assert(all[i].file == saved.orphaned[j].file);
}

/// An orphan that there was before gives way only to another of the same file,
/// header and changed lines.
pub proof fn orphans_are_not_mistaken(saved: StateModel, live: Seq<FileModel>, j: int)
    requires
        0 <= j < saved.orphaned.len(),
        forall|i: int|
            0 <= i < crate::reanchor::orphans_of(saved, live).len() && #[trigger]
            crate::reanchor::orphans_of(saved, live)[i] != saved.orphaned[j] ==> {
                let o = crate::reanchor::orphans_of(saved, live)[i];
                o.file != saved.orphaned[j].file || o.header != saved.orphaned[j].header || o.anchor
                    != saved.orphaned[j].anchor
            },
    ensures
        crate::reanchor::orphans_of(saved, live).contains(saved.orphaned[j]),
{
    let all = crate::reanchor::orphans_of(saved, live);
    an_orphan_stays(saved, live, j);
    let i = choose|i: int|
        0 <= i < all.len() && {
            let o = #[trigger] all[i];
            &&& o.file == saved.orphaned[j].file
            &&& o.header == saved.orphaned[j].header
            &&& o.anchor == saved.orphaned[j].anchor
        };
    assert(all[i] == saved.orphaned[j]);
}

} // verus!
