//! What holds of every re-anchoring: no saved hunk goes to two live ones, no
//! reviewed hunk is lost, a verdict comes without a warning exactly where the
//! changed lines are the same, and a diff that did not change gets back the
//! review that was saved for it.

use crate::diff::{FileModel, HunkModel, ReviewStatus};
use crate::reanchor::{Matching, Pass, Taken};
use crate::review_state::{FileStateModel, HunkStateModel, OrphanModel, StateModel};
use vstd::prelude::*;

verus! {

/// What a matching keeps while hunks take hunks, from `start` on: a taken hunk
/// is used, was free at the start and has one taker; every used hunk was gone
/// at the start or has a taker.
pub open spec fn sound(m: Matching, live: nat, saved: nat, start: Seq<bool>) -> bool {
    &&& m.used.len() == saved
    &&& start.len() == saved
    &&& m.taken.len() == live
    &&& forall|li: int|
        0 <= li < live ==> (#[trigger] m.taken[li] matches Some(t) ==> 0 <= t.saved < saved
            && m.used[t.saved] && !start[t.saved])
    &&& forall|li: int, lj: int|
        0 <= li < live && 0 <= lj < live && li != lj && (#[trigger] m.taken[li]) is Some && (
        #[trigger] m.taken[lj]) is Some ==> m.taken[li]->0.saved != m.taken[lj]->0.saved
    &&& forall|si: int|
        0 <= si < saved && #[trigger] m.used[si] && !start[si] ==> has_taker(m, live, si)
    &&& forall|si: int| 0 <= si < saved && start[si] ==> #[trigger] m.used[si]
}

/// Some live hunk took the saved hunk at `si`.
pub open spec fn has_taker(m: Matching, live: nat, si: int) -> bool {
    exists|li: int|
        0 <= li < live && (#[trigger] m.taken[li]) is Some && m.taken[li]->0.saved == si
}

pub proof fn lemma_first_fit(
    pass: Pass,
    live: HunkModel,
    saved: Seq<HunkStateModel>,
    used: Seq<bool>,
    from: int,
)
    requires
        0 <= from,
    ensures
        match crate::reanchor::first_fit(pass, live, saved, used, from) {
            Some(si) => {
                &&& from <= si < saved.len()
                &&& !used[si]
                &&& crate::reanchor::fits(pass, live, saved[si])
                &&& forall|j: int|
                    from <= j < si ==> used[j] || !crate::reanchor::fits(
                        pass,
                        live,
                        #[trigger] saved[j],
                    )
            },
            None => forall|j: int|
                from <= j < saved.len() ==> used[j] || !crate::reanchor::fits(
                    pass,
                    live,
                    #[trigger] saved[j],
                ),
        },
    decreases saved.len() - from,
{
    if from < saved.len() && !(!used[from] && crate::reanchor::fits(pass, live, saved[from])) {
        lemma_first_fit(pass, live, saved, used, from + 1);
    }
}

proof fn lemma_step_sound(
    pass: Pass,
    live: Seq<HunkModel>,
    saved: Seq<HunkStateModel>,
    m: Matching,
    li: int,
    start: Seq<bool>,
)
    requires
        sound(m, live.len(), saved.len(), start),
        0 <= li < live.len(),
    ensures
        sound(
            crate::reanchor::match_step(pass, live, saved, m, li),
            live.len(),
            saved.len(),
            start,
        ),
{
    let after = crate::reanchor::match_step(pass, live, saved, m, li);
    lemma_first_fit(pass, live[li], saved, m.used, 0);
    if m.taken[li] is None {
        if let Some(si) = crate::reanchor::first_fit(pass, live[li], saved, m.used, 0) {
            assert forall|s: int|
                0 <= s < saved.len() && #[trigger] after.used[s] && !start[s] implies has_taker(
                after,
                live.len(),
                s,
            ) by {
                if s == si {
                    assert(after.taken[li]->0.saved == si);
                } else {
                    assert(m.used[s]);
                    assert(has_taker(m, live.len(), s));
                    let w = choose|w: int|
                        0 <= w < live.len() && (#[trigger] m.taken[w]) is Some
                            && m.taken[w]->0.saved == s;
                    assert(after.taken[w] == m.taken[w]);
                }
            }
        }
    }
}

pub proof fn lemma_pass_sound(
    pass: Pass,
    live: Seq<HunkModel>,
    saved: Seq<HunkStateModel>,
    m: Matching,
    n: nat,
    start: Seq<bool>,
)
    requires
        sound(m, live.len(), saved.len(), start),
        n <= live.len(),
    ensures
        sound(
            crate::reanchor::match_pass(pass, live, saved, m, n),
            live.len(),
            saved.len(),
            start,
        ),
    decreases n,
{
    if n > 0 {
        lemma_pass_sound(pass, live, saved, m, (n - 1) as nat, start);
        lemma_step_sound(
            pass,
            live,
            saved,
            crate::reanchor::match_pass(pass, live, saved, m, (n - 1) as nat),
            n - 1,
            start,
        );
    }
}

/// The matching of one file is sound.
pub proof fn lemma_match_file_sound(
    live: Seq<HunkModel>,
    saved: Seq<HunkStateModel>,
    used: Seq<bool>,
)
    requires
        used.len() == saved.len(),
    ensures
        sound(
            crate::reanchor::match_file(live, saved, used),
            live.len(),
            saved.len(),
            used,
        ),
{
    let n = live.len();
    let start = crate::reanchor::unmatched(live, used);
    let a = crate::reanchor::match_pass(Pass::Anchor, live, saved, start, n);
    let b = crate::reanchor::match_pass(Pass::Header, live, saved, a, n);
    lemma_pass_sound(Pass::Anchor, live, saved, start, n, used);
    lemma_pass_sound(Pass::Header, live, saved, a, n, used);
    lemma_pass_sound(Pass::Near, live, saved, b, n, used);
}

/// Of the first `n` live hunks, one that took nothing has no free saved hunk
/// with the same changes, and one that took something carries the flag that the
/// changes call for.
pub open spec fn settled(
    m: Matching,
    live: Seq<HunkModel>,
    saved: Seq<HunkStateModel>,
    n: int,
) -> bool {
    &&& forall|li: int, si: int|
        0 <= li < n && 0 <= si < saved.len() && (#[trigger] m.taken[li]) is None
            && crate::reanchor::same_changes(live[li], #[trigger] saved[si]) ==> m.used[si]
    &&& flags_told(m, live, saved)
}

/// Every carried verdict is flagged exactly where the changes differ.
pub open spec fn flags_told(
    m: Matching,
    live: Seq<HunkModel>,
    saved: Seq<HunkStateModel>,
) -> bool {
    forall|li: int|
        0 <= li < live.len() ==> (#[trigger] m.taken[li] matches Some(t) ==> t.changed
            == !crate::reanchor::same_changes(live[li], saved[t.saved]))
}

proof fn lemma_anchor_pass_settles(
    live: Seq<HunkModel>,
    saved: Seq<HunkStateModel>,
    used: Seq<bool>,
    n: nat,
)
    requires
        used.len() == saved.len(),
        n <= live.len(),
    ensures
        settled(
            crate::reanchor::match_pass(
                Pass::Anchor,
                live,
                saved,
                crate::reanchor::unmatched(live, used),
                n,
            ),
            live,
            saved,
            n as int,
        ),
    decreases n,
{
    let start = crate::reanchor::unmatched(live, used);
    if n > 0 {
        let m = crate::reanchor::match_pass(Pass::Anchor, live, saved, start, (n - 1) as nat);
        lemma_anchor_pass_settles(live, saved, used, (n - 1) as nat);
        lemma_pass_sound(Pass::Anchor, live, saved, start, (n - 1) as nat, used);
        lemma_first_fit(Pass::Anchor, live[n - 1], saved, m.used, 0);
    }
}

proof fn lemma_pass_keeps_settled(
    pass: Pass,
    live: Seq<HunkModel>,
    saved: Seq<HunkStateModel>,
    m: Matching,
    n: nat,
    start: Seq<bool>,
)
    requires
        !(pass is Anchor),
        n <= live.len(),
        sound(m, live.len(), saved.len(), start),
        settled(m, live, saved, live.len() as int),
    ensures
        settled(
            crate::reanchor::match_pass(pass, live, saved, m, n),
            live,
            saved,
            live.len() as int,
        ),
    decreases n,
{
    if n > 0 {
        let before = crate::reanchor::match_pass(pass, live, saved, m, (n - 1) as nat);
        lemma_pass_keeps_settled(pass, live, saved, m, (n - 1) as nat, start);
        lemma_pass_sound(pass, live, saved, m, (n - 1) as nat, start);
        lemma_first_fit(pass, live[n - 1], saved, before.used, 0);
    }
}

/// A verdict is carried over without a warning exactly where the changed lines
/// are the ones it was given to: where the saved hunk has an anchor and the live
/// one has the same.
pub proof fn warned_exactly_when_changes_differ(
    live: Seq<HunkModel>,
    saved: Seq<HunkStateModel>,
    used: Seq<bool>,
)
    requires
        used.len() == saved.len(),
    ensures
        flags_told(crate::reanchor::match_file(live, saved, used), live, saved),
{
    let n = live.len();
    let start = crate::reanchor::unmatched(live, used);
    let a = crate::reanchor::match_pass(Pass::Anchor, live, saved, start, n);
    let b = crate::reanchor::match_pass(Pass::Header, live, saved, a, n);
    lemma_anchor_pass_settles(live, saved, used, n);
    lemma_pass_sound(Pass::Anchor, live, saved, start, n, used);
    lemma_pass_keeps_settled(Pass::Header, live, saved, a, n, used);
    lemma_pass_sound(Pass::Header, live, saved, a, n, used);
    lemma_pass_keeps_settled(Pass::Near, live, saved, b, n, used);
}

/// The saved hunk that the live hunk `li` of the live file `k` took: its file
/// and its place there.
pub open spec fn source_of(
    saved: Seq<FileStateModel>,
    live: Seq<FileModel>,
    k: int,
    li: int,
) -> Option<(int, int)> {
    match crate::reanchor::file_with_path(saved, live[k].path, 0) {
        Some(fi) => {
            let m = crate::reanchor::match_file(
                live[k].hunks,
                saved[fi].hunks,
                crate::reanchor::used_after(saved, live, k as nat)[fi],
            );
            match m.taken[li] {
                Some(t) => Some((fi, t.saved)),
                None => None,
            }
        },
        None => None,
    }
}

pub proof fn lemma_file_with_path(files: Seq<FileStateModel>, path: Seq<char>, from: int)
    requires
        0 <= from,
    ensures
        match crate::reanchor::file_with_path(files, path, from) {
            Some(i) => from <= i < files.len() && files[i].path == path && forall|j: int|
                from <= j < i ==> (#[trigger] files[j]).path != path,
            None => forall|j: int| from <= j < files.len() ==> (#[trigger] files[j]).path != path,
        },
    decreases files.len() - from,
{
    if from < files.len() && files[from].path != path {
        lemma_file_with_path(files, path, from + 1);
    }
}

pub proof fn lemma_used_shape(saved: Seq<FileStateModel>, live: Seq<FileModel>, n: nat)
    requires
        n <= live.len(),
    ensures
        crate::reanchor::used_after(saved, live, n).len() == saved.len(),
        forall|fi: int|
            0 <= fi < saved.len() ==> (#[trigger] crate::reanchor::used_after(
                saved,
                live,
                n,
            )[fi]).len() == saved[fi].hunks.len(),
    decreases n,
{
    if n > 0 {
        lemma_used_shape(saved, live, (n - 1) as nat);
        lemma_file_with_path(saved, live[n - 1].path, 0);
        if let Some(fi) = crate::reanchor::file_with_path(saved, live[n - 1].path, 0) {
            let before = crate::reanchor::used_after(saved, live, (n - 1) as nat);
            lemma_match_file_sound(live[n - 1].hunks, saved[fi].hunks, before[fi]);
        }
    }
}

/// What is used stays used.
pub proof fn lemma_used_grows(
    saved: Seq<FileStateModel>,
    live: Seq<FileModel>,
    m: nat,
    n: nat,
    fi: int,
    hi: int,
)
    requires
        m <= n <= live.len(),
        0 <= fi < saved.len(),
        0 <= hi < saved[fi].hunks.len(),
        crate::reanchor::used_after(saved, live, m)[fi][hi],
    ensures
        crate::reanchor::used_after(saved, live, n)[fi][hi],
    decreases n,
{
    if m < n {
        lemma_used_grows(saved, live, m, (n - 1) as nat, fi, hi);
        lemma_used_shape(saved, live, (n - 1) as nat);
        lemma_file_with_path(saved, live[n - 1].path, 0);
        if let Some(fj) = crate::reanchor::file_with_path(saved, live[n - 1].path, 0) {
            let before = crate::reanchor::used_after(saved, live, (n - 1) as nat);
            lemma_match_file_sound(live[n - 1].hunks, saved[fj].hunks, before[fj]);
        }
    }
}

/// A saved hunk goes to at most one live hunk.
pub proof fn saved_hunk_goes_to_one_live_hunk(
    saved: Seq<FileStateModel>,
    live: Seq<FileModel>,
    k: int,
    li: int,
    k2: int,
    li2: int,
)
    requires
        0 <= k < live.len(),
        0 <= li < live[k].hunks.len(),
        0 <= k2 < live.len(),
        0 <= li2 < live[k2].hunks.len(),
        source_of(saved, live, k, li) is Some,
        source_of(saved, live, k, li) == source_of(saved, live, k2, li2),
    ensures
        k == k2 && li == li2,
{
    if k2 < k {
        lemma_one_taker_in_order(saved, live, k2, li2, k, li);
    } else {
        lemma_one_taker_in_order(saved, live, k, li, k2, li2);
    }
}

proof fn lemma_one_taker_in_order(
    saved: Seq<FileStateModel>,
    live: Seq<FileModel>,
    k: int,
    li: int,
    k2: int,
    li2: int,
)
    requires
        0 <= k <= k2 < live.len(),
        0 <= li < live[k].hunks.len(),
        0 <= li2 < live[k2].hunks.len(),
        source_of(saved, live, k, li) is Some,
        source_of(saved, live, k, li) == source_of(saved, live, k2, li2),
    ensures
        k == k2 && li == li2,
{
    let (fi, hi) = source_of(saved, live, k, li)->0;
    lemma_file_with_path(saved, live[k].path, 0);
    lemma_file_with_path(saved, live[k2].path, 0);
    lemma_used_shape(saved, live, k as nat);
    lemma_used_shape(saved, live, k2 as nat);
    let u = crate::reanchor::used_after(saved, live, k as nat)[fi];
    let u2 = crate::reanchor::used_after(saved, live, k2 as nat)[fi];
    lemma_match_file_sound(live[k].hunks, saved[fi].hunks, u);
    lemma_match_file_sound(live[k2].hunks, saved[fi].hunks, u2);
    let m = crate::reanchor::match_file(live[k].hunks, saved[fi].hunks, u);
    let m2 = crate::reanchor::match_file(live[k2].hunks, saved[fi].hunks, u2);
    assert(m.taken[li]->0.saved == hi);
    assert(m2.taken[li2]->0.saved == hi);
    if k < k2 {
        assert(crate::reanchor::used_after(saved, live, (k + 1) as nat)[fi] == m.used);
        lemma_used_grows(saved, live, (k + 1) as nat, k2 as nat, fi, hi);
        assert(!u2[hi]);
    }
}

/// The live hunk `li` of the live file `k` exists and took the saved hunk `hi`
/// of the saved file `fi`.
pub open spec fn took(
    saved: Seq<FileStateModel>,
    live: Seq<FileModel>,
    k: int,
    li: int,
    fi: int,
    hi: int,
) -> bool {
    &&& 0 <= k < live.len()
    &&& 0 <= li < live[k].hunks.len()
    &&& source_of(saved, live, k, li) == Some((fi, hi))
}

pub proof fn lemma_used_has_taker(
    saved: Seq<FileStateModel>,
    live: Seq<FileModel>,
    n: nat,
    fi: int,
    hi: int,
)
    requires
        n <= live.len(),
        0 <= fi < saved.len(),
        0 <= hi < saved[fi].hunks.len(),
        crate::reanchor::used_after(saved, live, n)[fi][hi],
    ensures
        exists|k: int, li: int| took(saved, live, k, li, fi, hi),
    decreases n,
{
    if n > 0 {
        let before = crate::reanchor::used_after(saved, live, (n - 1) as nat);
        lemma_used_shape(saved, live, (n - 1) as nat);
        lemma_file_with_path(saved, live[n - 1].path, 0);
        if before[fi][hi] {
            lemma_used_has_taker(saved, live, (n - 1) as nat, fi, hi);
        } else {
            let m = crate::reanchor::match_file(live[n - 1].hunks, saved[fi].hunks, before[fi]);
            lemma_match_file_sound(live[n - 1].hunks, saved[fi].hunks, before[fi]);
            assert(m.used[hi]);
            assert(has_taker(m, live[n - 1].hunks.len(), hi));
            let li = choose|li: int|
                0 <= li < live[n - 1].hunks.len() && (#[trigger] m.taken[li]) is Some
                    && m.taken[li]->0.saved == hi;
            assert(took(saved, live, n - 1, li, fi, hi));
        }
    } else {
        assert(!crate::reanchor::none_used(saved)[fi][hi]);
    }
}

proof fn lemma_file_orphans_hold(f: FileStateModel, used: Seq<bool>, n: nat, hi: int)
    requires
        0 <= hi < n <= f.hunks.len(),
        !used[hi],
        crate::reanchor::worth_keeping(f.hunks[hi]),
    ensures
        crate::reanchor::file_orphans(f, used, n).contains(
            crate::reanchor::orphan(f.path, f.hunks[hi]),
        ),
    decreases n,
{
    let o = crate::reanchor::orphan(f.path, f.hunks[hi]);
    let before = crate::reanchor::file_orphans(f, used, (n - 1) as nat);
    if hi == n - 1 {
        assert(before.push(o).last() == o);
    } else {
        lemma_file_orphans_hold(f, used, (n - 1) as nat, hi);
        let i = before.index_of(o);
        assert(crate::reanchor::file_orphans(f, used, n)[i] == o);
    }
}

pub proof fn lemma_fresh_orphans_hold(
    files: Seq<FileStateModel>,
    used: Seq<Seq<bool>>,
    n: nat,
    fi: int,
    hi: int,
)
    requires
        0 <= fi < n <= files.len(),
        0 <= hi < files[fi].hunks.len(),
        !used[fi][hi],
        crate::reanchor::worth_keeping(files[fi].hunks[hi]),
    ensures
        crate::reanchor::fresh_orphans(files, used, n).contains(
            crate::reanchor::orphan(files[fi].path, files[fi].hunks[hi]),
        ),
    decreases n,
{
    let o = crate::reanchor::orphan(files[fi].path, files[fi].hunks[hi]);
    let before = crate::reanchor::fresh_orphans(files, used, (n - 1) as nat);
    let all = crate::reanchor::fresh_orphans(files, used, n);
    if fi == n - 1 {
        let last = crate::reanchor::file_orphans(files[fi], used[fi], files[fi].hunks.len());
        lemma_file_orphans_hold(files[fi], used[fi], files[fi].hunks.len(), hi);
        let i = last.index_of(o);
        assert(all[before.len() + i] == o);
    } else {
        lemma_fresh_orphans_hold(files, used, (n - 1) as nat, fi, hi);
        let i = before.index_of(o);
        assert(all[i] == o);
    }
}

pub proof fn lemma_with_olds_keeps(orphans: Seq<OrphanModel>, olds: Seq<OrphanModel>, n: nat, i: int)
    requires
        0 <= i < orphans.len(),
    ensures
        i < crate::reanchor::with_olds(orphans, olds, n).len(),
        crate::reanchor::with_olds(orphans, olds, n)[i] == orphans[i],
    decreases n,
{
    if n > 0 {
        lemma_with_olds_keeps(orphans, olds, (n - 1) as nat, i);
    }
}

/// Some orphan in `all` stands for the same hunk as `o`.
pub open spec fn listed(all: Seq<OrphanModel>, o: OrphanModel) -> bool {
    exists|i: int| 0 <= i < all.len() && crate::reanchor::same_orphan(#[trigger] all[i], o)
}

pub proof fn lemma_olds_are_listed(orphans: Seq<OrphanModel>, olds: Seq<OrphanModel>, n: nat, j: int)
    requires
        0 <= j < n <= olds.len(),
    ensures
        listed(crate::reanchor::with_olds(orphans, olds, n), olds[j]),
    decreases n,
{
    let before = crate::reanchor::with_olds(orphans, olds, (n - 1) as nat);
    let all = crate::reanchor::with_olds(orphans, olds, n);
    if j < n - 1 {
        lemma_olds_are_listed(orphans, olds, (n - 1) as nat, j);
        let i = choose|i: int|
            0 <= i < before.len() && crate::reanchor::same_orphan(#[trigger] before[i], olds[j]);
        assert(all[i] == before[i]);
    } else if all != before {
        assert(all[before.len() as int] == olds[j]);
    }
}

/// No reviewed hunk is lost. A saved hunk with a verdict, or with a comment that
/// is not blank, either goes to a live hunk, which then has that verdict and,
/// where there is one, that comment; or it is among the orphans.
pub proof fn no_reviewed_hunk_is_lost(
    saved: StateModel,
    live: Seq<FileModel>,
    fi: int,
    hi: int,
)
    requires
        0 <= fi < saved.files.len(),
        0 <= hi < saved.files[fi].hunks.len(),
        crate::reanchor::worth_keeping(saved.files[fi].hunks[hi]),
    ensures
        ({
            let s = saved.files[fi].hunks[hi];
            ||| exists|k: int, li: int|
                #[trigger] took(saved.files, live, k, li, fi, hi) && ({
                    let h = crate::reanchor::reanchored(saved.files, live)[k].hunks[li];
                    &&& h.status == crate::reanchor::word_status(s.status)
                    &&& s.comment matches Some(c) ==> h.comment == c
                })
            ||| crate::reanchor::orphans_of(saved, live).contains(
                crate::reanchor::orphan(saved.files[fi].path, s),
            )
        }),
{
    let used = crate::reanchor::used_after(saved.files, live, live.len());
    let s = saved.files[fi].hunks[hi];
    if used[fi][hi] {
        lemma_used_has_taker(saved.files, live, live.len(), fi, hi);
        let (k, li) = choose|k: int, li: int| took(saved.files, live, k, li, fi, hi);
        let h = crate::reanchor::reanchored(saved.files, live)[k].hunks[li];
        assert(took(saved.files, live, k, li, fi, hi));
        assert(h.status == crate::reanchor::word_status(s.status));
    } else {
        let n = saved.files.len();
        let o = crate::reanchor::orphan(saved.files[fi].path, s);
        lemma_fresh_orphans_hold(saved.files, used, n, fi, hi);
        let fresh = crate::reanchor::fresh_orphans(saved.files, used, n);
        let i = fresh.index_of(o);
        lemma_with_olds_keeps(fresh, saved.orphaned, saved.orphaned.len(), i);
        assert(crate::reanchor::orphans_of(saved, live)[i] == o);
    }
}

/// An orphan stays one: what was orphaned before is still listed.
pub proof fn orphans_stay_listed(saved: StateModel, live: Seq<FileModel>, j: int)
    requires
        0 <= j < saved.orphaned.len(),
    ensures
        listed(crate::reanchor::orphans_of(saved, live), saved.orphaned[j]),
{
    let used = crate::reanchor::used_after(saved.files, live, live.len());
    lemma_olds_are_listed(
        crate::reanchor::fresh_orphans(saved.files, used, saved.files.len()),
        saved.orphaned,
        saved.orphaned.len(),
        j,
    );
}

/// Re-anchoring changes verdicts, comments and flags, never the diff: files,
/// paths, headers and rows stay.
pub proof fn reanchoring_keeps_the_diff(
    saved: Seq<FileStateModel>,
    live: Seq<FileModel>,
    k: int,
    li: int,
)
    requires
        0 <= k < live.len(),
        0 <= li < live[k].hunks.len(),
    ensures
        ({
            let after = crate::reanchor::reanchored(saved, live);
            &&& after.len() == live.len()
            &&& after[k].path == live[k].path
            &&& after[k].hunks.len() == live[k].hunks.len()
            &&& after[k].hunks[li].header == live[k].hunks[li].header
            &&& after[k].hunks[li].rows == live[k].hunks[li].rows
        }),
{
}

/// The changes of the live hunk `li` and of the saved hunk `si` are the same,
/// and no other hunk on either side has them.
pub open spec fn sole_match(
    live: Seq<HunkModel>,
    saved: Seq<HunkStateModel>,
    li: int,
    si: int,
) -> bool {
    &&& 0 <= li < live.len()
    &&& 0 <= si < saved.len()
    &&& crate::reanchor::same_changes(live[li], saved[si])
    &&& forall|lj: int|
        0 <= lj < live.len() && lj != li ==> !crate::reanchor::same_changes(
            #[trigger] live[lj],
            saved[si],
        )
    &&& forall|sj: int|
        0 <= sj < saved.len() && sj != si ==> !crate::reanchor::same_changes(
            live[li],
            #[trigger] saved[sj],
        )
}

proof fn lemma_sole_match_by_anchor(
    live: Seq<HunkModel>,
    saved: Seq<HunkStateModel>,
    used: Seq<bool>,
    li: int,
    si: int,
    n: nat,
)
    requires
        used.len() == saved.len(),
        sole_match(live, saved, li, si),
        !used[si],
        n <= live.len(),
    ensures
        ({
            let m = crate::reanchor::match_pass(
                Pass::Anchor,
                live,
                saved,
                crate::reanchor::unmatched(live, used),
                n,
            );
            if n <= li {
                m.taken[li] is None && !m.used[si]
            } else {
                m.taken[li] == Some(Taken { saved: si, changed: false })
            }
        }),
    decreases n,
{
    let start = crate::reanchor::unmatched(live, used);
    if n > 0 {
        let before = crate::reanchor::match_pass(Pass::Anchor, live, saved, start, (n - 1) as nat);
        lemma_sole_match_by_anchor(live, saved, used, li, si, (n - 1) as nat);
        lemma_pass_sound(Pass::Anchor, live, saved, start, (n - 1) as nat, used);
        lemma_first_fit(Pass::Anchor, live[n - 1], saved, before.used, 0);
        if n - 1 == li {
            assert(crate::reanchor::fits(Pass::Anchor, live[li], saved[si]));
        }
    }
}

pub proof fn lemma_taken_stays_taken(
    pass: Pass,
    live: Seq<HunkModel>,
    saved: Seq<HunkStateModel>,
    m: Matching,
    li: int,
    n: nat,
    start: Seq<bool>,
)
    requires
        sound(m, live.len(), saved.len(), start),
        0 <= li < live.len(),
        n <= live.len(),
        m.taken[li] is Some,
    ensures
        crate::reanchor::match_pass(pass, live, saved, m, n).taken[li] == m.taken[li],
    decreases n,
{
    if n > 0 {
        lemma_taken_stays_taken(pass, live, saved, m, li, (n - 1) as nat, start);
        lemma_pass_sound(pass, live, saved, m, (n - 1) as nat, start);
    }
}

/// A hunk that only moved keeps its verdict, without a warning: where one live
/// hunk and one saved hunk of the file have the same changes and no other hunk
/// has them, the live hunk takes the saved one, whatever their headers are.
pub proof fn moved_hunk_keeps_its_verdict(
    live: Seq<HunkModel>,
    saved: Seq<HunkStateModel>,
    used: Seq<bool>,
    li: int,
    si: int,
)
    requires
        used.len() == saved.len(),
        sole_match(live, saved, li, si),
        !used[si],
    ensures
        crate::reanchor::match_file(live, saved, used).taken[li] == Some(
            Taken { saved: si, changed: false },
        ),
{
    let n = live.len();
    let start = crate::reanchor::unmatched(live, used);
    let a = crate::reanchor::match_pass(Pass::Anchor, live, saved, start, n);
    let b = crate::reanchor::match_pass(Pass::Header, live, saved, a, n);
    lemma_sole_match_by_anchor(live, saved, used, li, si, n);
    lemma_pass_sound(Pass::Anchor, live, saved, start, n, used);
    lemma_taken_stays_taken(Pass::Header, live, saved, a, li, n, used);
    lemma_pass_sound(Pass::Header, live, saved, a, n, used);
    lemma_taken_stays_taken(Pass::Near, live, saved, b, li, n, used);
}

/// `live` is the diff of `files` computed anew: the same files and hunks, and
/// nothing reviewed in them.
pub open spec fn computed_anew(files: Seq<FileModel>, live: Seq<FileModel>) -> bool {
    &&& live.len() == files.len()
    &&& forall|k: int|
        0 <= k < files.len() ==> (#[trigger] live[k]).path == files[k].path && hunks_anew(
            files[k].hunks,
            live[k].hunks,
        )
}

/// The same hunks, and nothing reviewed in them.
pub open spec fn hunks_anew(hunks: Seq<HunkModel>, live: Seq<HunkModel>) -> bool {
    &&& live.len() == hunks.len()
    &&& forall|i: int|
        0 <= i < hunks.len() ==> #[trigger] live[i] == crate::diff::fresh_hunk(
            hunks[i].header,
            hunks[i].rows,
        )
}

/// No two files have the same path.
pub open spec fn paths_distinct(files: Seq<FileModel>) -> bool {
    forall|i: int, j: int|
        0 <= i < j < files.len() ==> (#[trigger] files[i]).path != (#[trigger] files[j]).path
}

/// The hunk as it comes back: with its verdict and its comment, a blank one
/// left out; flagged only where there are no changed lines to know it by.
pub open spec fn restored_hunk(h: HunkModel) -> HunkModel {
    HunkModel {
        comment: if crate::text::is_blank(h.comment) {
            Seq::empty()
        } else {
            h.comment
        },
        changed_since_review: crate::diff::changes(h.rows).len() == 0,
        ..h
    }
}

/// The files as they come back.
pub open spec fn restored(files: Seq<FileModel>) -> Seq<FileModel> {
    files.map_values(
        |f: FileModel|
            FileModel { path: f.path, hunks: f.hunks.map_values(|h: HunkModel| restored_hunk(h)) },
    )
}

spec fn anchored(h: HunkModel) -> bool {
    crate::diff::anchor(h).len() > 0
}

/// Where the passes stand once `a` hunks were offered the anchor pass and `b`
/// the header pass: each of those that could be taken took its own.
spec fn own_so_far(hunks: Seq<HunkModel>, a: int, b: int) -> Matching {
    Matching {
        used: Seq::new(hunks.len(), |i: int| own_taken(hunks, a, b, i)),
        taken: Seq::new(
            hunks.len(),
            |i: int|
                if own_taken(hunks, a, b, i) {
                    Some(Taken { saved: i, changed: !anchored(hunks[i]) })
                } else {
                    None
                },
        ),
    }
}

spec fn own_taken(hunks: Seq<HunkModel>, a: int, b: int, i: int) -> bool {
    (i < a && anchored(hunks[i])) || i < b
}

proof fn lemma_own_by_anchor(hunks: Seq<HunkModel>, live: Seq<HunkModel>, n: nat)
    requires
        hunks_anew(hunks, live),
        n <= hunks.len(),
    ensures
        ({
            let saved = hunks.map_values(|h: HunkModel| crate::review_state::saved_hunk(h));
            crate::reanchor::match_pass(
                Pass::Anchor,
                live,
                saved,
                crate::reanchor::unmatched(live, Seq::new(hunks.len(), |i: int| false)),
                n,
            ) == own_so_far(hunks, n as int, 0)
        }),
    decreases n,
{
    let saved = hunks.map_values(|h: HunkModel| crate::review_state::saved_hunk(h));
    let start = crate::reanchor::unmatched(live, Seq::new(hunks.len(), |i: int| false));
    if n == 0 {
        assert(start == own_so_far(hunks, 0, 0));
    } else {
        lemma_own_by_anchor(hunks, live, (n - 1) as nat);
        let m = own_so_far(hunks, n - 1, 0);
        let li = n - 1;
        assert(live[li].rows == hunks[li].rows);
        lemma_first_fit(Pass::Anchor, live[li], saved, m.used, 0);
        assert(saved[li].anchor == crate::diff::anchor(live[li]));
        assert forall|j: int|
            0 <= j < li && crate::reanchor::fits(
                Pass::Anchor,
                live[li],
                #[trigger] saved[j],
            ) implies m.used[j] by {
            assert(saved[j].anchor == crate::diff::anchor(hunks[j]));
        }
        let after = crate::reanchor::match_step(Pass::Anchor, live, saved, m, li);
        if anchored(hunks[li]) {
            assert(crate::reanchor::fits(Pass::Anchor, live[li], saved[li]));
            assert(crate::reanchor::first_fit(Pass::Anchor, live[li], saved, m.used, 0) == Some(
                li as int,
            ));
        }
        assert(after.used == own_so_far(hunks, n as int, 0).used);
        assert(after.taken == own_so_far(hunks, n as int, 0).taken);
    }
}

proof fn lemma_own_by_header(hunks: Seq<HunkModel>, live: Seq<HunkModel>, n: nat)
    requires
        hunks_anew(hunks, live),
        n <= hunks.len(),
    ensures
        ({
            let saved = hunks.map_values(|h: HunkModel| crate::review_state::saved_hunk(h));
            crate::reanchor::match_pass(
                Pass::Header,
                live,
                saved,
                own_so_far(hunks, hunks.len() as int, 0),
                n,
            ) == own_so_far(hunks, hunks.len() as int, n as int)
        }),
    decreases n,
{
    let saved = hunks.map_values(|h: HunkModel| crate::review_state::saved_hunk(h));
    let all = hunks.len() as int;
    if n > 0 {
        lemma_own_by_header(hunks, live, (n - 1) as nat);
        let m = own_so_far(hunks, all, n - 1);
        let li = n - 1;
        assert(live[li].rows == hunks[li].rows);
        lemma_first_fit(Pass::Header, live[li], saved, m.used, 0);
        let after = crate::reanchor::match_step(Pass::Header, live, saved, m, li);
        if !anchored(hunks[li]) {
            assert(crate::reanchor::fits(Pass::Header, live[li], saved[li]));
            assert(crate::reanchor::first_fit(Pass::Header, live[li], saved, m.used, 0) == Some(
                li as int,
            ));
        }
        assert(after.used == own_so_far(hunks, all, n as int).used);
        assert(after.taken == own_so_far(hunks, all, n as int).taken);
    }
}

proof fn lemma_all_taken_stays(
    live: Seq<HunkModel>,
    saved: Seq<HunkStateModel>,
    m: Matching,
    n: nat,
)
    requires
        n <= live.len(),
        m.taken.len() == live.len(),
        forall|i: int| 0 <= i < live.len() ==> (#[trigger] m.taken[i]) is Some,
    ensures
        crate::reanchor::match_pass(Pass::Near, live, saved, m, n) == m,
    decreases n,
{
    if n > 0 {
        lemma_all_taken_stays(live, saved, m, (n - 1) as nat);
        assert(m.taken[n - 1] is Some);
    }
}

/// Each hunk of an unchanged file takes its own.
proof fn lemma_each_takes_its_own(hunks: Seq<HunkModel>, live: Seq<HunkModel>)
    requires
        hunks_anew(hunks, live),
    ensures
        ({
            let saved = hunks.map_values(|h: HunkModel| crate::review_state::saved_hunk(h));
            let n = hunks.len() as int;
            crate::reanchor::match_file(live, saved, Seq::new(hunks.len(), |i: int| false))
                == own_so_far(hunks, n, n)
        }),
{
    let saved = hunks.map_values(|h: HunkModel| crate::review_state::saved_hunk(h));
    let n = hunks.len();
    lemma_own_by_anchor(hunks, live, n);
    lemma_own_by_header(hunks, live, n);
    lemma_all_taken_stays(live, saved, own_so_far(hunks, n as int, n as int), n);
}

proof fn lemma_words_read_back(s: ReviewStatus)
    ensures
        crate::reanchor::word_status(crate::diff::status_word(s)) == s,
{
    reveal_strlit("approved");
    reveal_strlit("rejected");
    reveal_strlit("unreviewed");
    assert("approved"@[0] == 'a');
    assert("rejected"@[0] == 'r');
    assert("unreviewed"@[0] == 'u');
}

proof fn lemma_used_of_later_files(files: Seq<FileModel>, live: Seq<FileModel>, n: nat)
    requires
        paths_distinct(files),
        computed_anew(files, live),
        n <= files.len(),
    ensures
        ({
            let saved = crate::review_state::saved_files(files);
            let used = crate::reanchor::used_after(saved, live, n);
            &&& used.len() == files.len()
            &&& forall|k: int|
                0 <= k < files.len() ==> #[trigger] used[k] == Seq::new(
                    files[k].hunks.len(),
                    |i: int| k < n,
                )
        }),
    decreases n,
{
    let saved = crate::review_state::saved_files(files);
    let used = crate::reanchor::used_after(saved, live, n);
    if n == 0 {
        assert forall|k: int| 0 <= k < files.len() implies #[trigger] used[k] == Seq::new(
            files[k].hunks.len(),
            |i: int| k < n,
        ) by {
            assert(used[k] =~= Seq::new(files[k].hunks.len(), |i: int| k < n));
        }
    } else {
        lemma_used_of_later_files(files, live, (n - 1) as nat);
        let before = crate::reanchor::used_after(saved, live, (n - 1) as nat);
        lemma_path_finds_itself(files, live, n - 1);
        lemma_each_takes_its_own(files[n - 1].hunks, live[n - 1].hunks);
        assert(before[n - 1] =~= Seq::new(files[n - 1].hunks.len(), |i: int| false));
        assert(saved[n - 1].hunks == files[n - 1].hunks.map_values(
            |h: HunkModel| crate::review_state::saved_hunk(h),
        ));
        assert forall|k: int| 0 <= k < files.len() implies #[trigger] used[k] == Seq::new(
            files[k].hunks.len(),
            |i: int| k < n,
        ) by {
            assert(before[k] == Seq::new(files[k].hunks.len(), |i: int| k < n - 1));
            assert(used[k] =~= Seq::new(files[k].hunks.len(), |i: int| k < n));
        }
    }
}

proof fn lemma_path_finds_itself(files: Seq<FileModel>, live: Seq<FileModel>, k: int)
    requires
        paths_distinct(files),
        computed_anew(files, live),
        0 <= k < files.len(),
    ensures
        crate::reanchor::file_with_path(
            crate::review_state::saved_files(files),
            live[k].path,
            0,
        ) == Some(k),
{
    let saved = crate::review_state::saved_files(files);
    lemma_file_with_path(saved, live[k].path, 0);
    assert(saved[k].path == live[k].path);
    if let Some(i) = crate::reanchor::file_with_path(saved, live[k].path, 0) {
        assert(saved[i].path == files[i].path);
        if i < k {
            assert(files[i].path != files[k].path);
        }
    }
}

proof fn lemma_nothing_orphaned(
    files: Seq<FileStateModel>,
    used: Seq<Seq<bool>>,
    n: nat,
)
    requires
        n <= files.len(),
        forall|k: int, i: int|
            0 <= k < files.len() && 0 <= i < files[k].hunks.len() ==> #[trigger] used[k][i],
    ensures
        crate::reanchor::fresh_orphans(files, used, n) == Seq::<OrphanModel>::empty(),
    decreases n,
{
    if n > 0 {
        lemma_nothing_orphaned(files, used, (n - 1) as nat);
        lemma_no_file_orphans(files, used, n - 1, files[n - 1].hunks.len());
    }
}

proof fn lemma_no_file_orphans(
    files: Seq<FileStateModel>,
    used: Seq<Seq<bool>>,
    k: int,
    n: nat,
)
    requires
        0 <= k < files.len(),
        n <= files[k].hunks.len(),
        forall|i: int| 0 <= i < files[k].hunks.len() ==> #[trigger] used[k][i],
    ensures
        crate::reanchor::file_orphans(files[k], used[k], n) == Seq::<OrphanModel>::empty(),
    decreases n,
{
    if n > 0 {
        lemma_no_file_orphans(files, used, k, (n - 1) as nat);
        assert(used[k][n - 1]);
    }
}

/// A review survives a reload. When a diff is computed anew and has not
/// changed, every hunk gets back the verdict and the comment that were saved
/// for it, and nothing is orphaned that was not an orphan before. Left out are
/// diffs in which two files have the same path.
pub proof fn review_survives_a_reload(
    state: StateModel,
    files: Seq<FileModel>,
    live: Seq<FileModel>,
)
    requires
        state.files == crate::review_state::saved_files(files),
        paths_distinct(files),
        computed_anew(files, live),
    ensures
        crate::reanchor::reanchored(state.files, live) == restored(files),
        crate::reanchor::orphans_of(state, live) == crate::reanchor::with_olds(
            Seq::empty(),
            state.orphaned,
            state.orphaned.len(),
        ),
{
    let saved = state.files;
    let after = crate::reanchor::reanchored(saved, live);
    let goal = restored(files);
    assert forall|k: int| 0 <= k < files.len() implies #[trigger] after[k] == goal[k] by {
        lemma_path_finds_itself(files, live, k);
        lemma_used_of_later_files(files, live, k as nat);
        lemma_each_takes_its_own(files[k].hunks, live[k].hunks);
        let used = crate::reanchor::used_after(saved, live, k as nat);
        assert(used[k] =~= Seq::new(files[k].hunks.len(), |i: int| false));
        assert(saved[k].hunks == files[k].hunks.map_values(
            |h: HunkModel| crate::review_state::saved_hunk(h),
        ));
        assert forall|i: int| 0 <= i < files[k].hunks.len() implies #[trigger] after[k].hunks[i]
            == goal[k].hunks[i] by {
            lemma_words_read_back(files[k].hunks[i].status);
            crate::diff::anchor_is_empty_without_changes(files[k].hunks[i]);
            assert(live[k].hunks[i] == crate::diff::fresh_hunk(
                files[k].hunks[i].header,
                files[k].hunks[i].rows,
            ));
        }
        assert(after[k].hunks == goal[k].hunks);
    }
    assert(after == goal);
    lemma_used_of_later_files(files, live, files.len());
    let used = crate::reanchor::used_after(saved, live, live.len());
    assert forall|k: int, i: int|
        0 <= k < saved.len() && 0 <= i < saved[k].hunks.len() implies #[trigger] used[k][i] by {
        assert(used[k] == Seq::new(files[k].hunks.len(), |i: int| k < files.len()));
    }
    lemma_nothing_orphaned(saved, used, saved.len());
}

} // verus!
