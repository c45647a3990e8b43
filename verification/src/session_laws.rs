//! What is fetched, kept, shown and acted on while a review is open.

use crate::content::{ContentKeyModel, ContentModel, EntryModel, SelectionModel};
use crate::diff::{DiffSource, FileModel, HunkModel, ReviewStatus};
use crate::nav::{NavModel, RowAlign};
use crate::overlay::{GotoModel, Rank};
use crate::pane::SourcesModel;
use crate::review_state::StateModel;
use crate::rows::{Extent, Layout, RenderModel};
use crate::session::{ResumedModel, ReviewModel};
use vstd::prelude::*;

verus! {

/// The summary of a changed file needs nothing fetched; a changed file that is
/// shown whole needs its full diff, and any other file its text, both of the
/// comparison that is open.
pub proof fn what_is_shown_whole_is_fetched(
    i: usize,
    p: Seq<char>,
    extent: Extent,
    source: DiffSource,
    base: Seq<char>,
    files: Seq<FileModel>,
)
    ensures
        crate::content::needed(
            SelectionModel::Changed(i),
            Extent::Summary,
            source,
            base,
            files,
        ) is None,
        i < files.len() ==> {
            let k = crate::content::needed(
                SelectionModel::Changed(i),
                Extent::Full,
                source,
                base,
                files,
            );
            k is Some && k->0.path == files[i as int].path && k->0.full_diff && k->0.source == source
                && k->0.base == base
        },
        ({
            let k = crate::content::needed(SelectionModel::Path(p), extent, source, base, files);
            k is Some && k->0.path == p && !k->0.full_diff && k->0.source == source && k->0.base
                == base
        }),
{
}

proof fn lemma_hunks_at(files: Seq<FileModel>, path: Seq<char>, from: int, k: int)
    requires
        0 <= from <= k < files.len(),
        files[k].path == path,
        forall|i: int| from <= i < k ==> (#[trigger] files[i]).path != path,
    ensures
        crate::content::hunks_at(files, path, from) == files[k].hunks,
    decreases k - from,
{
    if from < k {
        lemma_hunks_at(files, path, from + 1, k);
    }
}

proof fn lemma_no_hunks_at(files: Seq<FileModel>, path: Seq<char>, from: int)
    requires
        0 <= from,
        forall|i: int| from <= i < files.len() ==> (#[trigger] files[i]).path != path,
    ensures
        crate::content::hunks_at(files, path, from).len() == 0,
    decreases files.len() - from,
{
    if from < files.len() {
        lemma_no_hunks_at(files, path, from + 1);
    }
}

/// The hunks of a path are those of the first file that has it, all of them, and
/// none where no file has it.
pub proof fn hunks_are_found_by_path(files: Seq<FileModel>, path: Seq<char>, k: int)
    ensures
        0 <= k < files.len() && files[k].path == path && (forall|i: int|
            0 <= i < k ==> (#[trigger] files[i]).path != path) ==> crate::content::hunks_at(
            files,
            path,
            0,
        ) == files[k].hunks,
        (forall|i: int| 0 <= i < files.len() ==> (#[trigger] files[i]).path != path)
            ==> crate::content::hunks_at(files, path, 0).len() == 0,
{
    if 0 <= k < files.len() && files[k].path == path && (forall|i: int|
        0 <= i < k ==> (#[trigger] files[i]).path != path) {
        lemma_hunks_at(files, path, 0, k);
    }
    if forall|i: int| 0 <= i < files.len() ==> (#[trigger] files[i]).path != path {
        lemma_no_hunks_at(files, path, 0);
    }
}

proof fn lemma_at(entries: Seq<EntryModel>, key: ContentKeyModel, from: int, k: int)
    requires
        0 <= from <= k < entries.len(),
        entries[k].0 == key,
        forall|i: int| from <= i < k ==> (#[trigger] entries[i]).0 != key,
    ensures
        crate::content::position(entries, key, from) == Some(k),
    decreases k - from,
{
    if from < k {
        lemma_at(entries, key, from + 1, k);
    }
}

proof fn lemma_not_there(entries: Seq<EntryModel>, key: ContentKeyModel, from: int)
    requires
        0 <= from,
        forall|i: int| from <= i < entries.len() ==> (#[trigger] entries[i]).0 != key,
    ensures
        crate::content::position(entries, key, from) is None,
    decreases entries.len() - from,
{
    if from < entries.len() {
        lemma_not_there(entries, key, from + 1);
    }
}

/// The cache gives back what is stored under a key, and nothing for a key under
/// which nothing is stored.
pub proof fn the_cache_gives_back_what_is_stored(
    entries: Seq<EntryModel>,
    key: ContentKeyModel,
    k: int,
)
    requires
        crate::content::keys_distinct(entries),
    ensures
        0 <= k < entries.len() ==> crate::content::lookup(entries, entries[k].0) == Some(
            entries[k].1,
        ),
        (forall|i: int| 0 <= i < entries.len() ==> (#[trigger] entries[i]).0 != key)
            ==> crate::content::lookup(entries, key) is None,
{
    if 0 <= k < entries.len() {
        lemma_at(entries, entries[k].0, 0, k);
    }
    if forall|i: int| 0 <= i < entries.len() ==> (#[trigger] entries[i]).0 != key {
        lemma_not_there(entries, key, 0);
    }
}

/// In a full cache a new key takes the place of the oldest one, which is gone;
/// where there is room, or the key is there already, nothing goes.
pub proof fn the_oldest_goes_first(
    entries: Seq<EntryModel>,
    cap: nat,
    key: ContentKeyModel,
    val: ContentModel,
)
    requires
        0 < cap,
        entries.len() <= cap,
        crate::content::keys_distinct(entries),
    ensures
        ({
            let after = crate::content::inserted(entries, cap, key, val);
            let is_new = forall|i: int| 0 <= i < entries.len() ==> (#[trigger] entries[i]).0 != key;
            &&& is_new && entries.len() == cap ==> {
                &&& after.len() == cap
                &&& crate::content::lookup(after, entries[0].0) is None
                &&& after.last() == (key, val)
            }
            &&& is_new && entries.len() < cap ==> after.len() == entries.len() + 1
            &&& !is_new ==> after.len() == entries.len()
        }),
{
    let after = crate::content::inserted(entries, cap, key, val);
    if forall|i: int| 0 <= i < entries.len() ==> (#[trigger] entries[i]).0 != key {
        lemma_not_there(entries, key, 0);
        if entries.len() == cap {
            assert forall|i: int| 0 <= i < after.len() implies (#[trigger] after[i]).0
                != entries[0].0 by {
                if i < after.len() - 1 {
                    assert(after[i] == entries[i + 1]);
                    assert(entries[0].0 != entries[i + 1].0);
                } else {
                    assert(after[i] == (key, val));
                }
            }
            lemma_not_there(after, entries[0].0, 0);
        }
    } else {
        let i = choose|i: int| 0 <= i < entries.len() && (#[trigger] entries[i]).0 == key;
        assert forall|j: int| 0 <= j < i implies (#[trigger] entries[j]).0 != key by {
            assert(entries[j].0 != entries[i].0);
        }
        lemma_at(entries, key, 0, i);
    }
}

/// Each fetch has a number of its own: it is never the one before, and two
/// fetches that follow different ones are told apart.
pub proof fn fetches_are_told_apart(a: u64, b: u64)
    ensures
        crate::content::next_gen(a) != a,
        crate::content::next_gen(a) == crate::content::next_gen(b) ==> a == b,
{
}

/// Several hunks together show a verdict where there is one that they all have.
/// A target that is no hunk does not count.
pub proof fn together_they_show_what_all_have(
    hunks: Seq<HunkModel>,
    targets: Seq<usize>,
    verdict: ReviewStatus,
)
    requires
        verdict != ReviewStatus::Unreviewed,
    ensures
        crate::controls::aggregate(hunks, targets) == verdict <==> {
            &&& exists|i: int| 0 <= i < targets.len() && #[trigger] targets[i] < hunks.len()
            &&& forall|i: int|
                0 <= i < targets.len() && #[trigger] targets[i] < hunks.len()
                    ==> hunks[targets[i] as int].status == verdict
        },
{
    if exists|i: int| 0 <= i < targets.len() && #[trigger] targets[i] < hunks.len() {
        let i = choose|i: int| 0 <= i < targets.len() && #[trigger] targets[i] < hunks.len();
        assert(targets[i] < hunks.len());
    }
}

/// A header acts on its own hunk; that of a whole file on every hunk of it.
pub proof fn a_header_acts_on_its_hunks(hunks: nat, idx: usize, k: usize)
    requires
        hunks <= usize::MAX,
    ensures
        crate::controls::targets_of(hunks, idx, false).contains(k) <==> k == idx,
        crate::controls::targets_of(hunks, idx, true).contains(k) <==> k < hunks,
        crate::controls::targets_of(hunks, idx, true).len() == hunks,
        crate::controls::targets_of(hunks, idx, false).len() == 1,
{
    let one = crate::controls::targets_of(hunks, idx, false);
    let all = crate::controls::targets_of(hunks, idx, true);
    assert(one[0] == idx);
    if k < hunks {
        assert(all[k as int] == k);
    }
}

/// What the cache has for what is selected.
pub open spec fn fetched(s: SourcesModel, path: Seq<char>, full_diff: bool) -> Option<
    ContentModel,
> {
    crate::content::lookup(
        s.contents,
        ContentKeyModel { path, full_diff, source: s.source, base: s.base },
    )
}

/// The pane shows a changed file with every line of both its sides: in the
/// summary those of its hunks, and whole those of the full diff that was fetched
/// for it.
pub proof fn the_pane_shows_both_sides(
    i: usize,
    layout: Layout,
    s: SourcesModel,
    error: Option<Seq<char>>,
)
    requires
        i < s.files.len(),
        s.files[i as int].hunks.len() <= usize::MAX,
    ensures
        ({
            let review = s.files[i as int].hunks;
            let rows = crate::rows::rows_of(review, review.len());
            let shown = crate::pane::rows_for(
                SelectionModel::Changed(i),
                layout,
                Extent::Summary,
                s,
                error,
            );
            &&& crate::rows_laws::old_column(shown) == crate::rows_laws::old_cells(rows)
            &&& crate::rows_laws::new_column(shown) == crate::rows_laws::new_cells(rows)
        }),
        ({
            let review = s.files[i as int].hunks;
            let full = match fetched(s, s.files[i as int].path, true) {
                Some(ContentModel::FullHunks(h)) => h,
                _ => review,
            };
            let rows = crate::rows::rows_of(full, full.len());
            let shown = crate::pane::rows_for(
                SelectionModel::Changed(i),
                layout,
                Extent::Full,
                s,
                error,
            );
            &&& crate::rows_laws::old_column(shown) == crate::rows_laws::old_cells(rows)
            &&& crate::rows_laws::new_column(shown) == crate::rows_laws::new_cells(rows)
        }),
{
    let review = s.files[i as int].hunks;
    let full = match fetched(s, s.files[i as int].path, true) {
        Some(ContentModel::FullHunks(h)) => h,
        _ => review,
    };
    crate::rows_laws::summary_keeps_both_sides(review, layout, review.len());
    crate::rows_laws::whole_file_keeps_both_sides(
        review,
        layout,
        crate::rows::rows_of(full, full.len()),
    );
}

/// The pane shows any other file with every line of the text that was fetched
/// for it, and says why where it could not be had.
pub proof fn the_pane_shows_every_line(
    p: Seq<char>,
    layout: Layout,
    extent: Extent,
    s: SourcesModel,
    error: Option<Seq<char>>,
    k: int,
)
    ensures
        ({
            let shown = crate::pane::rows_for(
                SelectionModel::Path(p),
                layout,
                extent,
                s,
                error,
            );
            match fetched(s, p, false) {
                Some(ContentModel::Full(text)) => {
                    &&& shown.len() == crate::text::lines(text).len()
                    &&& 0 <= k < shown.len() <= u32::MAX ==> shown[k] == (RenderModel::Plain {
                        text: crate::text::lines(text)[k],
                        lineno: (k + 1) as u32,
                    })
                },
                _ => shown == seq![
                    RenderModel::Plain {
                        text: "cannot read file: "@ + match error {
                            Some(e) => e,
                            None => "load failed"@,
                        },
                        lineno: 1,
                    },
                ],
            }
        }),
{
}

/// The pane names the file that is selected.
pub proof fn the_pane_names_its_file(i: usize, p: Seq<char>, files: Seq<FileModel>, nav: NavModel)
    ensures
        i < files.len() ==> crate::pane::path_of(SelectionModel::Changed(i), files)
            == files[i as int].path,
        crate::pane::path_of(SelectionModel::Path(p), files) == p,
        nav.selected == Some(SelectionModel::Path(p)) ==> crate::session::open_file_path(nav, files)
            == Some(p),
        nav.selected == Some(SelectionModel::Changed(i)) && i < files.len()
            ==> crate::session::open_file_path(nav, files) == Some(files[i as int].path),
        nav.selected == Some(SelectionModel::Changed(i)) && i >= files.len()
            ==> crate::session::open_file_path(nav, files) is None,
        nav.selected is None ==> crate::session::open_file_path(nav, files) is None,
{
}

/// What is kept of a review names its branch and its comparison, and has every
/// file and every orphan.
pub proof fn a_review_is_kept_whole(r: ReviewModel)
    ensures
        crate::session::state_of(r).branch == r.branch,
        r.source == DiffSource::WorkingTree ==> crate::session::state_of(r).range
            == "working tree vs HEAD"@,
        r.source == DiffSource::BranchRange ==> crate::session::state_of(r).range == r.base
            + "...HEAD"@,
        crate::session::state_of(r).files.len() == r.files.len(),
        forall|i: int|
            0 <= i < r.files.len() ==> (#[trigger] crate::session::state_of(r).files[i]).path
                == r.files[i].path && crate::session::state_of(r).files[i].hunks.len()
                == r.files[i].hunks.len(),
        crate::session::state_of(r).orphaned == r.orphaned,
{
}

/// A diff that was just computed keeps its files and lines, whatever was saved,
/// and the comparison stays. Where nothing was saved it is shown as it is.
pub proof fn a_diff_is_shown_as_computed(
    r: ReviewModel,
    branch: Seq<char>,
    files: Seq<FileModel>,
    saved: Option<StateModel>,
)
    ensures
        ({
            let after = crate::session::with_diff(r, branch, files, saved);
            &&& after.branch == branch
            &&& after.source == r.source
            &&& after.base == r.base
            &&& after.files.len() == files.len()
            &&& saved is None ==> after.files == files && after.orphaned.len() == 0
            &&& saved matches Some(s) ==> after.orphaned == crate::reanchor::orphans_of(s, files)
                && after.files == crate::reanchor::reanchored(s.files, files)
        }),
{
}

/// There is a review to keep where there is an orphan, a verdict, or a comment
/// that is more than white space, and nowhere else.
pub proof fn a_review_is_kept_where_there_is_one(r: ReviewModel, f: int, h: int)
    ensures
        r.orphaned.len() > 0 ==> crate::session::holds_review(r),
        0 <= f < r.files.len() && 0 <= h < r.files[f].hunks.len() && (r.files[f].hunks[h].status
            != ReviewStatus::Unreviewed || exists|k: int|
            0 <= k < r.files[f].hunks[h].comment.len() && !crate::text::is_white(
                #[trigger] r.files[f].hunks[h].comment[k],
            )) ==> crate::session::holds_review(r),
        r.orphaned.len() == 0 && (forall|f: int, h: int|
            0 <= f < r.files.len() && 0 <= h < r.files[f].hunks.len() ==> (
            #[trigger] r.files[f].hunks[h]).status == ReviewStatus::Unreviewed
                && r.files[f].hunks[h].comment.len() == 0) ==> !crate::session::holds_review(r),
{
    if 0 <= f < r.files.len() && 0 <= h < r.files[f].hunks.len() {
        crate::text_laws::blank_is_nothing_but_white_space(r.files[f].hunks[h].comment);
        assert(crate::session::is_marked(r.files[f].hunks[h]) ==> crate::session::holds_review(r));
    }
    if r.orphaned.len() == 0 && crate::session::holds_review(r) {
        let (f, h) = choose|f: int, h: int|
            0 <= f < r.files.len() && 0 <= h < r.files[f].hunks.len() && crate::session::is_marked(
                #[trigger] r.files[f].hunks[h],
            );
        crate::text_laws::blank_is_nothing_but_white_space(r.files[f].hunks[h].comment);
    }
}

/// A comparison goes on with what its own file has; else with the single file,
/// where that is of this comparison; else it starts anew.
pub proof fn a_comparison_goes_on_where_it_stopped(
    own: Option<StateModel>,
    single: Option<StateModel>,
    base: Seq<char>,
)
    ensures
        ({
            let key = crate::review_state::KeyModel::BranchRange { base };
            let tree = crate::review_state::KeyModel::WorkingTree;
            &&& own matches Some(s) ==> crate::session::resumed(own, single, key)
                == ResumedModel::Own(s) && crate::session::resumed(own, single, tree)
                == ResumedModel::Own(s)
            &&& own is None && single is Some && single->0.range == base + "...HEAD"@
                ==> crate::session::resumed(own, single, key) == ResumedModel::Migrated(single->0)
            &&& own is None && single is Some && single->0.range == "working tree vs HEAD"@
                ==> crate::session::resumed(own, single, tree) == ResumedModel::Migrated(single->0)
            &&& own is None && single is Some && single->0.range != base + "...HEAD"@
                ==> crate::session::resumed(own, single, key) == ResumedModel::Fresh
            &&& own is None && single is None ==> crate::session::resumed(own, single, key)
                == ResumedModel::Fresh
        }),
{
}

/// A diff starts with its first file, where it has one.
pub proof fn a_diff_starts_with_its_first_file(files: nat)
    ensures
        files > 0 ==> crate::session::first_selection(files) == Some(SelectionModel::Changed(0)),
        files == 0 ==> crate::session::first_selection(files) is None,
{
}

/// Of the places to scroll to, the first hunk comes first, then a line, then the
/// row that was asked for. A line is the row with its number, or the last row
/// where the file is shorter.
pub proof fn scrolling_goes_where_it_was_asked(
    asked: Option<(usize, RowAlign)>,
    line: usize,
    total: nat,
    hunk_rows: Seq<usize>,
    to: Option<usize>,
)
    requires
        0 < total <= usize::MAX,
    ensures
        hunk_rows.len() > 0 ==> crate::session::settled_scroll(asked, to, true, total, hunk_rows)
            == Some((hunk_rows[0], RowAlign::Top)),
        hunk_rows.len() == 0 ==> crate::session::settled_scroll(asked, to, true, total, hunk_rows)
            == Some((0usize, RowAlign::Top)),
        1 <= line <= total ==> crate::session::settled_scroll(
            asked,
            Some(line),
            false,
            total,
            hunk_rows,
        ) == Some(((line - 1) as usize, RowAlign::Center)),
        line > total ==> crate::session::settled_scroll(asked, Some(line), false, total, hunk_rows)
            == Some(((total - 1) as usize, RowAlign::Center)),
        crate::session::settled_scroll(asked, Some(0), false, total, hunk_rows) == Some(
            (0usize, RowAlign::Center),
        ),
        crate::session::settled_scroll(asked, Some(line), false, 0, hunk_rows) == Some(
            (0usize, RowAlign::Center),
        ),
        crate::session::settled_scroll(asked, None, false, total, hunk_rows) == asked,
{
}

/// A lookup is asked for the symbol without the white space around it; nothing
/// is looked up for white space, or where lookups cannot be made.
pub proof fn a_lookup_is_asked_for_the_symbol(before: Option<GotoModel>, symbol: Seq<char>)
    ensures
        ({
            let is_text = exists|i: int|
                0 <= i < symbol.len() && !crate::text::is_white(#[trigger] symbol[i]);
            let (shown, asked) = crate::overlay::started(before, symbol, true);
            let (refused, none) = crate::overlay::started(before, symbol, false);
            &&& is_text ==> {
                &&& asked == Some(crate::text::trim(symbol))
                &&& shown is Some && shown->0.resolving && shown->0.query == crate::text::trim(
                    symbol,
                ) && !shown->0.just_opened
                &&& refused is Some && !refused->0.resolving && refused->0.query == symbol
                    && refused->0.note == "go-to-definition is not supported for this repo"@
            }
            &&& !is_text ==> asked is None && shown == before && refused == before
            &&& none is None
        }),
{
    crate::text_laws::blank_is_nothing_but_white_space(symbol);
}

/// A note ends the lookup and leaves the query; where the overlay was closed, it
/// stays closed.
pub proof fn a_note_ends_the_lookup(g: Option<GotoModel>, note: Seq<char>)
    ensures
        g is None ==> crate::overlay::noted(g, note) is None,
        g matches Some(before) ==> {
            let after = crate::overlay::noted(g, note);
            after is Some && after->0.note == note && !after->0.resolving && after->0.query
                == before.query && after->0.just_opened == before.just_opened
        },
{
}

/// Every path is ranked where it matches: by the fuzzy score of its lower-case
/// form, and by its length in bytes. An empty query matches every path.
pub proof fn every_match_is_ranked(query: Seq<char>, all: Seq<Seq<char>>, i: int)
    requires
        0 <= i < all.len(),
    ensures
        crate::overlay::ranks_of(query, all).len() == all.len(),
        ({
            let r: Rank = crate::overlay::ranks_of(query, all)[i];
            &&& r.len == vstd::utf8::encode_utf8(all[i]).len() as usize
            &&& query.len() == 0 ==> r.score == Some(0i64)
            &&& query.len() > 0 ==> r.score == match crate::tree::fuzzy(
                crate::text::lowercase(query),
                crate::text::lowercase(all[i]),
            ) {
                Some(n) => Some(n as i64),
                None => None,
            }
            &&& query.len() > 0 ==> (r.score is Some <==> exists|p: Seq<int>|
                #[trigger] crate::browse_laws::stands_in(
                    crate::text::lowercase(query),
                    crate::text::lowercase(all[i]),
                    p,
                )) || crate::text::lowercase(query).len() == 0 || crate::text::lowercase(
                all[i],
            ).len() > usize::MAX
        }),
        crate::overlay::MAX_MATCHES == 200,
{
    let q = crate::text::lowercase(query);
    let t = crate::text::lowercase(all[i]);
    if query.len() > 0 && q.len() > 0 && t.len() <= usize::MAX {
        let none = Seq::<int>::empty();
        crate::browse_laws::a_match_is_scored_by_its_end(q, t, none);
        if exists|p: Seq<int>| #[trigger] crate::browse_laws::stands_in(q, t, p) {
            let p = choose|p: Seq<int>| #[trigger] crate::browse_laws::stands_in(q, t, p);
            crate::browse_laws::a_match_is_scored_by_its_end(q, t, p);
        }
    }
}

/// A lower score ranks first; of equal scores the shorter path, and of those the
/// one that is listed first. No two paths rank alike.
pub proof fn better_matches_rank_first(ranks: Seq<Rank>, i: int, j: int)
    requires
        0 <= i < ranks.len(),
        0 <= j < ranks.len(),
        ranks[i].score is Some,
        ranks[j].score is Some,
    ensures
        ranks[i].score->0 < ranks[j].score->0 ==> crate::overlay::ranks_before(ranks, i, j),
        ranks[i].score == ranks[j].score && ranks[i].len < ranks[j].len
            ==> crate::overlay::ranks_before(ranks, i, j),
        ranks[i] == ranks[j] && i < j ==> crate::overlay::ranks_before(ranks, i, j),
        crate::overlay::ranks_before(ranks, i, j) ==> !crate::overlay::ranks_before(ranks, j, i),
        i != j ==> crate::overlay::ranks_before(ranks, i, j) || crate::overlay::ranks_before(
            ranks,
            j,
            i,
        ),
{
}

/// Every match is listed where there is room: what is missing from a ranking
/// ranks behind all that it lists, and then the list is full.
pub proof fn every_match_is_listed_where_there_is_room(
    v: Seq<usize>,
    ranks: Seq<Rank>,
    cap: nat,
    k: usize,
)
    requires
        crate::overlay::is_ranking(v, ranks, ranks.len() as int, cap),
        k < ranks.len(),
        ranks[k as int].score is Some,
        v.len() < cap,
    ensures
        v.contains(k),
{
    assert(ranks[k as int].score is Some);
}

/// Where there are fewer matches than before, the last one is highlighted.
pub proof fn the_highlight_stays_on_the_last_match(sel: usize, n: nat)
    requires
        n <= sel,
    ensures
        n > 0 ==> crate::overlay::selected_match(sel, n, false, false) == n - 1,
        n > 0 ==> crate::overlay::selected_match(sel, n, false, true) == n - 1,
        n == 0 ==> crate::overlay::selected_match(sel, n, false, false) == 0,
{
}

/// The arrows move the highlight by one match and stop at the ends.
pub proof fn the_highlight_moves_by_one(sel: usize, n: nat)
    requires
        sel < n <= usize::MAX,
    ensures
        crate::overlay::selected_match(sel, n, false, true) == if sel + 1 < n {
            sel + 1
        } else {
            sel as int
        },
        crate::overlay::selected_match(sel, n, true, false) == if sel > 0 {
            sel - 1
        } else {
            0
        },
        crate::overlay::selected_match(sel, n, false, false) == sel,
{
}

} // verus!
