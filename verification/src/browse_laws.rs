//! Moving through a review: the tree of files, the search, the keys.

use crate::content::SelectionModel;
use crate::diff::{FileModel, ReviewStatus};
use crate::nav::{NavAction, NavKeys, NavModel, RowAlign};
use crate::repo::EntryModel;
use crate::rows::RenderModel;
use crate::search::SearchModel;
use crate::tree::{FoundModel, Node};
use vstd::prelude::*;

verus! {

proof fn lemma_names(found: Seq<FoundModel>, dirs: bool)
    ensures
        crate::tree::names_of(found, dirs) == found.filter(
            |f: FoundModel| f.is_dir == dirs,
        ).map_values(|f: FoundModel| f.name),
    decreases found.len(),
{
    let keep = |f: FoundModel| f.is_dir == dirs;
    let name = |f: FoundModel| f.name;
    reveal(Seq::filter);
    if found.len() > 0 {
        lemma_names(found.drop_last(), dirs);
        if keep(found.last()) {
            assert(found.filter(keep).map_values(name) == found.drop_last().filter(keep).map_values(
                name,
            ).push(found.last().name));
        }
    } else {
        assert(found.filter(keep).map_values(name) == Seq::<Seq<char>>::empty());
    }
}

proof fn lemma_parted(found: Seq<FoundModel>)
    ensures
        found.filter(|f: FoundModel| f.is_dir == true).len() + found.filter(
            |f: FoundModel| f.is_dir == false,
        ).len() == found.len(),
    decreases found.len(),
{
    reveal(Seq::filter);
    if found.len() > 0 {
        lemma_parted(found.drop_last());
    }
}

proof fn lemma_in_order_holds(names: Seq<Seq<char>>, n: Seq<char>)
    ensures
        crate::order::in_order(names).contains(n) <==> names.contains(n),
        crate::order::in_order(names).len() == names.len(),
{
    broadcast use vstd::seq_lib::group_to_multiset_ensures;

    crate::order::in_order_sorts(names);
    assert(names.contains(n) <==> names.to_multiset().contains(n));
    assert(crate::order::in_order(names).contains(n)
        <==> crate::order::in_order(names).to_multiset().contains(n));
    assert(crate::order::in_order(names).to_multiset().len() == names.to_multiset().len());
}

/// The listing of a directory shows everything that is in it, under its name and
/// its path below the root, and nothing else.
pub proof fn a_listing_shows_everything(rel: Seq<char>, found: Seq<FoundModel>, e: EntryModel)
    ensures
        crate::tree::listing(rel, found).len() == found.len(),
        crate::tree::listing(rel, found).contains(e) <==> {
            &&& exists|k: int|
                0 <= k < found.len() && (#[trigger] found[k]).name == e.name && found[k].is_dir
                    == e.is_dir
            &&& e.rel == if rel.len() == 0 {
                e.name
            } else {
                rel + seq!['/'] + e.name
            }
        },
{
    let dirs = crate::order::in_order(crate::tree::names_of(found, true));
    let files = crate::order::in_order(crate::tree::names_of(found, false));
    let ds = crate::tree::entries_of(rel, dirs, true);
    let fs = crate::tree::entries_of(rel, files, false);
    let all = crate::tree::listing(rel, found);
    let path = if rel.len() == 0 {
        e.name
    } else {
        rel + seq!['/'] + e.name
    };
    assert(crate::tree::child_of(rel, e.name) == path);
    lemma_parted(found);
    lemma_names(found, true);
    lemma_names(found, false);
    lemma_in_order_holds(crate::tree::names_of(found, true), e.name);
    lemma_in_order_holds(crate::tree::names_of(found, false), e.name);
    let kept = found.filter(|f: FoundModel| f.is_dir == e.is_dir);
    let names = crate::tree::names_of(found, e.is_dir);
    assert(names == kept.map_values(|f: FoundModel| f.name));
    let mine = crate::order::in_order(names);
    assert(all == ds + fs);
    if exists|k: int|
        0 <= k < found.len() && (#[trigger] found[k]).name == e.name && found[k].is_dir == e.is_dir {
        let k = choose|k: int|
            0 <= k < found.len() && (#[trigger] found[k]).name == e.name && found[k].is_dir
                == e.is_dir;
        found.lemma_filter_contains(|f: FoundModel| f.is_dir == e.is_dir, k);
        let j = choose|j: int| 0 <= j < kept.len() && kept[j] == found[k];
        assert(names[j] == e.name);
        assert(mine.contains(e.name));
        let p = choose|p: int| 0 <= p < mine.len() && mine[p] == e.name;
        if e.rel == path {
            if e.is_dir {
                assert(ds[p] == e);
                assert(all[p] == e);
            } else {
                assert(fs[p] == e);
                assert(all[ds.len() + p] == e);
            }
        }
    }
    if all.contains(e) {
        let p = choose|p: int| 0 <= p < all.len() && all[p] == e;
        if p < ds.len() {
            assert(all[p] == ds[p]);
            assert(dirs[p] == e.name);
            assert(dirs.contains(e.name));
        } else {
            assert(all[p] == fs[p - ds.len()]);
            assert(files[p - ds.len()] == e.name);
            assert(files.contains(e.name));
        }
        assert(names.contains(e.name));
        let j = choose|j: int| 0 <= j < names.len() && names[j] == e.name;
        assert(kept.contains(kept[j]));
        found.lemma_filter_contains_rev(|f: FoundModel| f.is_dir == e.is_dir, kept[j]);
        let k = choose|k: int| 0 <= k < found.len() && found[k] == kept[j];
        found.lemma_filter_pred(|f: FoundModel| f.is_dir == e.is_dir, j);
        assert(found[k].name == e.name && found[k].is_dir == e.is_dir);
    }
}

/// Directories come first, and names are in order among directories and among
/// files.
pub proof fn a_listing_is_in_order(rel: Seq<char>, found: Seq<FoundModel>, i: int, j: int)
    requires
        0 <= i < j < crate::tree::listing(rel, found).len(),
    ensures
        ({
            let a = crate::tree::listing(rel, found)[i];
            let b = crate::tree::listing(rel, found)[j];
            &&& b.is_dir ==> a.is_dir
            &&& a.is_dir == b.is_dir ==> crate::order::at_most(a.name, b.name)
        }),
{
    let dirs = crate::tree::names_of(found, true);
    let files = crate::tree::names_of(found, false);
    let d = crate::order::in_order(dirs);
    let f = crate::order::in_order(files);
    let order = crate::order::name_order();
    crate::order::in_order_sorts(dirs);
    crate::order::in_order_sorts(files);
    if j < d.len() {
        assert(order(d[i], d[j]));
    } else if i >= d.len() {
        assert(order(f[i - d.len()], f[j - d.len()]));
    }
}

/// A directory that is opened shows every entry of its listing, in that order,
/// and no directory below it is opened yet.
pub proof fn an_opened_directory_shows_its_listing(
    nodes: Seq<Node>,
    entries: Seq<EntryModel>,
    i: int,
)
    requires
        crate::tree::are_unopened(nodes, entries),
    ensures
        nodes.len() == entries.len(),
        0 <= i < entries.len() ==> {
            &&& nodes[i].name@ == entries[i].name
            &&& nodes[i].rel@ == entries[i].rel
            &&& nodes[i].is_dir == entries[i].is_dir
            &&& nodes[i].children is None
        },
{
    if 0 <= i < nodes.len() {
        assert(crate::tree::is_unopened(nodes[i], entries[i]));
    }
}

/// These are places in a text of `n` characters, one behind the other.
pub open spec fn ascending(places: Seq<int>, n: int) -> bool {
    &&& forall|i: int| 0 <= i < places.len() ==> 0 <= #[trigger] places[i] < n
    &&& forall|i: int, j: int| 0 <= i < j < places.len() ==> places[i] < places[j]
}

/// The characters of `q` stand in `t` at these places.
pub open spec fn stands_in(q: Seq<char>, t: Seq<char>, places: Seq<int>) -> bool {
    &&& places.len() == q.len()
    &&& ascending(places, t.len() as int)
    &&& forall|i: int| 0 <= i < q.len() ==> t[#[trigger] places[i]] == q[i]
}

proof fn lemma_placed(q: Seq<char>, t: Seq<char>) -> (places: Seq<int>)
    requires
        crate::tree::subsequence(q, t),
    ensures
        stands_in(q, t, places),
    decreases t.len(),
{
    if q.len() == 0 {
        Seq::empty()
    } else if crate::tree::subsequence(q, t.drop_last()) {
        lemma_placed(q, t.drop_last())
    } else {
        let before = lemma_placed(q.drop_last(), t.drop_last());
        before.push(t.len() - 1)
    }
}

proof fn lemma_placed_is_subsequence(q: Seq<char>, t: Seq<char>, places: Seq<int>)
    requires
        stands_in(q, t, places),
    ensures
        crate::tree::subsequence(q, t),
    decreases t.len(),
{
    if q.len() > 0 {
        let last = places[q.len() - 1];
        assert(0 <= last < t.len());
        if last < t.len() - 1 {
            assert forall|i: int| 0 <= i < places.len() implies 0 <= #[trigger] places[i] < t.len()
                - 1 by {
                if i < places.len() - 1 {
                    assert(places[i] < places[places.len() - 1]);
                }
            }
            lemma_placed_is_subsequence(q, t.drop_last(), places);
        } else {
            let front = places.drop_last();
            assert forall|i: int| 0 <= i < front.len() implies 0 <= #[trigger] front[i] < t.len()
                - 1 by {
                assert(front[i] == places[i]);
                assert(places[i] < places[places.len() - 1]);
            }
            assert forall|i: int| 0 <= i < q.len() - 1 implies t.drop_last()[#[trigger] front[i]]
                == q.drop_last()[i] by {
                assert(front[i] == places[i]);
            }
            lemma_placed_is_subsequence(q.drop_last(), t.drop_last(), front);
            assert(t[places[q.len() - 1]] == q[q.len() - 1]);
        }
    }
}

proof fn lemma_shortest(q: Seq<char>, t: Seq<char>, from: nat)
    ensures
        match crate::tree::shortest_beginning(q, t, from) {
            Some(n) => {
                &&& from <= n <= t.len()
                &&& crate::tree::subsequence(q, t.take(n as int))
                &&& forall|m: int|
                    from <= m < n ==> !crate::tree::subsequence(q, #[trigger] t.take(m))
            },
            None => forall|m: int|
                from <= m <= t.len() ==> !crate::tree::subsequence(q, #[trigger] t.take(m)),
        },
    decreases t.len() + 1 - from,
{
    if from <= t.len() && !crate::tree::subsequence(q, t.take(from as int)) {
        lemma_shortest(q, t, from + 1);
    }
}

/// A text matches a query where the characters of the query stand in it one
/// behind the other. The score is where the last of them stands when they are
/// taken as far in front as can be: no other places end before it.
pub proof fn a_match_is_scored_by_its_end(q: Seq<char>, t: Seq<char>, places: Seq<int>)
    requires
        q.len() > 0,
        t.len() <= usize::MAX,
    ensures
        stands_in(q, t, places) ==> crate::tree::fuzzy(q, t) is Some && crate::tree::fuzzy(q, t)->0
            <= places.last(),
        crate::tree::fuzzy(q, t) matches Some(n) ==> exists|p: Seq<int>|
            #[trigger] stands_in(q, t, p) && p.last() == n,
        crate::tree::fuzzy(Seq::empty(), t) == Some(0usize),
{
    lemma_shortest(q, t, 0);
    if stands_in(q, t, places) {
        let m = places.last() + 1;
        assert(places[places.len() - 1] < t.len());
        assert(stands_in(q, t.take(m), places)) by {
            assert forall|i: int| 0 <= i < places.len() implies 0 <= #[trigger] places[i] < m by {
                if i < places.len() - 1 {
                    assert(places[i] < places[places.len() - 1]);
                }
            }
        }
        lemma_placed_is_subsequence(q, t.take(m), places);
        assert(crate::tree::subsequence(q, t.take(m)));
    }
    if let Some(n) = crate::tree::shortest_beginning(q, t, 0) {
        let p = lemma_placed(q, t.take(n as int));
        assert(p[p.len() - 1] < n);
        assert(stands_in(q, t, p));
        let m = p.last() + 1;
        assert(stands_in(q, t.take(m), p)) by {
            assert forall|i: int| 0 <= i < p.len() implies 0 <= #[trigger] p[i] < m by {
                if i < p.len() - 1 {
                    assert(p[i] < p[p.len() - 1]);
                }
            }
        }
        lemma_placed_is_subsequence(q, t.take(m), p);
        if m < n {
            assert(!crate::tree::subsequence(q, t.take(m)));
        }
        assert(p.last() == n - 1);
    }
}

/// The text in which a row is searched: what it shows, and for two sides what
/// both show, with a blank between.
pub open spec fn shown_text(r: RenderModel) -> Seq<char> {
    match r {
        RenderModel::HunkHeader { text, .. } => text,
        RenderModel::DiffLine { text, .. } => text,
        RenderModel::Plain { text, .. } => text,
        RenderModel::SplitLine { left, right } => (match left {
            Some(c) => c.text,
            None => Seq::empty(),
        }) + " "@ + (match right {
            Some(c) => c.text,
            None => Seq::empty(),
        }),
    }
}

/// The search finds exactly the rows whose text holds what is looked for,
/// whatever the case and whatever white space is around it; it lists them in
/// order, each once.
pub proof fn every_row_with_the_text_is_found(rows: Seq<RenderModel>, query: Seq<char>, i: int)
    requires
        0 <= i < rows.len() <= usize::MAX,
    ensures
        crate::search::found(rows, query).contains(i as usize) <==> crate::text::lowercase(
            crate::text::trim(query),
        ).len() > 0 && crate::text::occurs(
            crate::text::lowercase(shown_text(rows[i])),
            crate::text::lowercase(crate::text::trim(query)),
        ),
        forall|a: int, b: int|
            0 <= a < b < crate::search::found(rows, query).len() ==> crate::search::found(
                rows,
                query,
            )[a] < crate::search::found(rows, query)[b],
        forall|a: int|
            0 <= a < crate::search::found(rows, query).len() ==> crate::search::found(
                rows,
                query,
            )[a] < rows.len(),
{
    let texts = rows.map_values(
        |r: RenderModel| crate::text::lowercase(crate::search::search_text(r)),
    );
    let q = crate::text::lowercase(crate::text::trim(query));
    reveal_strlit(" ");
    crate::search::matches_are_complete(texts, q, i);
    crate::search::matches_are_in_order(texts, q);
    assert(crate::search::search_text(rows[i]) == shown_text(rows[i])) by {
        if let RenderModel::SplitLine { left, right } = rows[i] {
            assert(crate::search::search_text(rows[i]) == crate::search::cell_text(left) + " "@
                + crate::search::cell_text(right));
        }
    }
    assert(texts[i] == crate::text::lowercase(shown_text(rows[i])));
}

/// A step goes to the next match or the one before, and round at the ends: a
/// step back undoes a step forward.
pub proof fn search_steps_go_round(current: usize, n: nat)
    requires
        current < n <= usize::MAX,
    ensures
        crate::search::stepped_match(current, n, true, false) == if current == n - 1 {
            0
        } else {
            current + 1
        },
        crate::search::stepped_match(current, n, false, true) == if current == 0 {
            n - 1
        } else {
            current - 1
        },
        crate::search::stepped_match(current, n, false, false) == current,
        crate::search::stepped_match(
            crate::search::stepped_match(current, n, true, false),
            n,
            false,
            true,
        ) == current,
{
    let m = n as int;
    if current == n - 1 {
        assert((current + 1) % m == 0) by (nonlinear_arith)
            requires
                current + 1 == m,
                m > 0,
        ;
    } else {
        assert((current + 1) % m == current + 1) by (nonlinear_arith)
            requires
                0 <= current + 1 < m,
        ;
    }
    if current == 0 {
        assert((current + m - 1) % m == m - 1) by (nonlinear_arith)
            requires
                current == 0,
                m > 0,
        ;
    } else {
        assert((current + m - 1) % m == current - 1) by (nonlinear_arith)
            requires
                0 < current < m,
        ;
    }
    let s = crate::search::stepped_match(current, n, true, false);
    if s == 0 {
        assert((s + m - 1) % m == m - 1) by (nonlinear_arith)
            requires
                s == 0,
                m > 0,
        ;
    } else {
        assert((s + m - 1) % m == s - 1) by (nonlinear_arith)
            requires
                0 < s < m,
        ;
    }
}

/// A frame of the search keeps the query, lists what it finds, and scrolls to a
/// row that it found; where it finds nothing, it scrolls nowhere.
pub proof fn the_search_scrolls_to_a_match(
    s: SearchModel,
    rows: Seq<RenderModel>,
    next: bool,
    prev: bool,
)
    requires
        rows.len() <= usize::MAX,
        crate::search::found(rows, s.query).len() <= usize::MAX,
    ensures
        ({
            let after = crate::search::searched(s, rows, next, prev);
            let found = crate::search::found(rows, s.query);
            let from = if s.current < found.len() {
                s.current
            } else {
                0
            };
            &&& after.query == s.query
            &&& after.just_opened == s.just_opened
            &&& after.matches == found
            &&& found.len() == 0 ==> after.last_scrolled is None
            &&& found.len() > 0 ==> after.current < found.len() && after.last_scrolled == Some(
                found[after.current as int],
            )
            &&& found.len() > 0 && next ==> after.current == if from == found.len() - 1 {
                0
            } else {
                from + 1
            }
            &&& found.len() > 0 && prev && !next ==> after.current == if from == 0 {
                found.len() - 1
            } else {
                from - 1
            }
            &&& found.len() > 0 && !prev && !next ==> after.current == from
        }),
{
    let found = crate::search::found(rows, s.query);
    let from: usize = if s.current < found.len() {
        s.current
    } else {
        0
    };
    if found.len() > 0 {
        search_steps_go_round(from, found.len());
    }
}

/// The count says which of how many matches is the current one.
pub proof fn the_count_says_which_of_how_many(s: SearchModel)
    ensures
        (forall|i: int| 0 <= i < s.query.len() ==> crate::text::is_white(#[trigger] s.query[i]))
            ==> crate::search::count_text(s) == Seq::<char>::empty(),
        (exists|i: int| 0 <= i < s.query.len() && !crate::text::is_white(#[trigger] s.query[i]))
            ==> crate::search::count_text(s) == if s.matches.len() == 0 {
            "no matches"@
        } else {
            crate::number::decimal((s.current + 1) as nat) + " of "@ + crate::number::decimal(
                s.matches.len(),
            )
        },
{
    crate::text_laws::blank_is_nothing_but_white_space(s.query);
}

/// `n` and `p` leave the focus on a hunk, in the direction that was asked for,
/// and bring it into view where it is not.
pub proof fn hunk_steps_stay_in_the_file(
    nav: NavModel,
    rows: Seq<usize>,
    top: usize,
    bottom: usize,
    keys: NavKeys,
)
    requires
        0 < rows.len() <= usize::MAX,
        keys.n || keys.p,
        forall|i: int, j: int| 0 <= i < j < rows.len() ==> rows[i] < rows[j],
    ensures
        ({
            let after = crate::nav::step_hunk(nav, rows, Some((top, bottom)), keys);
            let here = nav.focus_hunk < rows.len() && top <= rows[nav.focus_hunk as int] <= bottom;
            let row = rows[after.focus_hunk as int];
            &&& after.focus_hunk < rows.len()
            &&& here && keys.n ==> after.focus_hunk == if nav.focus_hunk + 1 < rows.len() {
                nav.focus_hunk + 1
            } else {
                nav.focus_hunk as int
            }
            &&& here && !keys.n ==> after.focus_hunk == if nav.focus_hunk > 0 {
                nav.focus_hunk - 1
            } else {
                0
            }
            &&& !here && keys.n ==> {
                &&& row > top || after.focus_hunk == rows.len() - 1
                &&& forall|i: int| 0 <= i < after.focus_hunk ==> #[trigger] rows[i] <= top
            }
            &&& !here && !keys.n ==> {
                &&& row < top || after.focus_hunk == 0
                &&& forall|i: int| after.focus_hunk < i < rows.len() ==> #[trigger] rows[i] >= top
                    || after.focus_hunk == 0
            }
            &&& top <= row <= bottom ==> after.scroll_to_row == nav.scroll_to_row
            &&& !(top <= row <= bottom) ==> after.scroll_to_row == Some((row, RowAlign::Center))
            &&& after.selected == nav.selected
            &&& after.active_hunk == nav.active_hunk
        }),
{
    crate::nav::hunk_step_goes_the_right_way(rows, top, bottom, nav.focus_hunk, keys.n);
    let f = nav.focus_hunk as int;
    if f + 1 < rows.len() {
        assert(rows[f] < rows[f + 1]);
    }
}

/// As long as nothing is shown, hunks are stepped through as from the first row.
pub proof fn hunk_steps_start_at_the_top(nav: NavModel, rows: Seq<usize>, keys: NavKeys)
    ensures
        crate::nav::step_hunk(nav, rows, None, keys) == crate::nav::step_hunk(
            nav,
            rows,
            Some((0usize, 0usize)),
            keys,
        ),
{
}

/// `j` and `k` go to the next file and the one before, and stay at the ends. A
/// file that they go to is shown from its first hunk.
pub proof fn file_steps_stay_in_the_list(nav: NavModel, files: nat, keys: NavKeys)
    requires
        0 < files <= usize::MAX,
        keys.j || keys.k,
    ensures
        ({
            let after = crate::nav::step_file(nav, files, keys);
            let at = match nav.selected {
                Some(SelectionModel::Changed(i)) => i as int,
                _ => 0,
            };
            &&& after.selected matches Some(SelectionModel::Changed(next)) && {
                &&& keys.j ==> next == if at + 1 < files {
                    at + 1
                } else {
                    files - 1
                }
                &&& !keys.j ==> next == if at > 0 {
                    at - 1
                } else {
                    0
                }
            }
            &&& after.selected != nav.selected ==> after.focus_hunk == 0
                && after.scroll_to_first_hunk
            &&& after.selected == nav.selected ==> after == nav
            &&& after.active_hunk == nav.active_hunk
            &&& after.show_help == nav.show_help
        }),
{
}

/// Without their keys nothing moves.
pub proof fn other_keys_move_nothing(
    nav: NavModel,
    files: nat,
    rows: Seq<usize>,
    visible: Option<(usize, usize)>,
    keys: NavKeys,
)
    ensures
        !keys.j && !keys.k ==> crate::nav::step_file(nav, files, keys) == nav,
        files == 0 ==> crate::nav::step_file(nav, files, keys) == nav,
        !keys.n && !keys.p ==> crate::nav::step_hunk(nav, rows, visible, keys) == nav,
        rows.len() == 0 ==> crate::nav::step_hunk(nav, rows, visible, keys) == nav,
{
}

/// No key that comes before the review was pressed.
pub open spec fn is_for_the_review(nav: NavModel, keys: NavKeys) -> bool {
    !keys.help && !(nav.show_help && keys.esc) && !keys.page_up && !keys.page_down && !keys.f12
        && !keys.g
}

/// `a` approves and `r` rejects the hunk in focus, of the file that is selected,
/// and the review is saved: the hunk gets that verdict and keeps its text and its
/// comment, and no other hunk changes.
pub proof fn a_verdict_is_given_to_the_hunk_in_focus(
    nav: NavModel,
    files: Seq<FileModel>,
    rows: Seq<usize>,
    visible: Option<(usize, usize)>,
    symbol: bool,
    keys: NavKeys,
    fi: usize,
    f: int,
    h: int,
)
    requires
        is_for_the_review(nav, keys),
        keys.a || keys.r,
        !keys.n && !keys.p && !keys.j && !keys.k,
        nav.selected == Some(SelectionModel::Changed(fi)),
        0 <= f < files.len(),
        0 <= h < files[f].hunks.len(),
    ensures
        ({
            let out = crate::nav::handled(nav, files, rows, visible, symbol, keys);
            let before = files[f].hunks[h];
            let after = out.files[f].hunks[h];
            &&& out.action == NavAction::Save
            &&& out.nav == nav
            &&& out.files.len() == files.len()
            &&& out.files[f].path == files[f].path
            &&& out.files[f].hunks.len() == files[f].hunks.len()
            &&& f == fi && h == nav.focus_hunk ==> {
                &&& after.status == if keys.a {
                    ReviewStatus::Approved
                } else {
                    ReviewStatus::Rejected
                }
                &&& after.comment == before.comment
                &&& after.header == before.header
                &&& after.rows == before.rows
            }
            &&& f != fi || h != nav.focus_hunk ==> after == before
        }),
{
}

/// Keys that give no verdict leave the review as it is and save nothing.
pub proof fn only_verdicts_change_the_review(
    nav: NavModel,
    files: Seq<FileModel>,
    rows: Seq<usize>,
    visible: Option<(usize, usize)>,
    symbol: bool,
    keys: NavKeys,
)
    requires
        !keys.a && !keys.r || !is_for_the_review(nav, keys),
    ensures
        crate::nav::handled(nav, files, rows, visible, symbol, keys).files == files,
        crate::nav::handled(nav, files, rows, visible, symbol, keys).action != NavAction::Save,
{
}

/// `c` opens the comment of the hunk in focus.
pub proof fn a_comment_is_opened_at_the_hunk_in_focus(
    nav: NavModel,
    files: Seq<FileModel>,
    rows: Seq<usize>,
    visible: Option<(usize, usize)>,
    symbol: bool,
    keys: NavKeys,
    fi: usize,
)
    requires
        is_for_the_review(nav, keys),
        keys.c,
        !keys.a && !keys.r && !keys.n && !keys.p && !keys.j && !keys.k,
        nav.selected == Some(SelectionModel::Changed(fi)),
    ensures
        ({
            let after = crate::nav::handled(nav, files, rows, visible, symbol, keys).nav;
            &&& after.active_hunk == Some(nav.focus_hunk)
            &&& after.comment_just_opened
            &&& after.focus_hunk == nav.focus_hunk
            &&& after.selected == nav.selected
        }),
{
}

/// The other keys: help goes on and off, Esc closes it, the pages are turned,
/// and a definition is looked up.
pub proof fn other_keys_do_what_they_say(
    nav: NavModel,
    files: Seq<FileModel>,
    rows: Seq<usize>,
    visible: Option<(usize, usize)>,
    symbol: bool,
    keys: NavKeys,
)
    ensures
        ({
            let out = crate::nav::handled(nav, files, rows, visible, symbol, keys);
            let shown = !keys.help && !(nav.show_help && keys.esc);
            let paged = keys.page_up || keys.page_down;
            &&& keys.help ==> out.nav.show_help == !nav.show_help
            &&& !keys.help && nav.show_help && keys.esc ==> !out.nav.show_help
            &&& shown ==> out.nav.show_help == nav.show_help
            &&& shown && paged ==> out.action == (NavAction::Page { down: keys.page_down })
            &&& shown && !paged && keys.f12 && symbol ==> out.action == NavAction::GotoSelected
            &&& shown && !paged && keys.f12 && !symbol ==> out.action == NavAction::Nothing
            &&& shown && !paged && !keys.f12 && keys.g ==> out.action == NavAction::OpenGoto
            &&& !is_for_the_review(nav, keys) ==> out.nav.selected == nav.selected
                && out.nav.focus_hunk == nav.focus_hunk
        }),
{
}

} // verus!
