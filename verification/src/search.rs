//! Searching the rows of the content pane.

use crate::number::push_decimal;
use crate::rows::RenderRow;
use crate::text::{blank_str, chars_of, contains, string_of, trimmed};
use vstd::prelude::*;

verus! {

broadcast use {crate::seqs::lemma_views_push, crate::seqs::lemma_views_update};

/// The text of a cell.
pub open spec fn cell_text(c: Option<crate::rows::CellModel>) -> Seq<char> {
    match c {
        Some(c) => c.text,
        None => Seq::empty(),
    }
}

/// The searchable text of a row. A side-by-side row has that of both cells, so
/// that a match on either side counts.
pub open spec fn search_text(r: crate::rows::RenderModel) -> Seq<char> {
    match r {
        crate::rows::RenderModel::HunkHeader { text, .. } => text,
        crate::rows::RenderModel::DiffLine { text, .. } => text,
        crate::rows::RenderModel::Plain { text, .. } => text,
        crate::rows::RenderModel::SplitLine { left, right } => cell_text(left).push(' ')
            + cell_text(right),
    }
}

/// The searchable text of one render row.
pub fn row_search_text(row: &RenderRow) -> (r: String)
    ensures
        r@ == search_text(row@),
{
    match row {
        RenderRow::HunkHeader { text, .. } => text.clone(),
        RenderRow::DiffLine { text, .. } => text.clone(),
        RenderRow::Plain { text, .. } => text.clone(),
        RenderRow::SplitLine { left, right } => {
            let mut s = match left {
                Some((_, t, _)) => t.clone(),
                None => String::new(),
            };
            s.push(' ');
            if let Some((_, t, _)) = right {
                s.append(t.as_str());
            }
            s
        },
    }
}

/// The texts that hold `q`, by index, in order; none where `q` is empty.
pub open spec fn holding(texts: Seq<Seq<char>>, q: Seq<char>) -> Seq<usize>
    decreases texts.len(),
{
    if texts.len() == 0 || q.len() == 0 {
        Seq::empty()
    } else if crate::text::occurs(texts.last(), q) {
        holding(texts.drop_last(), q).push((texts.len() - 1) as usize)
    } else {
        holding(texts.drop_last(), q)
    }
}

/// The texts that hold `q`, by index.
pub fn find_holding(texts: &[String], q: &str) -> (v: Vec<usize>)
    ensures
        v@ == holding(crate::seqs::views(texts@), q@),
{
    let ghost ts = crate::seqs::views(texts@);
    let mut v: Vec<usize> = Vec::new();
    if q.is_empty() {
        return v;
    }
    for i in 0..texts.len()
        invariant
            q@.len() > 0,
            ts == crate::seqs::views(texts@),
            v@ == holding(ts.take(i as int), q@),
    {
        assert(ts.take(i + 1).drop_last() == ts.take(i as int));
        assert(ts.take(i + 1).last() == texts@[i as int]@);
        if contains(texts[i].as_str(), q) {
            v.push(i);
        }
    }
    assert(ts.take(ts.len() as int) == ts);
    v
}

/// The indices come in ascending order, each once.
pub proof fn matches_are_in_order(texts: Seq<Seq<char>>, q: Seq<char>)
    requires
        texts.len() <= usize::MAX,
    ensures
        forall|i: int, j: int|
            0 <= i < j < holding(texts, q).len() ==> holding(texts, q)[i] < holding(texts, q)[j],
        forall|i: int| 0 <= i < holding(texts, q).len() ==> holding(texts, q)[i] < texts.len(),
    decreases texts.len(),
{
    if texts.len() > 0 && q.len() > 0 {
        let before = holding(texts.drop_last(), q);
        let all = holding(texts, q);
        matches_are_in_order(texts.drop_last(), q);
        assert forall|i: int, j: int| 0 <= i < j < all.len() implies all[i] < all[j] by {
            assert(all[i] == before[i]);
            assert(before[i] < texts.len() - 1);
            if j < before.len() {
                assert(all[j] == before[j]);
            }
        }
        assert forall|i: int| 0 <= i < all.len() implies all[i] < texts.len() by {
            if i < before.len() {
                assert(all[i] == before[i]);
            }
        }
    }
}

/// A row is found exactly where its text holds what is looked for.
pub proof fn matches_are_complete(texts: Seq<Seq<char>>, q: Seq<char>, i: int)
    requires
        0 <= i < texts.len() <= usize::MAX,
    ensures
        holding(texts, q).contains(i as usize) <==> q.len() > 0 && crate::text::occurs(
            texts[i],
            q,
        ),
    decreases texts.len(),
{
    let all = holding(texts, q);
    if q.len() > 0 {
        let before = holding(texts.drop_last(), q);
        matches_are_in_order(texts.drop_last(), q);
        if i < texts.len() - 1 {
            matches_are_complete(texts.drop_last(), q, i);
            if before.contains(i as usize) {
                let k = before.index_of(i as usize);
                assert(all[k] == i as usize);
            } else if all.contains(i as usize) {
                let k = all.index_of(i as usize);
                assert(before[k] == i as usize);
            }
        } else if crate::text::occurs(texts.last(), q) {
            assert(all[before.len() as int] == i as usize);
        } else if all.contains(i as usize) {
            let k = all.index_of(i as usize);
            assert(before[k] < texts.len() - 1);
        }
    }
}

/// The rows that a query finds: those whose text holds it, whatever the case.
pub open spec fn found(rows: Seq<crate::rows::RenderModel>, query: Seq<char>) -> Seq<usize> {
    holding(
        rows.map_values(
            |r: crate::rows::RenderModel| crate::text::lowercase(search_text(r)),
        ),
        crate::text::lowercase(crate::text::trim(query)),
    )
}

/// Find every render row whose text contains `query`, returning their indices
/// in ascending (display) order. Case-insensitive. An empty/whitespace-only
/// query matches nothing.
pub fn find_matches(rows: &[RenderRow], query: &str) -> (v: Vec<usize>)
    ensures
        v@ == found(crate::seqs::views(rows@), query@),
{
    let cs = chars_of(query);
    let q = string_of(trimmed(cs.as_slice())).as_str().to_lowercase();
    let ghost goal = crate::seqs::views(rows@).map_values(
        |r: crate::rows::RenderModel| crate::text::lowercase(search_text(r)),
    );
    let mut texts: Vec<String> = Vec::new();
    for i in 0..rows.len()
        invariant
            goal == crate::seqs::views(rows@).map_values(
                |r: crate::rows::RenderModel| crate::text::lowercase(search_text(r)),
            ),
            crate::seqs::views(texts@) == goal.take(i as int),
    {
        let t = row_search_text(&rows[i]).as_str().to_lowercase();
        assert(t@ == goal[i as int]);
        texts.push(t);
        assert(goal.take(i + 1) == goal.take(i as int).push(goal[i as int]));
    }
    assert(goal.take(goal.len() as int) == goal);
    find_holding(texts.as_slice(), q.as_str())
}

/// In-file search.
#[derive(Debug)]
pub struct Search {
    pub query: String,
    /// The rows that match, in order.
    pub matches: Vec<usize>,
    /// Which of the matches is current.
    pub current: usize,
    /// The input is to take the keyboard focus.
    pub just_opened: bool,
    /// The row that was scrolled to last.
    pub last_scrolled: Option<usize>,
}

/// What a [`Search`] holds.
#[verifier::ext_equal]
pub struct SearchModel {
    pub query: Seq<char>,
    pub matches: Seq<usize>,
    pub current: usize,
    pub just_opened: bool,
    pub last_scrolled: Option<usize>,
}

impl View for Search {
    type V = SearchModel;

    open spec fn view(&self) -> SearchModel {
        SearchModel {
            query: self.query@,
            matches: self.matches@,
            current: self.current,
            just_opened: self.just_opened,
            last_scrolled: self.last_scrolled,
        }
    }
}

/// The search with its matches up to date: those of its query in `rows`.
pub open spec fn refreshed(
    s: SearchModel,
    rows: Seq<crate::rows::RenderModel>,
) -> SearchModel {
    let matches = found(rows, s.query);
    SearchModel {
        matches,
        current: if s.current >= matches.len() {
            0
        } else {
            s.current
        },
        ..s
    }
}

/// The current match after a step forward or back, going round at the ends.
pub open spec fn stepped_match(current: usize, n: nat, next: bool, prev: bool) -> usize {
    if n == 0 {
        current
    } else if next {
        ((current + 1) % (n as int)) as usize
    } else if prev {
        ((current + n - 1) % (n as int)) as usize
    } else if current >= n {
        0
    } else {
        current
    }
}

/// The row of the current match.
pub open spec fn current_row(s: SearchModel) -> Option<usize> {
    if s.current < s.matches.len() {
        Some(s.matches[s.current as int])
    } else {
        None
    }
}

/// One frame of the search: matches up to date, a step if one was asked for,
/// and the row to scroll to noted.
pub open spec fn searched(
    s: SearchModel,
    rows: Seq<crate::rows::RenderModel>,
    next: bool,
    prev: bool,
) -> SearchModel {
    let s1 = refreshed(s, rows);
    let s2 = SearchModel {
        current: stepped_match(s1.current, s1.matches.len(), next, prev),
        ..s1
    };
    SearchModel { last_scrolled: current_row(s2), ..s2 }
}

/// The count beside the query: nothing for a blank query, else which of how
/// many.
pub open spec fn count_text(s: SearchModel) -> Seq<char> {
    if crate::text::is_blank(s.query) {
        Seq::empty()
    } else if s.matches.len() == 0 {
        "no matches"@
    } else {
        crate::number::decimal((s.current + 1) as nat) + " of "@ + crate::number::decimal(
            s.matches.len(),
        )
    }
}

proof fn lemma_step_back(c: int, current: int, n: int)
    requires
        n > 0,
        0 <= current,
        c == current % n,
    ensures
        (current + n - 1) % n == if c == 0 {
            n - 1
        } else {
            c - 1
        },
        (current + 1) % n == if c + 1 == n {
            0
        } else {
            c + 1
        },
{
    vstd::arithmetic::div_mod::lemma_fundamental_div_mod(current, n);
    let q = current / n;
    vstd::arithmetic::mul::lemma_mul_is_commutative(n, q);
    vstd::arithmetic::mul::lemma_mul_is_commutative(n, q + 1);
    if c == 0 {
        vstd::arithmetic::div_mod::lemma_fundamental_div_mod_converse(
            current + n - 1,
            n,
            q,
            n - 1,
        );
    } else {
        vstd::arithmetic::mul::lemma_mul_is_distributive_add(n, q, 1);
        vstd::arithmetic::div_mod::lemma_fundamental_div_mod_converse(
            current + n - 1,
            n,
            q + 1,
            c - 1,
        );
    }
    if c + 1 == n {
        vstd::arithmetic::mul::lemma_mul_is_distributive_add(n, q, 1);
        vstd::arithmetic::div_mod::lemma_fundamental_div_mod_converse(current + 1, n, q + 1, 0);
    } else {
        vstd::arithmetic::div_mod::lemma_fundamental_div_mod_converse(current + 1, n, q, c + 1);
    }
}

fn step_match(current: usize, n: usize, next: bool, prev: bool) -> (r: usize)
    ensures
        r == stepped_match(current, n as nat, next, prev),
{
    if n == 0 {
        return current;
    }
    let c: usize = current % n;
    proof {
        lemma_step_back(c as int, current as int, n as int);
    }
    if next {
        if c == n - 1 {
            0
        } else {
            c + 1
        }
    } else if prev {
        if c == 0 {
            n - 1
        } else {
            c - 1
        }
    } else if current >= n {
        0
    } else {
        current
    }
}

impl Search {
    /// A search that was just opened.
    pub fn open() -> (r: Self)
        ensures
            r@ == (SearchModel {
                query: Seq::empty(),
                matches: Seq::empty(),
                current: 0,
                just_opened: true,
                last_scrolled: None,
            }),
    {
        Search {
            query: String::new(),
            matches: Vec::new(),
            current: 0,
            just_opened: true,
            last_scrolled: None,
        }
    }

    /// One frame of the search over `rows`, those that are on screen: another
    /// file, layout or extent has other matches. Returns the row to scroll to,
    /// where the current match is not the one that was scrolled to last.
    pub fn step(&mut self, rows: &[RenderRow], next: bool, prev: bool) -> (r: Option<usize>)
        ensures
            final(self)@ == searched(old(self)@, crate::seqs::views(rows@), next, prev),
            final(self)@.matches == found(crate::seqs::views(rows@), final(self)@.query),
            r == (if final(self)@.last_scrolled != old(self)@.last_scrolled {
                final(self)@.last_scrolled
            } else {
                None
            }),
    {
        self.matches = find_matches(rows, self.query.as_str());
        if self.current >= self.matches.len() {
            self.current = 0;
        }
        let n: usize = self.matches.len();
        self.current = step_match(self.current, n, next, prev);
        let row: Option<usize> = if self.current < n {
            Some(self.matches[self.current])
        } else {
            None
        };
        let moved = match (row, self.last_scrolled) {
            (Some(a), Some(b)) => a != b,
            (None, None) => false,
            _ => true,
        };
        self.last_scrolled = row;
        if moved {
            row
        } else {
            None
        }
    }

    /// Where the keys lead: Enter, F3 and Ctrl+G to the next match, with Shift
    /// to the previous one.
    pub fn direction(enter: bool, f3: bool, ctrl_g: bool, shift: bool) -> (r: (bool, bool))
        ensures
            r.0 == ((enter || f3 || ctrl_g) && !shift),
            r.1 == ((enter || f3 || ctrl_g) && shift),
    {
        let hit = enter || f3 || ctrl_g;
        (hit && !shift, hit && shift)
    }

    /// Whether the search is open after Ctrl+F. It can always be closed; it
    /// opens only where nothing else is being typed into.
    pub fn toggled(open: bool, typing: bool) -> (r: bool)
        ensures
            r == (!open && !typing),
    {
        !open && !typing
    }

    /// The count beside the query.
    pub fn count_label(&self) -> (r: String)
        requires
            self.matches@.len() > 0 ==> self.current < usize::MAX,
        ensures
            r@ == count_text(self@),
    {
        let mut s = String::new();
        if blank_str(self.query.as_str()) {
            return s;
        }
        if self.matches.len() == 0 {
            return "no matches".to_owned();
        }
        push_decimal(&mut s, self.current as u64 + 1);
        s.append(" of ");
        push_decimal(&mut s, self.matches.len() as u64);
        s
    }
}

/// How a row is tinted for the search.
#[derive(Clone, Copy, PartialEq, Eq, Debug, Structural)]
pub enum Tint {
    /// It does not match.
    Plain,
    /// It matches.
    Match,
    /// It is the current match.
    Current,
}

impl Search {
    /// How `row` is tinted.
    pub fn tint(&self, row: usize) -> (r: Tint)
        ensures
            r == (if current_row(self@) == Some(row) {
                Tint::Current
            } else if self@.matches.contains(row) {
                Tint::Match
            } else {
                Tint::Plain
            }),
    {
        if self.current < self.matches.len() && self.matches[self.current] == row {
            return Tint::Current;
        }
        for i in 0..self.matches.len()
            invariant
                forall|j: int| 0 <= j < i ==> self.matches@[j] != row,
                current_row(self@) != Some(row),
        {
            if self.matches[i] == row {
                return Tint::Match;
            }
        }
        Tint::Plain
    }
}

} // verus!
