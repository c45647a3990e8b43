//! The overlays: go to a definition, and open a file by a few of its letters.

use crate::gotodef::Candidate;
use crate::text::{blank_str, chars_of, string_of, trimmed};
use crate::tree::fuzzy_score;
use vstd::prelude::*;

verus! {

broadcast use {crate::seqs::lemma_views_push, crate::seqs::lemma_views_update};

/// "Go to definition" overlay state.
#[derive(Debug)]
pub struct Goto {
    pub query: String,
    /// The input is to take the keyboard focus.
    pub just_opened: bool,
    /// The definition is being looked up.
    pub resolving: bool,
    /// A status/error line shown in the overlay.
    pub note: String,
}

/// What a [`Goto`] holds.
#[verifier::ext_equal]
pub struct GotoModel {
    pub query: Seq<char>,
    pub just_opened: bool,
    pub resolving: bool,
    pub note: Seq<char>,
}

impl View for Goto {
    type V = GotoModel;

    open spec fn view(&self) -> GotoModel {
        GotoModel {
            query: self.query@,
            just_opened: self.just_opened,
            resolving: self.resolving,
            note: self.note@,
        }
    }
}

/// The overlay after a lookup of `symbol` was asked for, and what is to be
/// looked up.
pub open spec fn started(
    before: Option<GotoModel>,
    symbol: Seq<char>,
    supported: bool,
) -> (Option<GotoModel>, Option<Seq<char>>) {
    if crate::text::is_blank(symbol) {
        (before, None)
    } else if !supported {
        (
            Some(
                GotoModel {
                    query: symbol,
                    just_opened: false,
                    resolving: false,
                    note: "go-to-definition is not supported for this repo"@,
                },
            ),
            None,
        )
    } else {
        (
            Some(
                GotoModel {
                    query: crate::text::trim(symbol),
                    just_opened: false,
                    resolving: true,
                    note: "resolving via git grep + haiku…"@,
                },
            ),
            Some(crate::text::trim(symbol)),
        )
    }
}

/// Asks for the definition of `symbol`. Returns what is to be looked up:
/// nothing for a blank symbol, or where the repo does not support it.
pub fn start_goto(slot: &mut Option<Goto>, symbol: &str, supported: bool) -> (r: Option<String>)
    ensures
        ({
            let (after, ask) = started(crate::seqs::opt_view(*old(slot)), symbol@, supported);
            &&& crate::seqs::opt_view(*final(slot)) == after
            &&& crate::seqs::opt_view(r) == ask
        }),
{
    if blank_str(symbol) {
        return None;
    }
    if !supported {
        *slot = Some(
            Goto {
                query: symbol.to_owned(),
                just_opened: false,
                resolving: false,
                note: "go-to-definition is not supported for this repo".to_owned(),
            },
        );
        return None;
    }
    let cs = chars_of(symbol);
    let name = string_of(trimmed(cs.as_slice()));
    *slot = Some(
        Goto {
            query: name.clone(),
            just_opened: false,
            resolving: true,
            note: "resolving via git grep + haiku…".to_owned(),
        },
    );
    Some(name)
}

/// The overlay, still open, with this note instead of a lookup.
pub open spec fn noted(g: Option<GotoModel>, note: Seq<char>) -> Option<GotoModel> {
    match g {
        Some(g) => Some(GotoModel { resolving: false, note, ..g }),
        None => None,
    }
}

fn set_note(slot: Option<Goto>, note: String) -> (r: Option<Goto>)
    ensures
        crate::seqs::opt_view(r) == noted(crate::seqs::opt_view(slot), note@),
{
    match slot {
        Some(g) => Some(
            Goto { query: g.query, just_opened: g.just_opened, resolving: false, note },
        ),
        None => None,
    }
}

/// Takes the result of a lookup. A definition closes the overlay and is
/// returned, to be shown; anything else is noted in the overlay.
pub fn finish_goto(slot: Option<Goto>, res: Result<Option<Candidate>, String>) -> (r: (
    Option<Goto>,
    Option<Candidate>,
))
    ensures
        match res {
            Ok(Some(c)) => r.0 is None && r.1 == Some(c),
            Ok(None) => r.1 is None && crate::seqs::opt_view(r.0) == noted(
                crate::seqs::opt_view(slot),
                "no definition found"@,
            ),
            Err(e) => r.1 is None && crate::seqs::opt_view(r.0) == noted(
                crate::seqs::opt_view(slot),
                "resolve failed: "@ + e@,
            ),
        },
{
    match res {
        Ok(Some(c)) => (None, Some(c)),
        Ok(None) => (set_note(slot, "no definition found".to_owned()), None),
        Err(e) => (set_note(slot, "resolve failed: ".to_owned().concat(e.as_str())), None),
    }
}

impl Goto {
    /// The overlay as it opens, with `symbol` filled in where one is selected.
    pub fn open(symbol: Option<&str>) -> (r: Self)
        ensures
            r@ == (GotoModel {
                query: match symbol {
                    Some(s) => s@,
                    None => Seq::empty(),
                },
                just_opened: true,
                resolving: false,
                note: Seq::empty(),
            }),
    {
        Goto {
            query: match symbol {
                Some(s) => s.to_owned(),
                None => String::new(),
            },
            just_opened: true,
            resolving: false,
            note: String::new(),
        }
    }

    /// What Enter looks up: the query, unless it is blank or a lookup is under
    /// way.
    pub fn on_enter(&self) -> (r: Option<String>)
        ensures
            crate::seqs::opt_view(r) == (if self@.resolving || crate::text::is_blank(
                self@.query,
            ) {
                None
            } else {
                Some(crate::text::trim(self@.query))
            }),
    {
        if self.resolving || blank_str(self.query.as_str()) {
            return None;
        }
        let cs = chars_of(self.query.as_str());
        Some(string_of(trimmed(cs.as_slice())))
    }
}

/// How well a path matches, where it does: the score, then the length.
pub struct Rank {
    pub score: Option<i64>,
    pub len: usize,
}

/// The path at `i` comes before the one at `j`: by score, then by length, then
/// in the order of the list.
pub open spec fn ranks_before(ranks: Seq<Rank>, i: int, j: int) -> bool {
    let a = ranks[i];
    let b = ranks[j];
    a.score->0 < b.score->0 || (a.score->0 == b.score->0 && (a.len < b.len || (a.len == b.len && i
        < j)))
}

/// `v` lists the best matches among the first `n`, best first, at most `cap` of
/// them.
pub open spec fn is_ranking(v: Seq<usize>, ranks: Seq<Rank>, n: int, cap: nat) -> bool {
    &&& v.len() <= cap
    &&& forall|i: int| 0 <= i < v.len() ==> (#[trigger] v[i]) < n && ranks[v[i] as int].score is Some
    &&& forall|i: int, j: int|
        0 <= i < j < v.len() ==> #[trigger] ranks_before(ranks, v[i] as int, v[j] as int)
    &&& forall|k: int|
        #![trigger ranks[k]]
        0 <= k < n && ranks[k].score is Some && !v.contains(k as usize) ==> v.len() == cap
            && forall|i: int| 0 <= i < v.len() ==> #[trigger] ranks_before(ranks, v[i] as int, k)
}

/// Whether rank `a` at `i` comes before `b` at `j`.
fn comes_before(a: &Rank, i: usize, b: &Rank, j: usize) -> (r: bool)
    requires
        a.score is Some,
        b.score is Some,
    ensures
        r == (a.score->0 < b.score->0 || (a.score->0 == b.score->0 && (a.len < b.len || (a.len
            == b.len && i < j)))),
{
    match (a.score, b.score) {
        (Some(x), Some(y)) => x < y || (x == y && (a.len < b.len || (a.len == b.len && i < j))),
        _ => false,
    }
}

/// The best matches, best first, at most `cap` of them.
pub fn rank(ranks: &[Rank], cap: usize) -> (v: Vec<usize>)
    ensures
        is_ranking(v@, ranks@, ranks@.len() as int, cap as nat),
{
    let mut v: Vec<usize> = Vec::new();
    for k in 0..ranks.len()
        invariant
            is_ranking(v@, ranks@, k as int, cap as nat),
    {
        if ranks[k].score.is_some() {
            let mut at: usize = v.len();
            while at > 0 && comes_before(&ranks[k], k, &ranks[v[at - 1]], v[at - 1])
                invariant
                    at <= v@.len(),
                    k < ranks@.len(),
                    ranks@[k as int].score is Some,
                    is_ranking(v@, ranks@, k as int, cap as nat),
                    forall|i: int|
                        at <= i < v@.len() ==> #[trigger] ranks_before(
                            ranks@,
                            k as int,
                            v@[i] as int,
                        ),
                decreases at,
            {
                at = at - 1;
            }
            let ghost before = v@;
            assert forall|i: int| 0 <= i < at implies #[trigger] ranks_before(
                ranks@,
                before[i] as int,
                k as int,
            ) by {
                assert(ranks_before(ranks@, before[at - 1] as int, k as int));
                if i < at - 1 {
                    assert(ranks_before(ranks@, before[i] as int, before[at - 1] as int));
                }
            }
            if at < cap {
                v.insert(at, k);
                let ghost full = v@;
                assert(full[at as int] == k);
                proof {
                    lemma_inserted(before, ranks@, k as int, cap as nat, at as int);
                }
                if v.len() > cap {
                    v.truncate(cap);
                    proof {
                        lemma_cut(full, ranks@, k as int, cap as nat);
                    }
                } else {
                    proof {
                        lemma_uncut(full, ranks@, k as int, cap as nat);
                    }
                }
            } else {
                assert(before.len() == cap);
                assert forall|m: int|
                    #![trigger ranks@[m]]
                    0 <= m < k + 1 && ranks@[m].score is Some && !v@.contains(m as usize) implies v@.len()
                    == cap && forall|i: int|
                    0 <= i < v@.len() ==> #[trigger] ranks_before(ranks@, v@[i] as int, m) by {
                    if m == k {
                        assert(at == cap);
                    }
                }
            }
        }
    }
    v
}

/// `full` lists all that was listed and `k`, in order; what is missing comes
/// after all of `full` but its last.
spec fn is_widened(full: Seq<usize>, ranks: Seq<Rank>, k: int, cap: nat) -> bool {
    &&& full.len() <= cap + 1
    &&& forall|i: int|
        0 <= i < full.len() ==> (#[trigger] full[i]) < k + 1 && ranks[full[i] as int].score is Some
    &&& forall|i: int, j: int|
        0 <= i < j < full.len() ==> #[trigger] ranks_before(ranks, full[i] as int, full[j] as int)
    &&& forall|m: int|
        #![trigger ranks[m]]
        0 <= m < k + 1 && ranks[m].score is Some && !full.contains(m as usize) ==> full.len() == cap
            + 1 && forall|i: int|
            0 <= i < full.len() ==> #[trigger] ranks_before(ranks, full[i] as int, m) || full[i]
                == k
}

proof fn lemma_inserted(before: Seq<usize>, ranks: Seq<Rank>, k: int, cap: nat, at: int)
    requires
        0 <= k < ranks.len() <= usize::MAX,
        ranks[k].score is Some,
        is_ranking(before, ranks, k, cap),
        0 <= at <= before.len(),
        at < cap,
        forall|i: int|
            0 <= i < at ==> #[trigger] ranks_before(ranks, before[i] as int, k),
        forall|i: int|
            at <= i < before.len() ==> #[trigger] ranks_before(ranks, k, before[i] as int),
    ensures
        is_widened(before.insert(at, k as usize), ranks, k, cap),
{
    let full = before.insert(at, k as usize);
    assert forall|i: int| 0 <= i < full.len() implies (#[trigger] full[i]) < k + 1
        && ranks[full[i] as int].score is Some by {
        if i < at {
            assert(full[i] == before[i]);
        } else if i > at {
            assert(full[i] == before[i - 1]);
        }
    }
    assert forall|i: int, j: int| 0 <= i < j < full.len() implies #[trigger] ranks_before(
        ranks,
        full[i] as int,
        full[j] as int,
    ) by {
        let a = if i < at {
            before[i]
        } else if i == at {
            k as usize
        } else {
            before[i - 1]
        };
        let b = if j < at {
            before[j]
        } else if j == at {
            k as usize
        } else {
            before[j - 1]
        };
        assert(full[i] == a && full[j] == b);
        if i < at && j > at {
            assert(ranks_before(ranks, before[i] as int, before[j - 1] as int));
        } else if i < at && j < at {
            assert(ranks_before(ranks, before[i] as int, before[j] as int));
        } else if i > at {
            assert(ranks_before(ranks, before[i - 1] as int, before[j - 1] as int));
        } else if i == at {
            assert(ranks_before(ranks, k, before[j - 1] as int));
        } else {
            assert(ranks_before(ranks, before[i] as int, k));
        }
    }
    assert forall|m: int|
        #![trigger ranks[m]]
        0 <= m < k + 1 && ranks[m].score is Some && !full.contains(m as usize) implies full.len()
        == cap + 1 && forall|i: int|
        0 <= i < full.len() ==> #[trigger] ranks_before(ranks, full[i] as int, m) || full[i]
            == k by {
        assert(full[at] == k as usize);
        assert(m != k);
        assert(!before.contains(m as usize)) by {
            if before.contains(m as usize) {
                let w = before.index_of(m as usize);
                if w < at {
                    assert(full[w] == m as usize);
                } else {
                    assert(full[w + 1] == m as usize);
                }
            }
        }
        assert forall|i: int| 0 <= i < full.len() implies #[trigger] ranks_before(
            ranks,
            full[i] as int,
            m,
        ) || full[i] == k by {
            if i < at {
                assert(ranks_before(ranks, before[i] as int, m));
            } else if i > at {
                assert(ranks_before(ranks, before[i - 1] as int, m));
            }
        }
    }
}

proof fn lemma_cut(full: Seq<usize>, ranks: Seq<Rank>, k: int, cap: nat)
    requires
        0 <= k < ranks.len() <= usize::MAX,
        is_widened(full, ranks, k, cap),
        full.len() == cap + 1,
        exists|i: int| 0 <= i < cap && #[trigger] full[i] == k,
    ensures
        is_ranking(full.take(cap as int), ranks, k + 1, cap),
{
    let v = full.take(cap as int);
    assert forall|i: int, j: int| 0 <= i < j < v.len() implies #[trigger] ranks_before(
        ranks,
        v[i] as int,
        v[j] as int,
    ) by {
        assert(ranks_before(ranks, full[i] as int, full[j] as int));
    }
    let last = full[cap as int];
    let kk = choose|i: int| 0 <= i < cap && #[trigger] full[i] == k;
    assert forall|m: int|
        #![trigger ranks[m]]
        0 <= m < k + 1 && ranks[m].score is Some && !v.contains(m as usize) implies v.len() == cap
        && forall|i: int| 0 <= i < v.len() ==> #[trigger] ranks_before(ranks, v[i] as int, m) by {
        assert forall|i: int| 0 <= i < v.len() implies #[trigger] ranks_before(
            ranks,
            v[i] as int,
            m,
        ) by {
            assert(ranks_before(ranks, full[i] as int, last as int));
            if full.contains(m as usize) {
                let w = full.index_of(m as usize);
                if w < cap {
                    assert(v[w] == m as usize);
                }
                assert(w == cap);
            } else {
                assert(ranks_before(ranks, last as int, m) || last == k);
                if last == k {
                    assert(ranks_before(ranks, full[kk] as int, last as int));
                }
            }
        }
    }
}

proof fn lemma_uncut(full: Seq<usize>, ranks: Seq<Rank>, k: int, cap: nat)
    requires
        is_widened(full, ranks, k, cap),
        full.len() <= cap,
    ensures
        is_ranking(full, ranks, k + 1, cap),
{
}

proof fn lemma_rankings_agree(a: Seq<usize>, b: Seq<usize>, ranks: Seq<Rank>, cap: nat, i: int)
    requires
        ranks.len() <= usize::MAX,
        is_ranking(a, ranks, ranks.len() as int, cap),
        is_ranking(b, ranks, ranks.len() as int, cap),
        0 <= i < a.len(),
        i < b.len(),
        forall|j: int| 0 <= j < i ==> a[j] == b[j],
    ensures
        a[i] == b[i],
{
    if a[i] != b[i] {
        lemma_not_earlier(a, b, ranks, cap, i);
        lemma_not_earlier(b, a, ranks, cap, i);
        let x = ranks[a[i] as int];
        let y = ranks[b[i] as int];
        assert(x.score is Some && y.score is Some);
    }
}

proof fn lemma_not_earlier(a: Seq<usize>, b: Seq<usize>, ranks: Seq<Rank>, cap: nat, i: int)
    requires
        ranks.len() <= usize::MAX,
        is_ranking(a, ranks, ranks.len() as int, cap),
        is_ranking(b, ranks, ranks.len() as int, cap),
        0 <= i < a.len(),
        i < b.len(),
        forall|j: int| 0 <= j < i ==> a[j] == b[j],
        a[i] != b[i],
    ensures
        ranks_before(ranks, b[i] as int, a[i] as int),
{
    let x = a[i];
    assert(ranks[x as int].score is Some);
    if b.contains(x) {
        let w = b.index_of(x);
        if w < i {
            assert(a[w] == x);
            assert(ranks_before(ranks, a[w] as int, a[i] as int));
        } else {
            assert(ranks_before(ranks, b[i] as int, b[w] as int));
        }
    } else {
        assert(x as int as usize == x);
        assert(ranks_before(ranks, b[i] as int, x as int));
    }
}

proof fn lemma_ranking_not_longer(a: Seq<usize>, b: Seq<usize>, ranks: Seq<Rank>, cap: nat)
    requires
        ranks.len() <= usize::MAX,
        is_ranking(a, ranks, ranks.len() as int, cap),
        is_ranking(b, ranks, ranks.len() as int, cap),
        forall|j: int| 0 <= j < b.len() && j < a.len() ==> a[j] == b[j],
    ensures
        a.len() <= b.len(),
{
    if a.len() > b.len() {
        let x = a[b.len() as int];
        assert(ranks[x as int].score is Some);
        assert(x as int as usize == x);
        if b.contains(x) {
            let w = b.index_of(x);
            assert(ranks_before(ranks, a[w] as int, a[b.len() as int] as int));
        }
    }
}

/// There is one ranking: the order of the matches leaves nothing open.
pub proof fn ranking_is_unique(a: Seq<usize>, b: Seq<usize>, ranks: Seq<Rank>, cap: nat)
    requires
        ranks.len() <= usize::MAX,
        is_ranking(a, ranks, ranks.len() as int, cap),
        is_ranking(b, ranks, ranks.len() as int, cap),
    ensures
        a == b,
{
    lemma_ranking_prefix(a, b, ranks, cap, if a.len() < b.len() {
        a.len()
    } else {
        b.len()
    });
    lemma_ranking_not_longer(a, b, ranks, cap);
    lemma_ranking_not_longer(b, a, ranks, cap);
    assert(a == b);
}

proof fn lemma_ranking_prefix(
    a: Seq<usize>,
    b: Seq<usize>,
    ranks: Seq<Rank>,
    cap: nat,
    n: nat,
)
    requires
        ranks.len() <= usize::MAX,
        is_ranking(a, ranks, ranks.len() as int, cap),
        is_ranking(b, ranks, ranks.len() as int, cap),
        n <= a.len(),
        n <= b.len(),
    ensures
        forall|j: int| 0 <= j < n ==> a[j] == b[j],
    decreases n,
{
    if n > 0 {
        lemma_ranking_prefix(a, b, ranks, cap, (n - 1) as nat);
        lemma_rankings_agree(a, b, ranks, cap, n - 1);
    }
}

/// How many matches are shown.
pub const MAX_MATCHES: usize = 200;

/// Fuzzy file-open overlay.
#[derive(Debug)]
pub struct QuickOpen {
    pub query: String,
    /// All repo file paths.
    pub all: Vec<String>,
    pub truncated: bool,
    /// Which of the matches is highlighted.
    pub sel: usize,
    /// The input is to take the keyboard focus.
    pub just_opened: bool,
}

/// How well `text` matches `query`.
pub open spec fn score_of(query: Seq<char>, text: Seq<char>) -> Option<i64> {
    if query.len() == 0 {
        Some(0)
    } else {
        match crate::tree::fuzzy(crate::text::lowercase(query), crate::text::lowercase(text)) {
            Some(n) => Some(n as i64),
            None => None,
        }
    }
}

/// How well each path matches.
pub open spec fn ranks_of(query: Seq<char>, all: Seq<Seq<char>>) -> Seq<Rank> {
    all.map_values(
        |p: Seq<char>|
            Rank {
                score: score_of(query, p),
                len: vstd::utf8::encode_utf8(p).len() as usize,
            },
    )
}

/// Which match is highlighted after the keys, of `n` matches.
pub open spec fn selected_match(sel: usize, n: nat, up: bool, down: bool) -> usize {
    let last = if n > 0 {
        n - 1
    } else {
        0
    };
    let s1 = if down {
        if sel + 1 < last {
            sel + 1
        } else {
            last
        }
    } else {
        sel as int
    };
    let s2 = if up && s1 > 0 {
        s1 - 1
    } else {
        s1
    };
    if s2 >= n {
        last as usize
    } else {
        s2 as usize
    }
}

impl QuickOpen {
    /// The overlay as it opens, over these paths.
    pub fn open(all: Vec<String>, truncated: bool) -> (r: Self)
        ensures
            r.query@.len() == 0,
            r.all == all,
            r.truncated == truncated,
            r.sel == 0,
            r.just_opened,
    {
        QuickOpen { query: String::new(), all, truncated, sel: 0, just_opened: true }
    }

    /// The paths that match, best first: by score, the shorter path where the
    /// scores are equal.
    pub fn matches(&self) -> (v: Vec<usize>)
        ensures
            is_ranking(
                v@,
                ranks_of(self.query@, crate::seqs::views(self.all@)),
                self.all@.len() as int,
                MAX_MATCHES as nat,
            ),
    {
        let ghost goal = ranks_of(self.query@, crate::seqs::views(self.all@));
        let mut ranks: Vec<Rank> = Vec::new();
        for i in 0..self.all.len()
            invariant
                goal == ranks_of(self.query@, crate::seqs::views(self.all@)),
                ranks@ == goal.take(i as int),
        {
            let p = self.all[i].as_str();
            let r = Rank { score: fuzzy_score(self.query.as_str(), p), len: p.len() };
            assert(crate::seqs::views(self.all@)[i as int] == p@);
            assert(r == goal[i as int]);
            ranks.push(r);
            assert(ranks@ == goal.take(i + 1));
        }
        assert(goal.take(goal.len() as int) == goal);
        rank(ranks.as_slice(), MAX_MATCHES)
    }

    /// Moves the highlight over `n` matches.
    pub fn step(&mut self, n: usize, up: bool, down: bool)
        ensures
            *final(self) == (QuickOpen {
                sel: selected_match(old(self).sel, n as nat, up, down),
                ..*old(self)
            }),
    {
        let last: usize = if n > 0 {
            n - 1
        } else {
            0
        };
        let mut s: usize = self.sel;
        if down {
            s = if s < last {
                s + 1
            } else {
                last
            };
        }
        if up && s > 0 {
            s = s - 1;
        }
        if s >= n {
            s = last;
        }
        self.sel = s;
    }

    /// The path that Enter opens: the highlighted match.
    pub fn on_enter(&self, matches: &[usize]) -> (r: Option<String>)
        requires
            forall|i: int| 0 <= i < matches@.len() ==> #[trigger] matches@[i] < self.all@.len(),
        ensures
            crate::seqs::opt_view(r) == (if self.sel < matches@.len() {
                Some(crate::seqs::views(self.all@)[matches@[self.sel as int] as int])
            } else {
                None
            }),
    {
        if self.sel < matches.len() {
            let i: usize = matches[self.sel];
            Some(self.all[i].clone())
        } else {
            None
        }
    }
}

/// The highlight is always on a match, where there is one.
pub proof fn highlight_is_on_a_match(sel: usize, n: nat, up: bool, down: bool)
    requires
        0 < n <= usize::MAX,
    ensures
        selected_match(sel, n, up, down) < n,
{
}

} // verus!
