//! The repository's files: the lazy tree, the walk that lists them all, and the
//! fuzzy match that finds one of them.

use crate::order::sort_names;
use crate::repo::DirEntry;
use crate::text::chars_of;
use vstd::prelude::*;

verus! {

broadcast use {crate::seqs::lemma_views_push, crate::seqs::lemma_views_update};

/// A node of the lazy tree.
#[derive(Debug)]
pub struct Node {
    /// Display name (file or dir basename).
    pub name: String,
    /// Path relative to repo root (forward-slashed).
    pub rel: String,
    pub is_dir: bool,
    /// None = not yet loaded (lazy). Some = loaded children.
    pub children: Option<Vec<Node>>,
}

/// The tree, as far as it has been opened.
#[derive(Debug)]
pub struct FileTree {
    /// Repo workdir root. `Node.rel` paths are relative to this.
    pub root: String,
    pub nodes: Vec<Node>,
}

/// The node shows the entry, and its children have not been loaded.
pub open spec fn is_unopened(n: Node, e: crate::repo::EntryModel) -> bool {
    n.name@ == e.name && n.rel@ == e.rel && n.is_dir == e.is_dir && n.children is None
}

/// The nodes show these entries, and none has been opened.
pub open spec fn are_unopened(nodes: Seq<Node>, entries: Seq<crate::repo::EntryModel>) -> bool {
    &&& nodes.len() == entries.len()
    &&& forall|i: int| 0 <= i < nodes.len() ==> is_unopened(#[trigger] nodes[i], entries[i])
}

/// Build a lazy tree [`Node`] from a [`DirEntry`].
pub fn node_from_entry(e: DirEntry) -> (r: Node)
    ensures
        is_unopened(r, e@),
{
    Node { name: e.name, rel: e.rel, is_dir: e.is_dir, children: None }
}

/// Nodes for a listing.
pub fn nodes_from_entries(entries: Vec<DirEntry>) -> (r: Vec<Node>)
    ensures
        are_unopened(r@, crate::seqs::views(entries@)),
{
    let ghost es = crate::seqs::views(entries@);
    let mut r: Vec<Node> = Vec::new();
    for i in 0..entries.len()
        invariant
            es == crate::seqs::views(entries@),
            r@.len() == i,
            forall|k: int| 0 <= k < i ==> is_unopened(#[trigger] r@[k], es[k]),
    {
        assert(es[i as int] == entries@[i as int]@);
        r.push(node_from_entry(entries[i].clone()));
    }
    r
}

impl FileTree {
    /// The tree of the repo at `root`, with the root's listing opened.
    pub fn new(root: String, entries: Vec<DirEntry>) -> (r: Self)
        ensures
            r.root == root,
            are_unopened(r.nodes@, crate::seqs::views(entries@)),
    {
        FileTree { root, nodes: nodes_from_entries(entries) }
    }

    /// Whether the children of `node` have to be listed before it can be shown
    /// open.
    pub fn needs_children(node: &Node) -> (r: bool)
        ensures
            r == (node.children is None),
    {
        node.children.is_none()
    }

    /// Ensure a directory node's children are loaded (lazy, on first expand):
    /// `entries` is its listing. Children that are there stay.
    pub fn load_children(node: &mut Node, entries: Vec<DirEntry>)
        ensures
            final(node).name == old(node).name,
            final(node).rel == old(node).rel,
            final(node).is_dir == old(node).is_dir,
            old(node).children is Some ==> final(node).children == old(node).children,
            old(node).children is None ==> (final(node).children matches Some(c) && are_unopened(
                c@,
                crate::seqs::views(entries@),
            )),
    {
        if node.children.is_some() {
            return ;
        }
        node.children = Some(nodes_from_entries(entries));
    }
}

/// The path of `name` in the directory `rel`; the root is the empty path.
pub open spec fn child_of(rel: Seq<char>, name: Seq<char>) -> Seq<char> {
    if rel.len() == 0 {
        name
    } else {
        rel.push('/') + name
    }
}

/// The path of `name` in the directory `rel`.
pub fn child_path(rel: &str, name: &str) -> (r: String)
    ensures
        r@ == child_of(rel@, name@),
{
    let mut r = rel.to_owned();
    if !rel.is_empty() {
        r.push('/');
    }
    r.append(name);
    r
}

/// Whether an entry of this name is listed at all.
pub fn is_listed(name: &str) -> (r: bool)
    ensures
        r == (name@ != ".git"@),
{
    !(*name == *".git")
}

/// Something found in a directory.
#[derive(Debug)]
pub struct Found {
    pub name: String,
    pub is_dir: bool,
}

/// What a [`Found`] holds.
#[verifier::ext_equal]
pub struct FoundModel {
    pub name: Seq<char>,
    pub is_dir: bool,
}

impl View for Found {
    type V = FoundModel;

    open spec fn view(&self) -> FoundModel {
        FoundModel { name: self.name@, is_dir: self.is_dir }
    }
}

/// The names of what was found, directories or files.
pub open spec fn names_of(found: Seq<FoundModel>, dirs: bool) -> Seq<Seq<char>>
    decreases found.len(),
{
    if found.len() == 0 {
        Seq::empty()
    } else if found.last().is_dir == dirs {
        names_of(found.drop_last(), dirs).push(found.last().name)
    } else {
        names_of(found.drop_last(), dirs)
    }
}

/// Entries of the directory `rel` with these names.
pub open spec fn entries_of(rel: Seq<char>, names: Seq<Seq<char>>, is_dir: bool) -> Seq<
    crate::repo::EntryModel,
> {
    names.map_values(|n: Seq<char>| crate::repo::EntryModel { name: n, rel: child_of(rel, n), is_dir })
}

/// The listing of the directory `rel`: directories first, then files, both in
/// order.
pub open spec fn listing(rel: Seq<char>, found: Seq<FoundModel>) -> Seq<crate::repo::EntryModel> {
    entries_of(rel, crate::order::in_order(names_of(found, true)), true) + entries_of(
        rel,
        crate::order::in_order(names_of(found, false)),
        false,
    )
}

fn push_entries(out: &mut Vec<DirEntry>, rel: &str, names: &[String], is_dir: bool)
    ensures
        crate::seqs::views(final(out)@) == crate::seqs::views(old(out)@) + entries_of(
            rel@,
            crate::seqs::views(names@),
            is_dir,
        ),
{
    let ghost start = crate::seqs::views(out@);
    let ghost goal = entries_of(rel@, crate::seqs::views(names@), is_dir);
    assert(start + goal.take(0) == start);
    for i in 0..names.len()
        invariant
            goal == entries_of(rel@, crate::seqs::views(names@), is_dir),
            crate::seqs::views(out@) == start + goal.take(i as int),
    {
        let e = DirEntry {
            name: names[i].clone(),
            rel: child_path(rel, names[i].as_str()),
            is_dir,
        };
        assert(e@ == goal[i as int]);
        out.push(e);
        assert(crate::seqs::views(out@) == start + goal.take(i + 1));
    }
    assert(goal.take(goal.len() as int) == goal);
}

/// Arranges what was found in the directory `rel`: directories first, then
/// files, both alphabetical.
pub fn arrange(rel: &str, found: &[Found]) -> (r: Vec<DirEntry>)
    ensures
        crate::seqs::views(r@) == listing(rel@, crate::seqs::views(found@)),
{
    let mut dirs: Vec<String> = Vec::new();
    let mut files: Vec<String> = Vec::new();
    proof {
        assert(crate::seqs::views(dirs@) == Seq::<Seq<char>>::empty());
        assert(crate::seqs::views(files@) == Seq::<Seq<char>>::empty());
    }
    let ghost fs = crate::seqs::views(found@);
    for i in 0..found.len()
        invariant
            fs == crate::seqs::views(found@),
            crate::seqs::views(dirs@) == names_of(fs.take(i as int), true),
            crate::seqs::views(files@) == names_of(fs.take(i as int), false),
    {
        assert(fs.take(i + 1).drop_last() == fs.take(i as int));
        assert(fs.take(i + 1).last() == found@[i as int]@);
        let name = found[i].name.clone();
        if found[i].is_dir {
            dirs.push(name);
        } else {
            files.push(name);
        }
    }
    assert(fs.take(fs.len() as int) == fs);
    sort_names(&mut dirs);
    sort_names(&mut files);
    let mut r: Vec<DirEntry> = Vec::new();
    assert(crate::seqs::views(r@) == Seq::<crate::repo::EntryModel>::empty());
    push_entries(&mut r, rel, dirs.as_slice(), true);
    push_entries(&mut r, rel, files.as_slice(), false);
    assert(crate::seqs::views(r@) == listing(rel@, crate::seqs::views(found@)));
    r
}

/// A walk over all files of the repo: which directories are still to be read,
/// and the files that were found, `cap` of them at most.
pub struct FileWalk {
    pub cap: usize,
    pub out: Vec<String>,
    pub stack: Vec<String>,
    pub truncated: bool,
    /// Every file that the walk has met.
    pub met: Ghost<Seq<Seq<char>>>,
}

impl FileWalk {
    /// The first `cap` files are kept, and the walk is cut short exactly where
    /// there were more.
    pub open spec fn wf(self) -> bool {
        &&& self.truncated <==> self.met@.len() > self.cap
        &&& crate::seqs::views(self.out@) == if self.truncated {
            self.met@.take(self.cap as int)
        } else {
            self.met@
        }
    }

    /// A walk that begins at the root.
    pub fn new(cap: usize) -> (r: Self)
        ensures
            r.wf(),
            r.cap == cap,
            r.met@.len() == 0,
            crate::seqs::views(r.stack@) == seq![Seq::<char>::empty()],
    {
        let root = String::new();
        let stack = vec![root];
        assert(crate::seqs::views(stack@) == seq![Seq::<char>::empty()]);
        let r = FileWalk {
            cap,
            out: Vec::new(),
            stack,
            truncated: false,
            met: Ghost(Seq::empty()),
        };
        assert(crate::seqs::views(r.out@) == Seq::<Seq<char>>::empty());
        r
    }

    /// The next directory to read. None where there is no more, or where a file
    /// has been left out.
    pub fn next_dir(&mut self) -> (r: Option<String>)
        requires
            old(self).wf(),
        ensures
            final(self).wf(),
            final(self).cap == old(self).cap,
            final(self).met@ == old(self).met@,
            r is Some <==> old(self).stack@.len() > 0 && old(self).met@.len() <= old(self).cap,
            match r {
                Some(d) => d == old(self).stack@.last() && final(self).stack@
                    == old(self).stack@.drop_last(),
                None => final(self).stack@ == old(self).stack@,
            },
    {
        if self.truncated {
            None
        } else {
            self.stack.pop()
        }
    }

    /// Takes in an entry that is not ignored: a directory is to be read later, a
    /// file is found, or left out where there are `cap` already.
    pub fn enter(&mut self, child_rel: String, is_dir: bool)
        requires
            old(self).wf(),
        ensures
            final(self).wf(),
            final(self).cap == old(self).cap,
            is_dir ==> final(self).stack@ == old(self).stack@.push(child_rel) && final(self).met@
                == old(self).met@,
            !is_dir ==> final(self).stack@ == old(self).stack@ && final(self).met@
                == old(self).met@.push(child_rel@),
    {
        if is_dir {
            self.stack.push(child_rel);
        } else {
            let ghost before = self.met@;
            let ghost kept = crate::seqs::views(self.out@);
            assert(kept.len() == self.out@.len());
            self.met = Ghost(before.push(child_rel@));
            if self.out.len() < self.cap {
                self.out.push(child_rel);
                assert(crate::seqs::views(self.out@) == kept.push(child_rel@));
            } else {
                self.truncated = true;
                assert(kept == self.met@.take(self.cap as int));
            }
        }
    }

    /// The files that were found, in order, and whether the walk was cut short:
    /// that is so exactly where a file was left out.
    pub fn finish(self) -> (r: (Vec<String>, bool))
        requires
            self.wf(),
        ensures
            r.0@.len() <= self.cap,
            r.1 == (self.met@.len() > self.cap),
            crate::seqs::views(r.0@) == crate::order::in_order(
                if r.1 {
                    self.met@.take(self.cap as int)
                } else {
                    self.met@
                },
            ),
            self.met@.no_duplicates() ==> crate::seqs::views(r.0@).no_duplicates(),
    {
        let mut out = self.out;
        proof {
            crate::order::in_order_keeps_apart(crate::seqs::views(out@));
        }
        sort_names(&mut out);
        assert(crate::seqs::views(out@).len() == out@.len());
        (out, self.truncated)
    }
}

/// The characters of `q` stand in `t` in this order, with or without others
/// between them.
pub open spec fn subsequence(q: Seq<char>, t: Seq<char>) -> bool
    decreases t.len(),
{
    if q.len() == 0 {
        true
    } else if t.len() == 0 {
        false
    } else {
        subsequence(q, t.drop_last()) || (q.last() == t.last() && subsequence(
            q.drop_last(),
            t.drop_last(),
        ))
    }
}

/// The shortest beginning of `t`, of `from` characters or more, in which `q`
/// stands.
pub open spec fn shortest_beginning(q: Seq<char>, t: Seq<char>, from: nat) -> Option<nat>
    decreases t.len() + 1 - from,
{
    if from > t.len() {
        None
    } else if subsequence(q, t.take(from as int)) {
        Some(from)
    } else {
        shortest_beginning(q, t, from + 1)
    }
}

/// How far one has to read into `t` to find `q`: the index of the last
/// character that is needed, 0 where none is. The gaps between the matched
/// characters and the distance of the first from the start add up to it.
pub open spec fn fuzzy(q: Seq<char>, t: Seq<char>) -> Option<usize> {
    match shortest_beginning(q, t, 0) {
        Some(n) => if n == 0 {
            Some(0)
        } else {
            Some((n - 1) as usize)
        },
        None => None,
    }
}

/// How many characters of `q` are matched when `t` is read once and each
/// character is matched as soon as it comes.
spec fn matched(q: Seq<char>, t: Seq<char>) -> nat
    decreases t.len(),
{
    if t.len() == 0 {
        0
    } else {
        let k = matched(q, t.drop_last());
        if k < q.len() && t.last() == q[k as int] {
            k + 1
        } else {
            k
        }
    }
}

/// Matching as soon as possible finds as much as can be found.
proof fn lemma_matched(q: Seq<char>, t: Seq<char>, k: nat)
    requires
        k <= q.len(),
    ensures
        subsequence(q.take(k as int), t) <==> k <= matched(q, t),
        matched(q, t) <= q.len(),
    decreases t.len(),
{
    if t.len() > 0 {
        lemma_matched(q, t.drop_last(), k);
        if k > 0 {
            lemma_matched(q, t.drop_last(), (k - 1) as nat);
            assert(q.take(k as int).drop_last() == q.take(k - 1));
            assert(q.take(k as int).last() == q[k - 1]);
        }
    }
}

proof fn lemma_matched_grows(q: Seq<char>, t: Seq<char>, a: int, b: int)
    requires
        0 <= a <= b <= t.len(),
    ensures
        matched(q, t.take(a)) <= matched(q, t.take(b)),
    decreases b - a,
{
    if a < b {
        lemma_matched_grows(q, t, a, b - 1);
        assert(t.take(b).drop_last() == t.take(b - 1));
    }
}

proof fn lemma_shortest_is(q: Seq<char>, t: Seq<char>, from: nat, n: nat)
    requires
        from <= n <= t.len(),
        subsequence(q, t.take(n as int)),
        forall|m: int| from <= m < n ==> !subsequence(q, #[trigger] t.take(m)),
    ensures
        shortest_beginning(q, t, from) == Some(n),
    decreases n - from,
{
    if from < n {
        assert(!subsequence(q, t.take(from as int)));
        lemma_shortest_is(q, t, from + 1, n);
    }
}

proof fn lemma_no_beginning(q: Seq<char>, t: Seq<char>, from: nat)
    requires
        forall|m: int| from <= m <= t.len() ==> !subsequence(q, #[trigger] t.take(m)),
    ensures
        shortest_beginning(q, t, from) is None,
    decreases t.len() + 1 - from,
{
    if from <= t.len() {
        assert(!subsequence(q, t.take(from as int)));
        lemma_no_beginning(q, t, from + 1);
    }
}

/// [`fuzzy_score`] on texts that are in lower case already.
pub fn fuzzy_score_folded(q: &[char], t: &[char]) -> (r: Option<i64>)
    ensures
        match fuzzy(q@, t@) {
            Some(n) => r == Some(n as i64),
            None => r is None,
        },
{
    if q.len() == 0 {
        assert(subsequence(q@, t@.take(0)));
        return Some(0);
    }
    let mut qi: usize = 0;
    let mut last: usize = 0;
    assert(matched(q@, t@.take(0)) == 0);
    for ti in 0..t.len()
        invariant
            q@.len() > 0,
            qi == matched(q@, t@.take(ti as int)),
            qi < q@.len(),
    {
        assert(t@.take(ti + 1).drop_last() == t@.take(ti as int));
        if t[ti] == q[qi] {
            last = ti;
            qi = qi + 1;
            if qi == q.len() {
                proof {
                    let n = (ti + 1) as nat;
                    assert(q@.take(q@.len() as int) == q@);
                    lemma_matched(q@, t@.take(n as int), q@.len());
                    assert forall|m: int| 0 <= m < n implies !subsequence(
                        q@,
                        #[trigger] t@.take(m),
                    ) by {
                        lemma_matched(q@, t@.take(m), q@.len());
                        lemma_matched_grows(q@, t@, m, ti as int);
                    }
                    lemma_shortest_is(q@, t@, 0, n);
                }
                return Some(last as i64);
            }
        }
    }
    proof {
        assert(q@.take(q@.len() as int) == q@);
        assert forall|m: int| 0 <= m <= t@.len() implies !subsequence(q@, #[trigger] t@.take(m)) by {
            lemma_matched(q@, t@.take(m), q@.len());
            lemma_matched_grows(q@, t@, m, t@.len() as int);
        }
        lemma_no_beginning(q@, t@, 0);
    }
    None
}

/// Subsequence fuzzy match: do `query`'s chars appear in order within `text`
/// (case-insensitive)? Returns a score (lower = better: prefers earlier + more
/// contiguous matches) or None if no match. Empty query matches everything with
/// score 0.
pub fn fuzzy_score(query: &str, text: &str) -> (r: Option<i64>)
    ensures
        query@.len() == 0 ==> r == Some(0i64),
        query@.len() > 0 ==> match fuzzy(
            crate::text::lowercase(query@),
            crate::text::lowercase(text@),
        ) {
            Some(n) => r == Some(n as i64),
            None => r is None,
        },
{
    if query.is_empty() {
        return Some(0);
    }
    let q = chars_of(query.to_lowercase().as_str());
    let t = chars_of(text.to_lowercase().as_str());
    fuzzy_score_folded(q.as_slice(), t.as_slice())
}

/// A text matches exactly where the query is a subsequence of it.
pub proof fn fuzzy_matches_subsequences(q: Seq<char>, t: Seq<char>)
    ensures
        fuzzy(q, t) is Some <==> subsequence(q, t),
{
    assert(t.take(t.len() as int) == t);
    assert(q.take(q.len() as int) == q);
    if subsequence(q, t) {
        if fuzzy(q, t) is None {
            lemma_none_means_none(q, t, 0);
        }
    } else {
        assert forall|m: int| 0 <= m <= t.len() implies !subsequence(q, #[trigger] t.take(m)) by {
            lemma_matched(q, t.take(m), q.len());
            lemma_matched(q, t, q.len());
            lemma_matched_grows(q, t, m, t.len() as int);
        }
        lemma_no_beginning(q, t, 0);
    }
}

proof fn lemma_none_means_none(q: Seq<char>, t: Seq<char>, from: nat)
    requires
        shortest_beginning(q, t, from) is None,
        from <= t.len(),
    ensures
        !subsequence(q, t.take(t.len() as int)),
    decreases t.len() - from,
{
    if from < t.len() {
        lemma_none_means_none(q, t, from + 1);
    }
}

} // verus!
