//! File content that had to be fetched: what identifies it, a bounded cache of
//! it, and the one load that may be under way.

use crate::diff::{ChangedFile, DiffSource, Hunk};
use crate::rows::Extent;
use vstd::prelude::*;

verus! {

broadcast use {crate::seqs::lemma_views_push, crate::seqs::lemma_views_update};

/// Current selection: either a changed file (diff-able) or an arbitrary repo
/// file opened from the tree (full-file only).
#[derive(Debug)]
pub enum Selection {
    Changed(usize),
    Path(String),
}

/// What a [`Selection`] holds.
pub enum SelectionModel {
    Changed(usize),
    Path(Seq<char>),
}

impl View for Selection {
    type V = SelectionModel;

    open spec fn view(&self) -> SelectionModel {
        match self {
            Selection::Changed(i) => SelectionModel::Changed(*i),
            Selection::Path(p) => SelectionModel::Path(p@),
        }
    }
}

impl Clone for Selection {
    fn clone(&self) -> (r: Self)
        ensures
            r@ == self@,
    {
        match self {
            Selection::Changed(i) => Selection::Changed(*i),
            Selection::Path(p) => Selection::Path(p.clone()),
        }
    }
}

impl Selection {
    /// Whether both select the same.
    pub fn same(&self, other: &Selection) -> (r: bool)
        ensures
            r == (self@ == other@),
    {
        match (self, other) {
            (Selection::Changed(a), Selection::Changed(b)) => *a == *b,
            (Selection::Path(a), Selection::Path(b)) => *a == *b,
            _ => false,
        }
    }
}

/// Identity of a loaded payload: re-opening the SAME (path, what-we-fetch)
/// needs no second fetch. `source`/`base` are part of the key because changing
/// the diff base must refetch.
#[derive(Debug)]
pub struct ContentKey {
    pub path: String,
    /// The file's full-context diff, rather than its text.
    pub full_diff: bool,
    pub source: DiffSource,
    pub base: String,
}

/// What a [`ContentKey`] holds.
pub struct ContentKeyModel {
    pub path: Seq<char>,
    pub full_diff: bool,
    pub source: DiffSource,
    pub base: Seq<char>,
}

impl View for ContentKey {
    type V = ContentKeyModel;

    open spec fn view(&self) -> ContentKeyModel {
        ContentKeyModel {
            path: self.path@,
            full_diff: self.full_diff,
            source: self.source,
            base: self.base@,
        }
    }
}

impl Clone for ContentKey {
    fn clone(&self) -> (r: Self)
        ensures
            r@ == self@,
    {
        ContentKey {
            path: self.path.clone(),
            full_diff: self.full_diff,
            source: self.source,
            base: self.base.clone(),
        }
    }
}

impl ContentKey {
    /// Whether both identify the same payload.
    pub fn same(&self, other: &ContentKey) -> (r: bool)
        ensures
            r == (self@ == other@),
    {
        self.path == other.path && self.full_diff == other.full_diff && self.source == other.source
            && self.base == other.base
    }
}

/// A fetched payload.
#[derive(Debug)]
pub enum FileContent {
    /// Whole-file text, for a file opened from the tree.
    Full(String),
    /// Full-context diff hunks, for a changed file shown whole.
    FullHunks(Vec<Hunk>),
}

/// What a [`FileContent`] holds.
#[verifier::ext_equal]
pub enum ContentModel {
    Full(Seq<char>),
    FullHunks(Seq<crate::diff::HunkModel>),
}

impl View for FileContent {
    type V = ContentModel;

    open spec fn view(&self) -> ContentModel {
        match self {
            FileContent::Full(s) => ContentModel::Full(s@),
            FileContent::FullHunks(h) => ContentModel::FullHunks(crate::seqs::views(h@)),
        }
    }
}

/// The payload that a selection needs fetched, if any: the summary of a changed
/// file is already at hand.
pub open spec fn needed(
    sel: SelectionModel,
    extent: Extent,
    source: DiffSource,
    base: Seq<char>,
    files: Seq<crate::diff::FileModel>,
) -> Option<ContentKeyModel> {
    match sel {
        SelectionModel::Changed(i) => if extent == Extent::Full && i < files.len() {
            Some(ContentKeyModel { path: files[i as int].path, full_diff: true, source, base })
        } else {
            None
        },
        SelectionModel::Path(p) => Some(
            ContentKeyModel { path: p, full_diff: false, source, base },
        ),
    }
}

/// The content payload a selection+view needs fetched from the backend, if any.
/// `None` means everything needed is already in hand.
pub fn content_key_for(
    sel: &Selection,
    extent: Extent,
    source: DiffSource,
    base: &str,
    files: &[ChangedFile],
) -> (r: Option<ContentKey>)
    ensures
        crate::seqs::opt_view(r) == needed(
            sel@,
            extent,
            source,
            base@,
            crate::seqs::views(files@),
        ),
{
    match sel {
        Selection::Changed(i) => {
            let i: usize = *i;
            if extent == Extent::Full && i < files.len() {
                assert(crate::seqs::views(files@)[i as int] == files@[i as int]@);
                Some(
                    ContentKey {
                        path: files[i].path.clone(),
                        full_diff: true,
                        source,
                        base: base.to_owned(),
                    },
                )
            } else {
                None
            }
        },
        Selection::Path(p) => Some(
            ContentKey { path: p.clone(), full_diff: false, source, base: base.to_owned() },
        ),
    }
}

/// The hunks of the first file with this path, from `from` on; none where there
/// is no such file.
pub open spec fn hunks_at(
    files: Seq<crate::diff::FileModel>,
    path: Seq<char>,
    from: int,
) -> Seq<crate::diff::HunkModel>
    decreases files.len() - from,
{
    if from < 0 || from >= files.len() {
        Seq::empty()
    } else if files[from].path == path {
        files[from].hunks
    } else {
        hunks_at(files, path, from + 1)
    }
}

/// Takes the hunks of the file at `path` out of a diff.
pub fn hunks_of(files: &[ChangedFile], path: &str) -> (r: Vec<Hunk>)
    ensures
        crate::seqs::views(r@) == hunks_at(crate::seqs::views(files@), path@, 0),
{
    let ghost fs = crate::seqs::views(files@);
    for i in 0..files.len()
        invariant
            fs == crate::seqs::views(files@),
            hunks_at(fs, path@, 0) == hunks_at(fs, path@, i as int),
    {
        assert(fs[i as int] == files@[i as int]@);
        if *files[i].path.as_str() == *path {
            let r = files[i].hunks.clone();
            assert(crate::seqs::views(r@) == crate::seqs::views(files@[i as int].hunks@));
            return r;
        }
    }
    let r: Vec<Hunk> = Vec::new();
    assert(crate::seqs::views(r@) == Seq::<crate::diff::HunkModel>::empty());
    r
}

/// The payload for a key, from what the backend was asked for it: the file's
/// text, or a diff in which the file's hunks are looked up.
pub fn payload(key: &ContentKey, text: String, files: &[ChangedFile]) -> (r: FileContent)
    ensures
        r@ == (if key.full_diff {
            ContentModel::FullHunks(hunks_at(crate::seqs::views(files@), key@.path, 0))
        } else {
            ContentModel::Full(text@)
        }),
{
    if key.full_diff {
        FileContent::FullHunks(hunks_of(files, key.path.as_str()))
    } else {
        FileContent::Full(text)
    }
}

/// A bounded in-memory cache of loaded file content. Keeps the last `cap`
/// distinct keys, evicting in order of insertion.
#[derive(Debug)]
pub struct ContentCache {
    cap: usize,
    /// Oldest first.
    entries: Vec<(ContentKey, FileContent)>,
}

/// One entry of the cache.
pub type EntryModel = (ContentKeyModel, ContentModel);

/// Where `key` stands among the entries.
pub open spec fn position(entries: Seq<EntryModel>, key: ContentKeyModel, from: int) -> Option<int>
    decreases entries.len() - from,
{
    if from < 0 || from >= entries.len() {
        None
    } else if entries[from].0 == key {
        Some(from)
    } else {
        position(entries, key, from + 1)
    }
}

/// What the cache holds for `key`.
pub open spec fn lookup(entries: Seq<EntryModel>, key: ContentKeyModel) -> Option<ContentModel> {
    match position(entries, key, 0) {
        Some(i) => Some(entries[i].1),
        None => None,
    }
}

/// The entries after an insertion: in place where the key is there, else at the
/// end, with the oldest gone if that is one too many.
pub open spec fn inserted(
    entries: Seq<EntryModel>,
    cap: nat,
    key: ContentKeyModel,
    val: ContentModel,
) -> Seq<EntryModel> {
    match position(entries, key, 0) {
        Some(i) => entries.update(i, (key, val)),
        None => if entries.len() < cap {
            entries.push((key, val))
        } else {
            entries.push((key, val)).drop_first()
        },
    }
}

/// No key stands twice.
pub open spec fn keys_distinct(entries: Seq<EntryModel>) -> bool {
    forall|i: int, j: int|
        0 <= i < j < entries.len() ==> (#[trigger] entries[i]).0 != (#[trigger] entries[j]).0
}

spec fn entry_views(v: Seq<(ContentKey, FileContent)>) -> Seq<EntryModel> {
    v.map_values(|e: (ContentKey, FileContent)| (e.0@, e.1@))
}

pub proof fn lemma_position(entries: Seq<EntryModel>, key: ContentKeyModel, from: int)
    requires
        0 <= from,
    ensures
        match position(entries, key, from) {
            Some(i) => from <= i < entries.len() && entries[i].0 == key && forall|j: int|
                from <= j < i ==> (#[trigger] entries[j]).0 != key,
            None => forall|j: int| from <= j < entries.len() ==> (#[trigger] entries[j]).0 != key,
        },
    decreases entries.len() - from,
{
    if from < entries.len() && entries[from].0 != key {
        lemma_position(entries, key, from + 1);
    }
}

impl ContentCache {
    /// How many entries it may hold.
    pub closed spec fn capacity(&self) -> nat {
        self.cap as nat
    }

    #[verifier::type_invariant]
    spec fn wf(&self) -> bool {
        self.entries@.len() <= self.cap && keys_distinct(entry_views(self.entries@))
    }

    /// An empty cache for `cap` entries.
    pub fn new(cap: usize) -> (r: Self)
        ensures
            r@ == Seq::<EntryModel>::empty(),
            r.capacity() == cap,
    {
        let r = ContentCache { cap, entries: Vec::new() };
        assert(r@ == Seq::<EntryModel>::empty());
        r
    }

    fn find(&self, key: &ContentKey) -> (r: Option<usize>)
        ensures
            match r {
                Some(i) => i < self.entries@.len() && position(self@, key@, 0) == Some(i as int),
                None => position(self@, key@, 0) is None,
            },
    {
        let ghost es = self@;
        for i in 0..self.entries.len()
            invariant
                es == entry_views(self.entries@),
                position(es, key@, 0) == position(es, key@, i as int),
        {
            assert(es[i as int].0 == self.entries@[i as int].0@);
            if self.entries[i].0.same(key) {
                return Some(i);
            }
        }
        None
    }

    /// The payload for `key`, where it is cached.
    pub fn get(&self, key: &ContentKey) -> (r: Option<&FileContent>)
        ensures
            match r {
                Some(c) => lookup(self@, key@) == Some(c@),
                None => lookup(self@, key@) is None,
            },
    {
        match self.find(key) {
            Some(i) => Some(&self.entries[i].1),
            None => None,
        }
    }

    /// Insert a loaded payload, evicting the oldest entry if over capacity.
    /// Re-inserting an existing key just refreshes its value.
    pub fn insert(&mut self, key: ContentKey, val: FileContent)
        ensures
            final(self)@ == inserted(old(self)@, old(self).capacity(), key@, val@),
            final(self).capacity() == old(self).capacity(),
            final(self)@.len() <= final(self).capacity(),
            keys_distinct(final(self)@),
    {
        proof {
            use_type_invariant(&*self);
            lemma_position(self@, key@, 0);
        }
        let ghost before = self@;
        let cap: usize = self.cap;
        let found = self.find(&key);
        let mut entries: Vec<(ContentKey, FileContent)> = Vec::new();
        std::mem::swap(&mut entries, &mut self.entries);
        let ghost es = entries@;
        match found {
            Some(i) => {
                entries.set(i, (key, val));
                assert(entry_views(entries@) == before.update(i as int, (key@, val@)));
            },
            None => {
                entries.push((key, val));
                assert(entry_views(entries@) == before.push((key@, val@)));
                if entries.len() > cap {
                    let ghost pushed = entries@;
                    entries.remove(0);
                    assert(entries@ == pushed.drop_first());
                    assert(entry_views(entries@) == before.push((key@, val@)).drop_first());
                }
            },
        }
        assert(keys_distinct(entry_views(entries@)));
        *self = ContentCache { cap, entries };
    }

    /// Drops everything.
    pub fn clear(&mut self)
        ensures
            final(self)@ == Seq::<EntryModel>::empty(),
            final(self).capacity() == old(self).capacity(),
    {
        let cap: usize = self.cap;
        *self = ContentCache { cap, entries: Vec::new() };
        assert(self@ == Seq::<EntryModel>::empty());
    }
}

impl View for ContentCache {
    type V = Seq<EntryModel>;

    closed spec fn view(&self) -> Seq<EntryModel> {
        entry_views(self.entries@)
    }
}

/// A cache within its bound stays within it.
pub proof fn cache_stays_bounded(
    entries: Seq<EntryModel>,
    cap: nat,
    key: ContentKeyModel,
    val: ContentModel,
)
    requires
        entries.len() <= cap,
    ensures
        inserted(entries, cap, key, val).len() <= cap,
{
    lemma_position(entries, key, 0);
}

/// What was inserted last is there, in a cache that may hold anything at all:
/// opening the same file again needs no second fetch.
pub proof fn inserted_is_found(
    entries: Seq<EntryModel>,
    cap: nat,
    key: ContentKeyModel,
    val: ContentModel,
)
    requires
        0 < cap,
        entries.len() <= cap,
    ensures
        lookup(inserted(entries, cap, key, val), key) == Some(val),
{
    let after = inserted(entries, cap, key, val);
    lemma_position(entries, key, 0);
    lemma_position(after, key, 0);
    match position(entries, key, 0) {
        Some(i) => {
            assert(after[i].0 == key);
            let j = position(after, key, 0)->0;
            if j < i {
                assert(entries[j].0 != key);
            }
        },
        None => {
            assert(after.last() == (key, val));
            let j = position(after, key, 0)->0;
            assert(after[after.len() - 1].0 == key);
            if j < after.len() - 1 {
                if entries.len() < cap {
                    assert(after[j] == entries[j]);
                } else {
                    assert(after[j] == entries[j + 1]);
                }
            }
        },
    }
}

/// An insertion changes no other entry, but that a new key in a full cache
/// costs the oldest one.
pub proof fn insertion_keeps_the_others(
    entries: Seq<EntryModel>,
    cap: nat,
    key: ContentKeyModel,
    val: ContentModel,
    other: ContentKeyModel,
)
    requires
        entries.len() <= cap,
        keys_distinct(entries),
        other != key,
        position(entries, key, 0) is Some || entries.len() < cap || (entries.len() > 0
            && entries[0].0 != other),
    ensures
        lookup(inserted(entries, cap, key, val), other) == lookup(entries, other),
{
    let after = inserted(entries, cap, key, val);
    lemma_position(entries, key, 0);
    lemma_position(entries, other, 0);
    lemma_position(after, other, 0);
    let shift = if position(entries, key, 0) is None && entries.len() == cap {
        1int
    } else {
        0int
    };
    match position(entries, other, 0) {
        Some(i) => {
            assert(after[i - shift] == entries[i]);
            let j = position(after, other, 0)->0;
            if j < i - shift {
                assert(position(entries, key, 0) == Some(j) || after[j] == entries[j + shift]);
            }
        },
        None => {
            if let Some(j) = position(after, other, 0) {
                if j + shift < entries.len() {
                    assert(position(entries, key, 0) == Some(j) || after[j] == entries[j + shift]);
                } else {
                    assert(after[j].0 == key);
                }
            }
        },
    }
}

/// What became of a finished load.
#[derive(Debug)]
pub enum Landed {
    /// It had been superseded: nothing changed.
    Ignored,
    /// Its payload is in the cache.
    Loaded,
    /// It failed with this message.
    Failed(String),
}

/// The content cache and the load that is under way, if any. Each load has a
/// number; the result of a load counts only while its number is the latest.
#[derive(Debug)]
pub struct ContentLoader {
    pub cache: ContentCache,
    pub gen: u64,
    /// What is being fetched.
    pub wanted: Option<ContentKey>,
    pub loading: bool,
}

/// The number after `n`, going round at the end.
pub open spec fn next_gen(n: u64) -> u64 {
    if n == u64::MAX {
        0
    } else {
        (n + 1) as u64
    }
}

impl ContentLoader {
    /// Nothing loaded, nothing under way.
    pub fn new(cap: usize) -> (r: Self)
        ensures
            r.cache@ == Seq::<EntryModel>::empty(),
            r.cache.capacity() == cap,
            r.gen == 0,
            r.wanted is None,
            !r.loading,
    {
        ContentLoader { cache: ContentCache::new(cap), gen: 0, wanted: None, loading: false }
    }

    /// Starts a load and returns its number, or None where exactly this is
    /// being loaded already.
    pub fn kick_content_load(&mut self, key: ContentKey) -> (r: Option<u64>)
        ensures
            r is None <==> crate::seqs::opt_view(old(self).wanted) == Some(key@),
            r is None ==> *final(self) == *old(self),
            r matches Some(n) ==> {
                &&& n == next_gen(old(self).gen)
                &&& final(self).gen == n
                &&& crate::seqs::opt_view(final(self).wanted) == Some(key@)
                &&& final(self).loading
                &&& final(self).cache == old(self).cache
            },
    {
        if let Some(w) = &self.wanted {
            if w.same(&key) {
                return None;
            }
        }
        let n: u64 = self.gen.wrapping_add(1);
        self.gen = n;
        self.wanted = Some(key);
        self.loading = true;
        Some(n)
    }

    /// Takes the result of load number `gen`. It is ignored where a newer load
    /// was started since, or where no load is under way any more.
    pub fn poll_content(
        &mut self,
        gen: u64,
        key: ContentKey,
        res: Result<FileContent, String>,
    ) -> (r: Landed)
        ensures
            r is Ignored <==> old(self).wanted is None || gen != old(self).gen,
            r is Ignored ==> *final(self) == *old(self),
            !(r is Ignored) ==> {
                &&& final(self).gen == old(self).gen
                &&& final(self).wanted is None
                &&& !final(self).loading
                &&& final(self).cache.capacity() == old(self).cache.capacity()
                &&& match res {
                    Ok(c) => r is Loaded && final(self).cache@ == inserted(
                        old(self).cache@,
                        old(self).cache.capacity(),
                        key@,
                        c@,
                    ),
                    Err(e) => (r matches Landed::Failed(m) && m@ == e@) && final(self).cache@
                        == old(self).cache@,
                }
            },
    {
        if self.wanted.is_none() || gen != self.gen {
            return Landed::Ignored;
        }
        self.wanted = None;
        self.loading = false;
        match res {
            Ok(c) => {
                self.cache.insert(key, c);
                Landed::Loaded
            },
            Err(e) => Landed::Failed(e),
        }
    }

    /// Drop all cached file content and the load under way: the diff changed,
    /// so what was loaded may be stale.
    pub fn invalidate_content_cache(&mut self)
        ensures
            final(self).cache@ == Seq::<EntryModel>::empty(),
            final(self).cache.capacity() == old(self).cache.capacity(),
            final(self).gen == old(self).gen,
            final(self).wanted is None,
            !final(self).loading,
    {
        self.cache.clear();
        self.wanted = None;
        self.loading = false;
    }
}

} // verus!
