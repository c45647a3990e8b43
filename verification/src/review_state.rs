//! The review as it is kept between sessions: per-comparison state, the
//! comparison that keys it, and the replies of the connected agent.

use crate::diff::{ChangedFile, DiffSource};
use crate::number::push_padded;
use crate::order::sort_names;
use crate::path::extension_of;
use crate::text::{blank_str, chars_of};
use vstd::prelude::*;

verus! {

broadcast use {crate::seqs::lemma_views_push, crate::seqs::lemma_views_update};

/// One hunk of a review.
#[derive(Debug)]
pub struct HunkState {
    pub header: String,
    /// "unreviewed" | "approved" | "rejected".
    pub status: String,
    pub comment: Option<String>,
    /// The hunk's [`content_anchor`](crate::diff::Hunk::content_anchor), the
    /// identity by which a verdict is carried over when the worktree moves.
    /// Empty where the changed lines were not at hand; such a hunk is matched
    /// by its header.
    pub anchor: String,
    /// The hunk was reviewed, and its changed lines have changed since.
    pub changed_since_review: bool,
}

/// What a [`HunkState`] holds.
#[verifier::ext_equal]
pub struct HunkStateModel {
    pub header: Seq<char>,
    pub status: Seq<char>,
    pub comment: Option<Seq<char>>,
    pub anchor: Seq<char>,
    pub changed_since_review: bool,
}

impl View for HunkState {
    type V = HunkStateModel;

    open spec fn view(&self) -> HunkStateModel {
        HunkStateModel {
            header: self.header@,
            status: self.status@,
            comment: crate::seqs::opt_view(self.comment),
            anchor: self.anchor@,
            changed_since_review: self.changed_since_review,
        }
    }
}

/// A copy of an optional string.
pub fn copy_opt(s: &Option<String>) -> (r: Option<String>)
    ensures
        crate::seqs::opt_view(r) == crate::seqs::opt_view(*s),
{
    match s {
        Some(x) => Some(x.clone()),
        None => None,
    }
}

impl Clone for HunkState {
    fn clone(&self) -> (r: Self)
        ensures
            r@ == self@,
    {
        HunkState {
            header: self.header.clone(),
            status: self.status.clone(),
            comment: copy_opt(&self.comment),
            anchor: self.anchor.clone(),
            changed_since_review: self.changed_since_review,
        }
    }
}

/// One file of a review.
#[derive(Debug)]
pub struct FileState {
    pub path: String,
    pub hunks: Vec<HunkState>,
}

/// What a [`FileState`] holds.
#[verifier::ext_equal]
pub struct FileStateModel {
    pub path: Seq<char>,
    pub hunks: Seq<HunkStateModel>,
}

impl View for FileState {
    type V = FileStateModel;

    open spec fn view(&self) -> FileStateModel {
        FileStateModel { path: self.path@, hunks: crate::seqs::views(self.hunks@) }
    }
}

impl Clone for FileState {
    fn clone(&self) -> (r: Self)
        ensures
            r@ == self@,
    {
        let r = FileState { path: self.path.clone(), hunks: self.hunks.clone() };
        assert(r@.hunks == self@.hunks);
        r
    }
}

/// A reviewed hunk that is no longer in the diff.
#[derive(Debug)]
pub struct OrphanedHunk {
    pub file: String,
    pub header: String,
    pub status: String,
    pub comment: Option<String>,
    pub anchor: String,
}

/// What an [`OrphanedHunk`] holds.
#[verifier::ext_equal]
pub struct OrphanModel {
    pub file: Seq<char>,
    pub header: Seq<char>,
    pub status: Seq<char>,
    pub comment: Option<Seq<char>>,
    pub anchor: Seq<char>,
}

impl View for OrphanedHunk {
    type V = OrphanModel;

    open spec fn view(&self) -> OrphanModel {
        OrphanModel {
            file: self.file@,
            header: self.header@,
            status: self.status@,
            comment: crate::seqs::opt_view(self.comment),
            anchor: self.anchor@,
        }
    }
}

impl Clone for OrphanedHunk {
    fn clone(&self) -> (r: Self)
        ensures
            r@ == self@,
    {
        OrphanedHunk {
            file: self.file.clone(),
            header: self.header.clone(),
            status: self.status.clone(),
            comment: copy_opt(&self.comment),
            anchor: self.anchor.clone(),
        }
    }
}

/// The review of one comparison.
#[derive(Debug)]
pub struct ReviewState {
    pub branch: String,
    /// Human-readable diff range, e.g. "main...HEAD" or "working tree vs HEAD".
    pub range: String,
    pub files: Vec<FileState>,
    /// Hunks that carried a verdict or a comment and are no longer in the
    /// diff: kept, so that the notes on them survive.
    pub orphaned: Vec<OrphanedHunk>,
}

/// What a [`ReviewState`] holds.
#[verifier::ext_equal]
pub struct StateModel {
    pub branch: Seq<char>,
    pub range: Seq<char>,
    pub files: Seq<FileStateModel>,
    pub orphaned: Seq<OrphanModel>,
}

impl View for ReviewState {
    type V = StateModel;

    open spec fn view(&self) -> StateModel {
        StateModel {
            branch: self.branch@,
            range: self.range@,
            files: crate::seqs::views(self.files@),
            orphaned: crate::seqs::views(self.orphaned@),
        }
    }
}

impl Clone for ReviewState {
    fn clone(&self) -> (r: Self)
        ensures
            r@ == self@,
    {
        let r = ReviewState {
            branch: self.branch.clone(),
            range: self.range.clone(),
            files: self.files.clone(),
            orphaned: self.orphaned.clone(),
        };
        assert(r@.files == self@.files);
        assert(r@.orphaned == self@.orphaned);
        r
    }
}

/// What the review state is keyed against: one comparison. Sanitized into a
/// filename so reviews for different bases never clobber each other.
#[derive(Debug, PartialEq, Eq)]
pub enum ComparisonKey {
    /// Working tree vs HEAD.
    WorkingTree,
    /// `<base>...HEAD` three-dot branch range.
    BranchRange { base: String },
}

/// What a [`ComparisonKey`] holds.
pub enum KeyModel {
    WorkingTree,
    BranchRange { base: Seq<char> },
}

impl View for ComparisonKey {
    type V = KeyModel;

    open spec fn view(&self) -> KeyModel {
        match self {
            ComparisonKey::WorkingTree => KeyModel::WorkingTree,
            ComparisonKey::BranchRange { base } => KeyModel::BranchRange { base: base@ },
        }
    }
}

impl Clone for ComparisonKey {
    fn clone(&self) -> (r: Self)
        ensures
            r@ == self@,
    {
        match self {
            ComparisonKey::WorkingTree => ComparisonKey::WorkingTree,
            ComparisonKey::BranchRange { base } => ComparisonKey::BranchRange { base: base.clone() },
        }
    }
}

/// A character that a file name keeps.
pub open spec fn is_kept(c: char) -> bool {
    crate::text::is_alphanumeric(c) || c == '.' || c == '_' || c == '-'
}

/// `s` as a safe part of a file name: every character that is not kept becomes
/// an underscore.
pub open spec fn sanitized(s: Seq<char>) -> Seq<char> {
    s.map_values(
        |c: char|
            if is_kept(c) {
                c
            } else {
                '_'
            },
    )
}

/// Sanitize a string into a safe filename component: alnum/._- kept, all else
/// becomes '_'.
pub fn sanitize_key(s: &str) -> (r: String)
    ensures
        r@ == sanitized(s@),
{
    let cs = chars_of(s);
    let mut r = String::new();
    for i in 0..cs.len()
        invariant
            cs@ == s@,
            r@ == sanitized(s@).take(i as int),
    {
        let c: char = cs[i];
        let kept: char = if c.is_alphanumeric() || c == '.' || c == '_' || c == '-' {
            c
        } else {
            '_'
        };
        r.push(kept);
        assert(r@ == sanitized(s@).take(i + 1));
    }
    assert(sanitized(s@).take(s@.len() as int) == sanitized(s@));
    r
}

/// The filename stem of a comparison.
pub open spec fn stem(k: KeyModel) -> Seq<char> {
    match k {
        KeyModel::WorkingTree => "worktree-vs-HEAD"@,
        KeyModel::BranchRange { base } => sanitized(base) + "__HEAD"@,
    }
}

/// The label of a comparison.
pub open spec fn label(k: KeyModel) -> Seq<char> {
    match k {
        KeyModel::WorkingTree => "working tree vs HEAD"@,
        KeyModel::BranchRange { base } => base + "...HEAD"@,
    }
}

/// The comparison that a source and a base select.
pub open spec fn key_of(source: DiffSource, base: Seq<char>) -> KeyModel {
    match source {
        DiffSource::WorkingTree => KeyModel::WorkingTree,
        DiffSource::BranchRange => KeyModel::BranchRange { base },
    }
}

impl ComparisonKey {
    /// The comparison that `source` and `base` select.
    pub fn of(source: DiffSource, base: &str) -> (r: Self)
        ensures
            r@ == key_of(source, base@),
    {
        match source {
            DiffSource::WorkingTree => ComparisonKey::WorkingTree,
            DiffSource::BranchRange => ComparisonKey::BranchRange { base: base.to_owned() },
        }
    }

    /// The sanitized filename stem for this comparison (no extension). Slashes
    /// and other path-hostile characters in a base ref become underscores.
    pub fn file_stem(&self) -> (r: String)
        ensures
            r@ == stem(self@),
    {
        match self {
            ComparisonKey::WorkingTree => "worktree-vs-HEAD".to_owned(),
            ComparisonKey::BranchRange { base } => sanitize_key(base.as_str()).concat("__HEAD"),
        }
    }

    /// The human-readable range label stored in [`ReviewState::range`]. Tells
    /// which comparison a state in the single-file layout belonged to.
    pub fn range_label(&self) -> (r: String)
        ensures
            r@ == label(self@),
    {
        match self {
            ComparisonKey::WorkingTree => "working tree vs HEAD".to_owned(),
            ComparisonKey::BranchRange { base } => base.clone().concat("...HEAD"),
        }
    }
}

/// Reviews of different bases are kept in different files: two comparisons
/// share a file name only where their bases are alike once sanitized.
pub proof fn comparisons_share_a_file_only_when_sanitized_alike(a: KeyModel, b: KeyModel)
    ensures
        stem(a) == stem(b) <==> match (a, b) {
            (KeyModel::WorkingTree, KeyModel::WorkingTree) => true,
            (KeyModel::BranchRange { base: x }, KeyModel::BranchRange { base: y }) => sanitized(x)
                == sanitized(y),
            _ => false,
        },
{
    reveal_strlit("worktree-vs-HEAD");
    reveal_strlit("__HEAD");
    match (a, b) {
        (KeyModel::BranchRange { base: x }, KeyModel::BranchRange { base: y }) => {
            if stem(a) == stem(b) {
                let sx = sanitized(x);
                let sy = sanitized(y);
                assert(sx == stem(a).take(stem(a).len() - 6));
                assert(sy == stem(b).take(stem(b).len() - 6));
            }
        },
        (KeyModel::BranchRange { base }, KeyModel::WorkingTree) => {
            lemma_stem_of_range(base);
        },
        (KeyModel::WorkingTree, KeyModel::BranchRange { base }) => {
            lemma_stem_of_range(base);
        },
        _ => {},
    }
}

proof fn lemma_stem_of_range(base: Seq<char>)
    ensures
        stem(KeyModel::BranchRange { base }) != "worktree-vs-HEAD"@,
{
    reveal_strlit("worktree-vs-HEAD");
    reveal_strlit("__HEAD");
    let s = stem(KeyModel::BranchRange { base });
    if s == "worktree-vs-HEAD"@ {
        assert(s[s.len() - 5] == '_');
        assert(s[11] == '-');
        assert(s.len() == 16);
    }
}

/// A base that a file name can hold as it is keeps its name.
pub proof fn sanitizing_keeps_a_plain_name(s: Seq<char>)
    requires
        forall|i: int| 0 <= i < s.len() ==> is_kept(#[trigger] s[i]),
    ensures
        sanitized(s) == s,
{
}

/// The file name of a comparison is one component of a path: it holds only
/// letters, digits, dots, underscores and hyphens.
pub proof fn stem_is_one_component(k: KeyModel)
    ensures
        forall|i: int| 0 <= i < stem(k).len() ==> is_kept(#[trigger] stem(k)[i]),
        forall|i: int| 0 <= i < stem(k).len() ==> #[trigger] stem(k)[i] != '/',
{
    reveal_strlit("worktree-vs-HEAD");
    reveal_strlit("__HEAD");
    assert forall|i: int| 0 <= i < stem(k).len() implies is_kept(#[trigger] stem(k)[i]) by {
        if let KeyModel::BranchRange { base } = k {
            if i < base.len() {
                assert(stem(k)[i] == sanitized(base)[i]);
            } else {
                assert(stem(k)[i] == "__HEAD"@[i - base.len()]);
            }
        }
    }
}

/// The label of a comparison tells which comparison it is.
pub proof fn labels_tell_comparisons_apart(a: KeyModel, b: KeyModel)
    requires
        label(a) == label(b),
    ensures
        a == b,
{
    reveal_strlit("working tree vs HEAD");
    reveal_strlit("...HEAD");
    match (a, b) {
        (KeyModel::BranchRange { base: x }, KeyModel::BranchRange { base: y }) => {
            assert(x == label(a).take(label(a).len() - 7));
            assert(y == label(b).take(label(b).len() - 7));
        },
        (KeyModel::BranchRange { base }, KeyModel::WorkingTree) => {
            assert(label(a)[label(a).len() - 5] == '.');
            assert("working tree vs HEAD"@[15] == ' ');
        },
        (KeyModel::WorkingTree, KeyModel::BranchRange { base }) => {
            assert(label(b)[label(b).len() - 5] == '.');
            assert("working tree vs HEAD"@[15] == ' ');
        },
        _ => {},
    }
}

/// `root` with `name` below it.
pub open spec fn path_join(root: Seq<char>, name: Seq<char>) -> Seq<char> {
    if root.len() == 0 || root.last() == '/' {
        root + name
    } else {
        root.push('/') + name
    }
}

/// The path of `name` below `root`.
pub fn join_path(root: &str, name: &str) -> (r: String)
    ensures
        r@ == path_join(root@, name@),
{
    let cs = chars_of(root);
    let mut r = root.to_owned();
    if cs.len() > 0 && cs[cs.len() - 1] != '/' {
        r.push('/');
    }
    r.append(name);
    r
}

/// A reply posted by the connected agent against a specific hunk's comment.
/// Kept apart from [`ReviewState`], so that the user's side and the agent's
/// side never overwrite each other.
#[derive(Debug)]
pub struct Reply {
    pub file: String,
    pub hunk_header: String,
    pub text: String,
    /// The anchor of the hunk, where it was known; a reply without one is
    /// matched by the header.
    pub anchor: String,
}

/// What a [`Reply`] holds.
#[verifier::ext_equal]
pub struct ReplyModel {
    pub file: Seq<char>,
    pub hunk_header: Seq<char>,
    pub text: Seq<char>,
    pub anchor: Seq<char>,
}

impl View for Reply {
    type V = ReplyModel;

    open spec fn view(&self) -> ReplyModel {
        ReplyModel {
            file: self.file@,
            hunk_header: self.hunk_header@,
            text: self.text@,
            anchor: self.anchor@,
        }
    }
}

impl Clone for Reply {
    fn clone(&self) -> (r: Self)
        ensures
            r@ == self@,
    {
        Reply {
            file: self.file.clone(),
            hunk_header: self.hunk_header.clone(),
            text: self.text.clone(),
            anchor: self.anchor.clone(),
        }
    }
}

/// The replies of the agent, in the order in which they were posted.
#[derive(Debug)]
pub struct Replies {
    pub replies: Vec<Reply>,
}

/// The reply is to the hunk with this header in this file.
pub open spec fn replies_to(r: ReplyModel, file: Seq<char>, header: Seq<char>) -> bool {
    r.file == file && r.hunk_header == header
}

/// The reply is to the hunk with this header or this anchor in this file.
pub open spec fn replies_to_anchored(
    r: ReplyModel,
    file: Seq<char>,
    header: Seq<char>,
    anchor: Seq<char>,
) -> bool {
    r.file == file && ((anchor.len() > 0 && r.anchor == anchor) || r.hunk_header == header)
}

/// A reply that carries the anchor of its hunk stays with the hunk when the
/// header shifts.
pub proof fn reply_follows_the_anchor(
    r: ReplyModel,
    header: Seq<char>,
    shifted: Seq<char>,
    anchor: Seq<char>,
)
    requires
        anchor.len() > 0,
        r.anchor == anchor,
    ensures
        replies_to_anchored(r, r.file, header, anchor),
        replies_to_anchored(r, r.file, shifted, anchor),
{
}

impl Default for Replies {
    fn default() -> (r: Self)
        ensures
            r.replies@ == Seq::<Reply>::empty(),
    {
        Replies { replies: Vec::new() }
    }
}

/// The replies among what was read, without those that could not be read.
pub open spec fn readable(read: Seq<Option<ReplyModel>>) -> Seq<ReplyModel>
    decreases read.len(),
{
    if read.len() == 0 {
        Seq::empty()
    } else {
        match read.last() {
            Some(r) => readable(read.drop_last()).push(r),
            None => readable(read.drop_last()),
        }
    }
}

impl Replies {
    /// The replies from what was read of their files, one after the other.
    /// Malformed individual files are skipped, not fatal.
    pub fn load(read: &[Option<Reply>]) -> (r: Self)
        ensures
            crate::seqs::views(r.replies@) == readable(
                read@.map_values(|o: Option<Reply>| crate::seqs::opt_view(o)),
            ),
    {
        let ghost all = read@.map_values(|o: Option<Reply>| crate::seqs::opt_view(o));
        let mut replies: Vec<Reply> = Vec::new();
        assert(crate::seqs::views(replies@) == readable(all.take(0)));
        for i in 0..read.len()
            invariant
                all == read@.map_values(|o: Option<Reply>| crate::seqs::opt_view(o)),
                crate::seqs::views(replies@) == readable(all.take(i as int)),
        {
            assert(all.take(i + 1).drop_last() == all.take(i as int));
            assert(all.take(i + 1).last() == crate::seqs::opt_view(read@[i as int]));
            if let Some(reply) = &read[i] {
                replies.push(reply.clone());
            }
        }
        assert(all.take(all.len() as int) == all);
        Replies { replies }
    }

    /// `<repo_root>/.purview/replies`, where each reply has a file.
    pub fn dir_for(repo_root: &str) -> (r: String)
        ensures
            r@ == path_join(path_join(repo_root@, ".purview"@), "replies"@),
    {
        join_path(join_path(repo_root, ".purview").as_str(), "replies")
    }

    /// Replies matching a given file + hunk header, in order.
    pub fn for_hunk<'a>(&'a self, file: &str, hunk_header: &str) -> (r: Vec<&'a Reply>)
        ensures
            crate::seqs::views(r@) == crate::seqs::views(self.replies@).filter(
                |x: ReplyModel| replies_to(x, file@, hunk_header@),
            ),
    {
        proof {
            reveal_strlit("");
            assert((|x: ReplyModel| replies_to(x, file@, hunk_header@)) =~= (|x: ReplyModel|
                replies_to_anchored(x, file@, hunk_header@, ""@)));
        }
        self.for_hunk_anchored(file, hunk_header, "")
    }

    /// Replies matching a given file + hunk, identified by EITHER its content
    /// `anchor` (survives the `@@` header shifting) OR its header (for replies
    /// stored without an anchor). An empty `anchor` disables the anchor path.
    pub fn for_hunk_anchored<'a>(&'a self, file: &str, hunk_header: &str, anchor: &str) -> (r: Vec<
        &'a Reply,
    >)
        ensures
            crate::seqs::views(r@) == crate::seqs::views(self.replies@).filter(
                |x: ReplyModel| replies_to_anchored(x, file@, hunk_header@, anchor@),
            ),
    {
        let ghost all = crate::seqs::views(self.replies@);
        let ghost keep = |x: ReplyModel| replies_to_anchored(x, file@, hunk_header@, anchor@);
        let mut r: Vec<&'a Reply> = Vec::new();
        proof {
            crate::seqs::lemma_filter_empty(all, keep);
        }
        for i in 0..self.replies.len()
            invariant
                all == crate::seqs::views(self.replies@),
                keep == (|x: ReplyModel| replies_to_anchored(x, file@, hunk_header@, anchor@)),
                crate::seqs::views(r@) == all.take(i as int).filter(keep),
        {
            let x = &self.replies[i];
            proof {
                assert(all[i as int] == x@);
                crate::seqs::lemma_filter_take(all, keep, i as int);
            }
            if *x.file.as_str() == *file && ((!anchor.is_empty() && *x.anchor.as_str() == *anchor)
                || *x.hunk_header.as_str() == *hunk_header) {
                r.push(x);
            }
        }
        assert(all.take(all.len() as int) == all);
        r
    }
}

/// How many of these hunks have a verdict.
pub open spec fn reviewed_saved(hunks: Seq<HunkStateModel>) -> nat
    decreases hunks.len(),
{
    if hunks.len() == 0 {
        0
    } else {
        reviewed_saved(hunks.drop_last()) + if hunks.last().status != "unreviewed"@ {
            1nat
        } else {
            0nat
        }
    }
}

/// How many hunks of these files have a verdict.
pub open spec fn total_reviewed_saved(files: Seq<FileStateModel>) -> nat
    decreases files.len(),
{
    if files.len() == 0 {
        0
    } else {
        total_reviewed_saved(files.drop_last()) + reviewed_saved(files.last().hunks)
    }
}

/// How many hunks these files have.
pub open spec fn total_saved(files: Seq<FileStateModel>) -> nat
    decreases files.len(),
{
    if files.len() == 0 {
        0
    } else {
        total_saved(files.drop_last()) + files.last().hunks.len()
    }
}

proof fn lemma_reviewed_at_most_all(files: Seq<FileStateModel>)
    ensures
        total_reviewed_saved(files) <= total_saved(files),
    decreases files.len(),
{
    if files.len() > 0 {
        lemma_reviewed_at_most_all(files.drop_last());
        lemma_reviewed_at_most_len(files.last().hunks);
    }
}

proof fn lemma_reviewed_at_most_len(hunks: Seq<HunkStateModel>)
    ensures
        reviewed_saved(hunks) <= hunks.len(),
    decreases hunks.len(),
{
    if hunks.len() > 0 {
        lemma_reviewed_at_most_len(hunks.drop_last());
    }
}

proof fn lemma_total_saved_grows(files: Seq<FileStateModel>, i: int)
    requires
        0 <= i <= files.len(),
    ensures
        total_saved(files.take(i)) <= total_saved(files),
    decreases files.len() - i,
{
    if i < files.len() {
        assert(files.take(i + 1).drop_last() == files.take(i));
        lemma_total_saved_grows(files, i + 1);
    } else {
        assert(files.take(i) == files);
    }
}

impl FileState {
    fn reviewed(&self) -> (r: usize)
        ensures
            r == reviewed_saved(self@.hunks),
    {
        let ghost hs = self@.hunks;
        let mut n: usize = 0;
        for i in 0..self.hunks.len()
            invariant
                hs == self@.hunks,
                n <= i,
                n == reviewed_saved(hs.take(i as int)),
        {
            assert(hs.take(i + 1).drop_last() == hs.take(i as int));
            assert(hs[i as int] == self.hunks@[i as int]@);
            if !(*self.hunks[i].status.as_str() == *"unreviewed") {
                n = n + 1;
            }
        }
        assert(hs.take(hs.len() as int) == hs);
        n
    }
}

impl ReviewState {
    /// `<repo_root>/.purview/review-state.json`: the mirror of the active
    /// comparison, which the agent's server reads.
    pub fn path_for(repo_root: &str) -> (r: String)
        ensures
            r@ == path_join(path_join(repo_root@, ".purview"@), "review-state.json"@),
    {
        join_path(join_path(repo_root, ".purview").as_str(), "review-state.json")
    }

    /// `<repo_root>/.purview/state/`: the per-comparison state directory.
    pub fn state_dir(repo_root: &str) -> (r: String)
        ensures
            r@ == path_join(path_join(repo_root@, ".purview"@), "state"@),
    {
        join_path(join_path(repo_root, ".purview").as_str(), "state")
    }

    /// `<repo_root>/.purview/state/<key>.json`: the per-comparison file. Two
    /// comparisons share one only where their bases are alike once sanitized, so
    /// switching to any other base never overwrites a review.
    pub fn path_for_comparison(repo_root: &str, key: &ComparisonKey) -> (r: String)
        ensures
            r@ == path_join(
                path_join(path_join(repo_root@, ".purview"@), "state"@),
                stem(key@) + ".json"@,
            ),
    {
        join_path(
            ReviewState::state_dir(repo_root).as_str(),
            key.file_stem().concat(".json").as_str(),
        )
    }

    /// (reviewed, total) hunks.
    pub fn progress(&self) -> (r: (usize, usize))
        requires
            total_saved(self@.files) <= usize::MAX,
        ensures
            r.0 == total_reviewed_saved(self@.files),
            r.1 == total_saved(self@.files),
    {
        let ghost fs = self@.files;
        let mut reviewed: usize = 0;
        let mut total: usize = 0;
        for i in 0..self.files.len()
            invariant
                fs == self@.files,
                total_saved(fs) <= usize::MAX,
                reviewed == total_reviewed_saved(fs.take(i as int)),
                total == total_saved(fs.take(i as int)),
        {
            assert(fs.take(i + 1).drop_last() == fs.take(i as int));
            assert(fs[i as int] == self.files@[i as int]@);
            proof {
                lemma_total_saved_grows(fs, i + 1);
                lemma_reviewed_at_most_all(fs.take(i + 1));
            }
            total = total + self.files[i].hunks.len();
            reviewed = reviewed + self.files[i].reviewed();
        }
        assert(fs.take(fs.len() as int) == fs);
        (reviewed, total)
    }
}

/// A hunk as the review keeps it.
pub open spec fn saved_hunk(h: crate::diff::HunkModel) -> HunkStateModel {
    HunkStateModel {
        header: h.header,
        status: crate::diff::status_word(h.status),
        comment: if crate::text::is_blank(h.comment) {
            None
        } else {
            Some(h.comment)
        },
        anchor: crate::diff::anchor(h),
        changed_since_review: h.changed_since_review,
    }
}

/// A file as the review keeps it.
pub open spec fn saved_file(f: crate::diff::FileModel) -> FileStateModel {
    FileStateModel {
        path: f.path,
        hunks: f.hunks.map_values(|h: crate::diff::HunkModel| saved_hunk(h)),
    }
}

/// Files as the review keeps them.
pub open spec fn saved_files(files: Seq<crate::diff::FileModel>) -> Seq<FileStateModel> {
    files.map_values(|f: crate::diff::FileModel| saved_file(f))
}

fn save_file(f: &ChangedFile) -> (r: FileState)
    ensures
        r@ == saved_file(f@),
{
    let ghost goal = saved_file(f@).hunks;
    let mut hunks: Vec<HunkState> = Vec::new();
    assert(crate::seqs::views(hunks@) == goal.take(0));
    for i in 0..f.hunks.len()
        invariant
            goal == saved_file(f@).hunks,
            goal.len() == f.hunks@.len(),
            crate::seqs::views(hunks@) == goal.take(i as int),
    {
        let h = &f.hunks[i];
        assert(f@.hunks[i as int] == h@);
        let saved = HunkState {
            header: h.header.clone(),
            status: h.status.as_str().to_owned(),
            comment: if blank_str(h.comment.as_str()) {
                None
            } else {
                Some(h.comment.clone())
            },
            anchor: h.content_anchor(),
            changed_since_review: h.changed_since_review,
        };
        assert(saved@ == goal[i as int]);
        hunks.push(saved);
        assert(goal.take(i + 1) == goal.take(i as int).push(goal[i as int]));
    }
    assert(goal.take(goal.len() as int) == goal);
    FileState { path: f.path.clone(), hunks }
}

impl ReviewState {
    /// The review of `files` as it stands, for the comparison that `source` and
    /// `base` select. Comments of nothing but white space are left out.
    pub fn capture(
        branch: &str,
        source: DiffSource,
        base: &str,
        files: &[ChangedFile],
        orphaned: &[OrphanedHunk],
    ) -> (r: Self)
        ensures
            r@ == (StateModel {
                branch: branch@,
                range: label(key_of(source, base@)),
                files: saved_files(crate::seqs::views(files@)),
                orphaned: crate::seqs::views(orphaned@),
            }),
    {
        let ghost goal = saved_files(crate::seqs::views(files@));
        let mut out: Vec<FileState> = Vec::new();
        assert(crate::seqs::views(out@) == goal.take(0));
        for i in 0..files.len()
            invariant
                goal == saved_files(crate::seqs::views(files@)),
                crate::seqs::views(out@) == goal.take(i as int),
        {
            let f = save_file(&files[i]);
            assert(f@ == goal[i as int]);
            out.push(f);
            assert(goal.take(i + 1) == goal.take(i as int).push(goal[i as int]));
        }
        assert(goal.take(goal.len() as int) == goal);
        let mut kept: Vec<OrphanedHunk> = Vec::new();
        let ghost olds = crate::seqs::views(orphaned@);
        assert(crate::seqs::views(kept@) == olds.take(0));
        for i in 0..orphaned.len()
            invariant
                olds == crate::seqs::views(orphaned@),
                crate::seqs::views(kept@) == olds.take(i as int),
        {
            let o = orphaned[i].clone();
            assert(o@ == olds[i as int]);
            kept.push(o);
            assert(olds.take(i + 1) == olds.take(i as int).push(olds[i as int]));
        }
        assert(olds.take(olds.len() as int) == olds);
        ReviewState {
            branch: branch.to_owned(),
            range: ComparisonKey::of(source, base).range_label(),
            files: out,
            orphaned: kept,
        }
    }
}

/// When a reply is posted: the time, and how many replies the process had posted
/// before, which keeps apart what it posts within one tick of the clock.
#[derive(Clone, Copy, Debug)]
pub struct PostTime {
    pub millis: u64,
    /// The nanoseconds of the current second.
    pub nanos: u32,
    pub count: u64,
}

/// Whether a reply at `a` is posted before one at `b`.
pub open spec fn earlier(a: PostTime, b: PostTime) -> bool {
    ||| a.millis < b.millis
    ||| a.millis == b.millis && a.nanos < b.nanos
    ||| a.millis == b.millis && a.nanos == b.nanos && a.count < b.count
}

/// The milliseconds in the name of a reply. Until the year 2286 they are
/// thirteen digits; a letter puts the longer ones behind them.
pub open spec fn millis_part(millis: nat) -> Seq<char> {
    if millis < crate::number::limit(13) {
        crate::number::padded(millis, 13)
    } else {
        "x"@ + crate::number::padded(millis, 20)
    }
}

/// The counter in the name of a reply: one number of fixed width, made of the
/// nanoseconds, of how many replies the process had posted and of the process,
/// which keeps apart what two of them post at once.
pub open spec fn counter_part(time: PostTime, process: u32) -> Seq<char> {
    crate::number::padded(time.nanos as nat, 10) + crate::number::padded(time.count as nat, 20)
        + crate::number::padded(process as nat, 10)
}

/// The name of the file that holds a reply: `<millis>-<counter>.json`.
pub open spec fn reply_name(time: PostTime, process: u32) -> Seq<char> {
    millis_part(time.millis as nat) + "-"@ + counter_part(time, process) + ".json"@
}

/// The name of the file for a reply that this process posts at this time, such
/// that the order of the names is the order of the posts.
pub fn reply_file_name(time: PostTime, process: u32) -> (r: String)
    ensures
        r@ == reply_name(time, process),
{
    let mut s = String::new();
    proof {
        lemma_limits();
    }
    if time.millis < 10_000_000_000_000 {
        push_padded(&mut s, time.millis, 13);
    } else {
        s.append("x");
        push_padded(&mut s, time.millis, 20);
    }
    assert(s@ == millis_part(time.millis as nat));
    s.append("-");
    push_padded(&mut s, time.nanos as u64, 10);
    push_padded(&mut s, time.count, 20);
    push_padded(&mut s, process as u64, 10);
    s.append(".json");
    assert(s@ == reply_name(time, process));
    s
}

proof fn lemma_limits()
    ensures
        crate::number::limit(12) == 1_000_000_000_000,
        crate::number::limit(13) == 10_000_000_000_000,
        crate::number::limit(20) > u64::MAX,
        crate::number::limit(10) > u32::MAX,
{
    reveal_with_fuel(crate::number::limit, 21);
}

/// The files that hold replies, in the order in which they were posted: those
/// with the extension `json`, by name.
pub open spec fn reply_names(names: Seq<Seq<char>>) -> Seq<Seq<char>> {
    crate::order::in_order(
        names.filter(|n: Seq<char>| crate::path::extension(n) == "json"@),
    )
}

/// Picks the files that hold replies out of a directory, in order.
pub fn reply_files(names: &[String]) -> (r: Vec<String>)
    ensures
        crate::seqs::views(r@) == reply_names(crate::seqs::views(names@)),
{
    let ghost all = crate::seqs::views(names@);
    let ghost keep = |n: Seq<char>| crate::path::extension(n) == "json"@;
    let mut r: Vec<String> = Vec::new();
    proof {
        crate::seqs::lemma_filter_empty(all, keep);
    }
    assert(crate::seqs::views(r@) == Seq::<Seq<char>>::empty());
    for i in 0..names.len()
        invariant
            all == crate::seqs::views(names@),
            keep == (|n: Seq<char>| crate::path::extension(n) == "json"@),
            crate::seqs::views(r@) == all.take(i as int).filter(keep),
    {
        assert(all[i as int] == names@[i as int]@);
        proof {
            crate::seqs::lemma_filter_take(all, keep, i as int);
        }
        let ext = extension_of(names[i].as_str());
        if *ext.as_str() == *"json" {
            r.push(names[i].clone());
        }
    }
    assert(all.take(all.len() as int) == all);
    sort_names(&mut r);
    r
}

/// Of two names that are alike up to a number of fixed width, the one with the
/// smaller number comes first.
proof fn lemma_number_decides(
    front: Seq<char>,
    x: nat,
    y: nat,
    w: nat,
    rest: Seq<char>,
    other: Seq<char>,
)
    requires
        x < y < crate::number::limit(w),
    ensures
        ({
            let a = front + crate::number::padded(x, w) + rest;
            let b = front + crate::number::padded(y, w) + other;
            crate::order::at_most(a, b) && a != b
        }),
{
    let p = crate::number::padded(x, w);
    let q = crate::number::padded(y, w);
    let a = front + p + rest;
    let b = front + q + other;
    crate::number::lemma_padded(x, w);
    crate::number::lemma_padded(y, w);
    let k = crate::number::lemma_padded_differ(x, y, w);
    let n = front.len() + k;
    assert(a.take(n) == front + p.take(k));
    assert(b.take(n) == front + q.take(k));
    assert(a[n] == p[k] && b[n] == q[k]);
    crate::order::lemma_differ(a, b, n);
}

/// Of two names that begin with different milliseconds, the one with the smaller
/// comes first.
proof fn lemma_millis_decide(x: nat, y: nat, rest: Seq<char>, other: Seq<char>)
    requires
        x < y <= u64::MAX,
    ensures
        crate::order::at_most(millis_part(x) + rest, millis_part(y) + other),
        millis_part(x) + rest != millis_part(y) + other,
{
    let none = Seq::<char>::empty();
    let a = millis_part(x) + rest;
    let b = millis_part(y) + other;
    lemma_limits();
    reveal_strlit("x");
    if y < crate::number::limit(13) {
        lemma_number_decides(none, x, y, 13, rest, other);
        assert(a == none + crate::number::padded(x, 13) + rest);
        assert(b == none + crate::number::padded(y, 13) + other);
    } else if x < crate::number::limit(13) {
        crate::number::lemma_padded(x, 13);
        assert(crate::number::is_digit(crate::number::padded(x, 13)[0]));
        assert(a[0] == crate::number::padded(x, 13)[0]);
        assert(b[0] == 'x');
        assert(a.take(0) == b.take(0));
        crate::order::lemma_differ(a, b, 0);
    } else {
        lemma_number_decides("x"@, x, y, 20, rest, other);
    }
}

/// The name of an earlier reply comes first.
pub proof fn lemma_names_in_post_order(a: PostTime, p: u32, b: PostTime, q: u32)
    requires
        earlier(a, b),
    ensures
        crate::order::at_most(reply_name(a, p), reply_name(b, q)),
        reply_name(a, p) != reply_name(b, q),
{
    let an = crate::number::padded(a.nanos as nat, 10);
    let ac = crate::number::padded(a.count as nat, 20);
    let bn = crate::number::padded(b.nanos as nat, 10);
    let bc = crate::number::padded(b.count as nat, 20);
    let at = crate::number::padded(p as nat, 10) + ".json"@;
    let bt = crate::number::padded(q as nat, 10) + ".json"@;
    let front = millis_part(a.millis as nat) + "-"@;
    lemma_limits();
    if a.millis < b.millis {
        let ar = "-"@ + counter_part(a, p) + ".json"@;
        let br = "-"@ + counter_part(b, q) + ".json"@;
        lemma_millis_decide(a.millis as nat, b.millis as nat, ar, br);
        assert(reply_name(a, p) == millis_part(a.millis as nat) + ar);
        assert(reply_name(b, q) == millis_part(b.millis as nat) + br);
    } else if a.nanos < b.nanos {
        lemma_number_decides(front, a.nanos as nat, b.nanos as nat, 10, ac + at, bc + bt);
        assert(reply_name(a, p) == front + an + (ac + at));
        assert(reply_name(b, q) == front + bn + (bc + bt));
    } else {
        lemma_number_decides(front + an, a.count as nat, b.count as nat, 20, at, bt);
        assert(reply_name(a, p) == front + an + ac + at);
        assert(reply_name(b, q) == front + an + bc + bt);
    }
}

/// A name of another make that begins with its milliseconds, in thirteen digits,
/// stands where it was posted among the names of replies.
pub proof fn other_names_keep_post_order(
    millis: nat,
    rest: Seq<char>,
    time: PostTime,
    process: u32,
)
    requires
        1_000_000_000_000 <= millis < 10_000_000_000_000,
    ensures
        millis < time.millis ==> crate::order::at_most(
            crate::number::decimal(millis) + rest,
            reply_name(time, process),
        ),
        millis > time.millis ==> crate::order::at_most(
            reply_name(time, process),
            crate::number::decimal(millis) + rest,
        ),
{
    let tail = "-"@ + counter_part(time, process) + ".json"@;
    lemma_limits();
    crate::number::lemma_padded_is_decimal(millis, 13);
    assert(reply_name(time, process) == millis_part(time.millis as nat) + tail);
    if millis < time.millis {
        lemma_millis_decide(millis, time.millis as nat, rest, tail);
    } else if millis > time.millis {
        lemma_millis_decide(time.millis as nat, millis, tail, rest);
    }
}

/// The files of replies are listed in the order in which the replies were
/// posted, whatever else is in the directory: of two replies that two processes
/// or one of them posted, the earlier stands before the later.
pub proof fn replies_are_listed_in_post_order(
    a: PostTime,
    p: u32,
    b: PostTime,
    q: u32,
    listed: Seq<Seq<char>>,
    i: int,
    j: int,
)
    requires
        earlier(a, b),
        0 <= i < reply_names(listed).len(),
        0 <= j < reply_names(listed).len(),
        reply_names(listed)[i] == reply_name(a, p),
        reply_names(listed)[j] == reply_name(b, q),
    ensures
        i < j,
{
    let kept = listed.filter(|n: Seq<char>| crate::path::extension(n) == "json"@);
    let order = crate::order::name_order();
    lemma_names_in_post_order(a, p, b, q);
    crate::order::in_order_sorts(kept);
    crate::order::names_are_totally_ordered();
    if j < i {
        assert(order(reply_names(listed)[j], reply_names(listed)[i]));
        assert(order(reply_name(a, p), reply_name(b, q)));
    }
}

/// The name of a reply has the extension by which replies are found.
pub proof fn lemma_reply_extension(time: PostTime, process: u32)
    ensures
        crate::path::extension(reply_name(time, process)) == "json"@,
{
    let name = reply_name(time, process);
    let m = millis_part(time.millis as nat);
    let c = counter_part(time, process);
    let parts = seq![name];
    let n = name.len() as int;
    crate::number::lemma_padded(time.millis as nat, 13);
    crate::number::lemma_padded(time.millis as nat, 20);
    crate::number::lemma_padded(time.nanos as nat, 10);
    crate::number::lemma_padded(time.count as nat, 20);
    crate::number::lemma_padded(process as nat, 10);
    reveal_strlit("x");
    reveal_strlit("-");
    reveal_strlit(".json");
    reveal_strlit("json");
    assert forall|i: int| 0 <= i < m.len() implies #[trigger] m[i] != '/' by {
        if time.millis < crate::number::limit(13) {
            assert(crate::number::is_digit(crate::number::padded(time.millis as nat, 13)[i]));
        } else if i > 0 {
            assert(crate::number::is_digit(crate::number::padded(time.millis as nat, 20)[i - 1]));
        }
    }
    assert forall|i: int| 0 <= i < c.len() implies #[trigger] c[i] != '/' by {
        if i < 10 {
            assert(crate::number::is_digit(crate::number::padded(time.nanos as nat, 10)[i]));
        } else if i < 30 {
            assert(crate::number::is_digit(crate::number::padded(time.count as nat, 20)[i - 10]));
        } else {
            assert(crate::number::is_digit(crate::number::padded(process as nat, 10)[i - 30]));
        }
    }
    assert(crate::text::unbroken(name, crate::text::Sep::Char('/'))) by {
        assert forall|i: int| 0 <= i < n implies !crate::text::is_sep(
            crate::text::Sep::Char('/'),
            #[trigger] name[i],
        ) by {
            if i < m.len() {
                assert(name[i] == m[i]);
            } else if m.len() < i < m.len() + 1 + c.len() {
                assert(name[i] == c[i - m.len() - 1]);
            }
        }
    }
    crate::text::lemma_pieces_unbroken(name, crate::text::Sep::Char('/'));
    assert(parts.last() == name);
    assert(seq!['.'].len() == 1 && seq!['.', '.'].len() == 2);
    assert(crate::path::file_name(parts) == Some(name));
    assert(crate::path::last_dot(name) == Some(n - 5)) by {
        reveal_with_fuel(crate::path::last_dot, 6);
        assert(name[n - 1] == 'n' && name[n - 2] == 'o' && name[n - 3] == 's' && name[n - 4] == 'j'
            && name[n - 5] == '.');
    }
    assert(name.skip(n - 4) == "json"@);
}

/// A reply whose file is in the directory is listed.
pub proof fn posted_replies_are_listed(time: PostTime, process: u32, listed: Seq<Seq<char>>)
    requires
        listed.contains(reply_name(time, process)),
    ensures
        reply_names(listed).contains(reply_name(time, process)),
{
    broadcast use vstd::seq_lib::group_to_multiset_ensures;

    let keep = |n: Seq<char>| crate::path::extension(n) == "json"@;
    let name = reply_name(time, process);
    let k = choose|k: int| 0 <= k < listed.len() && listed[k] == name;
    lemma_reply_extension(time, process);
    listed.lemma_filter_contains(keep, k);
    crate::order::in_order_sorts(listed.filter(keep));
    assert(listed.filter(keep).to_multiset().contains(name));
    assert(reply_names(listed).to_multiset().contains(name));
}

} // verus!
