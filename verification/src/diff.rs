//! The review data model and the readers that fill it: changed files, their
//! hunks, the rows of a hunk and their line numbers.

use crate::number::{push_decimal, read_u32};
use crate::text::{
    chars_of, cut, first_three_words, has_prefix, lines_of, string_of,
    trimmed_end_char, Sep,
};
use vstd::prelude::*;
use vstd::slice::slice_subrange;

verus! {

broadcast use {crate::seqs::lemma_views_push, crate::seqs::lemma_views_update};

/// What a row of a diff does to the file.
#[derive(Clone, Copy, PartialEq, Eq, Debug, Structural)]
pub enum LineKind {
    Add,
    Del,
    Ctx,
}

/// A diff line: its kind, raw text, and (where applicable) its line numbers on
/// the old and new sides. Context lines have both; a deletion has only an old
/// number; an addition has only a new number.
#[derive(Debug)]
pub struct DiffLineRow {
    pub kind: LineKind,
    pub text: String,
    pub old_lineno: Option<u32>,
    pub new_lineno: Option<u32>,
}

/// What a [`DiffLineRow`] holds.
#[verifier::ext_equal]
pub struct RowModel {
    pub kind: LineKind,
    pub text: Seq<char>,
    pub old_lineno: Option<u32>,
    pub new_lineno: Option<u32>,
}

impl View for DiffLineRow {
    type V = RowModel;

    open spec fn view(&self) -> RowModel {
        RowModel {
            kind: self.kind,
            text: self.text@,
            old_lineno: self.old_lineno,
            new_lineno: self.new_lineno,
        }
    }
}

impl Clone for DiffLineRow {
    fn clone(&self) -> (r: Self)
        ensures
            r@ == self@,
    {
        DiffLineRow {
            kind: self.kind,
            text: self.text.clone(),
            old_lineno: self.old_lineno,
            new_lineno: self.new_lineno,
        }
    }
}

/// Per-hunk review decision. The unit of review is the hunk.
#[derive(Clone, Copy, PartialEq, Eq, Debug, Structural)]
pub enum ReviewStatus {
    Unreviewed,
    Approved,
    Rejected,
}

/// The word for a decision.
pub open spec fn status_word(s: ReviewStatus) -> Seq<char> {
    match s {
        ReviewStatus::Unreviewed => "unreviewed"@,
        ReviewStatus::Approved => "approved"@,
        ReviewStatus::Rejected => "rejected"@,
    }
}

impl ReviewStatus {
    /// The word for this decision.
    pub fn as_str(self) -> (r: &'static str)
        ensures
            r@ == status_word(self),
    {
        match self {
            ReviewStatus::Unreviewed => "unreviewed",
            ReviewStatus::Approved => "approved",
            ReviewStatus::Rejected => "rejected",
        }
    }
}

/// One hunk of a changed file, with its verdict and comment.
#[derive(Debug)]
pub struct Hunk {
    pub header: String,
    pub rows: Vec<DiffLineRow>,
    pub status: ReviewStatus,
    pub comment: String,
    /// The hunk carries a verdict that was given to other changed lines.
    pub changed_since_review: bool,
}

/// What a [`Hunk`] holds.
#[verifier::ext_equal]
pub struct HunkModel {
    pub header: Seq<char>,
    pub rows: Seq<RowModel>,
    pub status: ReviewStatus,
    pub comment: Seq<char>,
    pub changed_since_review: bool,
}

impl View for Hunk {
    type V = HunkModel;

    open spec fn view(&self) -> HunkModel {
        HunkModel {
            header: self.header@,
            rows: crate::seqs::views(self.rows@),
            status: self.status,
            comment: self.comment@,
            changed_since_review: self.changed_since_review,
        }
    }
}

impl Clone for Hunk {
    fn clone(&self) -> (r: Self)
        ensures
            r@ == self@,
    {
        let r = Hunk {
            header: self.header.clone(),
            rows: self.rows.clone(),
            status: self.status,
            comment: self.comment.clone(),
            changed_since_review: self.changed_since_review,
        };
        assert(r@.rows == self@.rows);
        r
    }
}

/// A hunk that nobody has looked at, with these rows.
pub open spec fn fresh_hunk(header: Seq<char>, rows: Seq<RowModel>) -> HunkModel {
    HunkModel {
        header,
        rows,
        status: ReviewStatus::Unreviewed,
        comment: Seq::empty(),
        changed_since_review: false,
    }
}

/// A file with changes.
#[derive(Debug)]
pub struct ChangedFile {
    pub path: String,
    pub hunks: Vec<Hunk>,
}

/// What a [`ChangedFile`] holds.
#[verifier::ext_equal]
pub struct FileModel {
    pub path: Seq<char>,
    pub hunks: Seq<HunkModel>,
}

impl View for ChangedFile {
    type V = FileModel;

    open spec fn view(&self) -> FileModel {
        FileModel { path: self.path@, hunks: crate::seqs::views(self.hunks@) }
    }
}

impl Clone for ChangedFile {
    fn clone(&self) -> (r: Self)
        ensures
            r@ == self@,
    {
        let r = ChangedFile { path: self.path.clone(), hunks: self.hunks.clone() };
        assert(r@.hunks == self@.hunks);
        r
    }
}

/// What a diff compares.
#[derive(Clone, Copy, PartialEq, Eq, Debug, Structural)]
pub enum DiffSource {
    /// Working tree (incl. index + untracked) vs HEAD: local uncommitted work.
    WorkingTree,
    /// `base...HEAD` three-dot: merge-base(base, HEAD) tree vs HEAD tree.
    BranchRange,
}

/// The first number of `start,count` or of `start` alone.
pub open spec fn range_start(s: Seq<char>) -> Option<nat> {
    crate::number::parse_number(crate::text::split(s, ',')[0], u32::MAX as nat)
}

/// The old and new starting lines of a header
/// `@@ -<old_start>[,<count>] +<new_start>[,<count>] @@ ...`.
pub open spec fn hunk_starts(header: Seq<char>) -> Option<(nat, nat)> {
    let w = crate::text::words(header.skip(2));
    if crate::text::starts_with(header, "@@"@) && w.len() >= 3 && w[0][0] == '-' && w[1][0] == '+'
        && crate::text::starts_with(w[2], "@@"@) {
        match (range_start(w[0].drop_first()), range_start(w[1].drop_first())) {
            (Some(old_start), Some(new_start)) => Some((old_start, new_start)),
            _ => None,
        }
    } else {
        None
    }
}

fn read_start(cs: &[char]) -> (r: Option<u32>)
    ensures
        r is Some <==> range_start(cs@) is Some,
        r matches Some(n) ==> range_start(cs@) == Some(n as nat),
{
    let spans = cut(cs, Sep::Char(','));
    assert(spans@[0].0 <= spans@[0].1);
    read_u32(slice_subrange(cs, spans[0].0, spans[0].1))
}

/// Parse the old/new starting line numbers from a hunk header of the form
/// `@@ -<old_start>[,<count>] +<new_start>[,<count>] @@ ...`. Returns
/// `(old_start, new_start)`, or None if the header doesn't match.
pub fn parse_hunk_starts(header: &str) -> (r: Option<(u32, u32)>)
    ensures
        r is Some <==> hunk_starts(header@) is Some,
        r matches Some((o, n)) ==> hunk_starts(header@) == Some((o as nat, n as nat)),
{
    let cs = chars_of(header);
    proof {
        reveal_strlit("@@");
    }
    if !has_prefix(cs.as_slice(), "@@") {
        return None;
    }
    let rest = slice_subrange(cs.as_slice(), 2, cs.len());
    assert(rest@ == header@.skip(2));
    let (old, new, end) = match first_three_words(rest) {
        Some(words) => words,
        None => return None,
    };
    proof {
        crate::text::lemma_words_nonempty(rest@);
    }
    if old[0] != '-' || new[0] != '+' || !has_prefix(end, "@@") {
        return None;
    }
    let old_rest = slice_subrange(old, 1, old.len());
    let new_rest = slice_subrange(new, 1, new.len());
    assert(old_rest@ == old@.drop_first());
    assert(new_rest@ == new@.drop_first());
    match (read_start(old_rest), read_start(new_rest)) {
        (Some(o), Some(n)) => Some((o, n)),
        _ => None,
    }
}

/// The rows of `rows` that stand on the old side.
pub open spec fn old_side(rows: Seq<RowModel>) -> nat
    decreases rows.len(),
{
    if rows.len() == 0 {
        0
    } else {
        old_side(rows.drop_last()) + if rows.last().kind == LineKind::Add {
            0nat
        } else {
            1nat
        }
    }
}

/// The rows of `rows` that stand on the new side.
pub open spec fn new_side(rows: Seq<RowModel>) -> nat
    decreases rows.len(),
{
    if rows.len() == 0 {
        0
    } else {
        new_side(rows.drop_last()) + if rows.last().kind == LineKind::Del {
            0nat
        } else {
            1nat
        }
    }
}

/// `rows` with line numbers: on each side that a row stands on, the starting
/// line plus the number of earlier rows that stand there too.
pub open spec fn numbered_rows(rows: Seq<RowModel>, old_start: nat, new_start: nat) -> Seq<
    RowModel,
> {
    Seq::new(
        rows.len(),
        |i: int|
            RowModel {
                kind: rows[i].kind,
                text: rows[i].text,
                old_lineno: if rows[i].kind == LineKind::Add {
                    None
                } else {
                    Some((old_start + old_side(rows.take(i))) as u32)
                },
                new_lineno: if rows[i].kind == LineKind::Del {
                    None
                } else {
                    Some((new_start + new_side(rows.take(i))) as u32)
                },
            },
    )
}

/// `h` with its rows numbered from the starts of its header; a header without
/// starts leaves the rows as they are.
pub open spec fn numbered_hunk(h: HunkModel) -> HunkModel {
    HunkModel {
        rows: match hunk_starts(h.header) {
            Some((o, n)) => numbered_rows(h.rows, o, n),
            None => h.rows,
        },
        ..h
    }
}

/// The line after the last row has a number on both sides.
pub open spec fn hunk_fits(h: HunkModel) -> bool {
    hunk_starts(h.header) matches Some((o, n)) ==> o + old_side(h.rows) <= u32::MAX && n
        + new_side(h.rows) <= u32::MAX
}

/// Every hunk of every file can be numbered.
pub open spec fn files_fit(files: Seq<FileModel>) -> bool {
    forall|f: int, h: int|
        0 <= f < files.len() && 0 <= h < files[f].hunks.len() ==> hunk_fits(
            #[trigger] files[f].hunks[h],
        )
}

/// `f` with every hunk numbered.
pub open spec fn numbered_file(f: FileModel) -> FileModel {
    FileModel { path: f.path, hunks: f.hunks.map_values(|h: HunkModel| numbered_hunk(h)) }
}

/// Every file with every hunk numbered.
pub open spec fn numbered(files: Seq<FileModel>) -> Seq<FileModel> {
    files.map_values(|f: FileModel| numbered_file(f))
}

proof fn lemma_sides_grow(rows: Seq<RowModel>, i: int)
    requires
        0 <= i <= rows.len(),
    ensures
        old_side(rows.take(i)) <= old_side(rows),
        new_side(rows.take(i)) <= new_side(rows),
    decreases rows.len() - i,
{
    if i < rows.len() {
        assert(rows.take(i + 1).drop_last() == rows.take(i));
        lemma_sides_grow(rows, i + 1);
    } else {
        assert(rows.take(i) == rows);
    }
}

impl Hunk {
    /// A hunk without rows that nobody has looked at.
    pub fn new(header: String) -> (r: Self)
        ensures
            r@ == fresh_hunk(header@, Seq::empty()),
    {
        let r = Hunk {
            header,
            rows: Vec::new(),
            status: ReviewStatus::Unreviewed,
            comment: String::new(),
            changed_since_review: false,
        };
        assert(r@.rows == Seq::<RowModel>::empty());
        r
    }

    /// Whether the line after the last row still has a number.
    pub fn line_numbers_fit(&self) -> (r: bool)
        ensures
            r == hunk_fits(self@),
    {
        let (o, n) = match parse_hunk_starts(self.header.as_str()) {
            Some(pair) => pair,
            None => return true,
        };
        let mut old: u64 = o as u64;
        let mut new: u64 = n as u64;
        let ghost rows = self@.rows;
        for i in 0..self.rows.len()
            invariant
                rows == self@.rows,
                hunk_starts(self@.header) == Some((o as nat, n as nat)),
                old == o + old_side(rows.take(i as int)),
                new == n + new_side(rows.take(i as int)),
                old <= u32::MAX,
                new <= u32::MAX,
        {
            assert(rows.take(i + 1).drop_last() == rows.take(i as int));
            let kind = self.rows[i].kind;
            assert(rows[i as int].kind == kind);
            if kind != LineKind::Add {
                old = old + 1;
            }
            if kind != LineKind::Del {
                new = new + 1;
            }
            if old > u32::MAX as u64 || new > u32::MAX as u64 {
                proof {
                    lemma_sides_grow(rows, i + 1);
                }
                return false;
            }
        }
        assert(rows.take(rows.len() as int) == rows);
        true
    }

    /// Assign `old_lineno`/`new_lineno` to every row by walking from this
    /// hunk's `@@ -old_start,_ +new_start,_ @@` starting points. Context lines
    /// advance both counters; deletions advance only the old side (new = None);
    /// additions advance only the new side (old = None). A header with no
    /// parseable `@@` starts (e.g. binary / synthesized) leaves rows as-is.
    pub fn assign_line_numbers(&mut self)
        requires
            hunk_fits(old(self)@),
        ensures
            final(self)@ == numbered_hunk(old(self)@),
    {
        let (o, n) = match parse_hunk_starts(self.header.as_str()) {
            Some(pair) => pair,
            None => return ,
        };
        let mut old_no: u32 = o;
        let mut new_no: u32 = n;
        let ghost rows = self@.rows;
        let ghost before = self@;
        let ghost goal = numbered_rows(rows, o as nat, n as nat);
        assert(self@.rows == goal.take(0) + rows.skip(0));
        let len: usize = self.rows.len();
        for i in 0..len
            invariant
                before.rows == rows,
                hunk_starts(before.header) == Some((o as nat, n as nat)),
                hunk_fits(before),
                goal == numbered_rows(rows, o as nat, n as nat),
                len == rows.len(),
                self.rows@.len() == len,
                self@.header == before.header,
                self@.status == before.status,
                self@.comment == before.comment,
                self@.changed_since_review == before.changed_since_review,
                self@.rows == goal.take(i as int) + rows.skip(i as int),
                old_no == o + old_side(rows.take(i as int)),
                new_no == n + new_side(rows.take(i as int)),
        {
            proof {
                assert(rows.take(i + 1).drop_last() == rows.take(i as int));
                lemma_sides_grow(rows, i + 1);
            }
            let kind = self.rows[i].kind;
            assert(self@.rows[i as int] == rows[i as int]);
            let ghost rows_before = self.rows@;
            let row = DiffLineRow {
                kind,
                text: self.rows[i].text.clone(),
                old_lineno: if kind == LineKind::Add {
                    None
                } else {
                    Some(old_no)
                },
                new_lineno: if kind == LineKind::Del {
                    None
                } else {
                    Some(new_no)
                },
            };
            assert(row@ == goal[i as int]);
            self.rows.set(i, row);
            assert(self@.rows == goal.take(i + 1) + rows.skip(i + 1));
            if kind != LineKind::Add {
                old_no = old_no + 1;
            }
            if kind != LineKind::Del {
                new_no = new_no + 1;
            }
        }
        assert(self@.rows == goal);
    }
}

/// Whether every hunk can be numbered.
pub fn line_numbers_fit(files: &[ChangedFile]) -> (r: bool)
    ensures
        r == files_fit(crate::seqs::views(files@)),
{
    let ghost fs = crate::seqs::views(files@);
    for f in 0..files.len()
        invariant
            fs == crate::seqs::views(files@),
            forall|i: int, h: int|
                0 <= i < f && 0 <= h < fs[i].hunks.len() ==> hunk_fits(#[trigger] fs[i].hunks[h]),
    {
        let m: usize = files[f].hunks.len();
        for h in 0..m
            invariant
                0 <= f < files@.len(),
                m == files@[f as int].hunks@.len(),
                fs == crate::seqs::views(files@),
                forall|i: int, k: int|
                    0 <= i < f && 0 <= k < fs[i].hunks.len() ==> hunk_fits(
                        #[trigger] fs[i].hunks[k],
                    ),
                forall|k: int| 0 <= k < h ==> hunk_fits(#[trigger] fs[f as int].hunks[k]),
        {
            assert(fs[f as int].hunks[h as int] == files@[f as int].hunks@[h as int]@);
            if !files[f].hunks[h].line_numbers_fit() {
                return false;
            }
        }
    }
    true
}

/// Numbers the rows of every hunk.
pub fn number_files(files: &mut Vec<ChangedFile>)
    requires
        files_fit(crate::seqs::views(old(files)@)),
    ensures
        crate::seqs::views(final(files)@) == numbered(crate::seqs::views(old(files)@)),
{
    let ghost fs = crate::seqs::views(files@);
    let n: usize = files.len();
    for f in 0..n
        invariant
            n == fs.len(),
            files@.len() == n,
            files_fit(fs),
            crate::seqs::views(files@) == numbered(fs).take(f as int) + fs.skip(f as int),
    {
        let ghost file0 = files@[f as int]@;
        assert(crate::seqs::views(files@)[f as int] == file0);
        assert(file0 == fs[f as int]);
        let ghost before = crate::seqs::views(files@);
        let m: usize = files[f].hunks.len();
        assert(file0.hunks == numbered_file(file0).hunks.take(0) + file0.hunks.skip(0));
        for h in 0..m
            invariant
                f < n,
                n == fs.len(),
                files@.len() == n,
                files_fit(fs),
                file0 == fs[f as int],
                m == file0.hunks.len(),
                before.len() == n,
                before == numbered(fs).take(f as int) + fs.skip(f as int),
                crate::seqs::views(files@) == before.update(f as int, files@[f as int]@),
                files@[f as int]@.path == file0.path,
                files@[f as int]@.hunks == numbered_file(file0).hunks.take(h as int)
                    + file0.hunks.skip(h as int),
        {
            assert(files@[f as int]@.hunks[h as int] == fs[f as int].hunks[h as int]);
            assert(numbered_file(file0).hunks.len() == m);
            assert(files@[f as int]@.hunks.len() == m);
            assert(crate::seqs::views(files@[f as int].hunks@).len() == m);
            assert(files@[f as int].hunks@.len() == m);
            assert(files@[f as int].hunks@[h as int]@ == fs[f as int].hunks[h as int]);
            let ghost file1 = files@[f as int]@;
            files[f].hunks[h].assign_line_numbers();
            assert(files@[f as int]@.hunks == file1.hunks.update(
                h as int,
                numbered_hunk(file0.hunks[h as int]),
            ));
            assert(files@[f as int]@.hunks == numbered_file(file0).hunks.take(h + 1)
                + file0.hunks.skip(h + 1));
        }
        assert(files@[f as int]@.hunks == numbered_file(file0).hunks);
        assert(files@[f as int]@ == numbered(fs)[f as int]);
        assert(crate::seqs::views(files@) == numbered(fs).take(f + 1) + fs.skip(f + 1));
    }
    assert(crate::seqs::views(files@) == numbered(fs));
}

/// `files` with `h` as the last hunk of the last file.
pub open spec fn push_hunk(files: Seq<FileModel>, h: HunkModel) -> Seq<FileModel>
    recommends
        files.len() > 0,
{
    files.drop_last().push(
        FileModel { path: files.last().path, hunks: files.last().hunks.push(h) },
    )
}

/// `files` with a row of this kind and text as the last row of the last hunk
/// of the last file.
pub open spec fn push_row(files: Seq<FileModel>, kind: LineKind, text: Seq<char>) -> Seq<FileModel>
    recommends
        files.len() > 0,
        files.last().hunks.len() > 0,
{
    let file = files.last();
    let hunk = file.hunks.last();
    let row = RowModel { kind, text, old_lineno: None, new_lineno: None };
    files.drop_last().push(
        FileModel {
            path: file.path,
            hunks: file.hunks.drop_last().push(HunkModel { rows: hunk.rows.push(row), ..hunk }),
        },
    )
}

fn add_hunk(files: &mut Vec<ChangedFile>, header: String)
    requires
        old(files)@.len() > 0,
    ensures
        crate::seqs::views(final(files)@) == push_hunk(
            crate::seqs::views(old(files)@),
            fresh_hunk(header@, Seq::empty()),
        ),
        final(files)@.len() == old(files)@.len(),
        final(files)@.last().hunks@.len() == old(files)@.last().hunks@.len() + 1,
{
    let ghost before = crate::seqs::views(files@);
    let last: usize = files.len() - 1;
    let ghost file = files@[last as int]@;
    let hunk = Hunk::new(header);
    files[last].hunks.push(hunk);
    assert(files@[last as int]@.hunks == file.hunks.push(hunk@));
    assert(crate::seqs::views(files@) == before.update(last as int, files@[last as int]@));
    assert(crate::seqs::views(files@) == push_hunk(before, hunk@));
}

fn add_row(files: &mut Vec<ChangedFile>, kind: LineKind, text: String)
    requires
        old(files)@.len() > 0,
        old(files)@.last().hunks@.len() > 0,
    ensures
        crate::seqs::views(final(files)@) == push_row(
            crate::seqs::views(old(files)@),
            kind,
            text@,
        ),
        final(files)@.len() == old(files)@.len(),
        final(files)@.last().hunks@.len() == old(files)@.last().hunks@.len(),
{
    let ghost before = crate::seqs::views(files@);
    let last: usize = files.len() - 1;
    let ghost file = files@[last as int]@;
    let end: usize = files[last].hunks.len() - 1;
    let ghost hunk = files@[last as int].hunks@[end as int]@;
    let row = DiffLineRow { kind, text, old_lineno: None, new_lineno: None };
    files[last].hunks[end].rows.push(row);
    assert(files@[last as int].hunks@[end as int]@.rows == hunk.rows.push(row@));
    assert(files@[last as int]@.hunks == file.hunks.update(
        end as int,
        files@[last as int].hunks@[end as int]@,
    ));
    assert(files@[last as int]@.hunks == push_row(before, kind, row@.text).last().hunks);
    assert(crate::seqs::views(files@) == before.update(last as int, files@[last as int]@));
    assert(crate::seqs::views(files@) == push_row(before, kind, row@.text));
}

/// The tail of a `diff --git` line for an edit of `path`.
pub open spec fn both_sides(path: Seq<char>) -> Seq<char> {
    "a/"@ + path + " b/"@ + path
}

/// The path in the tail of a `diff --git a/<p> b/<p>` line: that of both sides
/// where they are equal. Else it is what follows the first ` b/`, or where there
/// is none the whole without a leading `a/`.
pub open spec fn diff_git_path(rest: Seq<char>) -> Seq<char> {
    if exists|p: Seq<char>| #[trigger] both_sides(p) == rest {
        choose|p: Seq<char>| #[trigger] both_sides(p) == rest
    } else {
        match crate::text::find(rest, " b/"@) {
            Some(i) => rest.skip(i + 3),
            None => if crate::text::starts_with(rest, "a/"@) {
                rest.skip(2)
            } else {
                rest
            },
        }
    }
}

/// An edit of a file is read as an edit of that file, whatever its path.
pub proof fn edited_path_is_read(path: Seq<char>)
    ensures
        diff_git_path(both_sides(path)) == path,
{
    let p = choose|p: Seq<char>| #[trigger] both_sides(p) == both_sides(path);
    lemma_side(p);
    lemma_side(path);
}

/// The second of two equal sides is the path.
proof fn lemma_side(path: Seq<char>)
    ensures
        both_sides(path).len() == 5 + 2 * path.len(),
        both_sides(path).skip(5 + path.len() as int) == path,
{
    reveal_strlit("a/");
    reveal_strlit(" b/");
    assert(both_sides(path).skip(5 + path.len() as int) == path);
}

/// The path of both sides, where they are equal.
fn equal_sides(rest: &[char]) -> (r: Option<String>)
    ensures
        r is Some <==> exists|p: Seq<char>| #[trigger] both_sides(p) == rest@,
        r matches Some(s) ==> both_sides(s@) == rest@,
{
    let len: usize = rest.len();
    proof {
        reveal_strlit("a/");
        reveal_strlit(" b/");
        assert forall|p: Seq<char>| #[trigger] both_sides(p) == rest@ implies len >= 5 && (len - 5)
            % 2 == 0 && p == rest@.skip(len - (len - 5) / 2) by {
            lemma_side(p);
        }
    }
    if len < 5 || (len - 5) % 2 != 0 {
        return None;
    }
    let n: usize = (len - 5) / 2;
    let path = slice_subrange(rest, len - n, len);
    assert(path@ == rest@.skip(len - n));
    let sep = chars_of(" b/");
    if has_prefix(rest, "a/") && crate::text::at(rest, path, 2) && crate::text::at(
        rest,
        sep.as_slice(),
        2 + n,
    ) {
        proof {
            assert(rest@.subrange(2, 2 + n) == path@);
            assert(rest@.subrange(2 + n, 5 + n) == " b/"@);
            assert(rest@.take(2) == "a/"@);
            assert(both_sides(path@) == rest@) by {
                assert forall|i: int| 0 <= i < len implies both_sides(path@)[i] == rest@[i] by {
                    if i < 2 {
                        assert(rest@[i] == rest@.take(2)[i]);
                    } else if i < 2 + n {
                        assert(rest@[i] == rest@.subrange(2, 2 + n)[i - 2]);
                    } else if i < 5 + n {
                        assert(rest@[i] == rest@.subrange(2 + n, 5 + n)[i - 2 - n]);
                    }
                }
            }
        }
        Some(string_of(path))
    } else {
        proof {
            if exists|p: Seq<char>| #[trigger] both_sides(p) == rest@ {
                let p = choose|p: Seq<char>| #[trigger] both_sides(p) == rest@;
                assert(p == path@);
                assert(rest@.take(2) == "a/"@);
                assert(rest@.subrange(2, 2 + n) == path@);
                assert(rest@.subrange(2 + n, 5 + n) == " b/"@);
            }
        }
        None
    }
}

/// Extract the file path from a `diff --git a/<p> b/<p>` line's tail. Prefers
/// the b-side; both sides equal for a normal edit. Paths with spaces work
/// because the a/ and b/ prefixes bracket each side.
pub fn parse_diff_git_path(rest: &[char]) -> (r: String)
    ensures
        r@ == diff_git_path(rest@),
{
    if let Some(path) = equal_sides(rest) {
        proof {
            edited_path_is_read(path@);
        }
        return path;
    }
    proof {
        reveal_strlit(" b/");
        reveal_strlit("a/");
        crate::text::lemma_find_from(rest@, " b/"@, 0);
    }
    let sep = chars_of(" b/");
    match crate::text::find_in(rest, sep.as_slice()) {
        Some(i) => {
            let len: usize = rest.len();
            let tail = slice_subrange(rest, i + 3, len);
            assert(tail@ == rest@.skip(i + 3));
            string_of(tail)
        },
        None => {
            if has_prefix(rest, "a/") {
                let tail = slice_subrange(rest, 2, rest.len());
                assert(tail@ == rest@.skip(2));
                string_of(tail)
            } else {
                string_of(rest)
            }
        },
    }
}

/// What the reader of a patch knows after some of its lines.
#[verifier::ext_equal]
pub struct PatchState {
    /// The files so far, their rows not numbered yet.
    pub files: Seq<FileModel>,
    /// The last file has had a hunk header.
    pub in_hunks: bool,
}

/// The kind of row that a line of a hunk is, by its first character.
pub open spec fn row_kind(line: Seq<char>) -> Option<LineKind> {
    if line.len() == 0 {
        None
    } else if line[0] == '+' {
        Some(LineKind::Add)
    } else if line[0] == '-' {
        Some(LineKind::Del)
    } else if line[0] == ' ' {
        Some(LineKind::Ctx)
    } else {
        None
    }
}

/// One line of a patch. `diff --git` starts a file and `@@` a hunk of it; a
/// line below a hunk header is a row where its first character says so; any
/// other line is passed over.
pub open spec fn patch_step(st: PatchState, line: Seq<char>) -> PatchState {
    if crate::text::starts_with(line, "diff --git "@) {
        PatchState {
            files: st.files.push(
                FileModel { path: diff_git_path(line.skip(11)), hunks: Seq::empty() },
            ),
            in_hunks: false,
        }
    } else if crate::text::starts_with(line, "@@"@) {
        if st.files.len() == 0 {
            st
        } else {
            PatchState {
                files: push_hunk(st.files, fresh_hunk(line, Seq::empty())),
                in_hunks: true,
            }
        }
    } else if st.in_hunks {
        match row_kind(line) {
            Some(kind) => PatchState {
                files: push_row(st.files, kind, line.skip(1)),
                in_hunks: true,
            },
            None => st,
        }
    } else {
        st
    }
}

/// What the reader knows after these lines.
pub open spec fn patch_state(lines: Seq<Seq<char>>) -> PatchState
    decreases lines.len(),
{
    if lines.len() == 0 {
        PatchState { files: Seq::empty(), in_hunks: false }
    } else {
        patch_step(patch_state(lines.drop_last()), lines.last())
    }
}

/// The files of a patch, their rows not numbered yet.
pub open spec fn patch_files(patch: Seq<char>) -> Seq<FileModel> {
    patch_state(crate::text::split(patch, '\n')).files
}

/// Reads the files of a patch and leaves their rows without numbers.
fn read_patch(patch: &str) -> (files: Vec<ChangedFile>)
    ensures
        crate::seqs::views(files@) == patch_files(patch@),
{
    let cs = chars_of(patch);
    let spans = cut(cs.as_slice(), Sep::Char('\n'));
    let ghost lines = crate::text::split(patch@, '\n');
    let mut files: Vec<ChangedFile> = Vec::new();
    let mut in_hunks = false;
    assert(crate::seqs::views(files@) == Seq::<FileModel>::empty());
    for i in 0..spans.len()
        invariant
            cs@ == patch@,
            lines == crate::text::split(patch@, '\n'),
            spans@.len() == lines.len(),
            forall|k: int|
                0 <= k < spans@.len() ==> {
                    &&& (#[trigger] spans@[k]).0 <= spans@[k].1 <= cs@.len()
                    &&& cs@.subrange(spans@[k].0 as int, spans@[k].1 as int) == lines[k]
                },
            in_hunks ==> files@.len() > 0 && files@.last().hunks@.len() > 0,
            patch_state(lines.take(i as int)) == (PatchState {
                files: crate::seqs::views(files@),
                in_hunks,
            }),
    {
        let line = slice_subrange(cs.as_slice(), spans[i].0, spans[i].1);
        assert(lines.take(i + 1).drop_last() == lines.take(i as int));
        assert(lines.take(i + 1).last() == line@);
        proof {
            reveal_strlit("diff --git ");
            reveal_strlit("@@");
        }
        if has_prefix(line, "diff --git ") {
            let rest = slice_subrange(line, 11, line.len());
            assert(rest@ == line@.skip(11));
            let file = ChangedFile { path: parse_diff_git_path(rest), hunks: Vec::new() };
            assert(file@.hunks == Seq::<HunkModel>::empty());
            files.push(file);
            in_hunks = false;
        } else if has_prefix(line, "@@") {
            if files.len() > 0 {
                add_hunk(&mut files, string_of(line));
                in_hunks = true;
            }
        } else if in_hunks && line.len() > 0 {
            let kind = if line[0] == '+' {
                Some(LineKind::Add)
            } else if line[0] == '-' {
                Some(LineKind::Del)
            } else if line[0] == ' ' {
                Some(LineKind::Ctx)
            } else {
                None
            };
            if let Some(k) = kind {
                let rest = slice_subrange(line, 1, line.len());
                assert(rest@ == line@.skip(1));
                add_row(&mut files, k, string_of(rest));
            }
        }
    }
    assert(lines.take(lines.len() as int) == lines);
    files
}

/// Parse a unified-diff patch (the text `git diff` prints) into changed files,
/// with their rows numbered.
///
/// It keys file boundaries off `diff --git a/<p> b/<p>` lines, hunk
/// boundaries off `@@ ... @@` lines, and classifies content lines by their
/// leading `+`/`-`/space.
pub fn parse_unified_patch(patch: &str) -> (files: Vec<ChangedFile>)
    requires
        files_fit(patch_files(patch@)),
    ensures
        crate::seqs::views(files@) == numbered(patch_files(patch@)),
{
    let mut files = read_patch(patch);
    number_files(&mut files);
    files
}

/// [`parse_unified_patch`], for a patch of which nothing is known: None where
/// a line number would not fit in 32 bits.
pub fn try_parse_unified_patch(patch: &str) -> (r: Option<Vec<ChangedFile>>)
    ensures
        r is Some <==> files_fit(patch_files(patch@)),
        r matches Some(files) ==> crate::seqs::views(files@) == numbered(patch_files(patch@)),
{
    let mut files = read_patch(patch);
    if line_numbers_fit(files.as_slice()) {
        number_files(&mut files);
        Some(files)
    } else {
        None
    }
}

/// What `String::from_utf8_lossy` makes of bytes that are not UTF-8.
pub uninterp spec fn utf8_with_replacements(bytes: Seq<u8>) -> Seq<char>;

/// The text of `bytes`, with the invalid parts replaced.
pub open spec fn lossy_text(bytes: Seq<u8>) -> Seq<char> {
    if vstd::utf8::valid_utf8(bytes) {
        vstd::utf8::decode_utf8(bytes)
    } else {
        utf8_with_replacements(bytes)
    }
}

/// `String::from_utf8_lossy`: the text that the bytes encode where they are
/// UTF-8; for other bytes the result is named, not described.
#[verifier::external_body]
fn from_utf8_lossy(bytes: &[u8]) -> (r: String)
    ensures
        r@ == (if vstd::utf8::valid_utf8(bytes@) {
            vstd::utf8::decode_utf8(bytes@)
        } else {
            utf8_with_replacements(bytes@)
        }),
{
    String::from_utf8_lossy(bytes).into_owned()
}

/// One line of a diff as git hands it out: the paths of the file on both sides,
/// what kind of line it is (`F` file header, `B` binary, `H` hunk header, `+`
/// and `-` for a change, a space for context, `<`, `>` and `=` for the marker of
/// a file without a line feed at its end) and its bytes.
pub struct PatchLine {
    pub new_path: Option<String>,
    pub old_path: Option<String>,
    pub origin: char,
    pub content: Vec<u8>,
}

/// What a [`PatchLine`] holds.
#[verifier::ext_equal]
pub struct PatchLineModel {
    pub new_path: Option<Seq<char>>,
    pub old_path: Option<Seq<char>>,
    pub origin: char,
    pub content: Seq<u8>,
}

impl View for PatchLine {
    type V = PatchLineModel;

    open spec fn view(&self) -> PatchLineModel {
        PatchLineModel {
            new_path: crate::seqs::opt_view(self.new_path),
            old_path: crate::seqs::opt_view(self.old_path),
            origin: self.origin,
            content: self.content@,
        }
    }
}

/// The path that a line belongs to: the new side's, else the old side's.
pub open spec fn line_path(l: PatchLineModel) -> Seq<char> {
    match (l.new_path, l.old_path) {
        (Some(p), _) => p,
        (None, Some(p)) => p,
        (None, None) => "<unknown>"@,
    }
}

/// The text of a line, without the line feeds at its end.
pub open spec fn line_text(l: PatchLineModel) -> Seq<char> {
    crate::text::trim_end_char(lossy_text(l.content), '\n')
}

/// `files` with the file at its end that a line of `path` belongs to.
pub open spec fn open_file(files: Seq<FileModel>, path: Seq<char>) -> Seq<FileModel> {
    if files.len() == 0 || files.last().path != path {
        files.push(FileModel { path, hunks: Seq::empty() })
    } else {
        files
    }
}

/// `files` with a hunk in the last file; where there is none, one with this
/// header.
pub open spec fn open_hunk(files: Seq<FileModel>, header: Seq<char>) -> Seq<FileModel> {
    if files.last().hunks.len() == 0 {
        push_hunk(files, fresh_hunk(header, Seq::empty()))
    } else {
        files
    }
}

/// The kind of row that a line of a diff is, by its origin. The marker of a file
/// without a line feed at its end is no row.
pub open spec fn origin_kind(origin: char) -> Option<LineKind> {
    if origin == '+' {
        Some(LineKind::Add)
    } else if origin == '-' {
        Some(LineKind::Del)
    } else if origin == ' ' {
        Some(LineKind::Ctx)
    } else {
        None
    }
}

/// One line of a diff. It belongs to the last file, or starts one where the
/// path changes; there it adds nothing, a hunk or a row.
pub open spec fn group_step(files: Seq<FileModel>, l: PatchLineModel) -> Seq<FileModel> {
    let files = open_file(files, line_path(l));
    if l.origin == 'B' {
        open_hunk(files, "(binary file)"@)
    } else if l.origin == 'H' {
        push_hunk(files, fresh_hunk(line_text(l), Seq::empty()))
    } else {
        match origin_kind(l.origin) {
            Some(kind) => push_row(open_hunk(files, Seq::empty()), kind, line_text(l)),
            None => files,
        }
    }
}

/// The files that these lines make up, their rows not numbered yet.
pub open spec fn grouped(lines: Seq<PatchLineModel>) -> Seq<FileModel>
    decreases lines.len(),
{
    if lines.len() == 0 {
        Seq::empty()
    } else {
        group_step(grouped(lines.drop_last()), lines.last())
    }
}

impl PatchLine {
    fn path(&self) -> (r: String)
        ensures
            r@ == line_path(self@),
    {
        match (&self.new_path, &self.old_path) {
            (Some(p), _) => p.clone(),
            (None, Some(p)) => p.clone(),
            (None, None) => "<unknown>".to_owned(),
        }
    }

    fn text(&self) -> (r: String)
        ensures
            r@ == line_text(self@),
    {
        let text = from_utf8_lossy(self.content.as_slice());
        let cs = chars_of(text.as_str());
        string_of(trimmed_end_char(cs.as_slice(), '\n'))
    }
}

/// Groups the lines of a diff into files and hunks and leaves the rows without
/// numbers.
fn group_lines(lines: &[PatchLine]) -> (files: Vec<ChangedFile>)
    ensures
        crate::seqs::views(files@) == grouped(crate::seqs::views(lines@)),
{
    let ghost ls = crate::seqs::views(lines@);
    let mut files: Vec<ChangedFile> = Vec::new();
    assert(crate::seqs::views(files@) == Seq::<FileModel>::empty());
    for i in 0..lines.len()
        invariant
            ls == crate::seqs::views(lines@),
            crate::seqs::views(files@) == grouped(ls.take(i as int)),
    {
        let line = &lines[i];
        assert(ls.take(i + 1).drop_last() == ls.take(i as int));
        assert(ls.take(i + 1).last() == line@);
        let path = line.path();
        let fresh = files.len() == 0 || files[files.len() - 1].path != path;
        assert(files@.len() > 0 ==> crate::seqs::views(files@).last()
            == files@[files@.len() - 1]@);
        if fresh {
            let file = ChangedFile { path, hunks: Vec::new() };
            assert(file@.hunks == Seq::<HunkModel>::empty());
            files.push(file);
        }
        let last: usize = files.len() - 1;
        assert(crate::seqs::views(files@).last() == files@[last as int]@);
        if line.origin == 'B' {
            if files[last].hunks.len() == 0 {
                add_hunk(&mut files, "(binary file)".to_owned());
            }
        } else if line.origin == 'H' {
            add_hunk(&mut files, line.text());
        } else {
            let kind = if line.origin == '+' {
                Some(LineKind::Add)
            } else if line.origin == '-' {
                Some(LineKind::Del)
            } else if line.origin == ' ' {
                Some(LineKind::Ctx)
            } else {
                None
            };
            if let Some(k) = kind {
                if files[last].hunks.len() == 0 {
                    add_hunk(&mut files, String::new());
                }
                add_row(&mut files, k, line.text());
            }
        }
    }
    assert(ls.take(ls.len() as int) == ls);
    files
}

/// Groups the lines of a diff into files and hunks, with the rows numbered.
/// None where a line number would not fit in 32 bits.
pub fn group_patch_lines(lines: &[PatchLine]) -> (r: Option<Vec<ChangedFile>>)
    ensures
        r is Some <==> files_fit(grouped(crate::seqs::views(lines@))),
        r matches Some(files) ==> crate::seqs::views(files@) == numbered(
            grouped(crate::seqs::views(lines@)),
        ),
{
    let mut files = group_lines(lines);
    if line_numbers_fit(files.as_slice()) {
        number_files(&mut files);
        Some(files)
    } else {
        None
    }
}

/// The header of the one hunk of a file that is all new, with `n` lines.
pub open spec fn untracked_header(n: nat) -> Seq<char> {
    "@@ -0,0 +1,"@ + crate::number::decimal(n) + " @@"@
}

/// A file that is all new: one hunk, every line an addition, numbered from 1.
pub open spec fn untracked_file(path: Seq<char>, content: Seq<char>) -> FileModel {
    let ls = crate::text::lines(content);
    FileModel {
        path,
        hunks: seq![
            fresh_hunk(
                untracked_header(ls.len()),
                Seq::new(
                    ls.len(),
                    |i: int|
                        RowModel {
                            kind: LineKind::Add,
                            text: ls[i],
                            old_lineno: None,
                            new_lineno: Some((i + 1) as u32),
                        },
                ),
            ),
        ],
    }
}

/// Four words, the first of which is empty, are three.
proof fn lemma_three_words(a: Seq<char>, b: Seq<char>, c: Seq<char>)
    requires
        a.len() > 0,
        b.len() > 0,
        c.len() > 0,
        crate::text::unbroken(a, Sep::White),
        crate::text::unbroken(b, Sep::White),
        crate::text::unbroken(c, Sep::White),
    ensures
        crate::text::words(
            Seq::<char>::empty().push(' ') + (a.push(' ') + (b.push(' ') + c)),
        ) == seq![a, b, c],
{
    let none = Seq::<char>::empty();
    crate::text::lemma_words_concat(none, ' ', a.push(' ') + (b.push(' ') + c));
    crate::text::lemma_words_concat(a, ' ', b.push(' ') + c);
    crate::text::lemma_words_concat(b, ' ', c);
    crate::text::lemma_words_unbroken(none);
    crate::text::lemma_words_unbroken(a);
    crate::text::lemma_words_unbroken(b);
    crate::text::lemma_words_unbroken(c);
}

pub proof fn lemma_start_before_comma(n: nat, count: Seq<char>)
    requires
        n <= u32::MAX,
    ensures
        range_start(crate::number::decimal(n).push(',') + count) == Some(n),
{
    let start = crate::number::decimal(n);
    crate::number::decimal_reads_back(n);
    crate::text::lemma_pieces_concat(start, ',', count, Sep::Char(','));
    crate::text::lemma_pieces_unbroken(start, Sep::Char(','));
    assert(crate::text::split(start.push(',') + count, ',')[0] == start);
}

proof fn lemma_untracked_starts(n: nat)
    ensures
        hunk_starts(untracked_header(n)) == Some((0nat, 1nat)),
{
    let h = untracked_header(n);
    let dec = crate::number::decimal(n);
    let zero = crate::number::decimal(0);
    let one = crate::number::decimal(1);
    let old_part = seq!['-'] + (zero.push(',') + zero);
    let new_part = seq!['+'] + (one.push(',') + dec);
    let end = seq!['@', '@'];
    assert(h.len() >= 2 && h.take(2) == "@@"@ && h.skip(2) == Seq::<char>::empty().push(' ') + (old_part.push(' ')
        + (new_part.push(' ') + end))) by {
        reveal_strlit("@@ -0,0 +1,");
        reveal_strlit(" @@");
        reveal_strlit("@@");
        assert(h.take(2) == "@@"@);
        assert(h.skip(2) == Seq::<char>::empty().push(' ') + (old_part.push(' ') + (new_part.push(
            ' ',
        ) + end)));
    }
    assert(crate::text::unbroken(new_part, Sep::White)) by {
        crate::number::decimal_reads_back(n);
        assert forall|i: int| 0 <= i < new_part.len() implies !crate::text::is_sep(
            Sep::White,
            #[trigger] new_part[i],
        ) by {
            if i >= 3 {
                assert(new_part[i] == dec[i - 3]);
                assert(crate::number::is_digit(dec[i - 3]));
            }
        }
    }
    lemma_three_words(old_part, new_part, end);
    lemma_start_before_comma(0, zero);
    lemma_start_before_comma(1, dec);
    assert(old_part.drop_first() == zero.push(',') + zero);
    assert(new_part.drop_first() == one.push(',') + dec);
    assert("@@"@.len() == 2) by {
        reveal_strlit("@@");
    }
    let w = crate::text::words(h.skip(2));
    assert(w == seq![old_part, new_part, end]);
    assert(w[0] == old_part && w[1] == new_part && w[2] == end);
    assert(crate::text::starts_with(h, "@@"@));
    assert(crate::text::starts_with(end, "@@"@)) by {
        reveal_strlit("@@");
        assert(end.take(2) == "@@"@);
    }
}

proof fn lemma_additions_side(rows: Seq<RowModel>)
    requires
        forall|i: int| 0 <= i < rows.len() ==> (#[trigger] rows[i]).kind == LineKind::Add,
    ensures
        old_side(rows) == 0,
        new_side(rows) == rows.len(),
    decreases rows.len(),
{
    if rows.len() > 0 {
        assert(rows[rows.len() - 1].kind == LineKind::Add);
        lemma_additions_side(rows.drop_last());
    }
}

/// Build a [`ChangedFile`] for an untracked file: one hunk, every line an
/// addition.
pub fn untracked_as_changed_file(path: &str, content: &str) -> (r: ChangedFile)
    requires
        crate::text::line_count(content@) < u32::MAX,
    ensures
        r@ == untracked_file(path@, content@),
{
    let lines = lines_of(content);
    let ghost ls = crate::text::lines(content@);
    assert(lines@.len() == ls.len()) by {
        assert(crate::seqs::views(lines@).len() == lines@.len());
    }
    let mut header = "@@ -0,0 +1,".to_owned();
    push_decimal(&mut header, lines.len() as u64);
    header.append(" @@");
    let mut hunk = Hunk::new(header);
    for i in 0..lines.len()
        invariant
            lines@.len() == ls.len(),
            crate::seqs::views(lines@) == ls,
            hunk@ == fresh_hunk(
                header@,
                Seq::new(
                    i as nat,
                    |k: int|
                        RowModel {
                            kind: LineKind::Add,
                            text: ls[k],
                            old_lineno: None,
                            new_lineno: None,
                        },
                ),
            ),
    {
        let row = DiffLineRow {
            kind: LineKind::Add,
            text: lines[i].clone(),
            old_lineno: None,
            new_lineno: None,
        };
        assert(crate::seqs::views(lines@)[i as int] == lines@[i as int]@);
        hunk.rows.push(row);
        assert(hunk@.rows == Seq::new(
            (i + 1) as nat,
            |k: int|
                RowModel {
                    kind: LineKind::Add,
                    text: ls[k],
                    old_lineno: None,
                    new_lineno: None,
                },
        ));
    }
    let ghost rows = hunk@.rows;
    proof {
        lemma_untracked_starts(ls.len());
        lemma_additions_side(rows);
    }
    hunk.assign_line_numbers();
    proof {
        assert forall|k: int| 0 <= k < rows.len() implies #[trigger] hunk@.rows[k]
            == untracked_file(path@, content@).hunks[0].rows[k] by {
            lemma_additions_side(rows.take(k));
        }
        assert(hunk@.rows == untracked_file(path@, content@).hunks[0].rows);
    }
    let r = ChangedFile { path: path.to_owned(), hunks: vec![hunk] };
    assert(r@.hunks == seq![hunk@]);
    r
}

/// Where line `n` begins.
pub open spec fn line_start(content: Seq<char>, n: int) -> int {
    crate::text::piece_start(crate::text::split(content, '\n'), n)
}

/// Where the text of line `n` ends: in front of its line end.
pub open spec fn line_end(content: Seq<char>, n: int) -> int {
    line_start(content, n) + crate::text::lines(content)[n].len()
}

/// `content` with the text of line `n` replaced by `new` and nothing else
/// touched, line ends included.
pub open spec fn line_replaced(content: Seq<char>, n: int, new: Seq<char>) -> Seq<char> {
    content.take(line_start(content, n)) + new + content.skip(line_end(content, n))
}

/// Replace 0-based line `n` of `content` with `new`, preserving the file's
/// line ends and trailing-newline state. None if `n` is out of range.
pub fn replace_nth_line(content: &str, n: usize, new: &str) -> (r: Option<String>)
    ensures
        r is Some <==> n < crate::text::line_count(content@),
        r matches Some(s) ==> s@ == line_replaced(content@, n as int, new@),
{
    let cs = chars_of(content);
    let spans = cut(cs.as_slice(), Sep::Char('\n'));
    let ghost p = crate::text::split(content@, '\n');
    let last: usize = spans.len() - 1;
    assert(spans@[last as int].0 <= spans@[last as int].1);
    let count: usize = if spans[last].0 == spans[last].1 {
        last
    } else {
        last + 1
    };
    if n >= count {
        return None;
    }
    let start: usize = spans[n].0;
    let mut end: usize = spans[n].1;
    assert(cs@.subrange(start as int, end as int) == p[n as int]);
    if n < last && start < end && cs[end - 1] == '\r' {
        end = end - 1;
    }
    assert(end == line_end(content@, n as int));
    let len: usize = cs.len();
    let mut out = string_of(slice_subrange(cs.as_slice(), 0, start));
    out.append(new);
    out.append(string_of(slice_subrange(cs.as_slice(), end, len)).as_str());
    assert(out@ == line_replaced(content@, n as int, new@));
    Some(out)
}

/// The last character is a line feed.
pub open spec fn ends_in_feed(s: Seq<char>) -> bool {
    s.len() > 0 && s.last() == '\n'
}

/// Replacing a line changes that line and no other, and leaves the line feed at
/// the end of the text as it was. Left out are the replacements that hold a
/// line feed themselves, those that end in a carriage return in front of a bare
/// line feed, and an empty last line that nothing would end.
pub proof fn replacing_changes_one_line(content: Seq<char>, n: int, new: Seq<char>)
    requires
        0 <= n < crate::text::line_count(content),
        crate::text::unbroken(new, Sep::Char('\n')),
        line_end(content, n) < content.len() && content[line_end(content, n)] == '\n'
            ==> crate::text::strip_cr(new) == new,
        line_end(content, n) < content.len() || new.len() > 0,
    ensures
        crate::text::lines(line_replaced(content, n, new)) == crate::text::lines(content).update(
            n,
            new,
        ),
        ends_in_feed(line_replaced(content, n, new)) == ends_in_feed(content),
{
    let p = crate::text::split(content, '\n');
    let old = crate::text::lines(content)[n];
    let tail = p[n].skip(old.len() as int);
    let parts = p.update(n, new + tail);
    let text = line_replaced(content, n, new);
    let start = line_start(content, n);
    let stop = start + p[n].len();
    let last = p.len() - 1;
    crate::text::lemma_join_split(content, '\n');
    crate::text::lemma_join_update(p, n, new + tail, '\n');
    assert(content.skip(line_end(content, n)) == tail + content.skip(stop));
    assert(text == crate::text::join(parts, seq!['\n']));
    crate::text::lemma_pieces_are_unbroken(content, Sep::Char('\n'));
    assert forall|k: int| 0 <= k < parts.len() implies crate::text::unbroken(
        #[trigger] parts[k],
        Sep::Char('\n'),
    ) by {
        assert(crate::text::unbroken(p[k], Sep::Char('\n')));
        if k == n {
            assert forall|i: int| 0 <= i < parts[n].len() implies !crate::text::is_sep(
                Sep::Char('\n'),
                #[trigger] parts[n][i],
            ) by {
                if i >= new.len() {
                    assert(parts[n][i] == p[n][i - new.len() + old.len()]);
                }
            }
        }
    }
    crate::text::lemma_split_join(parts, '\n');
    assert(crate::text::split(text, '\n') == parts);
    if n < last {
        if old.len() == p[n].len() {
            assert(tail == Seq::<char>::empty());
            assert(new + tail == new);
        } else {
            assert(tail == seq!['\r']);
            assert((new + tail).drop_last() == new);
        }
        assert(crate::text::strip_cr(parts[n]) == new);
        assert(text.last() == content.last());
    } else {
        assert(tail == Seq::<char>::empty());
        assert(new + tail == new);
        assert(text.last() == new[new.len() - 1]);
        assert(content.last() == p[n][p[n].len() - 1]) by {
            assert(content.subrange(start, stop) == p[n]);
        }
        assert(!crate::text::is_sep(Sep::Char('\n'), p[n][p[n].len() - 1]));
        assert(!crate::text::is_sep(Sep::Char('\n'), new[new.len() - 1]));
    }
    assert(crate::text::lines(text) == crate::text::lines(content).update(n, new));
}

impl ChangedFile {
    /// (reviewed, total) hunk counts for the progress indicator.
    pub fn progress(&self) -> (r: (usize, usize))
        ensures
            r.0 == reviewed_hunks(self@.hunks),
            r.1 == self@.hunks.len(),
    {
        let ghost hs = self@.hunks;
        let mut reviewed: usize = 0;
        for i in 0..self.hunks.len()
            invariant
                hs == self@.hunks,
                reviewed <= i,
                reviewed == reviewed_hunks(hs.take(i as int)),
        {
            assert(hs.take(i + 1).drop_last() == hs.take(i as int));
            assert(hs[i as int] == self.hunks@[i as int]@);
            if self.hunks[i].status != ReviewStatus::Unreviewed {
                reviewed = reviewed + 1;
            }
        }
        assert(hs.take(hs.len() as int) == hs);
        (reviewed, self.hunks.len())
    }
}

/// How many hunks have a verdict.
pub open spec fn reviewed_hunks(hunks: Seq<HunkModel>) -> nat
    decreases hunks.len(),
{
    if hunks.len() == 0 {
        0
    } else {
        reviewed_hunks(hunks.drop_last()) + if hunks.last().status != ReviewStatus::Unreviewed {
            1nat
        } else {
            0nat
        }
    }
}

/// The changes among `rows`: their additions and deletions, without line
/// numbers and without the context between them.
pub open spec fn changes(rows: Seq<RowModel>) -> Seq<(LineKind, Seq<char>)>
    decreases rows.len(),
{
    if rows.len() == 0 {
        Seq::empty()
    } else if rows.last().kind == LineKind::Ctx {
        changes(rows.drop_last())
    } else {
        changes(rows.drop_last()).push((rows.last().kind, rows.last().text))
    }
}

/// The sign of a change.
pub open spec fn sign(kind: LineKind) -> u8 {
    if kind == LineKind::Add {
        0x2b
    } else {
        0x2d
    }
}

/// The changes as bytes: each with its sign before it and a line feed behind.
pub open spec fn change_bytes(ch: Seq<(LineKind, Seq<char>)>) -> Seq<u8>
    decreases ch.len(),
{
    if ch.len() == 0 {
        Seq::empty()
    } else {
        change_bytes(ch.drop_last()).push(sign(ch.last().0)) + vstd::utf8::encode_utf8(
            ch.last().1,
        ) + seq![0x0au8]
    }
}

/// One byte more in the 64-bit FNV-1a hash.
pub open spec fn fnv_step(hash: u64, byte: u8) -> u64 {
    ((((hash ^ (byte as u64)) as int) * 0x100000001b3) % 0x1_0000_0000_0000_0000) as u64
}

/// The 64-bit FNV-1a hash of `bytes`.
pub open spec fn fnv(bytes: Seq<u8>) -> u64
    decreases bytes.len(),
{
    if bytes.len() == 0 {
        0xcbf29ce484222325
    } else {
        fnv_step(fnv(bytes.drop_last()), bytes.last())
    }
}

/// What identifies a hunk when it moves: the hash of its changes, in
/// hexadecimal, or nothing where there are no changes to hash.
pub open spec fn anchor_of(ch: Seq<(LineKind, Seq<char>)>) -> Seq<char> {
    if ch.len() == 0 {
        Seq::empty()
    } else {
        crate::number::hex(fnv(change_bytes(ch)) as nat, 16)
    }
}

/// The anchor of a hunk.
pub open spec fn anchor(h: HunkModel) -> Seq<char> {
    anchor_of(changes(h.rows))
}

/// A hunk with changes has an anchor of sixteen digits, and one without has
/// none.
pub proof fn anchor_is_empty_without_changes(h: HunkModel)
    ensures
        anchor(h).len() == if changes(h.rows).len() == 0 {
            0nat
        } else {
            16nat
        },
{
    lemma_hex_len(fnv(change_bytes(changes(h.rows))) as nat, 16);
}

proof fn lemma_hex_len(n: nat, k: nat)
    ensures
        crate::number::hex(n, k).len() == k,
    decreases k,
{
    if k > 0 {
        lemma_hex_len(n / 16, (k - 1) as nat);
    }
}

/// The anchor of a hunk stays when the hunk moves: it does not depend on the
/// header, the line numbers, the verdict or the comment, nor on the context
/// around the changes.
pub proof fn anchor_survives_a_move(a: HunkModel, b: HunkModel)
    requires
        changes(a.rows) == changes(b.rows),
    ensures
        anchor(a) == anchor(b),
{
}

/// Numbering the rows of a hunk leaves its anchor as it is.
pub proof fn numbering_keeps_the_anchor(h: HunkModel)
    ensures
        anchor(numbered_hunk(h)) == anchor(h),
{
    if let Some((o, n)) = hunk_starts(h.header) {
        lemma_numbering_keeps_changes(h.rows, o, n, h.rows.len() as int);
        assert(h.rows.take(h.rows.len() as int) == h.rows);
        let after = numbered_rows(h.rows, o, n);
        assert(after.take(h.rows.len() as int) == after);
    }
}

proof fn lemma_numbering_keeps_changes(rows: Seq<RowModel>, o: nat, n: nat, k: int)
    requires
        0 <= k <= rows.len(),
    ensures
        changes(numbered_rows(rows, o, n).take(k)) == changes(rows.take(k)),
    decreases k,
{
    if k > 0 {
        lemma_numbering_keeps_changes(rows, o, n, k - 1);
        let after = numbered_rows(rows, o, n);
        assert(after.take(k).drop_last() == after.take(k - 1));
        assert(rows.take(k).drop_last() == rows.take(k - 1));
    }
}

fn hash_bytes(hash: u64, bytes: &[u8], Ghost(done): Ghost<Seq<u8>>) -> (r: u64)
    requires
        hash == fnv(done),
    ensures
        r == fnv(done + bytes@),
{
    let mut h: u64 = hash;
    assert(done + bytes@.take(0) == done);
    for i in 0..bytes.len()
        invariant
            h == fnv(done + bytes@.take(i as int)),
    {
        let ghost so_far = done + bytes@.take(i + 1);
        assert(so_far.drop_last() == done + bytes@.take(i as int));
        h = (h ^ (bytes[i] as u64)).wrapping_mul(0x100000001b3);
    }
    assert(bytes@.take(bytes@.len() as int) == bytes@);
    h
}

impl Hunk {
    /// What identifies this hunk when it moves: a hash of its `+` and `-`
    /// lines, or nothing where it has none.
    pub fn content_anchor(&self) -> (r: String)
        ensures
            r@ == anchor(self@),
    {
        let ghost rows = self@.rows;
        let mut hash: u64 = 0xcbf29ce484222325;
        let mut any = false;
        let plus: [u8; 1] = [0x2b];
        let minus: [u8; 1] = [0x2d];
        let feed: [u8; 1] = [0x0a];
        for i in 0..self.rows.len()
            invariant
                rows == self@.rows,
                plus@ == seq![0x2bu8],
                minus@ == seq![0x2du8],
                feed@ == seq![0x0au8],
                any == (changes(rows.take(i as int)).len() > 0),
                hash == fnv(change_bytes(changes(rows.take(i as int)))),
        {
            let row = &self.rows[i];
            let ghost ch = changes(rows.take(i as int));
            let ghost after = changes(rows.take(i + 1));
            assert(rows.take(i + 1).drop_last() == rows.take(i as int));
            assert(rows[i as int] == row@);
            if row.kind != LineKind::Ctx {
                any = true;
                let ghost done = change_bytes(ch);
                let mark: &[u8] = if row.kind == LineKind::Add {
                    plus.as_slice()
                } else {
                    minus.as_slice()
                };
                assert(mark@ == seq![sign(row.kind)]);
                hash = hash_bytes(hash, mark, Ghost(done));
                let bytes = row.text.as_str().as_bytes();
                hash = hash_bytes(hash, bytes, Ghost(done + mark@));
                hash = hash_bytes(hash, feed.as_slice(), Ghost(done + mark@ + bytes@));
                assert(after.drop_last() == ch);
                assert(done + mark@ + bytes@ + feed@ == change_bytes(after)) by {
                    assert(done + mark@ == done.push(sign(row.kind)));
                }
            }
        }
        assert(rows.take(rows.len() as int) == rows);
        let mut out = String::new();
        if any {
            crate::number::push_hex(&mut out, hash, 16);
        }
        out
    }
}

} // verus!
