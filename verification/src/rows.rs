//! The rows of the content pane: a diff in one column or side by side, its
//! hunks alone or the whole file around them, or a plain file.

use crate::diff::{DiffLineRow, Hunk, LineKind};
use crate::number::decimal_string;
use crate::text::lines_of;
use vstd::prelude::*;

verus! {

broadcast use {crate::seqs::lemma_views_push, crate::seqs::lemma_views_update};

/// How the diff is laid out.
#[derive(Clone, Copy, PartialEq, Eq, Debug, Structural)]
pub enum Layout {
    /// Unified: +/- in one column.
    Inline,
    /// Side-by-side: old (left) vs new (right).
    Split,
}

/// How much of the file is shown.
#[derive(Clone, Copy, PartialEq, Eq, Debug, Structural)]
pub enum Extent {
    /// Just the changed hunks + a few lines of context.
    Summary,
    /// The whole file, with the diff overlaid (every unchanged line as context).
    Full,
}

/// One row in the content pane, as raw text.
#[derive(Debug)]
pub enum RenderRow {
    /// A hunk boundary. Its controls act on the hunk `hunk_idx`, or on every
    /// hunk of the file where `whole_file` is set.
    HunkHeader { hunk_idx: usize, text: String, whole_file: bool },
    /// A diff content line, with its line numbers on the old and new side.
    DiffLine {
        kind: LineKind,
        text: String,
        old_lineno: Option<u32>,
        new_lineno: Option<u32>,
    },
    /// A full-file content line. `lineno` is its 1-based file line.
    Plain { text: String, lineno: u32 },
    /// A side-by-side row: a cell on each side, either of which may be empty (a
    /// deletion has no right cell; an addition has no left cell; context shows
    /// on both). Each cell carries its own line number (old on the left, new on
    /// the right).
    SplitLine {
        left: Option<(LineKind, String, Option<u32>)>,
        right: Option<(LineKind, String, Option<u32>)>,
    },
}

/// What a cell of a side-by-side row holds.
#[verifier::ext_equal]
pub struct CellModel {
    pub kind: LineKind,
    pub text: Seq<char>,
    pub lineno: Option<u32>,
}

/// What a [`RenderRow`] holds.
#[verifier::ext_equal]
pub enum RenderModel {
    HunkHeader { hunk_idx: usize, text: Seq<char>, whole_file: bool },
    DiffLine {
        kind: LineKind,
        text: Seq<char>,
        old_lineno: Option<u32>,
        new_lineno: Option<u32>,
    },
    Plain { text: Seq<char>, lineno: u32 },
    SplitLine { left: Option<CellModel>, right: Option<CellModel> },
}

/// What a cell holds.
pub open spec fn cell_view(c: Option<(LineKind, String, Option<u32>)>) -> Option<CellModel> {
    match c {
        Some((kind, text, lineno)) => Some(CellModel { kind, text: text@, lineno }),
        None => None,
    }
}

impl View for RenderRow {
    type V = RenderModel;

    open spec fn view(&self) -> RenderModel {
        match self {
            RenderRow::HunkHeader { hunk_idx, text, whole_file } => RenderModel::HunkHeader {
                hunk_idx: *hunk_idx,
                text: text@,
                whole_file: *whole_file,
            },
            RenderRow::DiffLine { kind, text, old_lineno, new_lineno } => RenderModel::DiffLine {
                kind: *kind,
                text: text@,
                old_lineno: *old_lineno,
                new_lineno: *new_lineno,
            },
            RenderRow::Plain { text, lineno } => RenderModel::Plain {
                text: text@,
                lineno: *lineno,
            },
            RenderRow::SplitLine { left, right } => RenderModel::SplitLine {
                left: cell_view(*left),
                right: cell_view(*right),
            },
        }
    }
}

/// The cell of a row on the old side.
pub open spec fn old_cell(r: crate::diff::RowModel) -> CellModel {
    CellModel { kind: r.kind, text: r.text, lineno: r.old_lineno }
}

/// The cell of a row on the new side.
pub open spec fn new_cell(r: crate::diff::RowModel) -> CellModel {
    CellModel { kind: r.kind, text: r.text, lineno: r.new_lineno }
}

/// Deletions and additions side by side, the first with the first and so on;
/// what is left over of either stands alone.
pub open spec fn paired(dels: Seq<CellModel>, adds: Seq<CellModel>) -> Seq<RenderModel> {
    Seq::new(
        if dels.len() > adds.len() {
            dels.len()
        } else {
            adds.len()
        },
        |i: int|
            RenderModel::SplitLine {
                left: if i < dels.len() {
                    Some(dels[i])
                } else {
                    None
                },
                right: if i < adds.len() {
                    Some(adds[i])
                } else {
                    None
                },
            },
    )
}

/// Rows that are being laid side by side.
#[verifier::ext_equal]
pub struct Alignment {
    /// The finished rows.
    pub out: Seq<RenderModel>,
    /// The deletions since the last context line.
    pub dels: Seq<CellModel>,
    /// The additions since the last context line.
    pub adds: Seq<CellModel>,
}

/// All rows of an alignment, the open changes paired.
pub open spec fn flushed(a: Alignment) -> Seq<RenderModel> {
    a.out + paired(a.dels, a.adds)
}

/// Rows laid side by side, with the changes since the last context line still
/// open.
pub open spec fn alignment(rows: Seq<crate::diff::RowModel>) -> Alignment
    decreases rows.len(),
{
    if rows.len() == 0 {
        Alignment { out: Seq::empty(), dels: Seq::empty(), adds: Seq::empty() }
    } else {
        let a = alignment(rows.drop_last());
        let r = rows.last();
        match r.kind {
            LineKind::Del => Alignment { dels: a.dels.push(old_cell(r)), ..a },
            LineKind::Add => Alignment { adds: a.adds.push(new_cell(r)), ..a },
            LineKind::Ctx => Alignment {
                out: flushed(a).push(
                    RenderModel::SplitLine { left: Some(old_cell(r)), right: Some(new_cell(r)) },
                ),
                dels: Seq::empty(),
                adds: Seq::empty(),
            },
        }
    }
}

/// Rows laid side by side. Context stands on both sides; between context lines
/// deletions are paired with additions.
pub open spec fn aligned(rows: Seq<crate::diff::RowModel>) -> Seq<RenderModel> {
    flushed(alignment(rows))
}

/// A diff row in one column.
pub open spec fn inline_row(r: crate::diff::RowModel) -> RenderModel {
    RenderModel::DiffLine {
        kind: r.kind,
        text: r.text,
        old_lineno: r.old_lineno,
        new_lineno: r.new_lineno,
    }
}

/// Diff rows in a layout.
pub open spec fn laid_out(rows: Seq<crate::diff::RowModel>, layout: Layout) -> Seq<RenderModel> {
    match layout {
        Layout::Inline => rows.map_values(|r: crate::diff::RowModel| inline_row(r)),
        Layout::Split => aligned(rows),
    }
}

type Cell = (LineKind, String, Option<u32>);

spec fn cell_of(c: Cell) -> CellModel {
    CellModel { kind: c.0, text: c.1@, lineno: c.2 }
}

spec fn cells(v: Seq<Cell>) -> Seq<CellModel> {
    v.map_values(|c: Cell| cell_of(c))
}

fn copy_cell(v: &Vec<Cell>, i: usize) -> (r: Option<Cell>)
    ensures
        cell_view(r) == (if i < v@.len() {
            Some(cells(v@)[i as int])
        } else {
            None
        }),
{
    if i < v.len() {
        Some((v[i].0, v[i].1.clone(), v[i].2))
    } else {
        None
    }
}

/// Appends the open changes, paired.
fn flush(out: &mut Vec<RenderRow>, dels: &Vec<Cell>, adds: &Vec<Cell>)
    ensures
        crate::seqs::views(final(out)@) == crate::seqs::views(old(out)@) + paired(
            cells(dels@),
            cells(adds@),
        ),
{
    let ghost start = crate::seqs::views(out@);
    let ghost goal = paired(cells(dels@), cells(adds@));
    let n: usize = if dels.len() > adds.len() {
        dels.len()
    } else {
        adds.len()
    };
    assert(start + goal.take(0) == start);
    for i in 0..n
        invariant
            goal == paired(cells(dels@), cells(adds@)),
            n == goal.len(),
            crate::seqs::views(out@) == start + goal.take(i as int),
    {
        let row = RenderRow::SplitLine { left: copy_cell(dels, i), right: copy_cell(adds, i) };
        assert(row@ == goal[i as int]);
        out.push(row);
        assert(crate::seqs::views(out@) == start + goal.take(i + 1));
    }
    assert(goal.take(goal.len() as int) == goal);
}

/// Align a hunk's unified rows into side-by-side rows. Context lines show on
/// both sides; runs of deletions/additions are paired row-for-row, with any
/// surplus shown one-sided (deletion left only, addition right only).
pub fn split_align(rows: &[DiffLineRow]) -> (out: Vec<RenderRow>)
    ensures
        crate::seqs::views(out@) == aligned(crate::seqs::views(rows@)),
{
    let ghost rs = crate::seqs::views(rows@);
    let mut out: Vec<RenderRow> = Vec::new();
    let mut dels: Vec<Cell> = Vec::new();
    let mut adds: Vec<Cell> = Vec::new();
    proof {
        assert(crate::seqs::views(out@) == Seq::<RenderModel>::empty());
        assert(cells(dels@) == Seq::<CellModel>::empty());
        assert(cells(adds@) == Seq::<CellModel>::empty());
    }
    for i in 0..rows.len()
        invariant
            rs == crate::seqs::views(rows@),
            alignment(rs.take(i as int)) == (Alignment {
                out: crate::seqs::views(out@),
                dels: cells(dels@),
                adds: cells(adds@),
            }),
    {
        let r = &rows[i];
        assert(rs.take(i + 1).drop_last() == rs.take(i as int));
        assert(rs.take(i + 1).last() == r@);
        match r.kind {
            LineKind::Del => {
                let ghost before = dels@;
                let cell = (LineKind::Del, r.text.clone(), r.old_lineno);
                dels.push(cell);
                assert(cells(dels@) == cells(before).push(cell_of(cell)));
            },
            LineKind::Add => {
                let ghost before = adds@;
                let cell = (LineKind::Add, r.text.clone(), r.new_lineno);
                adds.push(cell);
                assert(cells(adds@) == cells(before).push(cell_of(cell)));
            },
            LineKind::Ctx => {
                flush(&mut out, &dels, &adds);
                dels.clear();
                adds.clear();
                assert(cells(dels@) == Seq::<CellModel>::empty());
                assert(cells(adds@) == Seq::<CellModel>::empty());
                out.push(
                    RenderRow::SplitLine {
                        left: Some((LineKind::Ctx, r.text.clone(), r.old_lineno)),
                        right: Some((LineKind::Ctx, r.text.clone(), r.new_lineno)),
                    },
                );
            },
        }
    }
    assert(rs.take(rs.len() as int) == rs);
    flush(&mut out, &dels, &adds);
    out
}

/// Appends diff rows in a layout.
fn push_laid_out(out: &mut Vec<RenderRow>, rows: &[DiffLineRow], layout: Layout)
    ensures
        crate::seqs::views(final(out)@) == crate::seqs::views(old(out)@) + laid_out(
            crate::seqs::views(rows@),
            layout,
        ),
{
    let ghost start = crate::seqs::views(out@);
    let ghost goal = laid_out(crate::seqs::views(rows@), layout);
    match layout {
        Layout::Inline => {
            assert(start + goal.take(0) == start);
            for i in 0..rows.len()
                invariant
                    goal == crate::seqs::views(rows@).map_values(
                        |r: crate::diff::RowModel| inline_row(r),
                    ),
                    crate::seqs::views(out@) == start + goal.take(i as int),
            {
                let r = &rows[i];
                let row = RenderRow::DiffLine {
                    kind: r.kind,
                    text: r.text.clone(),
                    old_lineno: r.old_lineno,
                    new_lineno: r.new_lineno,
                };
                assert(row@ == goal[i as int]);
                out.push(row);
                assert(crate::seqs::views(out@) == start + goal.take(i + 1));
            }
            assert(goal.take(goal.len() as int) == goal);
        },
        Layout::Split => {
            let mut pairs = split_align(rows);
            let ghost before = out@;
            let ghost added = pairs@;
            out.append(&mut pairs);
            assert(crate::seqs::views(before + added) == crate::seqs::views(before)
                + crate::seqs::views(added));
        },
    }
}

/// The header row of a hunk.
pub open spec fn header_row(hunk_idx: int, text: Seq<char>) -> RenderModel {
    RenderModel::HunkHeader { hunk_idx: hunk_idx as usize, text, whole_file: false }
}

/// The first `n` hunks, each below its own header.
pub open spec fn summary(
    hunks: Seq<crate::diff::HunkModel>,
    layout: Layout,
    n: nat,
) -> Seq<RenderModel>
    decreases n,
{
    if n == 0 {
        Seq::empty()
    } else {
        summary(hunks, layout, (n - 1) as nat).push(header_row(n - 1, hunks[n - 1].header))
            + laid_out(hunks[n - 1].rows, layout)
    }
}

/// The hunks of a file, each below its own header.
pub fn summary_rows(hunks: &[Hunk], layout: Layout) -> (out: Vec<RenderRow>)
    ensures
        crate::seqs::views(out@) == summary(crate::seqs::views(hunks@), layout, hunks@.len()),
{
    let ghost hs = crate::seqs::views(hunks@);
    let mut out: Vec<RenderRow> = Vec::new();
    assert(crate::seqs::views(out@) == Seq::<RenderModel>::empty());
    for i in 0..hunks.len()
        invariant
            hs == crate::seqs::views(hunks@),
            crate::seqs::views(out@) == summary(hs, layout, i as nat),
    {
        assert(hs[i as int] == hunks@[i as int]@);
        out.push(
            RenderRow::HunkHeader {
                hunk_idx: i,
                text: hunks[i].header.clone(),
                whole_file: false,
            },
        );
        push_laid_out(&mut out, hunks[i].rows.as_slice(), layout);
    }
    out
}

/// The line by which a changed row is found again: a line number on the side
/// that it stands on.
pub open spec fn change_key(r: crate::diff::RowModel) -> Option<(LineKind, u32)> {
    match (r.kind, r.old_lineno, r.new_lineno) {
        (LineKind::Add, _, Some(n)) => Some((LineKind::Add, n)),
        (LineKind::Del, Some(n), _) => Some((LineKind::Del, n)),
        _ => None,
    }
}

/// The key of the first row from `from` on that has one.
pub open spec fn first_key(rows: Seq<crate::diff::RowModel>, from: int) -> Option<(LineKind, u32)>
    decreases rows.len() - from,
{
    if from < 0 || from >= rows.len() {
        None
    } else if change_key(rows[from]) is Some {
        change_key(rows[from])
    } else {
        first_key(rows, from + 1)
    }
}

fn key_of_row(r: &DiffLineRow) -> (k: Option<(LineKind, u32)>)
    ensures
        k == change_key(r@),
{
    match r.kind {
        LineKind::Add => match r.new_lineno {
            Some(n) => Some((LineKind::Add, n)),
            None => None,
        },
        LineKind::Del => match r.old_lineno {
            Some(n) => Some((LineKind::Del, n)),
            None => None,
        },
        LineKind::Ctx => None,
    }
}

/// The line-number "key" identifying where a hunk's change region begins: the
/// first non-context row (an addition keyed by its new line number, a deletion
/// by its old). `None` for a hunk with no changed rows.
pub fn hunk_change_key(hunk: &Hunk) -> (k: Option<(LineKind, u32)>)
    ensures
        k == first_key(hunk@.rows, 0),
{
    let ghost rs = hunk@.rows;
    for i in 0..hunk.rows.len()
        invariant
            rs == crate::seqs::views(hunk.rows@),
            first_key(rs, 0) == first_key(rs, i as int),
    {
        assert(rs[i as int] == hunk.rows@[i as int]@);
        let k = key_of_row(&hunk.rows[i]);
        if k.is_some() {
            return k;
        }
    }
    None
}

/// Does full-flow row `r` start the change region of the hunk whose first-change
/// key is `key`? An addition matches on its new line number, a deletion on its
/// old.
pub fn row_matches_change_key(r: &DiffLineRow, key: (LineKind, u32)) -> (b: bool)
    ensures
        b == (change_key(r@) == Some(key)),
{
    match key_of_row(r) {
        Some((kind, n)) => kind == key.0 && n == key.1,
        None => false,
    }
}

/// The whole file while headers are put into it.
#[verifier::ext_equal]
pub struct Flow {
    /// The finished rows.
    pub out: Seq<RenderModel>,
    /// The diff rows since the last header.
    pub seg: Seq<crate::diff::RowModel>,
    /// The first hunk whose header has not been placed or passed over.
    pub next: int,
}

/// The first hunk from `next` on that has a change to be found by.
pub open spec fn next_keyed(keys: Seq<Option<(LineKind, u32)>>, next: int) -> int
    decreases keys.len() - next,
{
    if 0 <= next < keys.len() && keys[next] is None {
        next_keyed(keys, next + 1)
    } else {
        next
    }
}

/// One row of the whole file. The header of the next hunk goes in front of the
/// row at which its changes begin.
pub open spec fn flow_step(
    review: Seq<crate::diff::HunkModel>,
    layout: Layout,
    f: Flow,
    r: crate::diff::RowModel,
) -> Flow {
    let keys = review.map_values(|h: crate::diff::HunkModel| first_key(h.rows, 0));
    let next = next_keyed(keys, f.next);
    if next < review.len() && change_key(r) is Some && keys[next] == change_key(r) {
        Flow {
            out: (f.out + laid_out(f.seg, layout)).push(header_row(next, review[next].header)),
            seg: seq![r],
            next: next + 1,
        }
    } else {
        Flow { out: f.out, seg: f.seg.push(r), next }
    }
}

/// The whole file up to some row.
pub open spec fn flow(
    review: Seq<crate::diff::HunkModel>,
    layout: Layout,
    rows: Seq<crate::diff::RowModel>,
) -> Flow
    decreases rows.len(),
{
    if rows.len() == 0 {
        Flow { out: Seq::empty(), seg: Seq::empty(), next: 0 }
    } else {
        flow_step(review, layout, flow(review, layout, rows.drop_last()), rows.last())
    }
}

/// The whole file, with the header of each review hunk where its changes begin.
pub open spec fn whole_file(
    review: Seq<crate::diff::HunkModel>,
    layout: Layout,
    rows: Seq<crate::diff::RowModel>,
) -> Seq<RenderModel> {
    let f = flow(review, layout, rows);
    f.out + laid_out(f.seg, layout)
}

/// The rows of the first `n` hunks, one after the other.
pub open spec fn rows_of(hunks: Seq<crate::diff::HunkModel>, n: nat) -> Seq<crate::diff::RowModel>
    decreases n,
{
    if n == 0 {
        Seq::empty()
    } else {
        rows_of(hunks, (n - 1) as nat) + hunks[n - 1].rows
    }
}

fn all_rows(hunks: &[Hunk]) -> (out: Vec<DiffLineRow>)
    ensures
        crate::seqs::views(out@) == rows_of(crate::seqs::views(hunks@), hunks@.len()),
{
    let ghost hs = crate::seqs::views(hunks@);
    let mut out: Vec<DiffLineRow> = Vec::new();
    assert(crate::seqs::views(out@) == Seq::<crate::diff::RowModel>::empty());
    for i in 0..hunks.len()
        invariant
            hs == crate::seqs::views(hunks@),
            crate::seqs::views(out@) == rows_of(hs, i as nat),
    {
        let rows = &hunks[i].rows;
        let ghost start = crate::seqs::views(out@);
        let ghost rs = crate::seqs::views(rows@);
        assert(hs[i as int].rows == rs);
        assert(start + rs.take(0) == start);
        let n: usize = rows.len();
        for k in 0..n
            invariant
                n == rows@.len(),
                rs == crate::seqs::views(rows@),
                crate::seqs::views(out@) == start + rs.take(k as int),
        {
            let row = rows[k].clone();
            assert(row@ == rs[k as int]);
            out.push(row);
            assert(crate::seqs::views(out@) == start + rs.take(k + 1));
        }
        assert(rs.take(rs.len() as int) == rs);
    }
    out
}

/// The whole file, taken from its full-context hunks, with the header of each
/// review hunk put in front of the row at which its changes begin. Content is
/// laid out between headers, so that pairing never reaches across one.
pub fn full_rows(review: &[Hunk], full_hunks: &[Hunk], layout: Layout) -> (out: Vec<RenderRow>)
    ensures
        crate::seqs::views(out@) == whole_file(
            crate::seqs::views(review@),
            layout,
            rows_of(crate::seqs::views(full_hunks@), full_hunks@.len()),
        ),
{
    let rows = all_rows(full_hunks);
    let ghost hs = crate::seqs::views(review@);
    let ghost keys_model = hs.map_values(|h: crate::diff::HunkModel| first_key(h.rows, 0));
    let ghost rs = crate::seqs::views(rows@);
    let mut keys: Vec<Option<(LineKind, u32)>> = Vec::new();
    for i in 0..review.len()
        invariant
            hs == crate::seqs::views(review@),
            keys_model == hs.map_values(|h: crate::diff::HunkModel| first_key(h.rows, 0)),
            keys@ == keys_model.take(i as int),
    {
        let k = hunk_change_key(&review[i]);
        assert(k == keys_model[i as int]);
        keys.push(k);
        assert(keys@ == keys_model.take(i + 1));
    }
    assert(keys@ == keys_model);
    let mut out: Vec<RenderRow> = Vec::new();
    let mut seg: Vec<DiffLineRow> = Vec::new();
    let mut next: usize = 0;
    proof {
        assert(crate::seqs::views(out@) == Seq::<RenderModel>::empty());
        assert(crate::seqs::views(seg@) == Seq::<crate::diff::RowModel>::empty());
    }
    for i in 0..rows.len()
        invariant
            hs == crate::seqs::views(review@),
            rs == crate::seqs::views(rows@),
            keys@ == hs.map_values(|h: crate::diff::HunkModel| first_key(h.rows, 0)),
            keys@.len() == review@.len(),
            next <= review@.len(),
            flow(hs, layout, rs.take(i as int)) == (Flow {
                out: crate::seqs::views(out@),
                seg: crate::seqs::views(seg@),
                next: next as int,
            }),
    {
        let r = &rows[i];
        let ghost start = next as int;
        assert(rs.take(i + 1).drop_last() == rs.take(i as int));
        assert(rs.take(i + 1).last() == r@);
        while next < keys.len() && keys[next].is_none()
            invariant
                next <= keys@.len(),
                next_keyed(keys@, start) == next_keyed(keys@, next as int),
            decreases keys@.len() - next,
        {
            next = next + 1;
        }
        assert(next_keyed(keys@, start) == next);
        if next < keys.len() {
            if let Some(k) = keys[next] {
                if row_matches_change_key(r, k) {
                    push_laid_out(&mut out, seg.as_slice(), layout);
                    seg.clear();
                    assert(crate::seqs::views(seg@) == Seq::<crate::diff::RowModel>::empty());
                    assert(hs[next as int] == review@[next as int]@);
                    out.push(
                        RenderRow::HunkHeader {
                            hunk_idx: next,
                            text: review[next].header.clone(),
                            whole_file: false,
                        },
                    );
                    next = next + 1;
                }
            }
        }
        seg.push(r.clone());
    }
    assert(rs.take(rs.len() as int) == rs);
    push_laid_out(&mut out, seg.as_slice(), layout);
    out
}

/// The lines of a plain file, numbered from 1.
pub open spec fn plain(content: Seq<char>) -> Seq<RenderModel> {
    let ls = crate::text::lines(content);
    Seq::new(ls.len(), |i: int| RenderModel::Plain { text: ls[i], lineno: (i + 1) as u32 })
}

/// The lines of a plain file, numbered from 1.
pub fn plain_rows(content: &str) -> (out: Vec<RenderRow>)
    requires
        crate::text::line_count(content@) <= u32::MAX,
    ensures
        crate::seqs::views(out@) == plain(content@),
{
    let lines = lines_of(content);
    let ghost ls = crate::text::lines(content@);
    let ghost goal = plain(content@);
    assert(lines@.len() == ls.len()) by {
        assert(crate::seqs::views(lines@).len() == lines@.len());
    }
    let mut out: Vec<RenderRow> = Vec::new();
    for i in 0..lines.len()
        invariant
            crate::seqs::views(lines@) == ls,
            ls == crate::text::lines(content@),
            lines@.len() == ls.len(),
            ls.len() <= u32::MAX,
            goal == plain(content@),
            crate::seqs::views(out@) == goal.take(i as int),
    {
        assert(crate::seqs::views(lines@)[i as int] == lines@[i as int]@);
        let row = RenderRow::Plain { text: lines[i].clone(), lineno: i as u32 + 1 };
        assert(row@ == goal[i as int]);
        out.push(row);
        assert(crate::seqs::views(out@) == goal.take(i + 1));
    }
    assert(goal.take(goal.len() as int) == goal);
    out
}

/// The larger of the numbers, where a missing one counts as none.
pub open spec fn larger(a: Option<u32>, b: Option<u32>) -> u32 {
    let x = match a {
        Some(n) => n,
        None => 0,
    };
    let y = match b {
        Some(n) => n,
        None => 0,
    };
    if x > y {
        x
    } else {
        y
    }
}

/// The line number of a cell.
pub open spec fn cell_no(c: Option<CellModel>) -> Option<u32> {
    match c {
        Some(c) => c.lineno,
        None => None,
    }
}

/// The largest line number in a row.
pub open spec fn row_no(r: RenderModel) -> u32 {
    match r {
        RenderModel::HunkHeader { .. } => 0,
        RenderModel::DiffLine { old_lineno, new_lineno, .. } => larger(old_lineno, new_lineno),
        RenderModel::Plain { lineno, .. } => lineno,
        RenderModel::SplitLine { left, right } => larger(cell_no(left), cell_no(right)),
    }
}

/// The largest line number in these rows.
pub open spec fn max_no(rows: Seq<RenderModel>) -> u32
    decreases rows.len(),
{
    if rows.len() == 0 {
        0
    } else if row_no(rows.last()) > max_no(rows.drop_last()) {
        row_no(rows.last())
    } else {
        max_no(rows.drop_last())
    }
}

/// How many digits the widest line number has, one at least.
pub open spec fn number_width(rows: Seq<RenderModel>) -> nat {
    crate::number::decimal(max_no(rows) as nat).len()
}

fn larger_of(a: Option<u32>, b: Option<u32>) -> (r: u32)
    ensures
        r == larger(a, b),
{
    let x: u32 = match a {
        Some(n) => n,
        None => 0,
    };
    let y: u32 = match b {
        Some(n) => n,
        None => 0,
    };
    if x > y {
        x
    } else {
        y
    }
}

impl RenderRow {
    fn largest_no(&self) -> (r: u32)
        ensures
            r == row_no(self@),
    {
        match self {
            RenderRow::HunkHeader { .. } => 0,
            RenderRow::DiffLine { old_lineno, new_lineno, .. } => larger_of(
                *old_lineno,
                *new_lineno,
            ),
            RenderRow::Plain { lineno, .. } => *lineno,
            RenderRow::SplitLine { left, right } => {
                let l = match left {
                    Some((_, _, n)) => *n,
                    None => None,
                };
                let r = match right {
                    Some((_, _, n)) => *n,
                    None => None,
                };
                larger_of(l, r)
            },
        }
    }
}

/// The width of the gutter column: the digits of the widest line number.
pub fn lineno_width(rows: &[RenderRow]) -> (w: usize)
    ensures
        w == number_width(crate::seqs::views(rows@)),
{
    let ghost rs = crate::seqs::views(rows@);
    let mut largest: u32 = 0;
    for i in 0..rows.len()
        invariant
            rs == crate::seqs::views(rows@),
            largest == max_no(rs.take(i as int)),
    {
        assert(rs.take(i + 1).drop_last() == rs.take(i as int));
        assert(rs.take(i + 1).last() == rows@[i as int]@);
        let n: u32 = rows[i].largest_no();
        if n > largest {
            largest = n;
        }
    }
    assert(rs.take(rs.len() as int) == rs);
    let text = decimal_string(largest as u64);
    crate::text::chars_of(text.as_str()).len()
}

/// The rows at which hunk headers stand, in order.
pub open spec fn header_rows(rows: Seq<RenderModel>) -> Seq<usize>
    decreases rows.len(),
{
    if rows.len() == 0 {
        Seq::empty()
    } else if rows.last() is HunkHeader {
        header_rows(rows.drop_last()).push((rows.len() - 1) as usize)
    } else {
        header_rows(rows.drop_last())
    }
}

/// The rows at which hunk headers stand, in order.
pub fn hunk_rows(rows: &[RenderRow]) -> (v: Vec<usize>)
    ensures
        v@ == header_rows(crate::seqs::views(rows@)),
{
    let ghost rs = crate::seqs::views(rows@);
    let mut v: Vec<usize> = Vec::new();
    for i in 0..rows.len()
        invariant
            rs == crate::seqs::views(rows@),
            v@ == header_rows(rs.take(i as int)),
    {
        assert(rs.take(i + 1).drop_last() == rs.take(i as int));
        assert(rs.take(i + 1).last() == rows@[i as int]@);
        match &rows[i] {
            RenderRow::HunkHeader { .. } => {
                v.push(i);
            },
            _ => {},
        }
    }
    assert(rs.take(rs.len() as int) == rs);
    v
}

} // verus!
