//! What every view of a diff keeps: both sides complete and in order, each
//! header bound to its own hunk, and in the whole file one header per hunk, in
//! front of the change it speaks of.

use crate::diff::{HunkModel, LineKind, RowModel};
use crate::rows::{CellModel, Layout, RenderModel};
use vstd::prelude::*;

verus! {

/// The old side of rendered rows, from top to bottom.
pub open spec fn old_column(rows: Seq<RenderModel>) -> Seq<CellModel>
    decreases rows.len(),
{
    if rows.len() == 0 {
        Seq::empty()
    } else {
        let before = old_column(rows.drop_last());
        match rows.last() {
            RenderModel::DiffLine { kind, text, old_lineno, .. } => if kind == LineKind::Add {
                before
            } else {
                before.push(CellModel { kind, text, lineno: old_lineno })
            },
            RenderModel::SplitLine { left: Some(c), .. } => before.push(c),
            _ => before,
        }
    }
}

/// The new side of rendered rows, from top to bottom.
pub open spec fn new_column(rows: Seq<RenderModel>) -> Seq<CellModel>
    decreases rows.len(),
{
    if rows.len() == 0 {
        Seq::empty()
    } else {
        let before = new_column(rows.drop_last());
        match rows.last() {
            RenderModel::DiffLine { kind, text, new_lineno, .. } => if kind == LineKind::Del {
                before
            } else {
                before.push(CellModel { kind, text, lineno: new_lineno })
            },
            RenderModel::SplitLine { right: Some(c), .. } => before.push(c),
            _ => before,
        }
    }
}

/// The old side of diff rows: deletions and context.
pub open spec fn old_cells(rows: Seq<RowModel>) -> Seq<CellModel>
    decreases rows.len(),
{
    if rows.len() == 0 {
        Seq::empty()
    } else if rows.last().kind == LineKind::Add {
        old_cells(rows.drop_last())
    } else {
        old_cells(rows.drop_last()).push(crate::rows::old_cell(rows.last()))
    }
}

/// The new side of diff rows: additions and context.
pub open spec fn new_cells(rows: Seq<RowModel>) -> Seq<CellModel>
    decreases rows.len(),
{
    if rows.len() == 0 {
        Seq::empty()
    } else if rows.last().kind == LineKind::Del {
        new_cells(rows.drop_last())
    } else {
        new_cells(rows.drop_last()).push(crate::rows::new_cell(rows.last()))
    }
}

proof fn lemma_columns_add(a: Seq<RenderModel>, b: Seq<RenderModel>)
    ensures
        old_column(a + b) == old_column(a) + old_column(b),
        new_column(a + b) == new_column(a) + new_column(b),
    decreases b.len(),
{
    if b.len() == 0 {
        assert(a + b == a);
    } else {
        lemma_columns_add(a, b.drop_last());
        assert((a + b).drop_last() == a + b.drop_last());
        assert((a + b).last() == b.last());
    }
}

proof fn lemma_columns_push(a: Seq<RenderModel>, r: RenderModel)
    ensures
        old_column(a.push(r)) == old_column(a) + old_column(seq![r]),
        new_column(a.push(r)) == new_column(a) + new_column(seq![r]),
{
    lemma_columns_add(a, seq![r]);
    assert(a + seq![r] == a.push(r));
}

proof fn lemma_cells_add(a: Seq<RowModel>, b: Seq<RowModel>)
    ensures
        old_cells(a + b) == old_cells(a) + old_cells(b),
        new_cells(a + b) == new_cells(a) + new_cells(b),
    decreases b.len(),
{
    if b.len() == 0 {
        assert(a + b == a);
    } else {
        lemma_cells_add(a, b.drop_last());
        assert((a + b).drop_last() == a + b.drop_last());
        assert((a + b).last() == b.last());
    }
}

proof fn lemma_paired_columns(dels: Seq<CellModel>, adds: Seq<CellModel>, n: int)
    requires
        0 <= n <= crate::rows::paired(dels, adds).len(),
    ensures
        old_column(crate::rows::paired(dels, adds).take(n)) == dels.take(
            if n < dels.len() {
                n
            } else {
                dels.len() as int
            },
        ),
        new_column(crate::rows::paired(dels, adds).take(n)) == adds.take(
            if n < adds.len() {
                n
            } else {
                adds.len() as int
            },
        ),
    decreases n,
{
    let p = crate::rows::paired(dels, adds);
    if n > 0 {
        lemma_paired_columns(dels, adds, n - 1);
        assert(p.take(n).drop_last() == p.take(n - 1));
        assert(p.take(n).last() == p[n - 1]);
    }
}

proof fn lemma_flushed_columns(a: crate::rows::Alignment)
    ensures
        old_column(crate::rows::flushed(a)) == old_column(a.out) + a.dels,
        new_column(crate::rows::flushed(a)) == new_column(a.out) + a.adds,
{
    let p = crate::rows::paired(a.dels, a.adds);
    lemma_paired_columns(a.dels, a.adds, p.len() as int);
    assert(p.take(p.len() as int) == p);
    assert(a.dels.take(a.dels.len() as int) == a.dels);
    assert(a.adds.take(a.adds.len() as int) == a.adds);
    lemma_columns_add(a.out, p);
}

proof fn lemma_alignment_columns(rows: Seq<RowModel>)
    ensures
        old_column(crate::rows::alignment(rows).out) + crate::rows::alignment(rows).dels
            == old_cells(rows),
        new_column(crate::rows::alignment(rows).out) + crate::rows::alignment(rows).adds
            == new_cells(rows),
    decreases rows.len(),
{
    if rows.len() > 0 {
        let a = crate::rows::alignment(rows.drop_last());
        let r = rows.last();
        lemma_alignment_columns(rows.drop_last());
        if r.kind == LineKind::Ctx {
            let pair = RenderModel::SplitLine {
                left: Some(crate::rows::old_cell(r)),
                right: Some(crate::rows::new_cell(r)),
            };
            lemma_flushed_columns(a);
            lemma_columns_push(crate::rows::flushed(a), pair);
            let alone = seq![pair];
            assert(alone.drop_last() == Seq::<RenderModel>::empty());
            assert(alone.last() == pair);
            assert(old_column(alone.drop_last()) == Seq::<CellModel>::empty());
            assert(new_column(alone.drop_last()) == Seq::<CellModel>::empty());
            assert(old_column(seq![pair]) == seq![crate::rows::old_cell(r)]);
            assert(new_column(seq![pair]) == seq![crate::rows::new_cell(r)]);
        }
    }
}

proof fn lemma_inline_columns(rows: Seq<RowModel>)
    ensures
        old_column(crate::rows::laid_out(rows, Layout::Inline)) == old_cells(rows),
        new_column(crate::rows::laid_out(rows, Layout::Inline)) == new_cells(rows),
    decreases rows.len(),
{
    if rows.len() > 0 {
        lemma_inline_columns(rows.drop_last());
        let out = crate::rows::laid_out(rows, Layout::Inline);
        assert(out.drop_last() == crate::rows::laid_out(rows.drop_last(), Layout::Inline));
    }
}

/// A layout shows both sides complete and in order: on the left the deletions
/// and the context, on the right the additions and the context.
pub proof fn layout_keeps_both_sides(rows: Seq<RowModel>, layout: Layout)
    ensures
        old_column(crate::rows::laid_out(rows, layout)) == old_cells(rows),
        new_column(crate::rows::laid_out(rows, layout)) == new_cells(rows),
{
    match layout {
        Layout::Inline => {
            lemma_inline_columns(rows);
        },
        Layout::Split => {
            lemma_alignment_columns(rows);
            lemma_flushed_columns(crate::rows::alignment(rows));
        },
    }
}

proof fn lemma_header_has_no_cells(i: int, text: Seq<char>)
    ensures
        old_column(seq![crate::rows::header_row(i, text)]) == Seq::<CellModel>::empty(),
        new_column(seq![crate::rows::header_row(i, text)]) == Seq::<CellModel>::empty(),
{
    let h = seq![crate::rows::header_row(i, text)];
    assert(h.drop_last() == Seq::<RenderModel>::empty());
    assert(h.last() is HunkHeader);
    assert(old_column(h.drop_last()) == Seq::<CellModel>::empty());
    assert(new_column(h.drop_last()) == Seq::<CellModel>::empty());
}

/// The summary shows both sides of every hunk complete and in order.
pub proof fn summary_keeps_both_sides(hunks: Seq<HunkModel>, layout: Layout, n: nat)
    requires
        n <= hunks.len(),
    ensures
        old_column(crate::rows::summary(hunks, layout, n)) == old_cells(
            crate::rows::rows_of(hunks, n),
        ),
        new_column(crate::rows::summary(hunks, layout, n)) == new_cells(
            crate::rows::rows_of(hunks, n),
        ),
    decreases n,
{
    if n > 0 {
        let before = crate::rows::summary(hunks, layout, (n - 1) as nat);
        let header = crate::rows::header_row(n - 1, hunks[n - 1].header);
        summary_keeps_both_sides(hunks, layout, (n - 1) as nat);
        lemma_columns_push(before, header);
        lemma_header_has_no_cells(n - 1, hunks[n - 1].header);
        lemma_columns_add(before.push(header), crate::rows::laid_out(hunks[n - 1].rows, layout));
        layout_keeps_both_sides(hunks[n - 1].rows, layout);
        lemma_cells_add(crate::rows::rows_of(hunks, (n - 1) as nat), hunks[n - 1].rows);
    }
}

proof fn lemma_flow_columns(review: Seq<HunkModel>, layout: Layout, rows: Seq<RowModel>)
    ensures
        ({
            let f = crate::rows::flow(review, layout, rows);
            &&& old_column(f.out) + old_cells(f.seg) == old_cells(rows)
            &&& new_column(f.out) + new_cells(f.seg) == new_cells(rows)
        }),
    decreases rows.len(),
{
    if rows.len() > 0 {
        let f = crate::rows::flow(review, layout, rows.drop_last());
        let after = crate::rows::flow(review, layout, rows);
        let r = rows.last();
        lemma_flow_columns(review, layout, rows.drop_last());
        let keys = review.map_values(|h: HunkModel| crate::rows::first_key(h.rows, 0));
        let next = crate::rows::next_keyed(keys, f.next);
        if next < review.len() && crate::rows::change_key(r) is Some && keys[next]
            == crate::rows::change_key(r) {
            let laid = crate::rows::laid_out(f.seg, layout);
            let header = crate::rows::header_row(next, review[next].header);
            layout_keeps_both_sides(f.seg, layout);
            lemma_columns_add(f.out, laid);
            lemma_columns_push(f.out + laid, header);
            lemma_header_has_no_cells(next, review[next].header);
            lemma_cells_add(rows.drop_last(), seq![r]);
            assert(rows.drop_last() + seq![r] == rows);
            assert(after.seg == seq![r]);
            assert(old_column(after.out) == old_cells(rows.drop_last()));
            assert(new_column(after.out) == new_cells(rows.drop_last()));
        } else {
            lemma_cells_add(f.seg, seq![r]);
            lemma_cells_add(rows.drop_last(), seq![r]);
            assert(rows.drop_last() + seq![r] == rows);
            assert(f.seg + seq![r] == after.seg);
        }
    }
}

/// The whole-file view shows both sides complete and in order, whatever headers
/// are put between the lines.
pub proof fn whole_file_keeps_both_sides(
    review: Seq<HunkModel>,
    layout: Layout,
    rows: Seq<RowModel>,
)
    ensures
        old_column(crate::rows::whole_file(review, layout, rows)) == old_cells(rows),
        new_column(crate::rows::whole_file(review, layout, rows)) == new_cells(rows),
{
    let f = crate::rows::flow(review, layout, rows);
    lemma_flow_columns(review, layout, rows);
    lemma_columns_add(f.out, crate::rows::laid_out(f.seg, layout));
    layout_keeps_both_sides(f.seg, layout);
}

/// The headers among rendered rows, from top to bottom: the hunk that each acts
/// on, its text, and whether it acts on the whole file.
pub open spec fn headers(rows: Seq<RenderModel>) -> Seq<(usize, Seq<char>, bool)>
    decreases rows.len(),
{
    if rows.len() == 0 {
        Seq::empty()
    } else {
        match rows.last() {
            RenderModel::HunkHeader { hunk_idx, text, whole_file } => headers(
                rows.drop_last(),
            ).push((hunk_idx, text, whole_file)),
            _ => headers(rows.drop_last()),
        }
    }
}

proof fn lemma_headers_add(a: Seq<RenderModel>, b: Seq<RenderModel>)
    ensures
        headers(a + b) == headers(a) + headers(b),
    decreases b.len(),
{
    if b.len() == 0 {
        assert(a + b == a);
    } else {
        lemma_headers_add(a, b.drop_last());
        assert((a + b).drop_last() == a + b.drop_last());
        assert((a + b).last() == b.last());
    }
}

proof fn lemma_no_headers(rows: Seq<RenderModel>)
    requires
        forall|i: int| 0 <= i < rows.len() ==> !(#[trigger] rows[i] is HunkHeader),
    ensures
        headers(rows) == Seq::<(usize, Seq<char>, bool)>::empty(),
    decreases rows.len(),
{
    if rows.len() > 0 {
        assert(!(rows[rows.len() - 1] is HunkHeader));
        lemma_no_headers(rows.drop_last());
    }
}

proof fn lemma_alignment_has_no_headers(rows: Seq<RowModel>)
    ensures
        forall|i: int|
            0 <= i < crate::rows::alignment(rows).out.len() ==> !(
            #[trigger] crate::rows::alignment(rows).out[i] is HunkHeader),
    decreases rows.len(),
{
    if rows.len() > 0 {
        lemma_alignment_has_no_headers(rows.drop_last());
    }
}

proof fn lemma_layout_has_no_headers(rows: Seq<RowModel>, layout: Layout)
    ensures
        headers(crate::rows::laid_out(rows, layout)) == Seq::<
            (usize, Seq<char>, bool),
        >::empty(),
        forall|i: int|
            0 <= i < crate::rows::laid_out(rows, layout).len() ==> !(
            #[trigger] crate::rows::laid_out(rows, layout)[i] is HunkHeader),
{
    lemma_alignment_has_no_headers(rows);
    lemma_no_headers(crate::rows::laid_out(rows, layout));
}

proof fn lemma_headers_push(a: Seq<RenderModel>, i: int, text: Seq<char>)
    ensures
        headers(a.push(crate::rows::header_row(i, text))) == headers(a).push(
            (i as usize, text, false),
        ),
{
    assert(a.push(crate::rows::header_row(i, text)).drop_last() == a);
}

/// In the summary the k-th header acts on the k-th hunk and on no other.
pub proof fn summary_headers_act_on_their_hunk(hunks: Seq<HunkModel>, layout: Layout, n: nat)
    requires
        n <= hunks.len() <= usize::MAX,
    ensures
        headers(crate::rows::summary(hunks, layout, n)) == Seq::new(
            n,
            |k: int| (k as usize, hunks[k].header, false),
        ),
    decreases n,
{
    if n > 0 {
        let before = crate::rows::summary(hunks, layout, (n - 1) as nat);
        let header = crate::rows::header_row(n - 1, hunks[n - 1].header);
        summary_headers_act_on_their_hunk(hunks, layout, (n - 1) as nat);
        lemma_headers_push(before, n - 1, hunks[n - 1].header);
        lemma_layout_has_no_headers(hunks[n - 1].rows, layout);
        lemma_headers_add(before.push(header), crate::rows::laid_out(hunks[n - 1].rows, layout));
    }
}

/// The headers act on hunks below `bound`, each on a later one than the header
/// before, with that hunk's text.
pub open spec fn headers_in_order(
    hs: Seq<(usize, Seq<char>, bool)>,
    review: Seq<HunkModel>,
    bound: int,
) -> bool {
    &&& forall|i: int|
        0 <= i < hs.len() ==> (#[trigger] hs[i]).0 < bound && hs[i].1 == review[hs[i].0 as int].header
            && !hs[i].2
    &&& forall|i: int, j: int|
        0 <= i < j < hs.len() ==> (#[trigger] hs[i]).0 < (#[trigger] hs[j]).0
}

proof fn lemma_next_keyed(keys: Seq<Option<(LineKind, u32)>>, next: int)
    requires
        0 <= next <= keys.len(),
    ensures
        next <= crate::rows::next_keyed(keys, next) <= keys.len(),
    decreases keys.len() - next,
{
    if next < keys.len() && keys[next] is None {
        lemma_next_keyed(keys, next + 1);
    }
}

proof fn lemma_flow_headers(review: Seq<HunkModel>, layout: Layout, rows: Seq<RowModel>)
    requires
        review.len() <= usize::MAX,
    ensures
        ({
            let f = crate::rows::flow(review, layout, rows);
            &&& 0 <= f.next <= review.len()
            &&& headers_in_order(headers(f.out), review, f.next)
        }),
    decreases rows.len(),
{
    if rows.len() > 0 {
        let f = crate::rows::flow(review, layout, rows.drop_last());
        let after = crate::rows::flow(review, layout, rows);
        let keys = review.map_values(|h: HunkModel| crate::rows::first_key(h.rows, 0));
        lemma_flow_headers(review, layout, rows.drop_last());
        lemma_next_keyed(keys, f.next);
        let next = crate::rows::next_keyed(keys, f.next);
        let laid = crate::rows::laid_out(f.seg, layout);
        lemma_layout_has_no_headers(f.seg, layout);
        lemma_headers_add(f.out, laid);
        if after.out != f.out {
            lemma_headers_push(f.out + laid, next, review[next].header);
            assert(headers(f.out) + headers(laid) == headers(f.out));
            assert(headers(after.out) == headers(f.out).push(
                (next as usize, review[next].header, false),
            ));
        }
    }
}

/// In the whole-file view each header acts on its own hunk; no hunk has two
/// headers, and they come in the order of the hunks.
pub proof fn whole_file_headers_act_on_their_hunk(
    review: Seq<HunkModel>,
    layout: Layout,
    rows: Seq<RowModel>,
)
    requires
        review.len() <= usize::MAX,
    ensures
        headers_in_order(
            headers(crate::rows::whole_file(review, layout, rows)),
            review,
            review.len() as int,
        ),
{
    let f = crate::rows::flow(review, layout, rows);
    let laid = crate::rows::laid_out(f.seg, layout);
    lemma_flow_headers(review, layout, rows);
    lemma_layout_has_no_headers(f.seg, layout);
    lemma_headers_add(f.out, laid);
    assert(headers(f.out) + headers(laid) == headers(f.out));
}

/// The row shows the change with this key.
pub open spec fn shows_change(row: RenderModel, key: (LineKind, u32)) -> bool {
    match row {
        RenderModel::DiffLine { kind, old_lineno, new_lineno, .. } => kind == key.0 && if kind
            == LineKind::Add {
            new_lineno == Some(key.1)
        } else {
            old_lineno == Some(key.1)
        },
        RenderModel::SplitLine { left, right } => if key.0 == LineKind::Add {
            right matches Some(c) && c.kind == key.0 && c.lineno == Some(key.1)
        } else {
            left matches Some(c) && c.kind == key.0 && c.lineno == Some(key.1)
        },
        _ => false,
    }
}

proof fn lemma_alignment_starts_with_change(rows: Seq<RowModel>, key: (LineKind, u32))
    requires
        rows.len() > 0,
        crate::rows::change_key(rows[0]) == Some(key),
    ensures
        ({
            let a = crate::rows::alignment(rows);
            ||| a.out.len() > 0 && shows_change(a.out[0], key)
            ||| a.out.len() == 0 && key.0 == LineKind::Add && a.adds.len() > 0 && a.adds[0]
                == crate::rows::new_cell(rows[0])
            ||| a.out.len() == 0 && key.0 == LineKind::Del && a.dels.len() > 0 && a.dels[0]
                == crate::rows::old_cell(rows[0])
        }),
    decreases rows.len(),
{
    if rows.len() > 1 {
        assert(rows.drop_last()[0] == rows[0]);
        lemma_alignment_starts_with_change(rows.drop_last(), key);
        let a = crate::rows::alignment(rows.drop_last());
        if a.out.len() > 0 {
            assert(crate::rows::flushed(a)[0] == a.out[0]);
        } else {
            assert(crate::rows::flushed(a) == crate::rows::paired(a.dels, a.adds));
        }
    } else {
        let none = Seq::<RowModel>::empty();
        assert(rows.drop_last() == none);
        assert(rows.last() == rows[0]);
        assert(crate::rows::alignment(none).out.len() == 0);
        assert(crate::rows::alignment(none).dels.len() == 0);
        assert(crate::rows::alignment(none).adds.len() == 0);
    }
}

proof fn lemma_layout_starts_with_change(
    rows: Seq<RowModel>,
    layout: Layout,
    key: (LineKind, u32),
)
    requires
        rows.len() > 0,
        crate::rows::change_key(rows[0]) == Some(key),
    ensures
        crate::rows::laid_out(rows, layout).len() > 0,
        shows_change(crate::rows::laid_out(rows, layout)[0], key),
{
    match layout {
        Layout::Inline => {},
        Layout::Split => {
            lemma_alignment_starts_with_change(rows, key);
            let a = crate::rows::alignment(rows);
            if a.out.len() > 0 {
                assert(crate::rows::flushed(a)[0] == a.out[0]);
            } else {
                assert(crate::rows::flushed(a) == crate::rows::paired(a.dels, a.adds));
            }
        },
    }
}

/// Every header among the first `n` rows is followed by a row that shows the
/// first change of its hunk.
pub open spec fn headers_precede_changes(
    rows: Seq<RenderModel>,
    review: Seq<HunkModel>,
    n: int,
) -> bool {
    forall|i: int|
        #![trigger rows[i]]
        0 <= i < n && rows[i] is HunkHeader ==> {
            let idx = rows[i]->hunk_idx as int;
            &&& idx < review.len()
            &&& crate::rows::first_key(review[idx].rows, 0) is Some
            &&& i + 1 < rows.len()
            &&& shows_change(rows[i + 1], crate::rows::first_key(review[idx].rows, 0)->0)
        }
}

proof fn lemma_flow_places_headers(review: Seq<HunkModel>, layout: Layout, rows: Seq<RowModel>)
    requires
        review.len() <= usize::MAX,
    ensures
        ({
            let f = crate::rows::flow(review, layout, rows);
            let last = f.out.len() - 1;
            &&& headers_precede_changes(f.out, review, last)
            &&& f.out.len() > 0 ==> {
                &&& f.out[last] is HunkHeader
                &&& f.out[last]->hunk_idx < review.len()
                &&& f.seg.len() > 0
                &&& crate::rows::change_key(f.seg[0]) is Some
                &&& crate::rows::first_key(review[f.out[last]->hunk_idx as int].rows, 0)
                    == crate::rows::change_key(f.seg[0])
            }
        }),
    decreases rows.len(),
{
    if rows.len() > 0 {
        let f = crate::rows::flow(review, layout, rows.drop_last());
        let after = crate::rows::flow(review, layout, rows);
        let r = rows.last();
        let keys = review.map_values(|h: HunkModel| crate::rows::first_key(h.rows, 0));
        lemma_flow_places_headers(review, layout, rows.drop_last());
        lemma_flow_headers(review, layout, rows.drop_last());
        lemma_next_keyed(keys, f.next);
        let next = crate::rows::next_keyed(keys, f.next);
        if next < review.len() && crate::rows::change_key(r) is Some && keys[next]
            == crate::rows::change_key(r) {
            let laid = crate::rows::laid_out(f.seg, layout);
            let joined = f.out + laid;
            lemma_layout_has_no_headers(f.seg, layout);
            lemma_whole_places_headers(f, layout, review);
            assert(after.out == joined.push(crate::rows::header_row(next, review[next].header)));
            assert forall|i: int|
                #![trigger after.out[i]]
                0 <= i < after.out.len() - 1 && after.out[i] is HunkHeader implies {
                let idx = after.out[i]->hunk_idx as int;
                &&& idx < review.len()
                &&& crate::rows::first_key(review[idx].rows, 0) is Some
                &&& i + 1 < after.out.len()
                &&& shows_change(
                    after.out[i + 1],
                    crate::rows::first_key(review[idx].rows, 0)->0,
                )
            } by {
                assert(after.out[i] == joined[i]);
                assert(after.out[i + 1] == joined[i + 1]);
            }
        } else {
            assert(f.seg.len() > 0 ==> after.seg[0] == f.seg[0]);
        }
    }
}

proof fn lemma_whole_places_headers(
    f: crate::rows::Flow,
    layout: Layout,
    review: Seq<HunkModel>,
)
    requires
        headers_precede_changes(f.out, review, f.out.len() - 1),
        f.out.len() > 0 ==> {
            let last = f.out.len() - 1;
            &&& f.out[last] is HunkHeader
            &&& f.out[last]->hunk_idx < review.len()
            &&& f.seg.len() > 0
            &&& crate::rows::change_key(f.seg[0]) is Some
            &&& crate::rows::first_key(review[f.out[last]->hunk_idx as int].rows, 0)
                == crate::rows::change_key(f.seg[0])
        },
    ensures
        headers_precede_changes(
            f.out + crate::rows::laid_out(f.seg, layout),
            review,
            (f.out + crate::rows::laid_out(f.seg, layout)).len() as int,
        ),
{
    let laid = crate::rows::laid_out(f.seg, layout);
    let whole = f.out + laid;
    lemma_layout_has_no_headers(f.seg, layout);
    if f.out.len() > 0 {
        lemma_layout_starts_with_change(
            f.seg,
            layout,
            crate::rows::change_key(f.seg[0])->0,
        );
    }
    assert forall|i: int|
        #![trigger whole[i]]
        0 <= i < whole.len() && whole[i] is HunkHeader implies {
        let idx = whole[i]->hunk_idx as int;
        &&& idx < review.len()
        &&& crate::rows::first_key(review[idx].rows, 0) is Some
        &&& i + 1 < whole.len()
        &&& shows_change(whole[i + 1], crate::rows::first_key(review[idx].rows, 0)->0)
    } by {
        if i < f.out.len() {
            assert(whole[i] == f.out[i]);
            if i < f.out.len() - 1 {
                assert(whole[i + 1] == f.out[i + 1]);
            } else {
                assert(whole[i + 1] == laid[0]);
            }
        } else {
            assert(whole[i] == laid[i - f.out.len()]);
        }
    }
}

/// In the whole-file view a header stands directly in front of the row that
/// shows the first change of its hunk.
pub proof fn whole_file_headers_stand_at_their_change(
    review: Seq<HunkModel>,
    layout: Layout,
    rows: Seq<RowModel>,
)
    requires
        review.len() <= usize::MAX,
    ensures
        headers_precede_changes(
            crate::rows::whole_file(review, layout, rows),
            review,
            crate::rows::whole_file(review, layout, rows).len() as int,
        ),
{
    lemma_flow_places_headers(review, layout, rows);
    lemma_whole_places_headers(crate::rows::flow(review, layout, rows), layout, review);
}

/// The first change of each hunk stands in the row at its position, one after
/// the other.
pub open spec fn changes_at(review: Seq<HunkModel>, rows: Seq<RowModel>, at: Seq<int>) -> bool {
    &&& at.len() == review.len()
    &&& forall|k: int|
        0 <= k < review.len() ==> {
            &&& 0 <= #[trigger] at[k] < rows.len()
            &&& crate::rows::change_key(rows[at[k]]) is Some
            &&& crate::rows::change_key(rows[at[k]]) == crate::rows::first_key(review[k].rows, 0)
        }
    &&& forall|j: int, k: int| 0 <= j < k < review.len() ==> #[trigger] at[j] < #[trigger] at[k]
}

proof fn lemma_flow_has_every_header(
    review: Seq<HunkModel>,
    layout: Layout,
    rows: Seq<RowModel>,
    at: Seq<int>,
    m: int,
)
    requires
        review.len() <= usize::MAX,
        changes_at(review, rows, at),
        0 <= m <= rows.len(),
    ensures
        ({
            let f = crate::rows::flow(review, layout, rows.take(m));
            &&& 0 <= f.next <= review.len()
            &&& headers(f.out) == Seq::new(
                f.next as nat,
                |k: int| (k as usize, review[k].header, false),
            )
            &&& forall|k: int| 0 <= k < review.len() && #[trigger] at[k] < m ==> k < f.next
        }),
    decreases m,
{
    if m > 0 {
        let f = crate::rows::flow(review, layout, rows.take(m - 1));
        let after = crate::rows::flow(review, layout, rows.take(m));
        let keys = review.map_values(|h: HunkModel| crate::rows::first_key(h.rows, 0));
        let r = rows[m - 1];
        lemma_flow_has_every_header(review, layout, rows, at, m - 1);
        assert(rows.take(m).drop_last() == rows.take(m - 1));
        assert(rows.take(m).last() == r);
        assert(f.next < review.len() ==> keys[f.next] is Some) by {
            if f.next < review.len() {
                assert(0 <= at[f.next]);
            }
        }
        assert(crate::rows::next_keyed(keys, f.next) == f.next);
        assert forall|k: int| 0 <= k < review.len() && #[trigger] at[k] < m implies k
            < after.next by {
            if at[k] == m - 1 {
                if k > 0 {
                    assert(at[k - 1] < at[k]);
                }
                assert(f.next >= k);
            }
        }
        if f.next < review.len() && crate::rows::change_key(r) is Some && keys[f.next]
            == crate::rows::change_key(r) {
            let laid = crate::rows::laid_out(f.seg, layout);
            lemma_layout_has_no_headers(f.seg, layout);
            lemma_headers_add(f.out, laid);
            lemma_headers_push(f.out + laid, f.next, review[f.next].header);
            assert(headers(f.out) + headers(laid) == headers(f.out));
        }
    } else {
        assert(rows.take(0) == Seq::<RowModel>::empty());
    }
}

/// Where the whole file holds the first changes of the hunks in order, it shows
/// one header per hunk, the same ones as the summary.
pub proof fn whole_file_has_one_header_per_hunk(
    review: Seq<HunkModel>,
    layout: Layout,
    rows: Seq<RowModel>,
)
    requires
        review.len() <= usize::MAX,
        exists|at: Seq<int>| #[trigger] changes_at(review, rows, at),
    ensures
        headers(crate::rows::whole_file(review, layout, rows)) == Seq::new(
            review.len(),
            |k: int| (k as usize, review[k].header, false),
        ),
        headers(crate::rows::whole_file(review, layout, rows)) == headers(
            crate::rows::summary(review, layout, review.len()),
        ),
{
    let at = choose|at: Seq<int>| #[trigger] changes_at(review, rows, at);
    let f = crate::rows::flow(review, layout, rows);
    let laid = crate::rows::laid_out(f.seg, layout);
    lemma_flow_has_every_header(review, layout, rows, at, rows.len() as int);
    assert(rows.take(rows.len() as int) == rows);
    if review.len() > 0 {
        assert(at[review.len() - 1] < rows.len());
    }
    lemma_layout_has_no_headers(f.seg, layout);
    lemma_headers_add(f.out, laid);
    assert(headers(f.out) + headers(laid) == headers(f.out));
    summary_headers_act_on_their_hunk(review, layout, review.len());
}

} // verus!
