//! How a diff stands on the screen: what is beside what, and under which number.

use crate::diff::{LineKind, RowModel};
use crate::display::RunModel;
use crate::highlight::{Highlighter, HlState};
use crate::rows::{Alignment, CellModel, Layout, RenderModel};
use syntect::highlighting::Theme;
use syntect::parsing::{SyntaxReference, SyntaxSet};
use vstd::prelude::*;

verus! {

/// A line as it stands on one side, under this number.
pub open spec fn cell(r: RowModel, lineno: Option<u32>) -> CellModel {
    CellModel { kind: r.kind, text: r.text, lineno }
}

/// In one column every line stands as it is, with both its numbers.
pub proof fn one_column_shows_every_line(rows: Seq<RowModel>, i: int)
    ensures
        crate::rows::laid_out(rows, Layout::Inline).len() == rows.len(),
        0 <= i < rows.len() ==> crate::rows::laid_out(rows, Layout::Inline)[i] == (
        RenderModel::DiffLine {
            kind: rows[i].kind,
            text: rows[i].text,
            old_lineno: rows[i].old_lineno,
            new_lineno: rows[i].new_lineno,
        }),
{
}

/// The rows of a kind.
pub open spec fn of_kind(rows: Seq<RowModel>, kind: LineKind) -> Seq<RowModel> {
    rows.filter(|r: RowModel| r.kind == kind)
}

/// A run of changes on both sides: the n-th deletion beside the n-th addition.
pub open spec fn beside(run: Seq<RowModel>, n: int) -> RenderModel {
    let dels = of_kind(run, LineKind::Del);
    let adds = of_kind(run, LineKind::Add);
    RenderModel::SplitLine {
        left: if n < dels.len() {
            Some(cell(dels[n], dels[n].old_lineno))
        } else {
            None
        },
        right: if n < adds.len() {
            Some(cell(adds[n], adds[n].new_lineno))
        } else {
            None
        },
    }
}

proof fn lemma_run(before: Seq<RowModel>, run: Seq<RowModel>)
    requires
        before.len() == 0 || before.last().kind == LineKind::Ctx,
        forall|i: int| 0 <= i < run.len() ==> (#[trigger] run[i]).kind != LineKind::Ctx,
    ensures
        crate::rows::alignment(before + run) == (Alignment {
            out: crate::rows::alignment(before).out,
            dels: of_kind(run, LineKind::Del).map_values(
                |r: RowModel| cell(r, r.old_lineno),
            ),
            adds: of_kind(run, LineKind::Add).map_values(
                |r: RowModel| cell(r, r.new_lineno),
            ),
        }),
        crate::rows::alignment(before).dels.len() == 0,
        crate::rows::alignment(before).adds.len() == 0,
    decreases run.len(),
{
    let old = |r: RowModel| cell(r, r.old_lineno);
    let new = |r: RowModel| cell(r, r.new_lineno);
    let all = crate::rows::alignment(before + run);
    reveal(Seq::filter);
    if run.len() == 0 {
        assert(before + run == before);
        assert(of_kind(run, LineKind::Del).map_values(old) == Seq::<CellModel>::empty());
        assert(of_kind(run, LineKind::Add).map_values(new) == Seq::<CellModel>::empty());
        assert(all.dels == Seq::<CellModel>::empty());
        assert(all.adds == Seq::<CellModel>::empty());
    } else {
        let front = run.drop_last();
        let r = run.last();
        lemma_run(before, front);
        assert((before + run).drop_last() == before + front);
        assert((before + run).last() == r);
        assert(run[run.len() - 1].kind != LineKind::Ctx);
        let d = of_kind(front, LineKind::Del);
        let a = of_kind(front, LineKind::Add);
        if r.kind == LineKind::Del {
            assert(of_kind(run, LineKind::Del) == d.push(r));
            assert(d.push(r).map_values(old) == d.map_values(old).push(old(r)));
            assert(of_kind(run, LineKind::Add) == a);
        } else {
            assert(of_kind(run, LineKind::Add) == a.push(r));
            assert(a.push(r).map_values(new) == a.map_values(new).push(new(r)));
            assert(of_kind(run, LineKind::Del) == d);
        }
    }
}

/// Side by side, between two unchanged lines, the first deletion stands beside
/// the first addition, the second beside the second, and so on; what is left
/// over stands alone. An unchanged line stands on both sides, behind everything
/// before it.
pub proof fn changes_stand_beside_each_other(
    before: Seq<RowModel>,
    run: Seq<RowModel>,
    ctx: RowModel,
)
    requires
        before.len() == 0 || before.last().kind == LineKind::Ctx,
        forall|i: int| 0 <= i < run.len() ==> (#[trigger] run[i]).kind != LineKind::Ctx,
        ctx.kind == LineKind::Ctx,
    ensures
        ({
            let dels = of_kind(run, LineKind::Del).len();
            let adds = of_kind(run, LineKind::Add).len();
            let n = if dels > adds {
                dels
            } else {
                adds
            };
            let shown = crate::rows::laid_out(before + run, Layout::Split);
            &&& shown == crate::rows::laid_out(before, Layout::Split) + Seq::new(
                n,
                |i: int| beside(run, i),
            )
            &&& crate::rows::laid_out((before + run).push(ctx), Layout::Split) == shown.push(
                RenderModel::SplitLine {
                    left: Some(cell(ctx, ctx.old_lineno)),
                    right: Some(cell(ctx, ctx.new_lineno)),
                },
            )
        }),
{
    lemma_run(before, run);
    let a = crate::rows::alignment(before + run);
    let b = crate::rows::alignment(before);
    let rows = (before + run).push(ctx);
    assert(rows.drop_last() == before + run);
    assert(crate::rows::flushed(b) == b.out) by {
        assert(crate::rows::paired(b.dels, b.adds) == Seq::<RenderModel>::empty());
    }
    let n = if a.dels.len() > a.adds.len() {
        a.dels.len()
    } else {
        a.adds.len()
    };
    assert(crate::rows::paired(a.dels, a.adds) == Seq::new(n, |i: int| beside(run, i)));
    let last = crate::rows::alignment(rows);
    assert(crate::rows::flushed(last) == last.out) by {
        assert(crate::rows::paired(last.dels, last.adds) == Seq::<RenderModel>::empty());
    }
}

/// An added line is found again by its number in the new file, a deleted one by
/// its number in the old; an unchanged line is no change.
pub proof fn a_change_is_found_by_its_own_side(r: RowModel)
    ensures
        r.kind == LineKind::Add ==> crate::rows::change_key(r) == match r.new_lineno {
            Some(n) => Some((LineKind::Add, n)),
            None => None,
        },
        r.kind == LineKind::Del ==> crate::rows::change_key(r) == match r.old_lineno {
            Some(n) => Some((LineKind::Del, n)),
            None => None,
        },
        r.kind == LineKind::Ctx ==> crate::rows::change_key(r) is None,
{
}

proof fn lemma_first_key(rows: Seq<RowModel>, from: int, k: int)
    requires
        0 <= from <= k < rows.len(),
        crate::rows::change_key(rows[k]) is Some,
        forall|i: int| from <= i < k ==> crate::rows::change_key(#[trigger] rows[i]) is None,
    ensures
        crate::rows::first_key(rows, from) == crate::rows::change_key(rows[k]),
    decreases k - from,
{
    if from < k {
        lemma_first_key(rows, from + 1, k);
    }
}

/// A hunk is found by its first change.
pub proof fn a_hunk_is_found_by_its_first_change(rows: Seq<RowModel>, k: int)
    requires
        0 <= k < rows.len(),
        rows[k].kind == LineKind::Add && rows[k].new_lineno is Some || rows[k].kind == LineKind::Del
            && rows[k].old_lineno is Some,
        forall|i: int| 0 <= i < k ==> (#[trigger] rows[i]).kind == LineKind::Ctx,
    ensures
        crate::rows::first_key(rows, 0) == Some(
            (
                rows[k].kind,
                if rows[k].kind == LineKind::Add {
                    rows[k].new_lineno->0
                } else {
                    rows[k].old_lineno->0
                },
            ),
        ),
{
    lemma_first_key(rows, 0, k);
}

/// A file that is not changed is shown line by line, numbered from one.
pub proof fn a_plain_file_shows_every_line(content: Seq<char>, i: int)
    ensures
        crate::rows::plain(content).len() == crate::text::lines(content).len(),
        0 <= i < crate::text::lines(content).len() <= u32::MAX ==> {
            &&& crate::rows::plain(content)[i] matches RenderModel::Plain { text, lineno }
            &&& text == crate::text::lines(content)[i]
            &&& lineno == i + 1
        },
{
}

/// The row shows this line number.
pub open spec fn shows_number(r: RenderModel, n: u32) -> bool {
    match r {
        RenderModel::HunkHeader { .. } => false,
        RenderModel::DiffLine { old_lineno, new_lineno, .. } => old_lineno == Some(n) || new_lineno
            == Some(n),
        RenderModel::Plain { lineno, .. } => lineno == n,
        RenderModel::SplitLine { left, right } => (left matches Some(c) && c.lineno == Some(n)) || (
        right matches Some(c) && c.lineno == Some(n)),
    }
}

proof fn lemma_max(rows: Seq<RenderModel>)
    ensures
        forall|i: int, n: u32|
            0 <= i < rows.len() && #[trigger] shows_number(rows[i], n) ==> n <= crate::rows::max_no(
                rows,
            ),
        crate::rows::max_no(rows) > 0 ==> exists|i: int|
            0 <= i < rows.len() && #[trigger] shows_number(rows[i], crate::rows::max_no(rows)),
    decreases rows.len(),
{
    if rows.len() > 0 {
        let front = rows.drop_last();
        lemma_max(front);
        let m = crate::rows::max_no(rows);
        assert forall|i: int, n: u32|
            0 <= i < rows.len() && #[trigger] shows_number(rows[i], n) implies n <= m by {
            if i < front.len() {
                assert(shows_number(front[i], n));
            }
        }
        if m > 0 {
            if crate::rows::row_no(rows.last()) > crate::rows::max_no(front) {
                assert(shows_number(rows[rows.len() - 1], m));
            } else {
                let i = choose|i: int|
                    0 <= i < front.len() && #[trigger] shows_number(
                        front[i],
                        crate::rows::max_no(front),
                    );
                assert(shows_number(rows[i], m));
            }
        }
    }
}

proof fn lemma_longer(a: nat, b: nat)
    requires
        a <= b,
    ensures
        crate::number::decimal(a).len() <= crate::number::decimal(b).len(),
    decreases b,
{
    if a >= 10 {
        lemma_longer(a / 10, b / 10);
    }
}

/// The column of numbers is wide enough for every number, and no wider than the
/// widest.
pub proof fn the_number_column_fits(rows: Seq<RenderModel>, i: int, n: u32)
    ensures
        0 <= i < rows.len() && shows_number(rows[i], n) ==> crate::number::decimal(n as nat).len()
            <= crate::rows::number_width(rows),
        crate::rows::number_width(rows) == 1 || exists|k: int, m: u32|
            0 <= k < rows.len() && #[trigger] shows_number(rows[k], m) && crate::number::decimal(
                m as nat,
            ).len() == crate::rows::number_width(rows),
        crate::rows::number_width(rows) >= 1,
{
    let m = crate::rows::max_no(rows);
    lemma_max(rows);
    if 0 <= i < rows.len() && shows_number(rows[i], n) {
        lemma_longer(n as nat, m as nat);
    }
    crate::number::decimal_reads_back(m as nat);
    if m > 0 {
        let k = choose|k: int| 0 <= k < rows.len() && #[trigger] shows_number(rows[k], m);
        assert(shows_number(rows[k], m));
    }
}

/// The rows that are noted as headers are all the headers, from top to bottom.
pub proof fn every_header_is_noted(rows: Seq<RenderModel>, i: int)
    requires
        rows.len() <= usize::MAX,
    ensures
        0 <= i < rows.len() ==> (crate::rows::header_rows(rows).contains(i as usize)
            <==> rows[i] is HunkHeader),
        forall|a: int, b: int|
            0 <= a < b < crate::rows::header_rows(rows).len() ==> crate::rows::header_rows(rows)[a]
                < crate::rows::header_rows(rows)[b],
        forall|a: int|
            0 <= a < crate::rows::header_rows(rows).len() ==> crate::rows::header_rows(rows)[a]
                < rows.len(),
    decreases rows.len(),
{
    if rows.len() > 0 {
        let front = rows.drop_last();
        let before = crate::rows::header_rows(front);
        let all = crate::rows::header_rows(rows);
        every_header_is_noted(front, i);
        if 0 <= i < front.len() {
            if before.contains(i as usize) {
                let k = choose|k: int| 0 <= k < before.len() && before[k] == i as usize;
                assert(all[k] == i as usize);
            }
            if all.contains(i as usize) {
                let k = choose|k: int| 0 <= k < all.len() && all[k] == i as usize;
                if k < before.len() {
                    assert(before[k] == i as usize);
                }
            }
        } else if i == front.len() {
            if rows.last() is HunkHeader {
                assert(all[before.len() as int] == i as usize);
            } else if all.contains(i as usize) {
                let k = choose|k: int| 0 <= k < all.len() && all[k] == i as usize;
                assert(before[k] < front.len());
            }
        }
    }
}

/// A number stands at the right of its column, with blanks before it; where
/// there is none, the column is blank.
pub proof fn numbers_are_aligned_right(v: u32, width: nat)
    ensures
        ({
            let digits = crate::number::decimal(v as nat);
            let s = crate::display::aligned_number(Some(v), width);
            let none = crate::display::aligned_number(None, width);
            &&& digits.len() <= width ==> s.len() == width && s.skip(width - digits.len()) == digits
                && forall|i: int| 0 <= i < width - digits.len() ==> #[trigger] s[i] == ' '
            &&& digits.len() > width ==> s == digits
            &&& none.len() == width
            &&& forall|i: int| 0 <= i < width ==> #[trigger] none[i] == ' '
        }),
{
    let digits = crate::number::decimal(v as nat);
    let s = crate::display::aligned_number(Some(v), width);
    if digits.len() <= width {
        assert(s.skip(width - digits.len()) == digits);
    } else {
        assert(s == digits);
    }
}

/// Additions are marked with a plus and deletions with a minus.
pub proof fn changes_are_marked()
    ensures
        crate::display::marker_of(Some(LineKind::Add)) == '+',
        crate::display::marker_of(Some(LineKind::Del)) == '-',
        crate::display::marker_of(Some(LineKind::Ctx)) == ' ',
        crate::display::marker_of(None) == ' ',
{
}

/// A run is an identifier where it is made of letters, digits and underscores,
/// and no run that is one holds anything else.
pub proof fn identifiers_are_whole_runs(s: Seq<char>, i: int, k: int)
    requires
        0 <= i < crate::display::runs(s).len(),
        0 <= k < crate::display::runs(s)[i].text.len(),
    ensures
        ({
            let run: RunModel = crate::display::runs(s)[i];
            let c = run.text[k];
            run.ident <==> crate::text::is_alphanumeric(c) || c == '_'
        }),
{
    crate::display::runs_make_up_the_line(s);
    let run = crate::display::runs(s)[i];
    assert(crate::display::is_ident(run.text[k]) == run.ident);
}

/// A diff line is coloured as a file would be that has this line only, on either
/// side; a line of a file as the line that it is in the file.
pub proof fn lines_are_coloured_as_in_their_file(
    hl: &Highlighter,
    path: Seq<char>,
    rows: Seq<RenderModel>,
    i: int,
)
    requires
        0 <= i < rows.len(),
    ensures
        ({
            let set = hl.syntaxes();
            let theme = hl.theme();
            let from = crate::highlight::start(set, theme, path);
            match rows[i] {
                RenderModel::DiffLine { text, .. } => seq![
                    crate::highlight::spans_of_row(hl, path, rows, i),
                ] == crate::highlight::pass(set, theme, from, seq![text]).0,
                RenderModel::SplitLine { left, right } => {
                    &&& left matches Some(c) ==> seq![
                        crate::highlight::spans_of_sides(hl, path, rows[i]).0,
                    ] == crate::highlight::pass(set, theme, from, seq![c.text]).0
                    &&& right matches Some(c) ==> seq![
                        crate::highlight::spans_of_sides(hl, path, rows[i]).1,
                    ] == crate::highlight::pass(set, theme, from, seq![c.text]).0
                },
                RenderModel::Plain { text, .. } => crate::highlight::texts(rows)[i] == text
                    && crate::highlight::spans_of_row(hl, path, rows, i) == crate::highlight::pass(
                    set,
                    theme,
                    from,
                    crate::highlight::texts(rows),
                ).0[i],
                RenderModel::HunkHeader { .. } => true,
            }
        }),
{
    let set = hl.syntaxes();
    let theme = hl.theme();
    let from = crate::highlight::start(set, theme, path);
    match rows[i] {
        RenderModel::DiffLine { text, .. } => {
            lemma_one_line(hl, path, text);
        },
        RenderModel::SplitLine { left, right } => {
            if let Some(c) = left {
                lemma_one_line(hl, path, c.text);
            }
            if let Some(c) = right {
                lemma_one_line(hl, path, c.text);
            }
        },
        _ => {},
    }
}

proof fn lemma_one_line(hl: &Highlighter, path: Seq<char>, text: Seq<char>)
    ensures
        ({
            let set = hl.syntaxes();
            let theme = hl.theme();
            let from = crate::highlight::start(set, theme, path);
            crate::highlight::pass(set, theme, from, seq![text]).0 == seq![
                crate::highlight::step(set, theme, from, text).0,
            ]
        }),
{
    let set = hl.syntaxes();
    let theme = hl.theme();
    let from = crate::highlight::start(set, theme, path);
    let one = seq![text];
    assert(one.drop_last() == Seq::<Seq<char>>::empty());
    assert(one.last() == text);
    assert(crate::highlight::pass(set, theme, from, one.drop_last()).0 == Seq::<
        Seq<crate::highlight::SpanModel>,
    >::empty());
}

/// A file is coloured by the syntax for its extension, and as plain text where
/// there is none.
pub proof fn a_file_is_coloured_by_its_extension(
    set: SyntaxSet,
    theme: Theme,
    path: Seq<char>,
    syntax: SyntaxReference,
)
    ensures
        ({
            let found = crate::highlight::syntax_by_extension(set, crate::path::extension(path));
            let from = crate::highlight::start(set, theme, path);
            &&& found == Some(syntax) ==> from.parse == crate::highlight::parse_start(syntax)
            &&& found is None ==> from.parse == crate::highlight::parse_start(
                crate::highlight::plain_text(set),
            )
            &&& from.hi == crate::highlight::style_start(theme)
        }),
{
}

/// A line is shown in the pieces and the colours in which it was styled, all of
/// them; one that could not be parsed is shown without a colour.
pub proof fn a_line_has_the_colours_it_was_styled_in(
    set: SyntaxSet,
    theme: Theme,
    at: HlState,
    line: Seq<char>,
    i: int,
)
    ensures
        ({
            let (spans, after) = crate::highlight::step(set, theme, at, line);
            let (changes, parse) = crate::highlight::parsed(at.parse, line, set);
            &&& after.parse == parse
            &&& changes is None ==> spans.len() == 1 && spans[0].text == line && spans[0].color is None
                && after.hi == at.hi
            &&& changes matches Some(c) ==> {
                let (pieces, hi) = crate::highlight::styled(at.hi, c, line, theme);
                &&& after.hi == hi
                &&& spans.len() == pieces.len()
                &&& 0 <= i < pieces.len() ==> spans[i].color == Some(pieces[i].0) && spans[i].text
                    == pieces[i].1
            }
        }),
{
}

} // verus!
