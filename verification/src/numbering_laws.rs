//! Which number a line of a hunk has, and what the header of a hunk says of it.

use crate::diff::{FileModel, HunkModel, LineKind, ReviewStatus, RowModel};
use crate::text::Sep;
use vstd::prelude::*;

verus! {

/// One side of a hunk header: where it starts and, if it is said, how many lines
/// it has.
pub open spec fn range_text(start: nat, count: Option<nat>) -> Seq<char> {
    crate::number::decimal(start) + match count {
        Some(c) => seq![','] + crate::number::decimal(c),
        None => Seq::empty(),
    }
}

/// A hunk header, with what follows its closing marks.
pub open spec fn header_text(
    old_start: nat,
    old_count: Option<nat>,
    new_start: nat,
    new_count: Option<nat>,
    rest: Seq<char>,
) -> Seq<char> {
    "@@ -"@ + range_text(old_start, old_count) + " +"@ + range_text(new_start, new_count) + " @@"@
        + rest
}

proof fn lemma_range_text(c: char, start: nat, count: Option<nat>)
    requires
        start <= u32::MAX,
        c == '-' || c == '+',
    ensures
        crate::text::unbroken(seq![c] + range_text(start, count), Sep::White),
        crate::diff::range_start(range_text(start, count)) == Some(start),
{
    let s = range_text(start, count);
    let dec = crate::number::decimal(start);
    let all = seq![c] + s;
    crate::number::decimal_reads_back(start);
    match count {
        Some(n) => {
            let tail = crate::number::decimal(n);
            crate::number::decimal_reads_back(n);
            crate::diff::lemma_start_before_comma(start, tail);
            assert(s == dec.push(',') + tail);
            assert forall|i: int| 0 <= i < all.len() implies !crate::text::is_sep(
                Sep::White,
                #[trigger] all[i],
            ) by {
                if 0 < i < 1 + dec.len() {
                    assert(crate::number::is_digit(dec[i - 1]));
                } else if i > 1 + dec.len() {
                    assert(crate::number::is_digit(tail[i - 2 - dec.len()]));
                }
            }
        },
        None => {
            assert(s == dec);
            assert(crate::text::unbroken(dec, Sep::Char(','))) by {
                assert forall|i: int| 0 <= i < dec.len() implies !crate::text::is_sep(
                    Sep::Char(','),
                    #[trigger] dec[i],
                ) by {
                    assert(crate::number::is_digit(dec[i]));
                }
            }
            crate::text::lemma_pieces_unbroken(dec, Sep::Char(','));
            assert forall|i: int| 0 <= i < all.len() implies !crate::text::is_sep(
                Sep::White,
                #[trigger] all[i],
            ) by {
                if i > 0 {
                    assert(crate::number::is_digit(dec[i - 1]));
                }
            }
        },
    }
}

proof fn lemma_closing_marks(rest: Seq<char>)
    requires
        rest.len() > 0 ==> rest[0] == ' ',
    ensures
        crate::text::words(seq!['@', '@'] + rest).len() > 0,
        crate::text::words(seq!['@', '@'] + rest)[0] == seq!['@', '@'],
{
    let end = seq!['@', '@'];
    crate::text::lemma_words_unbroken(end);
    if rest.len() > 0 {
        assert(end + rest == end.push(' ') + rest.skip(1));
        crate::text::lemma_words_concat(end, ' ', rest.skip(1));
    } else {
        assert(end + rest == end);
    }
}

proof fn lemma_header_words(a: Seq<char>, b: Seq<char>, tail: Seq<char>)
    requires
        a.len() > 0,
        b.len() > 0,
        crate::text::unbroken(a, Sep::White),
        crate::text::unbroken(b, Sep::White),
    ensures
        crate::text::words(
            Seq::<char>::empty().push(' ') + (a.push(' ') + (b.push(' ') + tail)),
        ) == seq![a, b] + crate::text::words(tail),
{
    let none = Seq::<char>::empty();
    crate::text::lemma_words_concat(none, ' ', a.push(' ') + (b.push(' ') + tail));
    crate::text::lemma_words_concat(a, ' ', b.push(' ') + tail);
    crate::text::lemma_words_concat(b, ' ', tail);
    crate::text::lemma_words_unbroken(none);
    crate::text::lemma_words_unbroken(a);
    crate::text::lemma_words_unbroken(b);
}

/// A header says where its lines start, on either side, whether or not it says
/// how many there are and whatever follows its closing marks.
pub proof fn header_starts_are_read(
    old_start: nat,
    old_count: Option<nat>,
    new_start: nat,
    new_count: Option<nat>,
    rest: Seq<char>,
)
    requires
        old_start <= u32::MAX,
        new_start <= u32::MAX,
        rest.len() > 0 ==> rest[0] == ' ',
    ensures
        crate::diff::hunk_starts(
            header_text(old_start, old_count, new_start, new_count, rest),
        ) == Some((old_start, new_start)),
{
    let h = header_text(old_start, old_count, new_start, new_count, rest);
    let x = range_text(old_start, old_count);
    let y = range_text(new_start, new_count);
    let a = seq!['-'] + x;
    let b = seq!['+'] + y;
    let tail = seq!['@', '@'] + rest;
    let w = crate::text::words(h.skip(2));
    lemma_range_text('-', old_start, old_count);
    lemma_range_text('+', new_start, new_count);
    assert("@@"@ == seq!['@', '@'] && crate::text::starts_with(h, "@@"@) && h.skip(2)
        == Seq::<char>::empty().push(' ') + (a.push(' ') + (b.push(' ') + tail))) by {
        reveal_strlit("@@ -");
        reveal_strlit(" +");
        reveal_strlit(" @@");
        reveal_strlit("@@");
        assert("@@"@ == seq!['@', '@']);
        assert(h.take(2) == "@@"@);
        assert(h.skip(2) == Seq::<char>::empty().push(' ') + (a.push(' ') + (b.push(' ') + tail)));
    }
    lemma_header_words(a, b, tail);
    lemma_closing_marks(rest);
    assert(w[0] == a && w[1] == b && w[2] == seq!['@', '@']);
    assert(crate::text::starts_with(w[2], "@@"@)) by {
        assert(w[2].take(2) == w[2]);
    }
    assert(a.drop_first() == x && b.drop_first() == y);
}

/// A text that does not begin like a header has no starts.
pub proof fn other_headers_have_no_starts(header: Seq<char>)
    requires
        header.len() < 2 || header[0] != '@' || header[1] != '@',
    ensures
        crate::diff::hunk_starts(header) is None,
{
    reveal_strlit("@@");
    if crate::text::starts_with(header, "@@"@) {
        assert(header[0] == header.take(2)[0] && header[1] == header.take(2)[1]);
    }
}

/// How many of the rows stand on the old side: those that are no addition.
pub open spec fn on_old_side(rows: Seq<RowModel>) -> nat {
    rows.filter(|r: RowModel| r.kind != LineKind::Add).len()
}

/// How many of the rows stand on the new side: those that are no deletion.
pub open spec fn on_new_side(rows: Seq<RowModel>) -> nat {
    rows.filter(|r: RowModel| r.kind != LineKind::Del).len()
}

proof fn lemma_sides(rows: Seq<RowModel>)
    ensures
        crate::diff::old_side(rows) == on_old_side(rows),
        crate::diff::new_side(rows) == on_new_side(rows),
        on_old_side(rows) <= rows.len(),
        on_new_side(rows) <= rows.len(),
    decreases rows.len(),
{
    reveal(Seq::filter);
    if rows.len() > 0 {
        lemma_sides(rows.drop_last());
    }
}

/// A row has on each side that it stands on the number that its header starts
/// with plus the number of rows above it that stand there, and no number on the
/// other side; its kind and its text stay.
pub proof fn rows_are_numbered_from_the_header(h: HunkModel, o: nat, n: nat, i: int)
    requires
        crate::diff::hunk_starts(h.header) == Some((o, n)),
        crate::diff::hunk_fits(h),
        0 <= i < h.rows.len(),
    ensures
        ({
            let row = h.rows[i];
            let above = h.rows.take(i);
            let after = crate::diff::numbered_hunk(h).rows[i];
            &&& after.kind == row.kind
            &&& after.text == row.text
            &&& match row.kind {
                LineKind::Add => after.old_lineno is None,
                _ => after.old_lineno matches Some(k) && k == o + on_old_side(above),
            }
            &&& match row.kind {
                LineKind::Del => after.new_lineno is None,
                _ => after.new_lineno matches Some(k) && k == n + on_new_side(above),
            }
        }),
{
    lemma_sides(h.rows.take(i));
    lemma_sides_below(h.rows, i);
}

proof fn lemma_sides_below(rows: Seq<RowModel>, i: int)
    requires
        0 <= i <= rows.len(),
    ensures
        crate::diff::old_side(rows.take(i)) <= crate::diff::old_side(rows),
        crate::diff::new_side(rows.take(i)) <= crate::diff::new_side(rows),
    decreases rows.len() - i,
{
    if i < rows.len() {
        assert(rows.take(i + 1).drop_last() == rows.take(i));
        lemma_sides_below(rows, i + 1);
    } else {
        assert(rows.take(i) == rows);
    }
}

/// Numbering leaves everything else of a hunk as it is, and a hunk whose header
/// has no starts altogether.
pub proof fn numbering_changes_only_numbers(h: HunkModel)
    ensures
        ({
            let after = crate::diff::numbered_hunk(h);
            &&& after.header == h.header
            &&& after.status == h.status
            &&& after.comment == h.comment
            &&& after.changed_since_review == h.changed_since_review
            &&& after.rows.len() == h.rows.len()
            &&& crate::diff::hunk_starts(h.header) is None ==> after == h
        }),
{
}

/// A hunk can be numbered unless its lines go beyond what 32 bits can count.
pub proof fn hunks_of_ordinary_length_fit(h: HunkModel)
    requires
        crate::diff::hunk_starts(h.header) matches Some((o, n)) ==> o + h.rows.len() <= u32::MAX
            && n + h.rows.len() <= u32::MAX,
    ensures
        crate::diff::hunk_fits(h),
{
    lemma_sides(h.rows);
}

/// A diff can be numbered where each of its hunks can.
pub proof fn diffs_fit_hunk_by_hunk(files: Seq<FileModel>)
    ensures
        crate::diff::files_fit(files) <==> forall|f: int, h: int|
            0 <= f < files.len() && 0 <= h < files[f].hunks.len() ==> crate::diff::hunk_fits(
                #[trigger] files[f].hunks[h],
            ),
{
}

/// Each file keeps its place and its hunks theirs.
pub proof fn numbering_keeps_files_apart(files: Seq<FileModel>, f: int, h: int)
    requires
        0 <= f < files.len(),
        0 <= h < files[f].hunks.len(),
    ensures
        crate::diff::numbered(files).len() == files.len(),
        crate::diff::numbered(files)[f].path == files[f].path,
        crate::diff::numbered(files)[f].hunks.len() == files[f].hunks.len(),
        crate::diff::numbered(files)[f].hunks[h] == crate::diff::numbered_hunk(files[f].hunks[h]),
{
}

/// A file that is all new is one hunk, of which every line is an addition, from
/// line 1 on; the hunk says so in its header.
pub proof fn a_new_file_is_all_additions(path: Seq<char>, content: Seq<char>)
    requires
        crate::text::lines(content).len() < u32::MAX,
    ensures
        ({
            let f = crate::diff::untracked_file(path, content);
            let ls = crate::text::lines(content);
            &&& f.path == path
            &&& f.hunks.len() == 1
            &&& f.hunks[0].header == header_text(0, Some(0), 1, Some(ls.len()), Seq::empty())
            &&& f.hunks[0].status == ReviewStatus::Unreviewed
            &&& f.hunks[0].comment.len() == 0
            &&& !f.hunks[0].changed_since_review
            &&& f.hunks[0].rows.len() == ls.len()
            &&& forall|i: int|
                0 <= i < ls.len() ==> {
                    let row = #[trigger] f.hunks[0].rows[i];
                    &&& row.kind == LineKind::Add
                    &&& row.text == ls[i]
                    &&& row.old_lineno is None
                    &&& row.new_lineno matches Some(k) && k == i + 1
                }
        }),
{
    let n = crate::text::lines(content).len();
    let f = crate::diff::untracked_file(path, content);
    reveal_strlit("@@ -0,0 +1,");
    reveal_strlit("@@ -");
    reveal_strlit(" +");
    reveal_strlit(" @@");
    assert(crate::number::decimal(0) == seq!['0']);
    assert(crate::number::decimal(1) == seq!['1']);
    assert(f.hunks[0].header == header_text(0, Some(0), 1, Some(n), Seq::empty()));
}

/// How many hunks have been looked at: those with a verdict.
pub proof fn reviewed_hunks_are_counted(hunks: Seq<HunkModel>)
    ensures
        crate::diff::reviewed_hunks(hunks) == hunks.filter(
            |h: HunkModel| h.status != ReviewStatus::Unreviewed,
        ).len(),
    decreases hunks.len(),
{
    reveal(Seq::filter);
    if hunks.len() > 0 {
        reviewed_hunks_are_counted(hunks.drop_last());
    }
}

/// The words for the three verdicts.
pub proof fn verdicts_have_their_words()
    ensures
        crate::diff::status_word(ReviewStatus::Unreviewed) == "unreviewed"@,
        crate::diff::status_word(ReviewStatus::Approved) == "approved"@,
        crate::diff::status_word(ReviewStatus::Rejected) == "rejected"@,
{
}

/// A line is replaced in its place: the text before it and the text behind it,
/// line ends included, stay as they are. As many line feeds stand before it as
/// there are lines above it.
pub proof fn replacing_leaves_the_rest(content: Seq<char>, n: int, new: Seq<char>)
    requires
        0 <= n < crate::text::line_count(content),
    ensures
        exists|a: Seq<char>, b: Seq<char>|
            {
                &&& content == #[trigger] (a + crate::text::lines(content)[n] + b)
                &&& crate::diff::line_replaced(content, n, new) == a + new + b
                &&& a.len() > 0 ==> a.last() == '\n'
                &&& a.filter(|c: char| c == '\n').len() == n
                &&& b.len() > 0 ==> b[0] == '\n' || b[0] == '\r'
            },
{
    let p = crate::text::split(content, '\n');
    let old = crate::text::lines(content)[n];
    let start = crate::diff::line_start(content, n);
    let end = crate::diff::line_end(content, n);
    let a = content.take(start);
    let b = content.skip(end);
    crate::text::lemma_join_split(content, '\n');
    crate::text::lemma_join_update(p, n, p[n], '\n');
    let stop = start + p[n].len();
    assert(content.subrange(start, stop) == p[n]);
    assert(content.subrange(start, end) == old) by {
        assert(old == p[n].take(old.len() as int));
        assert(content.subrange(start, end) == content.subrange(start, stop).take(
            old.len() as int,
        ));
    }
    assert(content == a + old + b);
    if b.len() > 0 {
        assert(b[0] == content[end]);
        if end < stop {
            assert(content[end] == p[n][end - start]);
        }
    }
    lemma_feeds_above(content, n);
    if n > 0 {
        crate::text::lemma_join_update(p, n - 1, p[n - 1], '\n');
        assert(start == crate::text::piece_start(p, n - 1) + p[n - 1].len() + 1);
        assert(a.last() == content[start - 1]);
    } else {
        assert(start == 0);
    }
}

proof fn lemma_no_feed(s: Seq<char>)
    requires
        crate::text::unbroken(s, Sep::Char('\n')),
    ensures
        s.filter(|c: char| c == '\n').len() == 0,
    decreases s.len(),
{
    reveal(Seq::filter);
    if s.len() > 0 {
        assert(!crate::text::is_sep(Sep::Char('\n'), s[s.len() - 1]));
        assert forall|i: int| 0 <= i < s.drop_last().len() implies !crate::text::is_sep(
            Sep::Char('\n'),
            #[trigger] s.drop_last()[i],
        ) by {
            assert(!crate::text::is_sep(Sep::Char('\n'), s[i]));
        }
        lemma_no_feed(s.drop_last());
    }
}

proof fn lemma_feeds_above(content: Seq<char>, n: int)
    requires
        0 <= n < crate::text::split(content, '\n').len(),
    ensures
        content.take(crate::diff::line_start(content, n)).filter(|c: char| c == '\n').len() == n,
    decreases n,
{
    let p = crate::text::split(content, '\n');
    let is_feed = |c: char| c == '\n';
    reveal(Seq::filter);
    if n > 0 {
        let before = crate::diff::line_start(content, n - 1);
        let start = crate::diff::line_start(content, n);
        lemma_feeds_above(content, n - 1);
        crate::text::lemma_join_split(content, '\n');
        crate::text::lemma_join_update(p, n - 1, p[n - 1], '\n');
        crate::text::lemma_pieces_are_unbroken(content, Sep::Char('\n'));
        assert(crate::text::unbroken(p[n - 1], Sep::Char('\n')));
        lemma_no_feed(p[n - 1]);
        let a = content.take(before) + p[n - 1];
        assert(content.take(start).drop_last() == a);
        assert(content.take(start).last() == '\n');
        Seq::filter_distributes_over_add(content.take(before), p[n - 1], is_feed);
        assert(a.filter(is_feed) == content.take(before).filter(is_feed) + p[n - 1].filter(
            is_feed,
        ));
    } else {
        assert(content.take(0).len() == 0);
    }
}

/// An edited file is read under its path, which both sides of the line name.
pub proof fn path_of_both_sides_is_read(p: Seq<char>)
    ensures
        crate::diff::diff_git_path("a/"@ + p + " b/"@ + p) == p,
{
    crate::diff::edited_path_is_read(p);
    assert(crate::diff::both_sides(p) == "a/"@ + p + " b/"@ + p);
}

/// A line that does not name two sides is read as one path, without the mark of
/// the old side.
pub proof fn path_of_one_side_is_read(p: Seq<char>, rest: Seq<char>)
    requires
        !crate::text::occurs("a/"@ + p, " b/"@),
        !crate::text::occurs(rest, " b/"@),
        !crate::text::starts_with(rest, "a/"@),
    ensures
        crate::diff::diff_git_path("a/"@ + p) == p,
        crate::diff::diff_git_path(rest) == rest,
{
    let marked = "a/"@ + p;
    reveal_strlit("a/");
    crate::text::lemma_find_from(marked, " b/"@, 0);
    crate::text::lemma_find_from(rest, " b/"@, 0);
    assert forall|q: Seq<char>| #[trigger] crate::diff::both_sides(q) != marked
        && crate::diff::both_sides(q) != rest by {
        let both = crate::diff::both_sides(q);
        crate::text_laws::a_text_holds_its_parts("a/"@ + q, " b/"@, q);
        assert(crate::text::occurs(both, " b/"@));
    }
    if let Some(i) = crate::text::find(marked, " b/"@) {
        assert(crate::text::stands_at(marked, " b/"@, i));
    }
    if let Some(i) = crate::text::find(rest, " b/"@) {
        assert(crate::text::stands_at(rest, " b/"@, i));
    }
    assert(marked.take(2) == "a/"@);
    assert(marked.skip(2) == p);
}

/// A renamed file is read under its new path, where the old one does not look
/// like the end of a side.
pub proof fn renamed_path_is_read(a: Seq<char>, b: Seq<char>)
    requires
        !crate::text::occurs(("a/"@ + a + " b/"@).drop_last(), " b/"@),
        forall|p: Seq<char>|
            #[trigger] crate::diff::both_sides(p) != "a/"@ + a + " b/"@ + b,
    ensures
        crate::diff::diff_git_path("a/"@ + a + " b/"@ + b) == b,
{
    let rest = "a/"@ + a + " b/"@ + b;
    let sep = " b/"@;
    reveal_strlit("a/");
    reveal_strlit(" b/");
    let at = 2 + a.len() as int;
    let head = ("a/"@ + a + sep).drop_last();
    assert(rest.subrange(at, at + 3) == sep);
    assert(crate::text::stands_at(rest, sep, at));
    lemma_first(rest, sep, 0, at, head);
    assert(rest.skip(at + 3) == b);
}

proof fn lemma_first(s: Seq<char>, p: Seq<char>, from: int, at: int, head: Seq<char>)
    requires
        0 <= from <= at,
        p.len() == 3,
        crate::text::stands_at(s, p, at),
        head.len() == at + 2,
        head.is_prefix_of(s),
        !crate::text::occurs(head, p),
    ensures
        crate::text::find_from(s, p, from) == Some(at),
    decreases at - from,
{
    if from < at {
        if crate::text::stands_at(s, p, from) {
            assert(head.subrange(from, from + 3) == s.subrange(from, from + 3));
            assert(crate::text::stands_at(head, p, from));
        }
        lemma_first(s, p, from + 1, at, head);
    }
}

} // verus!
