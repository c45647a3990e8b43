//! What is read of a diff: every file, every hunk and every line of a hunk, in
//! order and none left out, and the number that each line has.

use crate::diff::{FileModel, HunkModel, LineKind, PatchLineModel, ReviewStatus, RowModel};
use vstd::prelude::*;

verus! {

/// What a diff says, piece by piece.
pub enum Mark {
    /// A file of this path begins.
    File(Seq<char>),
    /// A hunk with this header begins.
    Header(Seq<char>),
    /// A line of the hunk.
    Row(LineKind, Seq<char>),
}

/// The pieces of a hunk.
pub open spec fn hunk_marks(h: HunkModel) -> Seq<Mark> {
    seq![Mark::Header(h.header)] + h.rows.map_values(|r: RowModel| Mark::Row(r.kind, r.text))
}

/// The pieces of hunks.
pub open spec fn hunks_marks(hunks: Seq<HunkModel>) -> Seq<Mark>
    decreases hunks.len(),
{
    if hunks.len() == 0 {
        Seq::empty()
    } else {
        hunks_marks(hunks.drop_last()) + hunk_marks(hunks.last())
    }
}

/// The pieces of files.
pub open spec fn marks(files: Seq<FileModel>) -> Seq<Mark>
    decreases files.len(),
{
    if files.len() == 0 {
        Seq::empty()
    } else {
        marks(files.drop_last()) + (seq![Mark::File(files.last().path)] + hunks_marks(
            files.last().hunks,
        ))
    }
}

proof fn lemma_new_file(files: Seq<FileModel>, path: Seq<char>)
    ensures
        marks(files.push(FileModel { path, hunks: Seq::empty() })) == marks(files).push(
            Mark::File(path),
        ),
{
    let f = FileModel { path, hunks: Seq::empty() };
    assert(files.push(f).drop_last() == files);
    assert(marks(files) + (seq![Mark::File(path)] + Seq::<Mark>::empty()) == marks(files).push(
        Mark::File(path),
    ));
}

proof fn lemma_new_hunk(files: Seq<FileModel>, header: Seq<char>)
    requires
        files.len() > 0,
    ensures
        marks(
            crate::diff::push_hunk(files, crate::diff::fresh_hunk(header, Seq::empty())),
        ) == marks(files).push(Mark::Header(header)),
{
    let h = crate::diff::fresh_hunk(header, Seq::empty());
    let after = crate::diff::push_hunk(files, h);
    let hunks = files.last().hunks;
    assert(after.drop_last() == files.drop_last());
    assert(after.last().hunks == hunks.push(h));
    assert(hunks.push(h).drop_last() == hunks);
    assert(hunk_marks(h) == seq![Mark::Header(header)]);
    assert(hunks_marks(hunks.push(h)) == hunks_marks(hunks).push(Mark::Header(header)));
    assert(marks(after) == marks(files).push(Mark::Header(header)));
}

proof fn lemma_new_row(files: Seq<FileModel>, kind: LineKind, text: Seq<char>)
    requires
        files.len() > 0,
        files.last().hunks.len() > 0,
    ensures
        marks(crate::diff::push_row(files, kind, text)) == marks(files).push(
            Mark::Row(kind, text),
        ),
{
    let after = crate::diff::push_row(files, kind, text);
    let hunks = files.last().hunks;
    let h = hunks.last();
    let g = after.last().hunks.last();
    let f = |r: RowModel| Mark::Row(r.kind, r.text);
    assert(after.drop_last() == files.drop_last());
    assert(after.last().hunks.drop_last() == hunks.drop_last());
    assert(g.rows.map_values(f) == h.rows.map_values(f).push(Mark::Row(kind, text)));
    assert(hunk_marks(g) == hunk_marks(h).push(Mark::Row(kind, text)));
    assert(hunks_marks(after.last().hunks) == hunks_marks(hunks).push(Mark::Row(kind, text)));
    assert(marks(after) == marks(files).push(Mark::Row(kind, text)));
}

/// A line that begins a file.
pub open spec fn begins_file(line: Seq<char>) -> bool {
    crate::text::starts_with(line, "diff --git "@)
}

/// A line that begins a hunk.
pub open spec fn begins_hunk(line: Seq<char>) -> bool {
    crate::text::starts_with(line, "@@"@)
}

/// A file has begun in these lines.
pub open spec fn in_file(lines: Seq<Seq<char>>) -> bool {
    exists|j: int| 0 <= j < lines.len() && begins_file(#[trigger] lines[j])
}

/// A hunk of a file has begun in these lines, and no other file since.
pub open spec fn in_hunk(lines: Seq<Seq<char>>) -> bool {
    exists|j: int|
        0 <= j < lines.len() && begins_hunk(#[trigger] lines[j]) && in_file(lines.take(j))
            && forall|k: int| j < k < lines.len() ==> !begins_file(#[trigger] lines[k])
}

/// What a line of a patch says, behind the lines before it. A line of a hunk is
/// a sign and then the text, whatever the text is.
pub open spec fn line_says(before: Seq<Seq<char>>, line: Seq<char>) -> Option<Mark> {
    if begins_file(line) {
        Some(Mark::File(crate::diff::diff_git_path(line.skip(11))))
    } else if begins_hunk(line) {
        if in_file(before) {
            Some(Mark::Header(line))
        } else {
            None
        }
    } else if in_hunk(before) && line.len() > 0 {
        if line[0] == '+' {
            Some(Mark::Row(LineKind::Add, line.skip(1)))
        } else if line[0] == '-' {
            Some(Mark::Row(LineKind::Del, line.skip(1)))
        } else if line[0] == ' ' {
            Some(Mark::Row(LineKind::Ctx, line.skip(1)))
        } else {
            None
        }
    } else {
        None
    }
}

/// What the lines of a patch say, one after the other.
pub open spec fn lines_say(lines: Seq<Seq<char>>) -> Seq<Mark>
    decreases lines.len(),
{
    if lines.len() == 0 {
        Seq::empty()
    } else {
        match line_says(lines.drop_last(), lines.last()) {
            Some(m) => lines_say(lines.drop_last()).push(m),
            None => lines_say(lines.drop_last()),
        }
    }
}

proof fn lemma_in_file(lines: Seq<Seq<char>>, line: Seq<char>)
    ensures
        in_file(lines.push(line)) == (in_file(lines) || begins_file(line)),
{
    let all = lines.push(line);
    if in_file(lines) {
        let j = choose|j: int| 0 <= j < lines.len() && begins_file(#[trigger] lines[j]);
        assert(begins_file(all[j]));
    }
    if begins_file(line) {
        assert(begins_file(all[lines.len() as int]));
    }
    if in_file(all) && !begins_file(line) {
        let j = choose|j: int| 0 <= j < all.len() && begins_file(#[trigger] all[j]);
        assert(begins_file(lines[j]));
    }
}

proof fn lemma_in_hunk(lines: Seq<Seq<char>>, line: Seq<char>)
    ensures
        in_hunk(lines.push(line)) == (!begins_file(line) && (in_hunk(lines) || (begins_hunk(line)
            && in_file(lines)))),
{
    let all = lines.push(line);
    let n = lines.len() as int;
    if in_hunk(all) {
        let j = choose|j: int|
            0 <= j < all.len() && begins_hunk(#[trigger] all[j]) && in_file(all.take(j))
                && forall|k: int| j < k < all.len() ==> !begins_file(#[trigger] all[k]);
        if j == n {
            assert(all.take(j) == lines);
            lemma_not_both(line);
        } else {
            assert(!begins_file(all[n]));
            assert(all.take(j) == lines.take(j));
            assert(begins_hunk(lines[j]));
            assert forall|k: int| j < k < lines.len() implies !begins_file(#[trigger] lines[k]) by {
                assert(!begins_file(all[k]));
            }
        }
    }
    if !begins_file(line) && in_hunk(lines) {
        let j = choose|j: int|
            0 <= j < lines.len() && begins_hunk(#[trigger] lines[j]) && in_file(lines.take(j))
                && forall|k: int| j < k < lines.len() ==> !begins_file(#[trigger] lines[k]);
        assert(all.take(j) == lines.take(j));
        assert(begins_hunk(all[j]));
        assert forall|k: int| j < k < all.len() implies !begins_file(#[trigger] all[k]) by {
            if k < n {
                assert(!begins_file(lines[k]));
            }
        }
    }
    if !begins_file(line) && begins_hunk(line) && in_file(lines) {
        assert(all.take(n) == lines);
        assert(begins_hunk(all[n]));
    }
}

proof fn lemma_not_both(line: Seq<char>)
    ensures
        !(begins_file(line) && begins_hunk(line)),
{
    reveal_strlit("diff --git ");
    reveal_strlit("@@");
    if begins_file(line) && begins_hunk(line) {
        assert(line.take(11)[0] == line[0] && line.take(2)[0] == line[0]);
    }
}

proof fn lemma_state_says(lines: Seq<Seq<char>>)
    ensures
        ({
            let st = crate::diff::patch_state(lines);
            &&& marks(st.files) == lines_say(lines)
            &&& in_file(lines) == (st.files.len() > 0)
            &&& in_hunk(lines) == st.in_hunks
            &&& st.in_hunks ==> st.files.len() > 0 && st.files.last().hunks.len() > 0
        }),
    decreases lines.len(),
{
    if lines.len() > 0 {
        let front = lines.drop_last();
        let line = lines.last();
        let st = crate::diff::patch_state(front);
        lemma_state_says(front);
        assert(front.push(line) == lines);
        lemma_in_file(front, line);
        lemma_in_hunk(front, line);
        if begins_file(line) {
            lemma_new_file(st.files, crate::diff::diff_git_path(line.skip(11)));
        } else if begins_hunk(line) {
            if st.files.len() > 0 {
                lemma_new_hunk(st.files, line);
            }
        } else if st.in_hunks {
            if let Some(kind) = crate::diff::row_kind(line) {
                lemma_new_row(st.files, kind, line.skip(1));
            }
        }
    }
}

proof fn lemma_numbering_keeps_hunks(hunks: Seq<HunkModel>)
    ensures
        hunks_marks(hunks.map_values(|h: HunkModel| crate::diff::numbered_hunk(h))) == hunks_marks(
            hunks,
        ),
    decreases hunks.len(),
{
    let num = |h: HunkModel| crate::diff::numbered_hunk(h);
    if hunks.len() > 0 {
        let f = |r: RowModel| Mark::Row(r.kind, r.text);
        let h = hunks.last();
        let g = crate::diff::numbered_hunk(h);
        lemma_numbering_keeps_hunks(hunks.drop_last());
        assert(hunks.map_values(num).drop_last() == hunks.drop_last().map_values(num));
        assert(g.rows.map_values(f) == h.rows.map_values(f));
        assert(hunk_marks(g) == hunk_marks(h));
    } else {
        assert(hunks.map_values(num) == hunks);
    }
}

/// Numbering changes nothing but the numbers.
pub proof fn numbering_keeps_what_was_said(files: Seq<FileModel>)
    ensures
        marks(crate::diff::numbered(files)) == marks(files),
    decreases files.len(),
{
    let num = |f: FileModel| crate::diff::numbered_file(f);
    if files.len() > 0 {
        numbering_keeps_what_was_said(files.drop_last());
        lemma_numbering_keeps_hunks(files.last().hunks);
        assert(files.map_values(num).drop_last() == files.drop_last().map_values(num));
    } else {
        assert(files.map_values(num) == files);
    }
}

/// A patch is read line by line, and nothing of it is lost: its files, the hunks
/// of each file and the rows of each hunk are what the lines say, in order. A
/// line that begins with a sign below a hunk header is a row with the rest of
/// the line as its text, an empty rest too.
pub proof fn every_line_of_a_patch_is_read(patch: Seq<char>)
    ensures
        marks(crate::diff::numbered(crate::diff::patch_files(patch))) == lines_say(
            crate::text::split(patch, '\n'),
        ),
        marks(crate::diff::patch_files(patch)) == lines_say(crate::text::split(patch, '\n')),
{
    lemma_state_says(crate::text::split(patch, '\n'));
    numbering_keeps_what_was_said(crate::diff::patch_files(patch));
}

/// The lines behind which no line of another file has come, from `j` on.
pub open spec fn of_one_path(lines: Seq<PatchLineModel>, j: int, path: Seq<char>) -> bool {
    forall|k: int| j <= k < lines.len() ==> crate::diff::line_path(#[trigger] lines[k]) == path
}

/// A line that a hunk takes in or begins with.
pub open spec fn belongs_to_hunk(origin: char) -> bool {
    origin == 'B' || origin == 'H' || origin == '+' || origin == '-' || origin == ' '
}

/// The file that the next line belongs to has a hunk already.
pub open spec fn hunk_begun(lines: Seq<PatchLineModel>, path: Seq<char>) -> bool {
    exists|j: int|
        0 <= j < lines.len() && belongs_to_hunk((#[trigger] lines[j]).origin) && of_one_path(
            lines,
            j,
            path,
        )
}

/// What a line of a diff says, behind the lines before it.
pub open spec fn line_tells(before: Seq<PatchLineModel>, l: PatchLineModel) -> Seq<Mark> {
    let path = crate::diff::line_path(l);
    let file = if before.len() == 0 || crate::diff::line_path(before.last()) != path {
        seq![Mark::File(path)]
    } else {
        Seq::empty()
    };
    let text = crate::diff::line_text(l);
    let hunk = |header: Seq<char>|
        if hunk_begun(before, path) {
            Seq::<Mark>::empty()
        } else {
            seq![Mark::Header(header)]
        };
    file + if l.origin == 'B' {
        hunk("(binary file)"@)
    } else if l.origin == 'H' {
        seq![Mark::Header(text)]
    } else if l.origin == '+' {
        hunk(Seq::empty()) + seq![Mark::Row(LineKind::Add, text)]
    } else if l.origin == '-' {
        hunk(Seq::empty()) + seq![Mark::Row(LineKind::Del, text)]
    } else if l.origin == ' ' {
        hunk(Seq::empty()) + seq![Mark::Row(LineKind::Ctx, text)]
    } else {
        Seq::empty()
    }
}

/// What the lines of a diff say, one after the other.
pub open spec fn lines_tell(lines: Seq<PatchLineModel>) -> Seq<Mark>
    decreases lines.len(),
{
    if lines.len() == 0 {
        Seq::empty()
    } else {
        lines_tell(lines.drop_last()) + line_tells(lines.drop_last(), lines.last())
    }
}

proof fn lemma_hunk_begun(lines: Seq<PatchLineModel>, l: PatchLineModel)
    ensures
        hunk_begun(lines.push(l), crate::diff::line_path(l)) == (belongs_to_hunk(l.origin)
            || hunk_begun(lines, crate::diff::line_path(l))),
{
    let all = lines.push(l);
    let n = lines.len() as int;
    let path = crate::diff::line_path(l);
    if belongs_to_hunk(l.origin) {
        assert(belongs_to_hunk(all[n].origin));
        assert(of_one_path(all, n, path));
    }
    if hunk_begun(lines, path) {
        let j = choose|j: int|
            0 <= j < lines.len() && belongs_to_hunk((#[trigger] lines[j]).origin) && of_one_path(
                lines,
                j,
                path,
            );
        assert(belongs_to_hunk(all[j].origin));
        assert forall|k: int| j <= k < all.len() implies crate::diff::line_path(
            #[trigger] all[k],
        ) == path by {
            if k < n {
                assert(crate::diff::line_path(lines[k]) == path);
            }
        }
        assert(of_one_path(all, j, path));
    }
    if hunk_begun(all, path) && !belongs_to_hunk(l.origin) {
        let j = choose|j: int|
            0 <= j < all.len() && belongs_to_hunk((#[trigger] all[j]).origin) && of_one_path(
                all,
                j,
                path,
            );
        assert(belongs_to_hunk(lines[j].origin));
        assert forall|k: int| j <= k < lines.len() implies crate::diff::line_path(
            #[trigger] lines[k],
        ) == path by {
            assert(crate::diff::line_path(all[k]) == path);
        }
        assert(of_one_path(lines, j, path));
    }
}

proof fn lemma_grouped_tells(lines: Seq<PatchLineModel>)
    ensures
        marks(crate::diff::grouped(lines)) == lines_tell(lines),
        crate::diff::grouped(lines).len() > 0 <==> lines.len() > 0,
        lines.len() > 0 ==> crate::diff::grouped(lines).last().path == crate::diff::line_path(
            lines.last(),
        ),
        lines.len() > 0 ==> hunk_begun(lines, crate::diff::line_path(lines.last())) == (
        crate::diff::grouped(lines).last().hunks.len() > 0),
    decreases lines.len(),
{
    if lines.len() > 0 {
        let front = lines.drop_last();
        let l = lines.last();
        let path = crate::diff::line_path(l);
        let before = crate::diff::grouped(front);
        let files = crate::diff::open_file(before, path);
        lemma_grouped_tells(front);
        assert(front.push(l) == lines);
        lemma_hunk_begun(front, l);
        let fresh = before.len() == 0 || before.last().path != path;
        assert(fresh == (front.len() == 0 || crate::diff::line_path(front.last()) != path));
        let opened = if fresh {
            seq![Mark::File(path)]
        } else {
            Seq::<Mark>::empty()
        };
        if fresh {
            lemma_new_file(before, path);
            assert(!hunk_begun(front, path)) by {
                if hunk_begun(front, path) {
                    let j = choose|j: int|
                        0 <= j < front.len() && belongs_to_hunk((#[trigger] front[j]).origin)
                            && of_one_path(front, j, path);
                    assert(crate::diff::line_path(front[front.len() - 1]) == path);
                }
            }
        }
        assert(marks(files) == lines_tell(front) + opened);
        assert(hunk_begun(front, path) == (files.last().hunks.len() > 0));
        let text = crate::diff::line_text(l);
        if l.origin == 'B' {
            if files.last().hunks.len() == 0 {
                lemma_new_hunk(files, "(binary file)"@);
            }
        } else if l.origin == 'H' {
            lemma_new_hunk(files, text);
        } else if let Some(kind) = crate::diff::origin_kind(l.origin) {
            let ready = crate::diff::open_hunk(files, Seq::empty());
            if files.last().hunks.len() == 0 {
                lemma_new_hunk(files, Seq::empty());
            }
            assert(ready.last().hunks.len() > 0);
            lemma_new_row(ready, kind, text);
        }
        assert(marks(crate::diff::grouped(lines)) == lines_tell(lines));
    }
}

/// The lines of a diff are grouped with nothing lost: one row for each line of a
/// file, with that line's text, below the header that came last.
pub proof fn every_line_of_a_diff_is_grouped(lines: Seq<PatchLineModel>)
    ensures
        marks(crate::diff::numbered(crate::diff::grouped(lines))) == lines_tell(lines),
        marks(crate::diff::grouped(lines)) == lines_tell(lines),
{
    lemma_grouped_tells(lines);
    numbering_keeps_what_was_said(crate::diff::grouped(lines));
}

/// A line belongs to the path of the new side, or to that of the old side where
/// the new has none.
pub proof fn a_line_belongs_to_its_path(l: PatchLineModel)
    ensures
        l.new_path matches Some(p) ==> crate::diff::line_path(l) == p,
        l.new_path is None ==> (l.old_path matches Some(p) ==> crate::diff::line_path(l) == p),
        l.new_path is None && l.old_path is None ==> crate::diff::line_path(l) == "<unknown>"@,
{
}

/// The text of a line is what its bytes say, without the line feeds at its end
/// and with everything else.
pub proof fn text_of_a_line_is_kept(l: PatchLineModel)
    ensures
        ({
            let all = crate::diff::lossy_text(l.content);
            let text = crate::diff::line_text(l);
            &&& text.is_prefix_of(all)
            &&& forall|i: int| text.len() <= i < all.len() ==> #[trigger] all[i] == '\n'
            &&& text.len() > 0 ==> text.last() != '\n'
        }),
{
    lemma_trimmed(crate::diff::lossy_text(l.content));
}

proof fn lemma_trimmed(s: Seq<char>)
    ensures
        ({
            let t = crate::text::trim_end_char(s, '\n');
            &&& t.is_prefix_of(s)
            &&& forall|i: int| t.len() <= i < s.len() ==> #[trigger] s[i] == '\n'
            &&& t.len() > 0 ==> t.last() != '\n'
        }),
    decreases s.len(),
{
    if s.len() > 0 && s.last() == '\n' {
        lemma_trimmed(s.drop_last());
        assert forall|i: int| crate::text::trim_end_char(s, '\n').len() <= i
            < s.len() implies #[trigger] s[i] == '\n' by {
            if i < s.len() - 1 {
                assert(s.drop_last()[i] == '\n');
            }
        }
    }
}

/// Nobody has looked at the hunk, and its rows have no numbers.
pub open spec fn is_untouched(h: HunkModel) -> bool {
    &&& h.status == ReviewStatus::Unreviewed
    &&& h.comment.len() == 0
    &&& !h.changed_since_review
    &&& forall|i: int|
        0 <= i < h.rows.len() ==> (#[trigger] h.rows[i]).old_lineno is None
            && h.rows[i].new_lineno is None
}

/// So are all hunks.
pub open spec fn are_untouched(files: Seq<FileModel>) -> bool {
    forall|f: int, h: int|
        0 <= f < files.len() && 0 <= h < files[f].hunks.len() ==> is_untouched(
            #[trigger] files[f].hunks[h],
        )
}

proof fn lemma_untouched_hunk(files: Seq<FileModel>, header: Seq<char>)
    requires
        are_untouched(files),
        files.len() > 0,
    ensures
        are_untouched(
            crate::diff::push_hunk(files, crate::diff::fresh_hunk(header, Seq::empty())),
        ),
{
    let after = crate::diff::push_hunk(files, crate::diff::fresh_hunk(header, Seq::empty()));
    assert forall|f: int, h: int|
        0 <= f < after.len() && 0 <= h < after[f].hunks.len() implies is_untouched(
        #[trigger] after[f].hunks[h],
    ) by {
        if f < files.len() - 1 {
            assert(after[f] == files[f]);
            assert(is_untouched(files[f].hunks[h]));
        } else if h < files[f].hunks.len() {
            assert(after[f].hunks[h] == files[f].hunks[h]);
        }
    }
}

proof fn lemma_untouched_row(files: Seq<FileModel>, kind: LineKind, text: Seq<char>)
    requires
        are_untouched(files),
        files.len() > 0,
        files.last().hunks.len() > 0,
    ensures
        are_untouched(crate::diff::push_row(files, kind, text)),
{
    let after = crate::diff::push_row(files, kind, text);
    assert forall|f: int, h: int|
        0 <= f < after.len() && 0 <= h < after[f].hunks.len() implies is_untouched(
        #[trigger] after[f].hunks[h],
    ) by {
        assert(is_untouched(files[f].hunks[h]));
        if f < files.len() - 1 {
            assert(after[f] == files[f]);
        } else if h < files[f].hunks.len() - 1 {
            assert(after[f].hunks[h] == files[f].hunks[h]);
        } else {
            let old_rows = files[f].hunks[h].rows;
            let rows = after[f].hunks[h].rows;
            assert forall|i: int| 0 <= i < rows.len() implies (#[trigger] rows[i]).old_lineno is None
                && rows[i].new_lineno is None by {
                if i < old_rows.len() {
                    assert(rows[i] == old_rows[i]);
                }
            }
        }
    }
}

proof fn lemma_untouched_patch(lines: Seq<Seq<char>>)
    ensures
        are_untouched(crate::diff::patch_state(lines).files),
    decreases lines.len(),
{
    if lines.len() > 0 {
        let st = crate::diff::patch_state(lines.drop_last());
        let line = lines.last();
        lemma_untouched_patch(lines.drop_last());
        lemma_state_says(lines.drop_last());
        if begins_file(line) {
            let after = crate::diff::patch_state(lines).files;
            assert forall|f: int, h: int|
                0 <= f < after.len() && 0 <= h < after[f].hunks.len() implies is_untouched(
                #[trigger] after[f].hunks[h],
            ) by {
                assert(after[f] == st.files[f]);
            }
        } else if begins_hunk(line) {
            if st.files.len() > 0 {
                lemma_untouched_hunk(st.files, line);
            }
        } else if st.in_hunks {
            if let Some(kind) = crate::diff::row_kind(line) {
                lemma_untouched_row(st.files, kind, line.skip(1));
            }
        }
    }
}

/// A diff that was just read carries no verdicts and no comments.
pub proof fn a_patch_is_read_unreviewed(patch: Seq<char>)
    ensures
        are_untouched(crate::diff::patch_files(patch)),
{
    lemma_untouched_patch(crate::text::split(patch, '\n'));
}

/// So does one whose lines were grouped.
pub proof fn a_diff_is_grouped_unreviewed(lines: Seq<PatchLineModel>)
    ensures
        are_untouched(crate::diff::grouped(lines)),
    decreases lines.len(),
{
    if lines.len() > 0 {
        let l = lines.last();
        let path = crate::diff::line_path(l);
        let before = crate::diff::grouped(lines.drop_last());
        let files = crate::diff::open_file(before, path);
        a_diff_is_grouped_unreviewed(lines.drop_last());
        assert(are_untouched(files)) by {
            assert forall|f: int, h: int|
                0 <= f < files.len() && 0 <= h < files[f].hunks.len() implies is_untouched(
                #[trigger] files[f].hunks[h],
            ) by {
                assert(files[f] == before[f]);
            }
        }
        if l.origin == 'B' {
            if files.last().hunks.len() == 0 {
                lemma_untouched_hunk(files, "(binary file)"@);
            }
        } else if l.origin == 'H' {
            lemma_untouched_hunk(files, crate::diff::line_text(l));
        } else if let Some(kind) = crate::diff::origin_kind(l.origin) {
            let ready = crate::diff::open_hunk(files, Seq::empty());
            if files.last().hunks.len() == 0 {
                lemma_untouched_hunk(files, Seq::empty());
            }
            assert(ready.last().hunks.len() > 0);
            lemma_untouched_row(ready, kind, crate::diff::line_text(l));
        }
    }
}

} // verus!
