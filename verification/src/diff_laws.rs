//! The two ways to a diff agree: the text that git prints is read as the same
//! files and hunks that the lines of the diff are grouped into.

use vstd::prelude::*;

verus! {

/// A line of a diff as git prints it: with its sign in front where it is a line
/// of a file.
pub open spec fn printed_line(l: crate::diff::PatchLineModel) -> Seq<char> {
    if l.origin == '+' || l.origin == '-' || l.origin == ' ' {
        seq![l.origin] + crate::diff::lossy_text(l.content)
    } else {
        crate::diff::lossy_text(l.content)
    }
}

/// A diff as git prints it.
pub open spec fn printed(lines: Seq<crate::diff::PatchLineModel>) -> Seq<char>
    decreases lines.len(),
{
    if lines.len() == 0 {
        Seq::empty()
    } else {
        printed(lines.drop_last()) + printed_line(lines.last())
    }
}

/// The line is one line of text, with its line feed.
pub open spec fn is_one_line(l: crate::diff::PatchLineModel) -> bool {
    &&& crate::diff::lossy_text(l.content) == crate::diff::line_text(l).push('\n')
    &&& crate::text::unbroken(crate::diff::line_text(l), crate::text::Sep::Char('\n'))
}

/// The line is the last of a file that does not end in a line feed.
pub open spec fn is_open_line(l: crate::diff::PatchLineModel) -> bool {
    &&& crate::diff::lossy_text(l.content) == crate::diff::line_text(l)
    &&& crate::text::unbroken(crate::diff::line_text(l), crate::text::Sep::Char('\n'))
}

/// The line marks the line before it as one that no line feed ends.
pub open spec fn is_marker(l: crate::diff::PatchLineModel) -> bool {
    &&& l.origin == '<' || l.origin == '>' || l.origin == '='
    &&& crate::diff::lossy_text(l.content) == "\n\\ No newline at end of file\n"@
}

/// The last of the lines is not ended.
pub open spec fn is_open(lines: Seq<crate::diff::PatchLineModel>) -> bool {
    lines.len() > 0 && !crate::diff::ends_in_feed(crate::diff::lossy_text(lines.last().content))
}

/// The first line of a file header.
pub open spec fn file_line(path: Seq<char>) -> Seq<char> {
    "diff --git "@ + crate::diff::both_sides(path)
}

/// The rest of a file header: whole lines, none of which starts a file or a
/// hunk.
pub open spec fn is_metadata(s: Seq<char>) -> bool {
    &&& s.len() > 0 ==> s.last() == '\n'
    &&& forall|k: int|
        0 <= k < crate::text::split(s, '\n').len() ==> !crate::text::starts_with(
            #[trigger] crate::text::split(s, '\n')[k],
            "diff --git "@,
        ) && !crate::text::starts_with(crate::text::split(s, '\n')[k], "@@"@)
}

/// The path stands on one line.
pub open spec fn is_one_line_path(path: Seq<char>) -> bool {
    crate::text::unbroken(path, crate::text::Sep::Char('\n'))
}

/// The line is the header of the file `path`.
pub open spec fn is_file_header(l: crate::diff::PatchLineModel, path: Seq<char>) -> bool {
    exists|rest: Seq<char>|
        #[trigger] is_metadata(rest) && crate::diff::lossy_text(l.content) == file_line(path).push(
            '\n',
        ) + rest
}

/// The line may come next in a diff whose lines so far make up `files`: a file
/// header starts another file, a hunk header a hunk of the last file, and a line
/// of a file belongs to its last hunk. Behind a line that is not ended comes its
/// marker.
pub open spec fn comes_next(
    files: Seq<crate::diff::FileModel>,
    open: bool,
    l: crate::diff::PatchLineModel,
) -> bool {
    let path = crate::diff::line_path(l);
    if open {
        is_marker(l) && files.len() > 0 && files.last().path == path
    } else if l.origin == 'F' {
        &&& files.len() == 0 || files.last().path != path
        &&& is_file_header(l, path)
        &&& is_one_line_path(path)
    } else if l.origin == 'H' {
        &&& files.len() > 0 && files.last().path == path
        &&& is_one_line(l)
        &&& crate::text::starts_with(crate::diff::line_text(l), "@@"@)
    } else {
        &&& l.origin == '+' || l.origin == '-' || l.origin == ' '
        &&& files.len() > 0 && files.last().path == path && files.last().hunks.len() > 0
        &&& is_one_line(l) || is_open_line(l)
    }
}

/// The lines are a diff of text files.
pub open spec fn is_text_diff(lines: Seq<crate::diff::PatchLineModel>) -> bool
    decreases lines.len(),
{
    lines.len() == 0 || (is_text_diff(lines.drop_last()) && comes_next(
        crate::diff::grouped(lines.drop_last()),
        is_open(lines.drop_last()),
        lines.last(),
    ))
}

/// What the reader of a patch knows after more lines.
spec fn read_on(st: crate::diff::PatchState, lines: Seq<Seq<char>>) -> crate::diff::PatchState
    decreases lines.len(),
{
    if lines.len() == 0 {
        st
    } else {
        crate::diff::patch_step(read_on(st, lines.drop_last()), lines.last())
    }
}

proof fn lemma_read_on(a: Seq<Seq<char>>, b: Seq<Seq<char>>)
    ensures
        crate::diff::patch_state(a + b) == read_on(crate::diff::patch_state(a), b),
    decreases b.len(),
{
    if b.len() == 0 {
        assert(a + b == a);
    } else {
        lemma_read_on(a, b.drop_last());
        assert((a + b).drop_last() == a + b.drop_last());
        assert((a + b).last() == b.last());
    }
}

proof fn lemma_empty_line(st: crate::diff::PatchState)
    ensures
        crate::diff::patch_step(st, Seq::empty()) == st,
{
    reveal_strlit("diff --git ");
    reveal_strlit("@@");
}

/// A patch of whole lines, and more text behind it.
proof fn lemma_append(text: Seq<char>, more: Seq<char>)
    requires
        text.len() > 0 ==> text.last() == '\n',
    ensures
        crate::diff::patch_state(crate::text::split(text + more, '\n')) == read_on(
            crate::diff::patch_state(crate::text::split(text, '\n')),
            crate::text::split(more, '\n'),
        ),
{
    let sep = crate::text::Sep::Char('\n');
    let empty = Seq::<char>::empty();
    let first = crate::diff::patch_state(Seq::<Seq<char>>::empty());
    if text.len() == 0 {
        assert(text + more == more);
        assert(text == empty);
        let one = seq![empty];
        assert(crate::text::split(text, '\n') == one);
        assert(one.drop_last() == Seq::<Seq<char>>::empty());
        assert(one.last() == empty);
        lemma_empty_line(first);
        assert(crate::diff::patch_state(one) == first);
        lemma_read_on(Seq::empty(), crate::text::split(more, '\n'));
        assert(Seq::<Seq<char>>::empty() + crate::text::split(more, '\n') == crate::text::split(
            more,
            '\n',
        ));
    } else {
        let a = text.drop_last();
        assert(text == a.push('\n'));
        crate::text::lemma_pieces_concat(a, '\n', more, sep);
        crate::text::lemma_pieces_concat(a, '\n', empty, sep);
        assert(a.push('\n') + empty == text);
        let parts = crate::text::split(a, '\n');
        assert(crate::text::split(empty, '\n') == seq![empty]);
        assert(crate::text::split(text, '\n') == parts.push(empty));
        assert(parts.push(empty).drop_last() == parts);
        lemma_empty_line(crate::diff::patch_state(parts));
        assert(crate::diff::patch_state(crate::text::split(text, '\n'))
            == crate::diff::patch_state(parts));
        lemma_read_on(parts, crate::text::split(more, '\n'));
    }
}

/// Reading one line of text.
proof fn lemma_one_line(st: crate::diff::PatchState, t: Seq<char>)
    requires
        crate::text::unbroken(t, crate::text::Sep::Char('\n')),
    ensures
        read_on(st, crate::text::split(t.push('\n'), '\n')) == crate::diff::patch_step(st, t),
{
    let sep = crate::text::Sep::Char('\n');
    let empty = Seq::<char>::empty();
    crate::text::lemma_pieces_concat(t, '\n', empty, sep);
    assert(t.push('\n') + empty == t.push('\n'));
    crate::text::lemma_pieces_unbroken(t, sep);
    assert(crate::text::split(empty, '\n') == seq![empty]);
    let two = crate::text::split(t.push('\n'), '\n');
    assert(two == seq![t, empty]);
    let one = two.drop_last();
    assert(one == seq![t]);
    assert(one.drop_last() == Seq::<Seq<char>>::empty());
    assert(one.last() == t && two.last() == empty);
    assert(read_on(st, one.drop_last()) == st);
    assert(read_on(st, one) == crate::diff::patch_step(st, t));
    lemma_empty_line(crate::diff::patch_step(st, t));
}

/// Reading one line of text that no line feed ends.
proof fn lemma_open_line(st: crate::diff::PatchState, t: Seq<char>)
    requires
        crate::text::unbroken(t, crate::text::Sep::Char('\n')),
    ensures
        read_on(st, crate::text::split(t, '\n')) == crate::diff::patch_step(st, t),
{
    crate::text::lemma_pieces_unbroken(t, crate::text::Sep::Char('\n'));
    let one = crate::text::split(t, '\n');
    assert(one == seq![t]);
    assert(one.drop_last() == Seq::<Seq<char>>::empty());
    assert(one.last() == t);
    assert(read_on(st, one.drop_last()) == st);
}

/// The marker behind a line that is not ended ends it and adds nothing.
proof fn lemma_marker(text: Seq<char>)
    ensures
        crate::diff::patch_state(
            crate::text::split(text + "\n\\ No newline at end of file\n"@, '\n'),
        ) == crate::diff::patch_state(crate::text::split(text, '\n')),
{
    let marker = "\n\\ No newline at end of file\n"@;
    let words = marker.subrange(1, marker.len() - 1);
    let st = crate::diff::patch_state(crate::text::split(text, '\n'));
    reveal_strlit("\n\\ No newline at end of file\n");
    reveal_strlit("diff --git ");
    reveal_strlit("@@");
    assert(text + marker == text.push('\n') + words.push('\n'));
    crate::text::lemma_pieces_concat(
        text,
        '\n',
        words.push('\n'),
        crate::text::Sep::Char('\n'),
    );
    lemma_read_on(crate::text::split(text, '\n'), crate::text::split(words.push('\n'), '\n'));
    lemma_one_line(st, words);
    assert(words[0] == '\\');
    assert(!crate::text::starts_with(words, "diff --git "@)) by {
        if crate::text::starts_with(words, "diff --git "@) {
            assert(words[0] == words.take(11)[0]);
        }
    }
    assert(!crate::text::starts_with(words, "@@"@)) by {
        if crate::text::starts_with(words, "@@"@) {
            assert(words[0] == words.take(2)[0]);
        }
    }
}

/// Outside of hunks, lines that start nothing are passed over.
proof fn lemma_passed_over(st: crate::diff::PatchState, lines: Seq<Seq<char>>)
    requires
        !st.in_hunks,
        forall|k: int|
            0 <= k < lines.len() ==> !crate::text::starts_with(#[trigger] lines[k], "diff --git "@)
                && !crate::text::starts_with(lines[k], "@@"@),
    ensures
        read_on(st, lines) == st,
    decreases lines.len(),
{
    if lines.len() > 0 {
        let front = lines.drop_last();
        assert(forall|k: int| 0 <= k < front.len() ==> front[k] == lines[k]);
        lemma_passed_over(st, front);
        assert(lines.last() == lines[lines.len() - 1]);
    }
}

/// Reading a file header.
proof fn lemma_file_header(st: crate::diff::PatchState, path: Seq<char>, rest: Seq<char>)
    requires
        is_one_line_path(path),
        is_metadata(rest),
    ensures
        read_on(st, crate::text::split(file_line(path).push('\n') + rest, '\n')) == (
        crate::diff::PatchState {
            files: st.files.push(crate::diff::FileModel { path, hunks: Seq::empty() }),
            in_hunks: false,
        }),
{
    let sep = crate::text::Sep::Char('\n');
    let header = file_line(path);
    assert(crate::text::unbroken(header, sep)) by {
        reveal_strlit("diff --git ");
        reveal_strlit("a/");
        reveal_strlit(" b/");
        let n = path.len() as int;
        assert forall|i: int| 0 <= i < header.len() implies !crate::text::is_sep(
            sep,
            #[trigger] header[i],
        ) by {
            if 13 <= i < 13 + n {
                assert(header[i] == path[i - 13]);
            } else if 16 + n <= i {
                assert(header[i] == path[i - 16 - n]);
            }
        }
    }
    crate::text::lemma_pieces_concat(header, '\n', rest, sep);
    crate::text::lemma_pieces_unbroken(header, sep);
    let tail = crate::text::split(rest, '\n');
    let all = crate::text::split(header.push('\n') + rest, '\n');
    assert(all == seq![header] + tail);
    let opened = crate::diff::patch_step(st, header);
    assert(opened == (crate::diff::PatchState {
        files: st.files.push(crate::diff::FileModel { path, hunks: Seq::empty() }),
        in_hunks: false,
    })) by {
        reveal_strlit("diff --git ");
        assert("diff --git "@.len() == 11);
        assert(header.take(11) == "diff --git "@);
        assert(header.skip(11) == crate::diff::both_sides(path));
        crate::diff::edited_path_is_read(path);
    }
    lemma_passed_over(opened, tail);
    lemma_read_on_more(st, header, tail);
}

proof fn lemma_read_on_more(st: crate::diff::PatchState, line: Seq<char>, tail: Seq<Seq<char>>)
    ensures
        read_on(st, seq![line] + tail) == read_on(crate::diff::patch_step(st, line), tail),
    decreases tail.len(),
{
    let all = seq![line] + tail;
    if tail.len() == 0 {
        assert(all.drop_last() == Seq::<Seq<char>>::empty());
        assert(all.last() == line);
        assert(read_on(st, all.drop_last()) == st);
    } else {
        assert(all.drop_last() == seq![line] + tail.drop_last());
        assert(all.last() == tail.last());
        lemma_read_on_more(st, line, tail.drop_last());
    }
}

/// What the reader of a patch should know of these files.
spec fn known(files: Seq<crate::diff::FileModel>) -> crate::diff::PatchState {
    crate::diff::PatchState {
        files,
        in_hunks: files.len() > 0 && files.last().hunks.len() > 0,
    }
}

/// One more line of a diff.
proof fn lemma_next_line(files: Seq<crate::diff::FileModel>, l: crate::diff::PatchLineModel)
    requires
        comes_next(files, false, l),
    ensures
        read_on(known(files), crate::text::split(printed_line(l), '\n')) == known(
            crate::diff::group_step(files, l),
        ),
        printed_line(l).len() > 0,
        crate::diff::ends_in_feed(crate::diff::lossy_text(l.content)) ==> printed_line(l).last()
            == '\n',
{
    let st = known(files);
    let text = crate::diff::line_text(l);
    reveal_strlit("diff --git ");
    reveal_strlit("@@");
    if l.origin == 'F' {
        let path = crate::diff::line_path(l);
        let rest = choose|rest: Seq<char>|
            #[trigger] is_metadata(rest) && crate::diff::lossy_text(l.content) == file_line(
                path,
            ).push('\n') + rest;
        lemma_file_header(st, path, rest);
        assert(printed_line(l) == file_line(path).push('\n') + rest);
        if rest.len() == 0 {
            assert(printed_line(l) == file_line(path).push('\n'));
        } else {
            assert(printed_line(l).last() == rest.last());
        }
    } else if l.origin == 'H' {
        lemma_one_line(st, text);
        assert(text.take(2) == "@@"@);
        assert(text[0] == text.take(2)[0]);
        assert(!crate::text::starts_with(text, "diff --git "@)) by {
            if crate::text::starts_with(text, "diff --git "@) {
                assert(text[0] == text.take(11)[0]);
            }
        }
        assert(crate::diff::patch_step(st, text) == known(crate::diff::group_step(files, l)));
    } else {
        let t = seq![l.origin] + text;
        assert(t[0] == l.origin);
        assert(crate::text::unbroken(t, crate::text::Sep::Char('\n'))) by {
            assert forall|i: int| 0 <= i < t.len() implies !crate::text::is_sep(
                crate::text::Sep::Char('\n'),
                #[trigger] t[i],
            ) by {
                if i > 0 {
                    assert(t[i] == text[i - 1]);
                }
            }
        }
        if is_one_line(l) {
            lemma_one_line(st, t);
            assert(printed_line(l) == t.push('\n'));
        } else {
            lemma_open_line(st, t);
            assert(printed_line(l) == t);
        }
        assert(!crate::text::starts_with(t, "diff --git "@)) by {
            if crate::text::starts_with(t, "diff --git "@) {
                assert(t[0] == t.take(11)[0]);
            }
        }
        assert(!crate::text::starts_with(t, "@@"@)) by {
            if crate::text::starts_with(t, "@@"@) {
                assert(t[0] == t.take(2)[0]);
            }
        }
        assert(t.skip(1) == text);
        assert(crate::diff::patch_step(st, t) == known(crate::diff::group_step(files, l)));
    }
}

proof fn lemma_same_files(lines: Seq<crate::diff::PatchLineModel>)
    requires
        is_text_diff(lines),
    ensures
        printed(lines).len() > 0 && !is_open(lines) ==> printed(lines).last() == '\n',
        crate::diff::patch_state(crate::text::split(printed(lines), '\n')) == known(
            crate::diff::grouped(lines),
        ),
    decreases lines.len(),
{
    if lines.len() == 0 {
        lemma_append(Seq::empty(), Seq::empty());
        let one = seq![Seq::<char>::empty()];
        assert(crate::text::split(printed(lines), '\n') == one);
        assert(one.drop_last() == Seq::<Seq<char>>::empty());
        assert(one.last() == Seq::<char>::empty());
        lemma_empty_line(crate::diff::patch_state(Seq::empty()));
    } else {
        let front = lines.drop_last();
        lemma_same_files(front);
        if is_open(front) {
            reveal_strlit("\n\\ No newline at end of file\n");
            lemma_marker(printed(front));
        } else {
            lemma_append(printed(front), printed_line(lines.last()));
            lemma_next_line(crate::diff::grouped(front), lines.last());
        }
    }
}

/// The patch that git prints is read as the very files and hunks, numbers and
/// all, that the lines of the diff are grouped into, whether or not the files
/// end in a line feed. Left out are the diffs on which the two differ: those
/// with a binary file, which only the grouping gives a hunk, and with the same
/// path twice in a row, which the grouping takes for one file.
pub proof fn printed_diff_reads_as_the_diff(lines: Seq<crate::diff::PatchLineModel>)
    requires
        is_text_diff(lines),
    ensures
        crate::diff::patch_files(printed(lines)) == crate::diff::grouped(lines),
        crate::diff::numbered(crate::diff::patch_files(printed(lines))) == crate::diff::numbered(
            crate::diff::grouped(lines),
        ),
{
    lemma_same_files(lines);
}

} // verus!
