//! How rows and lines are written out: gutters, markers, the runs of a line
//! that can be clicked, and the list of keys.

use crate::content::Selection;
use crate::diff::LineKind;
use crate::number::decimal_string;
use crate::rows::Layout;
use crate::text::chars_of;
use vstd::prelude::*;

verus! {

/// `n` spaces.
pub open spec fn spaces(n: int) -> Seq<char> {
    Seq::new(
        if n > 0 {
            n as nat
        } else {
            0
        },
        |i: int| ' ',
    )
}

/// A line number right-aligned in `width` columns; blank where there is none.
pub open spec fn aligned_number(n: Option<u32>, width: nat) -> Seq<char> {
    match n {
        Some(v) => spaces(width - crate::number::decimal(v as nat).len())
            + crate::number::decimal(v as nat),
        None => spaces(width as int),
    }
}

fn push_spaces(s: &mut String, n: usize)
    ensures
        final(s)@ == old(s)@ + spaces(n as int),
{
    let ghost start = s@;
    assert(start + spaces(0) == start);
    for i in 0..n
        invariant
            s@ == start + spaces(i as int),
    {
        s.push(' ');
        assert(s@ == start + spaces(i + 1));
    }
}

/// Format a line number right-aligned to `width` digits, or blank (spaces) if
/// there's no number for this row/side.
pub fn fmt_lineno(n: Option<u32>, width: usize) -> (r: String)
    ensures
        r@ == aligned_number(n, width as nat),
{
    let mut s = String::new();
    match n {
        Some(v) => {
            let digits = decimal_string(v as u64);
            let len: usize = chars_of(digits.as_str()).len();
            if len < width {
                push_spaces(&mut s, width - len);
            }
            assert(s@ == spaces(width - crate::number::decimal(v as nat).len()));
            s.append(digits.as_str());
        },
        None => {
            push_spaces(&mut s, width);
        },
    }
    assert(s@ == aligned_number(n, width as nat));
    s
}

/// The marker of a row.
pub open spec fn marker_of(kind: Option<LineKind>) -> char {
    match kind {
        Some(LineKind::Add) => '+',
        Some(LineKind::Del) => '-',
        _ => ' ',
    }
}

fn marker(kind: Option<LineKind>) -> (r: char)
    ensures
        r == marker_of(kind),
{
    match kind {
        Some(LineKind::Add) => '+',
        Some(LineKind::Del) => '-',
        _ => ' ',
    }
}

/// The gutter of a diff row: old number, new number, marker.
pub fn diff_gutter(
    old_lineno: Option<u32>,
    new_lineno: Option<u32>,
    kind: LineKind,
    width: usize,
) -> (r: String)
    ensures
        r@ == (aligned_number(old_lineno, width as nat).push(' ') + aligned_number(
            new_lineno,
            width as nat,
        )).push(' ').push(marker_of(Some(kind))).push(' '),
{
    let mut s = fmt_lineno(old_lineno, width);
    s.push(' ');
    s.append(fmt_lineno(new_lineno, width).as_str());
    s.push(' ');
    s.push(marker(Some(kind)));
    s.push(' ');
    s
}

/// The gutter of a cell of a side-by-side row: its number and its marker.
pub fn cell_gutter(kind: Option<LineKind>, lineno: Option<u32>, width: usize) -> (r: String)
    ensures
        r@ == aligned_number(lineno, width as nat).push(' ').push(marker_of(kind)).push(' '),
{
    let mut s = fmt_lineno(lineno, width);
    s.push(' ');
    s.push(marker(kind));
    s.push(' ');
    s
}

/// The gutter of a line of a plain file.
pub fn plain_gutter(lineno: u32, width: usize) -> (r: String)
    ensures
        r@ == aligned_number(Some(lineno), width as nat).push(' '),
{
    let mut s = fmt_lineno(Some(lineno), width);
    s.push(' ');
    s
}

/// A character of a code identifier.
pub open spec fn is_ident(c: char) -> bool {
    crate::text::is_alphanumeric(c) || c == '_'
}

/// Is `c` part of a code identifier?
pub fn is_ident_char(c: char) -> (r: bool)
    ensures
        r == is_ident(c),
{
    c.is_alphanumeric() || c == '_'
}

/// A run of a line: a piece of an identifier, or of what is between two.
#[derive(Debug)]
pub struct Run {
    pub ident: bool,
    pub text: String,
}

/// What a [`Run`] holds.
#[verifier::ext_equal]
pub struct RunModel {
    pub ident: bool,
    pub text: Seq<char>,
}

impl View for Run {
    type V = RunModel;

    open spec fn view(&self) -> RunModel {
        RunModel { ident: self.ident, text: self.text@ }
    }
}

/// The runs of `s`: cut wherever identifiers begin or end.
pub open spec fn runs(s: Seq<char>) -> Seq<RunModel>
    decreases s.len(),
{
    if s.len() == 0 {
        Seq::empty()
    } else {
        let before = runs(s.drop_last());
        let c = s.last();
        if before.len() > 0 && before.last().ident == is_ident(c) {
            before.drop_last().push(
                RunModel { ident: before.last().ident, text: before.last().text.push(c) },
            )
        } else {
            before.push(RunModel { ident: is_ident(c), text: seq![c] })
        }
    }
}

/// Splits a line into identifier and non-identifier runs.
pub fn ident_runs(s: &str) -> (v: Vec<Run>)
    ensures
        crate::seqs::views(v@) == runs(s@),
{
    let cs = chars_of(s);
    let mut v: Vec<Run> = Vec::new();
    assert(crate::seqs::views(v@) == Seq::<RunModel>::empty());
    for i in 0..cs.len()
        invariant
            cs@ == s@,
            crate::seqs::views(v@) == runs(s@.take(i as int)),
    {
        let c: char = cs[i];
        let ident = is_ident_char(c);
        let ghost before = crate::seqs::views(v@);
        assert(s@.take(i + 1).drop_last() == s@.take(i as int));
        assert(s@.take(i + 1).last() == c);
        let n: usize = v.len();
        assert(n > 0 ==> before.last() == v@[n - 1]@);
        if n > 0 && v[n - 1].ident == ident {
            v[n - 1].text.push(c);
            assert(crate::seqs::views(v@) == before.update(n - 1, v@[n - 1]@));
            assert(crate::seqs::views(v@) == runs(s@.take(i + 1)));
        } else {
            let mut text = String::new();
            text.push(c);
            let run = Run { ident, text };
            assert(run@.text == seq![c]);
            proof {
                crate::seqs::lemma_views_push(v@, run);
            }
            v.push(run);
        }
    }
    assert(s@.take(s@.len() as int) == s@);
    v
}

/// The texts of runs, one after the other.
pub open spec fn run_text(rs: Seq<RunModel>) -> Seq<char>
    decreases rs.len(),
{
    if rs.len() == 0 {
        Seq::empty()
    } else {
        run_text(rs.drop_last()) + rs.last().text
    }
}

/// Runs lose nothing of the line, and an identifier is always one whole run: no
/// run is empty, each holds only one sort of character, and two neighbours are
/// of different sorts.
pub proof fn runs_make_up_the_line(s: Seq<char>)
    ensures
        run_text(runs(s)) == s,
        forall|i: int|
            0 <= i < runs(s).len() ==> (#[trigger] runs(s)[i]).text.len() > 0 && forall|k: int|
                0 <= k < runs(s)[i].text.len() ==> is_ident(#[trigger] runs(s)[i].text[k])
                    == runs(s)[i].ident,
        forall|i: int|
            #![trigger runs(s)[i]]
            0 < i < runs(s).len() ==> runs(s)[i].ident != runs(s)[i - 1].ident,
    decreases s.len(),
{
    if s.len() > 0 {
        runs_make_up_the_line(s.drop_last());
        let before = runs(s.drop_last());
        let after = runs(s);
        let c = s.last();
        assert(s.drop_last().push(c) == s);
        if before.len() > 0 && before.last().ident == is_ident(c) {
            assert(after.drop_last() == before.drop_last());
            assert(run_text(before) == run_text(before.drop_last()) + before.last().text);
            let last = after.len() - 1;
            assert(after[last].text == before[last].text.push(c));
            assert forall|i: int| 0 <= i < after.len() implies (#[trigger] after[i]).text.len() > 0
                && forall|k: int|
                0 <= k < after[i].text.len() ==> is_ident(#[trigger] after[i].text[k])
                    == after[i].ident by {
                if i < last {
                    assert(after[i] == before[i]);
                } else {
                    assert forall|k: int| 0 <= k < after[i].text.len() implies is_ident(
                        #[trigger] after[i].text[k],
                    ) == after[i].ident by {
                        if k < before[last].text.len() {
                            assert(is_ident(before[last].text[k]) == before[last].ident);
                        }
                    }
                }
            }
            assert forall|i: int|
                #![trigger after[i]]
                0 < i < after.len() implies after[i].ident != after[i - 1].ident by {
                assert(before[i].ident != before[i - 1].ident);
                assert(after[i].ident == before[i].ident);
                assert(after[i - 1].ident == before[i - 1].ident);
            }
        } else {
            assert(after.drop_last() == before);
            let last = after.len() - 1;
            assert forall|i: int| 0 <= i < after.len() implies (#[trigger] after[i]).text.len() > 0
                && forall|k: int|
                0 <= k < after[i].text.len() ==> is_ident(#[trigger] after[i].text[k])
                    == after[i].ident by {
                if i < last {
                    assert(after[i] == before[i]);
                }
            }
            assert forall|i: int|
                #![trigger after[i]]
                0 < i < after.len() implies after[i].ident != after[i - 1].ident by {
                if i < last {
                    assert(before[i].ident != before[i - 1].ident);
                    assert(after[i] == before[i]);
                }
                assert(after[i - 1] == before[i - 1]);
            }
        }
    }
}

/// The keys and what they do.
pub open spec fn bindings() -> Seq<(Seq<char>, Seq<char>)> {
    seq![
        ("Ctrl+P"@, "fuzzy open file"@),
        ("Ctrl+F"@, "find in file (Enter/F3 next, Shift prev, Esc close)"@),
        ("j / k"@, "next / prev changed file"@),
        ("n / p"@, "next / prev hunk"@),
        ("a / r"@, "approve / reject focused hunk"@),
        ("c"@, "comment on focused hunk"@),
        ("F12"@, "go to definition of clicked symbol"@),
        ("g"@, "find symbol (go to definition)"@),
        ("PageUp / PageDown"@, "scroll content one page"@),
        ("Ctrl + / Ctrl -"@, "zoom in / out"@),
        ("Ctrl 0"@, "reset zoom"@),
        ("?"@, "this help (Esc to close)"@),
    ]
}

/// The keybinding cheat-sheet rows shown by the `?` overlay.
pub fn keybindings() -> (r: Vec<(&'static str, &'static str)>)
    ensures
        r@.map_values(|b: (&'static str, &'static str)| (b.0@, b.1@)) == bindings(),
{
    let r: Vec<(&'static str, &'static str)> = vec![
        ("Ctrl+P", "fuzzy open file"),
        ("Ctrl+F", "find in file (Enter/F3 next, Shift prev, Esc close)"),
        ("j / k", "next / prev changed file"),
        ("n / p", "next / prev hunk"),
        ("a / r", "approve / reject focused hunk"),
        ("c", "comment on focused hunk"),
        ("F12", "go to definition of clicked symbol"),
        ("g", "find symbol (go to definition)"),
        ("PageUp / PageDown", "scroll content one page"),
        ("Ctrl + / Ctrl -", "zoom in / out"),
        ("Ctrl 0", "reset zoom"),
        ("?", "this help (Esc to close)"),
    ];
    assert(r@.map_values(|b: (&'static str, &'static str)| (b.0@, b.1@)) == bindings());
    r
}

/// What the content pane shows.
#[derive(Clone, Copy, PartialEq, Eq, Debug, Structural)]
pub enum PaneState {
    /// The diff is being computed.
    Computing,
    /// The content is being fetched.
    Fetching,
    /// Nothing is selected.
    Empty,
    /// Two panes side by side.
    Split,
    /// One pane.
    Unified,
}

/// What the content pane shows. Only a changed file is shown side by side.
pub fn pane_state(
    computing: bool,
    fetching: bool,
    selected: Option<&Selection>,
    layout: Layout,
) -> (r: PaneState)
    ensures
        r == (if computing {
            PaneState::Computing
        } else if fetching {
            PaneState::Fetching
        } else {
            match selected {
                None => PaneState::Empty,
                Some(s) => if layout == Layout::Split && s@ is Changed {
                    PaneState::Split
                } else {
                    PaneState::Unified
                },
            }
        }),
{
    if computing {
        return PaneState::Computing;
    }
    if fetching {
        return PaneState::Fetching;
    }
    match selected {
        None => PaneState::Empty,
        Some(Selection::Changed(_)) => {
            if layout == Layout::Split {
                PaneState::Split
            } else {
                PaneState::Unified
            }
        },
        Some(Selection::Path(_)) => PaneState::Unified,
    }
}

/// What an empty content pane says.
pub fn empty_message(failed: bool) -> (r: &'static str)
    ensures
        r@ == (if failed {
            "diff failed — see the error above"@
        } else {
            "no changes — working tree matches HEAD"@
        }),
{
    if failed {
        "diff failed — see the error above"
    } else {
        "no changes — working tree matches HEAD"
    }
}

} // verus!
