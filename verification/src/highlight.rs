//! Syntax highlighting by syntect: lines become coloured spans.

use crate::rows::{CellModel, RenderModel, RenderRow};
use crate::path::extension_of;
use syntect::highlighting::{
    HighlightIterator, HighlightState, Highlighter as SynHighlighter, Theme, ThemeSet,
};
use syntect::parsing::{ParseState, ScopeStack, ScopeStackOp, SyntaxReference, SyntaxSet};
use vstd::prelude::*;

verus! {

/// syntect's set of syntaxes, carried as a whole.
#[verifier::external_type_specification]
#[verifier::external_body]
pub struct ExSyntaxSet(syntect::parsing::SyntaxSet);

/// One syntax of a set, carried as a whole.
#[verifier::external_type_specification]
#[verifier::external_body]
pub struct ExSyntaxReference(syntect::parsing::SyntaxReference);

/// syntect's theme, carried as a whole.
#[verifier::external_type_specification]
#[verifier::external_body]
pub struct ExTheme(syntect::highlighting::Theme);

/// Where syntect's parser stands between two lines.
#[verifier::external_type_specification]
#[verifier::external_body]
pub struct ExParseState(syntect::parsing::ParseState);

/// The stack of styles that syntect keeps between two lines.
#[verifier::external_type_specification]
#[verifier::external_body]
pub struct ExHighlightState(syntect::highlighting::HighlightState);

/// A change of scope within a line.
#[verifier::external_type_specification]
#[verifier::external_body]
pub struct ExScopeStackOp(syntect::parsing::ScopeStackOp);

/// A colour: red, green, blue.
pub type Rgb = (u8, u8, u8);

/// The spans of a line, in order. A span without a colour could not be
/// highlighted, and is shown in a neutral grey.
pub type Spans = Vec<(Option<Rgb>, String)>;

/// What a span holds.
#[verifier::ext_equal]
pub struct SpanModel {
    pub color: Option<Rgb>,
    pub text: Seq<char>,
}

/// What [`Spans`] hold.
pub open spec fn span_views(v: Seq<(Option<Rgb>, String)>) -> Seq<SpanModel> {
    v.map_values(|x: (Option<Rgb>, String)| SpanModel { color: x.0, text: x.1@ })
}

/// The text of spans, one after the other.
pub open spec fn shown(spans: Seq<SpanModel>) -> Seq<char>
    decreases spans.len(),
{
    if spans.len() == 0 {
        Seq::empty()
    } else {
        shown(spans.drop_last()) + spans.last().text
    }
}

/// The text of coloured pieces, one after the other.
pub open spec fn pieced(pieces: Seq<(Rgb, Seq<char>)>) -> Seq<char>
    decreases pieces.len(),
{
    if pieces.len() == 0 {
        Seq::empty()
    } else {
        pieced(pieces.drop_last()) + pieces.last().1
    }
}

proof fn lemma_pieced(pieces: Seq<(Rgb, Seq<char>)>)
    ensures
        shown(pieces.map_values(|p: (Rgb, Seq<char>)| SpanModel { color: Some(p.0), text: p.1 }))
            == pieced(pieces),
    decreases pieces.len(),
{
    let f = |p: (Rgb, Seq<char>)| SpanModel { color: Some(p.0), text: p.1 };
    if pieces.len() > 0 {
        lemma_pieced(pieces.drop_last());
        assert(pieces.map_values(f).drop_last() == pieces.drop_last().map_values(f));
    }
}

/// A copy of spans.
pub fn copy_spans(v: &Spans) -> (r: Spans)
    ensures
        span_views(r@) == span_views(v@),
{
    let mut r: Spans = Vec::new();
    for i in 0..v.len()
        invariant
            r@.len() == i,
            forall|k: int| 0 <= k < i ==> (#[trigger] r@[k]).0 == v@[k].0 && r@[k].1@ == v@[k].1@,
    {
        r.push((v[i].0, v[i].1.as_str().to_owned()));
    }
    assert(span_views(r@) == span_views(v@));
    r
}

/// syntect's theme of this name.
pub uninterp spec fn default_theme(name: Seq<char>) -> Theme;

/// The syntax that a set has for an extension.
pub uninterp spec fn syntax_by_extension(set: SyntaxSet, ext: Seq<char>) -> Option<SyntaxReference>;

/// The plain-text syntax of a set.
pub uninterp spec fn plain_text(set: SyntaxSet) -> SyntaxReference;

/// Where the parser of a syntax starts.
pub uninterp spec fn parse_start(syntax: SyntaxReference) -> ParseState;

/// What the parser finds in a line, if it does not fail, and where it then
/// stands.
pub uninterp spec fn parsed(
    at: ParseState,
    line: Seq<char>,
    set: SyntaxSet,
) -> (Option<Seq<(usize, ScopeStackOp)>>, ParseState);

/// The stack of styles of a theme before any line.
pub uninterp spec fn style_start(theme: Theme) -> HighlightState;

/// The pieces of a line with their colours, and the stack of styles after it.
pub uninterp spec fn styled(
    at: HighlightState,
    changes: Seq<(usize, ScopeStackOp)>,
    line: Seq<char>,
    theme: Theme,
) -> (Seq<(Rgb, Seq<char>)>, HighlightState);

/// Loads the syntaxes and the theme, and highlights lines with them.
pub struct Highlighter {
    syntaxes: SyntaxSet,
    theme: Theme,
}

/// Carries parser and style state across a file's lines, so that they can be
/// highlighted line by line, on demand, and still be coloured correctly across
/// lines (block comments, multi-line strings).
pub struct IncrementalHl {
    parse: ParseState,
    hi: HighlightState,
    /// The index of the next line to be highlighted; callers advance it.
    pub next: usize,
}

/// `SyntaxSet::load_defaults_newlines`: the syntaxes that come with syntect. It
/// takes no argument, and nothing is claimed of the set.
#[verifier::external_body]
fn load_syntaxes() -> (r: SyntaxSet) {
    SyntaxSet::load_defaults_newlines()
}

/// `ThemeSet::load_defaults`, and the theme of this name in its map, which has a
/// theme named `base16-mocha.dark`. The result depends on the name alone.
#[verifier::external_body]
fn load_theme(name: &str) -> (r: Theme)
    requires
        name@ == "base16-mocha.dark"@,
    ensures
        r == default_theme(name@),
{
    ThemeSet::load_defaults().themes[name].clone()
}

/// `SyntaxSet::find_syntax_by_extension`. The result depends on the set and the
/// extension alone.
#[verifier::external_body]
fn find_syntax<'a>(set: &'a SyntaxSet, ext: &str) -> (r: Option<&'a SyntaxReference>)
    ensures
        (match r {
            Some(s) => Some(*s),
            None => None,
        }) == syntax_by_extension(*set, ext@),
{
    set.find_syntax_by_extension(ext)
}

/// `ParseState::new`: the start of a syntax that stands in a set. It depends on
/// the syntax alone.
#[verifier::external_body]
fn start_parse(syntax: &SyntaxReference) -> (r: ParseState)
    requires
        exists|set: SyntaxSet, ext: Seq<char>| *syntax == syntax_for(set, ext),
    ensures
        r == parse_start(*syntax),
{
    ParseState::new(syntax)
}

/// `HighlightState::new` with an empty scope stack: the style of the theme for
/// plain text. It depends on the theme alone.
#[verifier::external_body]
fn start_style(theme: &Theme) -> (r: HighlightState)
    ensures
        r == style_start(*theme),
{
    HighlightState::new(&SynHighlighter::new(theme), ScopeStack::new())
}

/// The syntax for an extension: plain text where the set has none.
pub open spec fn syntax_for(set: SyntaxSet, ext: Seq<char>) -> SyntaxReference {
    match syntax_by_extension(set, ext) {
        Some(s) => s,
        None => plain_text(set),
    }
}

/// Where highlighting stands between two lines.
pub struct HlState {
    pub parse: ParseState,
    pub hi: HighlightState,
}

/// Where the highlighting of a path starts.
pub open spec fn start(set: SyntaxSet, theme: Theme, path: Seq<char>) -> HlState {
    HlState {
        parse: parse_start(syntax_for(set, crate::path::extension(path))),
        hi: style_start(theme),
    }
}

/// The spans of a line, and where highlighting then stands. A line on which the
/// parser fails is one span without a colour.
pub open spec fn step(set: SyntaxSet, theme: Theme, at: HlState, line: Seq<char>) -> (
    Seq<SpanModel>,
    HlState,
) {
    let (changes, parse) = parsed(at.parse, line, set);
    match changes {
        Some(c) => {
            let (pieces, hi) = styled(at.hi, c, line, theme);
            (
                pieces.map_values(
                    |p: (Rgb, Seq<char>)| SpanModel { color: Some(p.0), text: p.1 },
                ),
                HlState { parse, hi },
            )
        },
        None => (seq![SpanModel { color: None, text: line }], HlState { parse, hi: at.hi }),
    }
}

/// The spans of lines that follow one another, and where highlighting then
/// stands.
pub open spec fn pass(set: SyntaxSet, theme: Theme, at: HlState, lines: Seq<Seq<char>>) -> (
    Seq<Seq<SpanModel>>,
    HlState,
)
    decreases lines.len(),
{
    if lines.len() == 0 {
        (Seq::empty(), at)
    } else {
        let (spans, before) = pass(set, theme, at, lines.drop_last());
        let (last, after) = step(set, theme, before, lines.last());
        (spans.push(last), after)
    }
}

/// A pass has the spans of every line.
pub proof fn lemma_pass_len(set: SyntaxSet, theme: Theme, at: HlState, lines: Seq<Seq<char>>)
    ensures
        pass(set, theme, at, lines).0.len() == lines.len(),
    decreases lines.len(),
{
    if lines.len() > 0 {
        lemma_pass_len(set, theme, at, lines.drop_last());
    }
}

/// Highlighting can stop after any line and go on later: feeding the lines one
/// by one, in any portions, gives the spans of one pass over the file.
pub proof fn portions_match_one_pass(
    set: SyntaxSet,
    theme: Theme,
    at: HlState,
    a: Seq<Seq<char>>,
    b: Seq<Seq<char>>,
)
    ensures
        pass(set, theme, at, a + b).0 == pass(set, theme, at, a).0 + pass(
            set,
            theme,
            pass(set, theme, at, a).1,
            b,
        ).0,
        pass(set, theme, at, a + b).1 == pass(set, theme, pass(set, theme, at, a).1, b).1,
    decreases b.len(),
{
    if b.len() == 0 {
        assert(a + b == a);
        let s = pass(set, theme, at, a).0;
        assert(s + Seq::<Seq<SpanModel>>::empty() == s);
    } else {
        assert((a + b).drop_last() == a + b.drop_last());
        assert((a + b).last() == b.last());
        portions_match_one_pass(set, theme, at, a, b.drop_last());
        let mid = pass(set, theme, at, a).1;
        let rest = pass(set, theme, mid, b.drop_last());
        let last = step(set, theme, rest.1, b.last()).0;
        let s = pass(set, theme, at, a).0;
        assert((s + rest.0).push(last) == s + rest.0.push(last));
    }
}

/// What is shown of a line does not depend on the lines after it.
pub proof fn later_lines_do_not_matter(
    set: SyntaxSet,
    theme: Theme,
    at: HlState,
    lines: Seq<Seq<char>>,
    i: int,
)
    requires
        0 <= i < lines.len(),
    ensures
        pass(set, theme, at, lines).0[i] == step(
            set,
            theme,
            pass(set, theme, at, lines.take(i)).1,
            lines[i],
        ).0,
{
    let a = lines.take(i + 1);
    let b = lines.skip(i + 1);
    assert(a + b == lines);
    portions_match_one_pass(set, theme, at, a, b);
    lemma_pass_len(set, theme, at, a);
    assert(a.drop_last() == lines.take(i));
    lemma_pass_len(set, theme, at, lines.take(i));
}

/// A line is shown whole where the parser fails on it, and where the pieces that
/// were styled reach its end.
pub proof fn styled_to_the_end_is_shown_whole(
    set: SyntaxSet,
    theme: Theme,
    at: HlState,
    line: Seq<char>,
)
    requires
        parsed(at.parse, line, set).0 matches Some(c) ==> pieced(styled(at.hi, c, line, theme).0)
            == line,
    ensures
        shown(step(set, theme, at, line).0) == line,
{
    match parsed(at.parse, line, set).0 {
        Some(c) => {
            lemma_pieced(styled(at.hi, c, line, theme).0);
        },
        None => {
            let whole = seq![SpanModel { color: None, text: line }];
            assert(whole.drop_last() == Seq::<SpanModel>::empty());
            assert(whole.last().text == line);
            assert(shown(whole.drop_last()) + line == line);
        },
    }
}

impl IncrementalHl {
    /// Where it stands.
    pub closed spec fn at(&self) -> HlState {
        HlState { parse: self.parse, hi: self.hi }
    }

    /// The index of the next line.
    pub closed spec fn next_line(&self) -> usize {
        self.next
    }

    /// It has come to where it stands by a highlighter's own steps.
    pub open spec fn belongs_to(&self, hl: &Highlighter) -> bool {
        exists|path: Seq<char>, lines: Seq<Seq<char>>|
            self.at() == (#[trigger] pass(
                hl.syntaxes(),
                hl.theme(),
                start(hl.syntaxes(), hl.theme(), path),
                lines,
            )).1
    }
}

impl Highlighter {
    pub closed spec fn syntaxes(&self) -> SyntaxSet {
        self.syntaxes
    }

    pub closed spec fn theme(&self) -> Theme {
        self.theme
    }

    /// Loads syntect's syntaxes and the theme `base16-mocha.dark`.
    pub fn new() -> (r: Self)
        ensures
            r.theme() == default_theme("base16-mocha.dark"@),
    {
        Highlighter { syntaxes: load_syntaxes(), theme: load_theme("base16-mocha.dark") }
    }

    /// `SyntaxSet::find_syntax_plain_text`, which takes the syntax named `Plain
    /// Text`; the set that comes with syntect, the only one that a highlighter
    /// holds, has it. The result depends on the set alone.
    #[verifier::external_body]
    fn find_plain_text(&self) -> (r: &SyntaxReference)
        ensures
            *r == plain_text(self.syntaxes()),
    {
        self.syntaxes.find_syntax_plain_text()
    }

    /// `ParseState::parse_line` with the set from which the state was made: the
    /// changes of scope in the line, or nothing where the parser fails, and the
    /// state after it. Both depend on the state, the line and the set alone.
    #[verifier::external_body]
    fn parse_line(&self, at: &mut ParseState, line: &str) -> (r: Option<
        Vec<(usize, ScopeStackOp)>,
    >)
        requires
            exists|path: Seq<char>, lines: Seq<Seq<char>>|
                *old(at) == (#[trigger] pass(
                    self.syntaxes(),
                    self.theme(),
                    start(self.syntaxes(), self.theme(), path),
                    lines,
                )).1.parse,
        ensures
            (match r {
                Some(v) => Some(v@),
                None => None,
            }) == parsed(*old(at), line@, self.syntaxes()).0,
            *final(at) == parsed(*old(at), line@, self.syntaxes()).1,
    {
        at.parse_line(line, &self.syntaxes).ok()
    }

    /// `HighlightIterator` over the changes that the parser found in the line:
    /// its pieces with their foreground colours, and the stack of styles after
    /// it. Both depend on the stack, the changes, the line and the theme alone.
    /// The pieces follow one another from the start of the line, and none is
    /// empty. That they reach its end is not claimed: the iterator ends early
    /// where a change does not fit the stack.
    #[verifier::external_body]
    fn style_line(
        &self,
        at: &mut HighlightState,
        changes: &Vec<(usize, ScopeStackOp)>,
        line: &str,
    ) -> (r: Vec<(Rgb, String)>)
        requires
            exists|p: ParseState| (#[trigger] parsed(p, line@, self.syntaxes())).0 == Some(changes@),
        ensures
            r@.map_values(|p: (Rgb, String)| (p.0, p.1@)) == styled(
                *old(at),
                changes@,
                line@,
                self.theme(),
            ).0,
            *final(at) == styled(*old(at), changes@, line@, self.theme()).1,
            pieced(r@.map_values(|p: (Rgb, String)| (p.0, p.1@))).is_prefix_of(line@),
            forall|i: int| 0 <= i < r@.len() ==> (#[trigger] r@[i]).1@.len() > 0,
    {
        let syn_hl = SynHighlighter::new(&self.theme);
        HighlightIterator::new(at, changes, line, &syn_hl)
            .map(
                |(s, t)|
                    ((s.foreground.r, s.foreground.g, s.foreground.b), t.to_string()),
            )
            .collect()
    }

    /// Start incremental highlighting for `path`'s syntax. Feed lines in order
    /// to [`highlight_incremental`](Highlighter::highlight_incremental); state
    /// carries across them.
    pub fn new_incremental(&self, path: &str) -> (r: IncrementalHl)
        ensures
            r.at() == start(self.syntaxes(), self.theme(), path@),
            r.next_line() == 0,
            r.belongs_to(self),
    {
        let ext = extension_of(path);
        let syntax = match find_syntax(&self.syntaxes, ext.as_str()) {
            Some(s) => s,
            None => self.find_plain_text(),
        };
        assert(*syntax == syntax_for(self.syntaxes, ext@));
        let r = IncrementalHl {
            parse: start_parse(syntax),
            hi: start_style(&self.theme),
            next: 0,
        };
        assert(r.at() == pass(
            self.syntaxes(),
            self.theme(),
            start(self.syntaxes(), self.theme(), path@),
            Seq::empty(),
        ).1);
        r
    }

    /// Highlight the next line, advancing `st`. Must be called in line order for
    /// correct results.
    pub fn highlight_incremental(&self, st: &mut IncrementalHl, line: &str) -> (r: Spans)
        requires
            old(st).belongs_to(self),
        ensures
            span_views(r@) == step(self.syntaxes(), self.theme(), old(st).at(), line@).0,
            final(st).at() == step(self.syntaxes(), self.theme(), old(st).at(), line@).1,
            final(st).next_line() == old(st).next_line(),
            final(st).belongs_to(self),
            shown(span_views(r@)).is_prefix_of(line@),
    {
        let ghost before = st.at();
        let ghost w = choose|path: Seq<char>, lines: Seq<Seq<char>>|
            before == (#[trigger] pass(
                self.syntaxes(),
                self.theme(),
                start(self.syntaxes(), self.theme(), path),
                lines,
            )).1;
        proof {
            let from = start(self.syntaxes(), self.theme(), w.0);
            let further = w.1.push(line@);
            assert(further.drop_last() == w.1);
            assert(pass(self.syntaxes(), self.theme(), from, further).1 == step(
                self.syntaxes(),
                self.theme(),
                before,
                line@,
            ).1);
        }
        let mut r: Spans = Vec::new();
        match self.parse_line(&mut st.parse, line) {
            None => {
                r.push((None, line.to_owned()));
                let ghost whole = seq![SpanModel { color: None, text: line@ }];
                assert(span_views(r@) == whole);
                assert(whole.drop_last() == Seq::<SpanModel>::empty());
                assert(whole.last().text == line@);
                assert(shown(whole.drop_last()) == Seq::<char>::empty());
                assert(Seq::<char>::empty() + line@ == line@);
            },
            Some(changes) => {
                let pieces = self.style_line(&mut st.hi, &changes, line);
                let ghost named = styled(before.hi, changes@, line@, self.theme()).0;
                for i in 0..pieces.len()
                    invariant
                        r@.len() == i,
                        named == pieces@.map_values(|p: (Rgb, String)| (p.0, p.1@)),
                        forall|k: int|
                            0 <= k < i ==> (#[trigger] r@[k]).0 == Some(named[k].0) && r@[k].1@
                                == named[k].1,
                {
                    assert(named[i as int] == (pieces@[i as int].0, pieces@[i as int].1@));
                    r.push((Some(pieces[i].0), pieces[i].1.as_str().to_owned()));
                }
                assert(span_views(r@) == step(
                    self.syntaxes(),
                    self.theme(),
                    before,
                    line@,
                ).0);
                proof {
                    lemma_pieced(named);
                }
            },
        }
        r
    }

    /// Highlight a whole file's lines in one pass: parser state is carried
    /// across lines, so block comments and multi-line strings color correctly.
    /// Returns the spans of each line.
    pub fn highlight_file(&self, path: &str, lines: &[&str]) -> (r: Vec<Spans>)
        ensures
            r@.map_values(|s: Spans| span_views(s@)) == pass(
                self.syntaxes(),
                self.theme(),
                start(self.syntaxes(), self.theme(), path@),
                lines@.map_values(|l: &str| l@),
            ).0,
            forall|i: int|
                0 <= i < lines@.len() ==> shown(span_views((#[trigger] r@[i])@)).is_prefix_of(
                    lines@[i]@,
                ),
    {
        let mut st = self.new_incremental(path);
        let mut r: Vec<Spans> = Vec::new();
        let ghost texts = lines@.map_values(|l: &str| l@);
        let ghost from = start(self.syntaxes(), self.theme(), path@);
        assert(texts.take(0) == Seq::<Seq<char>>::empty());
        for i in 0..lines.len()
            invariant
                texts == lines@.map_values(|l: &str| l@),
                st.belongs_to(self),
                st.at() == pass(self.syntaxes(), self.theme(), from, texts.take(i as int)).1,
                r@.map_values(|s: Spans| span_views(s@)) == pass(
                    self.syntaxes(),
                    self.theme(),
                    from,
                    texts.take(i as int),
                ).0,
                r@.len() == i,
                forall|k: int|
                    0 <= k < i ==> shown(span_views((#[trigger] r@[k])@)).is_prefix_of(lines@[k]@),
        {
            let ghost before = r@;
            assert(texts.take(i + 1).drop_last() == texts.take(i as int));
            assert(texts.take(i + 1).last() == lines@[i as int]@);
            let spans = self.highlight_incremental(&mut st, lines[i]);
            r.push(spans);
            assert(r@.map_values(|s: Spans| span_views(s@)) == before.map_values(
                |s: Spans| span_views(s@),
            ).push(span_views(spans@)));
        }
        assert(texts.take(texts.len() as int) == texts);
        r
    }

    /// Highlight a single isolated line (diff rows aren't a contiguous file, so
    /// each is highlighted independently).
    pub fn highlight_line(&self, path: &str, line: &str) -> (r: Spans)
        ensures
            span_views(r@) == step(
                self.syntaxes(),
                self.theme(),
                start(self.syntaxes(), self.theme(), path@),
                line@,
            ).0,
            shown(span_views(r@)).is_prefix_of(line@),
    {
        let mut st = self.new_incremental(path);
        self.highlight_incremental(&mut st, line)
    }
}

/// The lines of a file that is shown line by line.
pub open spec fn texts(rows: Seq<RenderModel>) -> Seq<Seq<char>> {
    rows.map_values(
        |r: RenderModel|
            match r {
                RenderModel::Plain { text, .. } => text,
                _ => Seq::empty(),
            },
    )
}

/// Either every row is a line of a file, or none is.
pub open spec fn one_kind(rows: Seq<RenderModel>) -> bool {
    ||| forall|i: int| 0 <= i < rows.len() ==> #[trigger] rows[i] is Plain
    ||| forall|i: int| 0 <= i < rows.len() ==> !(#[trigger] rows[i] is Plain)
}

/// The spans of a cell, which is highlighted on its own.
pub open spec fn cell_spans(hl: &Highlighter, path: Seq<char>, cell: Option<CellModel>) -> Seq<
    SpanModel,
> {
    match cell {
        Some(c) => step(
            hl.syntaxes(),
            hl.theme(),
            start(hl.syntaxes(), hl.theme(), path),
            c.text,
        ).0,
        None => Seq::empty(),
    }
}

/// The spans of a row. A diff line is highlighted on its own; a line of a file
/// as part of it.
pub open spec fn spans_of_row(
    hl: &Highlighter,
    path: Seq<char>,
    rows: Seq<RenderModel>,
    i: int,
) -> Seq<SpanModel> {
    let from = start(hl.syntaxes(), hl.theme(), path);
    match rows[i] {
        RenderModel::DiffLine { text, .. } => step(hl.syntaxes(), hl.theme(), from, text).0,
        RenderModel::Plain { .. } => pass(hl.syntaxes(), hl.theme(), from, texts(rows)).0[i],
        _ => Seq::empty(),
    }
}

/// The spans of both sides of a row.
pub open spec fn spans_of_sides(hl: &Highlighter, path: Seq<char>, row: RenderModel) -> (
    Seq<SpanModel>,
    Seq<SpanModel>,
) {
    match row {
        RenderModel::SplitLine { left, right } => (
            cell_spans(hl, path, left),
            cell_spans(hl, path, right),
        ),
        _ => (Seq::empty(), Seq::empty()),
    }
}

/// The spans of the pane's rows, highlighted when they are first shown.
pub struct SpanCache {
    rows: Vec<Option<Spans>>,
    split: Vec<Option<(Spans, Spans)>>,
    incr: Option<IncrementalHl>,
}

impl SpanCache {
    /// It holds spans of these rows only, and has gone through the lines of a
    /// file from the first one on.
    pub closed spec fn holds(
        &self,
        hl: &Highlighter,
        path: Seq<char>,
        rows: Seq<RenderModel>,
    ) -> bool {
        &&& one_kind(rows)
        &&& self.rows@.len() == rows.len()
        &&& self.split@.len() == rows.len()
        &&& forall|i: int|
            0 <= i < rows.len() && #[trigger] self.rows@[i] is Some ==> span_views(
                self.rows@[i]->0@,
            ) == spans_of_row(hl, path, rows, i)
        &&& forall|i: int|
            0 <= i < rows.len() ==> match #[trigger] self.split@[i] {
                Some((l, r)) => (span_views(l@), span_views(r@)) == spans_of_sides(
                    hl,
                    path,
                    rows[i],
                ),
                None => true,
            }
        &&& self.incr matches Some(st) ==> {
            &&& st.next <= rows.len()
            &&& st.belongs_to(hl)
            &&& st.at() == pass(
                hl.syntaxes(),
                hl.theme(),
                start(hl.syntaxes(), hl.theme(), path),
                texts(rows).take(st.next as int),
            ).1
            &&& forall|i: int| 0 <= i < st.next ==> #[trigger] self.rows@[i] is Some
        }
    }

    /// For `n` rows, none of which was shown yet.
    pub fn new(n: usize) -> (r: Self)
        ensures
            forall|hl: &Highlighter, path: Seq<char>, rows: Seq<RenderModel>|
                rows.len() == n && one_kind(rows) ==> #[trigger] r.holds(hl, path, rows),
    {
        let mut rows: Vec<Option<Spans>> = Vec::new();
        let mut split: Vec<Option<(Spans, Spans)>> = Vec::new();
        for i in 0..n
            invariant
                rows@.len() == i,
                split@.len() == i,
                forall|k: int| 0 <= k < i ==> #[trigger] rows@[k] is None,
                forall|k: int| 0 <= k < i ==> #[trigger] split@[k] is None,
        {
            rows.push(None);
            split.push(None);
        }
        SpanCache { rows, split, incr: None }
    }

    /// Highlighted spans for row `i`, computed once. Diff rows are highlighted
    /// per line (they're not contiguous source). Full-file rows are highlighted
    /// incrementally, from the last-highlighted line up to `i`, so cross-line
    /// constructs color correctly.
    pub fn row_spans(&mut self, hl: &Highlighter, path: &str, rows: &[RenderRow], i: usize) -> (r:
        Spans)
        requires
            i < rows@.len(),
            old(self).holds(hl, path@, crate::seqs::views(rows@)),
        ensures
            span_views(r@) == spans_of_row(hl, path@, crate::seqs::views(rows@), i as int),
            final(self).holds(hl, path@, crate::seqs::views(rows@)),
    {
        let ghost all = crate::seqs::views(rows@);
        assert(all[i as int] == rows@[i as int]@);
        if let Some(spans) = &self.rows[i] {
            return copy_spans(spans);
        }
        match &rows[i] {
            RenderRow::HunkHeader { .. } => Vec::new(),
            RenderRow::DiffLine { text, .. } => {
                let spans = hl.highlight_line(path, text.as_str());
                let kept = copy_spans(&spans);
                self.rows.set(i, Some(kept));
                assert(self.rows@[i as int] == Some(kept));
                spans
            },
            RenderRow::SplitLine { .. } => Vec::new(),
            RenderRow::Plain { .. } => self.highlight_full_file_upto(hl, path, rows, i),
        }
    }

    /// Advances the incremental highlighter through the rows up to `i`, keeping
    /// each, and returns row `i`'s spans.
    fn highlight_full_file_upto(
        &mut self,
        hl: &Highlighter,
        path: &str,
        rows: &[RenderRow],
        i: usize,
    ) -> (r: Spans)
        requires
            i < rows@.len(),
            rows@[i as int] is Plain,
            old(self).rows@[i as int] is None,
            old(self).holds(hl, path@, crate::seqs::views(rows@)),
        ensures
            span_views(r@) == spans_of_row(hl, path@, crate::seqs::views(rows@), i as int),
            final(self).holds(hl, path@, crate::seqs::views(rows@)),
    {
        let ghost all = crate::seqs::views(rows@);
        let ghost lines = texts(all);
        let ghost from = start(hl.syntaxes(), hl.theme(), path@);
        assert(all[i as int] == rows@[i as int]@);
        let mut st = match self.incr.take() {
            Some(st) => st,
            None => hl.new_incremental(path),
        };
        assert(lines.take(0) == Seq::<Seq<char>>::empty());
        assert(forall|k: int| 0 <= k < all.len() ==> #[trigger] all[k] is Plain);
        assert(self.split@ == old(self).split@);
        while st.next <= i
            invariant
                i < rows@.len(),
                all == crate::seqs::views(rows@),
                lines == texts(all),
                from == start(hl.syntaxes(), hl.theme(), path@),
                forall|k: int| 0 <= k < all.len() ==> #[trigger] all[k] is Plain,
                self.rows@.len() == all.len(),
                self.split@ == old(self).split@,
                self.incr is None,
                forall|k: int|
                    0 <= k < all.len() && #[trigger] self.rows@[k] is Some ==> span_views(
                        self.rows@[k]->0@,
                    ) == spans_of_row(hl, path@, all, k),
                st.next <= all.len(),
                st.belongs_to(hl),
                st.at() == pass(hl.syntaxes(), hl.theme(), from, lines.take(st.next as int)).1,
                forall|k: int| 0 <= k < st.next ==> #[trigger] self.rows@[k] is Some,
            decreases rows@.len() - st.next,
        {
            let n: usize = st.next;
            assert(all[n as int] is Plain && all[n as int] == rows@[n as int]@);
            let text: &str = match &rows[n] {
                RenderRow::Plain { text, .. } => text.as_str(),
                _ => "",
            };
            assert(lines[n as int] == text@);
            proof {
                later_lines_do_not_matter(hl.syntaxes(), hl.theme(), from, lines, n as int);
                assert(lines.take(n + 1).drop_last() == lines.take(n as int));
                assert(lines.take(n + 1).last() == text@);
            }
            let spans = hl.highlight_incremental(&mut st, text);
            self.rows.set(n, Some(spans));
            assert(span_views(spans@) == spans_of_row(hl, path@, all, n as int));
            st.next = n + 1;
        }
        let r = match &self.rows[i] {
            Some(s) => copy_spans(s),
            None => Vec::new(),
        };
        self.incr = Some(st);
        r
    }

    /// Highlighted spans of both sides of row `i`, computed once. Each side is
    /// highlighted on its own.
    pub fn split_spans(&mut self, hl: &Highlighter, path: &str, rows: &[RenderRow], i: usize) -> (
    r: (Spans, Spans))
        requires
            i < rows@.len(),
            old(self).holds(hl, path@, crate::seqs::views(rows@)),
        ensures
            (span_views(r.0@), span_views(r.1@)) == spans_of_sides(hl, path@, rows@[i as int]@),
            final(self).holds(hl, path@, crate::seqs::views(rows@)),
    {
        let ghost all = crate::seqs::views(rows@);
        assert(all[i as int] == rows@[i as int]@);
        if let Some((l, r)) = &self.split[i] {
            return (copy_spans(l), copy_spans(r));
        }
        let mut l: Spans = Vec::new();
        let mut r: Spans = Vec::new();
        assert(span_views(l@) == Seq::<SpanModel>::empty());
        if let RenderRow::SplitLine { left, right } = &rows[i] {
            if let Some((_, text, _)) = left {
                l = hl.highlight_line(path, text.as_str());
            }
            if let Some((_, text, _)) = right {
                r = hl.highlight_line(path, text.as_str());
            }
        }
        let kept = (copy_spans(&l), copy_spans(&r));
        self.split.set(i, Some(kept));
        assert(self.split@[i as int] == Some(kept));
        (l, r)
    }
}

} // verus!
