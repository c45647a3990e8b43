//! The content pane: which rows it shows for a selection, and when they have to
//! be built anew.

use crate::content::{content_key_for, ContentCache, ContentKey, FileContent, Selection};
use crate::diff::{ChangedFile, DiffSource, Hunk};
use crate::rows::{full_rows, hunk_rows, lineno_width, plain_rows, summary_rows};
use crate::rows::{Extent, Layout, RenderRow};
use vstd::prelude::*;

verus! {

broadcast use {crate::seqs::lemma_views_push, crate::seqs::lemma_views_update};

/// What the rows of the pane were built for.
#[derive(Debug)]
pub struct CacheKey {
    pub generation: u64,
    pub sel: Selection,
    pub layout: Layout,
    pub extent: Extent,
}

/// What a [`CacheKey`] holds.
pub struct CacheKeyModel {
    pub generation: u64,
    pub sel: crate::content::SelectionModel,
    pub layout: Layout,
    pub extent: Extent,
}

impl View for CacheKey {
    type V = CacheKeyModel;

    open spec fn view(&self) -> CacheKeyModel {
        CacheKeyModel {
            generation: self.generation,
            sel: self.sel@,
            layout: self.layout,
            extent: self.extent,
        }
    }
}

/// The rows of the content pane and what goes with them.
#[derive(Debug)]
pub struct Pane {
    pub rows: Vec<RenderRow>,
    /// The path of the file that the rows are of.
    pub path: String,
    pub key: Option<CacheKey>,
    /// The digits of the widest line number.
    pub lineno_width: usize,
    /// The row of each hunk header.
    pub hunk_rows: Vec<usize>,
}

/// What the diff and the content cache offer to the pane.
pub struct Sources<'a> {
    pub files: &'a [ChangedFile],
    pub source: DiffSource,
    pub base: &'a str,
    pub contents: &'a ContentCache,
}

/// What [`Sources`] hold.
pub struct SourcesModel {
    pub files: Seq<crate::diff::FileModel>,
    pub source: DiffSource,
    pub base: Seq<char>,
    pub contents: Seq<crate::content::EntryModel>,
}

impl<'a> View for Sources<'a> {
    type V = SourcesModel;

    open spec fn view(&self) -> SourcesModel {
        SourcesModel {
            files: crate::seqs::views(self.files@),
            source: self.source,
            base: self.base@,
            contents: self.contents@,
        }
    }
}

/// What has to happen before the pane can be drawn.
#[derive(Debug)]
pub enum PanePlan {
    /// Nothing is selected; the pane is empty.
    Cleared,
    /// The rows are the right ones.
    Current,
    /// This has to be fetched first.
    Fetch(ContentKey),
    /// The rows have to be built.
    Build,
}

/// What the cache holds of what a selection needs.
pub open spec fn held(
    sel: crate::content::SelectionModel,
    extent: Extent,
    s: SourcesModel,
) -> Option<crate::content::ContentModel> {
    match crate::content::needed(sel, extent, s.source, s.base, s.files) {
        Some(k) => crate::content::lookup(s.contents, k),
        None => None,
    }
}

/// The message in place of a file that could not be read.
pub open spec fn unreadable(error: Option<Seq<char>>) -> crate::rows::RenderModel {
    crate::rows::RenderModel::Plain {
        text: "cannot read file: "@ + (match error {
            Some(e) => e,
            None => "load failed"@,
        }),
        lineno: 1,
    }
}

/// The rows for a selection. A changed file is shown by its hunks, or whole:
/// then from its full-context hunks, or from the others where those could not
/// be had. Any other file is shown line by line.
pub open spec fn rows_for(
    sel: crate::content::SelectionModel,
    layout: Layout,
    extent: Extent,
    s: SourcesModel,
    error: Option<Seq<char>>,
) -> Seq<crate::rows::RenderModel> {
    match sel {
        crate::content::SelectionModel::Changed(i) => {
            let review = s.files[i as int].hunks;
            if extent == Extent::Full {
                let full = match held(sel, extent, s) {
                    Some(crate::content::ContentModel::FullHunks(h)) => h,
                    _ => review,
                };
                crate::rows::whole_file(review, layout, crate::rows::rows_of(full, full.len()))
            } else {
                crate::rows::summary(review, layout, review.len())
            }
        },
        crate::content::SelectionModel::Path(_) => match held(sel, extent, s) {
            Some(crate::content::ContentModel::Full(c)) => crate::rows::plain(c),
            _ => seq![unreadable(error)],
        },
    }
}

/// The path of the selected file.
pub open spec fn path_of(
    sel: crate::content::SelectionModel,
    files: Seq<crate::diff::FileModel>,
) -> Seq<char> {
    match sel {
        crate::content::SelectionModel::Changed(i) => files[i as int].path,
        crate::content::SelectionModel::Path(p) => p,
    }
}

/// The lines of a cached file can be numbered.
pub open spec fn lines_fit(held: Option<crate::content::ContentModel>) -> bool {
    match held {
        Some(crate::content::ContentModel::Full(c)) => crate::text::line_count(c) <= u32::MAX,
        _ => true,
    }
}

impl Pane {
    /// An empty pane.
    pub fn new() -> (r: Self)
        ensures
            r.rows@.len() == 0,
            r.path@.len() == 0,
            r.key is None,
            r.lineno_width == 1,
            r.hunk_rows@.len() == 0,
    {
        Pane {
            rows: Vec::new(),
            path: String::new(),
            key: None,
            lineno_width: 1,
            hunk_rows: Vec::new(),
        }
    }

    /// Whether the rows were built for this.
    fn is_for(&self, sel: &Selection, generation: u64, layout: Layout, extent: Extent) -> (r: bool)
        ensures
            r == (crate::seqs::opt_view(self.key) == Some(
                CacheKeyModel { generation, sel: sel@, layout, extent },
            )),
    {
        match &self.key {
            Some(k) => k.generation == generation && k.sel.same(sel) && k.layout == layout
                && k.extent == extent,
            None => false,
        }
    }

    /// Decides what has to happen for `sel` to be shown. Where nothing is
    /// selected the pane is emptied.
    pub fn plan(
        &mut self,
        sel: Option<&Selection>,
        generation: u64,
        layout: Layout,
        extent: Extent,
        s: &Sources,
    ) -> (r: PanePlan)
        ensures
            sel is None ==> {
                &&& r is Cleared
                &&& final(self).rows@.len() == 0
                &&& final(self).key is None
                &&& final(self).path == old(self).path
                &&& final(self).lineno_width == old(self).lineno_width
                &&& final(self).hunk_rows == old(self).hunk_rows
            },
            sel matches Some(x) ==> {
                let current = crate::seqs::opt_view(old(self).key) == Some(
                    CacheKeyModel { generation, sel: x@, layout, extent },
                );
                let need = crate::content::needed(x@, extent, s.source, s.base@, s@.files);
                &&& *final(self) == *old(self)
                &&& r is Current <==> current
                &&& r is Fetch <==> !current && need is Some && held(x@, extent, s@) is None
                &&& (r matches PanePlan::Fetch(k) ==> need == Some(k@))
                &&& r is Build <==> !current && (need is None || held(x@, extent, s@) is Some)
            },
    {
        let sel = match sel {
            Some(x) => x,
            None => {
                self.rows.clear();
                self.key = None;
                return PanePlan::Cleared;
            },
        };
        if self.is_for(sel, generation, layout, extent) {
            return PanePlan::Current;
        }
        match content_key_for(sel, extent, s.source, s.base, s.files) {
            Some(k) => {
                if s.contents.get(&k).is_none() {
                    PanePlan::Fetch(k)
                } else {
                    PanePlan::Build
                }
            },
            None => PanePlan::Build,
        }
    }

    /// Empties the pane until its content is there.
    pub fn await_content(&mut self)
        ensures
            final(self).rows@.len() == 0,
            final(self).key == old(self).key,
            final(self).path == old(self).path,
            final(self).lineno_width == old(self).lineno_width,
            final(self).hunk_rows == old(self).hunk_rows,
    {
        self.rows.clear();
    }

    /// Builds the rows for `sel`. `focus` goes back to the first hunk where it
    /// is past the last.
    pub fn ensure_cache(
        &mut self,
        focus: &mut usize,
        sel: &Selection,
        generation: u64,
        layout: Layout,
        extent: Extent,
        s: &Sources,
        error: Option<&str>,
    )
        requires
            sel@ matches crate::content::SelectionModel::Changed(i) ==> i < s.files@.len(),
            lines_fit(held(sel@, extent, s@)),
        ensures
            crate::seqs::views(final(self).rows@) == rows_for(
                sel@,
                layout,
                extent,
                s@,
                crate::seqs::opt_view(error),
            ),
            final(self).path@ == path_of(sel@, s@.files),
            crate::seqs::opt_view(final(self).key) == Some(
                CacheKeyModel { generation, sel: sel@, layout, extent },
            ),
            final(self).lineno_width == crate::rows::number_width(
                crate::seqs::views(final(self).rows@),
            ),
            final(self).hunk_rows@ == crate::rows::header_rows(
                crate::seqs::views(final(self).rows@),
            ),
            *final(focus) == if *old(focus) < final(self).hunk_rows@.len() {
                *old(focus)
            } else {
                0
            },
    {
        let fetched = match content_key_for(sel, extent, s.source, s.base, s.files) {
            Some(k) => s.contents.get(&k),
            None => None,
        };
        assert(crate::seqs::opt_view(fetched) == held(sel@, extent, s@));
        let (rows, path) = match sel {
            Selection::Changed(i) => {
                let file = &s.files[*i];
                assert(s@.files[*i as int] == file@);
                let rows = if extent == Extent::Full {
                    let full: &[Hunk] = match fetched {
                        Some(FileContent::FullHunks(h)) => h.as_slice(),
                        _ => file.hunks.as_slice(),
                    };
                    full_rows(file.hunks.as_slice(), full, layout)
                } else {
                    summary_rows(file.hunks.as_slice(), layout)
                };
                (rows, file.path.clone())
            },
            Selection::Path(p) => {
                let rows = match fetched {
                    Some(FileContent::Full(c)) => plain_rows(c.as_str()),
                    _ => {
                        let mut text = "cannot read file: ".to_owned();
                        text.append(
                            match error {
                                Some(e) => e,
                                None => "load failed",
                            },
                        );
                        let row = RenderRow::Plain { text, lineno: 1 };
                        let v = vec![row];
                        assert(crate::seqs::views(v@) == seq![
                            unreadable(crate::seqs::opt_view(error)),
                        ]);
                        v
                    },
                };
                (rows, p.clone())
            },
        };
        self.lineno_width = lineno_width(rows.as_slice());
        self.hunk_rows = hunk_rows(rows.as_slice());
        self.rows = rows;
        self.path = path;
        self.key = Some(CacheKey { generation, sel: sel.clone(), layout, extent });
        if *focus >= self.hunk_rows.len() {
            *focus = 0;
        }
    }
}

spec fn none_plain(rows: Seq<crate::rows::RenderModel>) -> bool {
    forall|i: int| 0 <= i < rows.len() ==> !(#[trigger] rows[i] is Plain)
}

proof fn lemma_alignment(rows: Seq<crate::diff::RowModel>)
    ensures
        none_plain(crate::rows::alignment(rows).out),
    decreases rows.len(),
{
    if rows.len() > 0 {
        lemma_alignment(rows.drop_last());
        let a = crate::rows::alignment(rows.drop_last());
        assert(none_plain(crate::rows::paired(a.dels, a.adds)));
        assert(none_plain(crate::rows::flushed(a)));
    }
}

proof fn lemma_laid_out(rows: Seq<crate::diff::RowModel>, layout: Layout)
    ensures
        none_plain(crate::rows::laid_out(rows, layout)),
{
    lemma_alignment(rows);
    let a = crate::rows::alignment(rows);
    assert(none_plain(crate::rows::paired(a.dels, a.adds)));
}

proof fn lemma_summary(hunks: Seq<crate::diff::HunkModel>, layout: Layout, n: nat)
    ensures
        none_plain(crate::rows::summary(hunks, layout, n)),
    decreases n,
{
    if n > 0 {
        lemma_summary(hunks, layout, (n - 1) as nat);
        lemma_laid_out(hunks[n - 1].rows, layout);
    }
}

proof fn lemma_flow(
    review: Seq<crate::diff::HunkModel>,
    layout: Layout,
    rows: Seq<crate::diff::RowModel>,
)
    ensures
        none_plain(crate::rows::flow(review, layout, rows).out),
    decreases rows.len(),
{
    if rows.len() > 0 {
        lemma_flow(review, layout, rows.drop_last());
        lemma_laid_out(crate::rows::flow(review, layout, rows.drop_last()).seg, layout);
    }
}

/// The pane shows the rows of a diff or the lines of a file, never both at once.
pub proof fn pane_rows_are_of_one_kind(
    sel: crate::content::SelectionModel,
    layout: Layout,
    extent: Extent,
    s: SourcesModel,
    error: Option<Seq<char>>,
)
    ensures
        crate::highlight::one_kind(rows_for(sel, layout, extent, s, error)),
{
    if let crate::content::SelectionModel::Changed(i) = sel {
        let review = s.files[i as int].hunks;
        let full = match held(sel, extent, s) {
            Some(crate::content::ContentModel::FullHunks(h)) => h,
            _ => review,
        };
        let all = crate::rows::rows_of(full, full.len());
        lemma_flow(review, layout, all);
        lemma_laid_out(crate::rows::flow(review, layout, all).seg, layout);
        lemma_summary(review, layout, review.len());
        assert(none_plain(rows_for(sel, layout, extent, s, error)));
    }
}

} // verus!
