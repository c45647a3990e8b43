use purview::content::{
    content_key_for, hunks_of, payload, ContentCache, ContentKey, ContentLoader, FileContent,
    Landed, Selection,
};
use purview::diff::{parse_unified_patch, ChangedFile, DiffSource};
use purview::nav::Nav;
use purview::pane::{Pane, PanePlan, Sources};
use purview::rows::{Extent, Layout, RenderRow};
use purview::session::{Review, Session};

fn files() -> Vec<ChangedFile> {
    parse_unified_patch(
        "diff --git a/f.txt b/f.txt\n--- a/f.txt\n+++ b/f.txt\n@@ -1,1 +1,1 @@\n-a\n+b\n@@ -9,1 +9,1 @@\n-c\n+d\n",
    )
}

fn key(path: &str) -> ContentKey {
    ContentKey {
        path: path.into(),
        full_diff: false,
        source: DiffSource::WorkingTree,
        base: "main".into(),
    }
}

fn is_text(c: Option<&FileContent>, want: &str) -> bool {
    matches!(c, Some(FileContent::Full(t)) if t == want)
}

#[test]
fn the_cache_is_bounded_and_finds_what_was_put_in() {
    let mut c = ContentCache::new(2);
    c.insert(key("a"), FileContent::Full("1".into()));
    c.insert(key("b"), FileContent::Full("2".into()));
    assert!(is_text(c.get(&key("a")), "1"));
    c.insert(key("a"), FileContent::Full("3".into()));
    assert!(is_text(c.get(&key("a")), "3"));
    assert!(is_text(c.get(&key("b")), "2"), "an entry that is replaced costs no other");
    c.insert(key("c"), FileContent::Full("4".into()));
    let left = ["a", "b", "c"].iter().filter(|k| c.get(&key(k)).is_some()).count();
    assert_eq!(left, 2);
    assert!(is_text(c.get(&key("c")), "4"));
    let other = ContentKey { base: "dev".into(), ..key("c") };
    assert!(c.get(&other).is_none(), "another base is another payload");
    c.clear();
    assert!(c.get(&key("c")).is_none());
}

#[test]
fn a_superseded_load_is_ignored() {
    let mut l = ContentLoader::new(4);
    let first = l.kick_content_load(key("a")).unwrap();
    assert_eq!(l.kick_content_load(key("a")), None, "already under way");
    let second = l.kick_content_load(key("b")).unwrap();
    assert!(matches!(
        l.poll_content(first, key("a"), Ok(FileContent::Full("old".into()))),
        Landed::Ignored
    ));
    assert!(l.loading && l.cache.get(&key("a")).is_none());
    assert!(matches!(
        l.poll_content(second, key("b"), Ok(FileContent::Full("new".into()))),
        Landed::Loaded
    ));
    assert!(!l.loading && is_text(l.cache.get(&key("b")), "new"));
    let third = l.kick_content_load(key("c")).unwrap();
    match l.poll_content(third, key("c"), Err("gone".into())) {
        Landed::Failed(e) => assert_eq!(e, "gone"),
        other => panic!("{other:?}"),
    }
    l.invalidate_content_cache();
    assert!(l.cache.get(&key("b")).is_none());
}

#[test]
fn what_has_to_be_fetched() {
    let fs = files();
    let k = |sel: &Selection, extent: Extent| {
        content_key_for(sel, extent, DiffSource::WorkingTree, "main", &fs)
    };
    assert!(k(&Selection::Changed(0), Extent::Summary).is_none());
    let full = k(&Selection::Changed(0), Extent::Full).unwrap();
    assert!(full.full_diff && full.path == "f.txt");
    let plain = k(&Selection::Path("x".into()), Extent::Summary).unwrap();
    assert!(!plain.full_diff && plain.path == "x");
    assert_eq!(hunks_of(&fs, "f.txt").len(), 2);
    assert!(hunks_of(&fs, "g.txt").is_empty());
    assert!(matches!(payload(&full, String::new(), &fs), FileContent::FullHunks(h) if h.len() == 2));
    assert!(matches!(payload(&plain, "t".into(), &fs), FileContent::Full(t) if t == "t"));
}

#[test]
fn the_pane_is_built_once_its_content_is_there() {
    let fs = files();
    let mut contents = ContentCache::new(4);
    let mut pane = Pane::new();
    let sel = Selection::Path("x.txt".into());
    let (layout, extent) = (Layout::Inline, Extent::Summary);
    planned(&mut pane, &sel, &fs, &contents, "fetch");
    contents.insert(key("x.txt"), FileContent::Full("one\ntwo\n".into()));
    planned(&mut pane, &sel, &fs, &contents, "build");
    let s = Sources {
        files: &fs,
        source: DiffSource::WorkingTree,
        base: "main",
        contents: &contents,
    };
    let mut focus = 5;
    pane.ensure_cache(&mut focus, &sel, 1, layout, extent, &s, None);
    assert_eq!(focus, 0);
    assert_eq!((pane.rows.len(), pane.path.as_str()), (2, "x.txt"));
    assert!(matches!(&pane.rows[1], RenderRow::Plain { text, lineno: 2 } if text == "two"));
    planned(&mut pane, &sel, &fs, &contents, "current");
    // A changed file, by its hunks.
    let mut focus = 1;
    pane.ensure_cache(&mut focus, &Selection::Changed(0), 1, layout, extent, &s, None);
    assert_eq!((focus, pane.hunk_rows.as_slice()), (1, &[0usize, 3][..]));
    assert!(matches!(pane.plan(None, 1, layout, extent, &s), PanePlan::Cleared));
    assert!(pane.rows.is_empty());
}

fn planned(
    pane: &mut Pane,
    sel: &Selection,
    fs: &[ChangedFile],
    contents: &ContentCache,
    want: &str,
) {
    let s = Sources { files: fs, source: DiffSource::WorkingTree, base: "main", contents };
    let got = match pane.plan(Some(sel), 1, Layout::Inline, Extent::Summary, &s) {
        PanePlan::Cleared => "cleared",
        PanePlan::Current => "current",
        PanePlan::Fetch(k) => {
            assert!(k.same(&key("x.txt")));
            "fetch"
        }
        PanePlan::Build => "build",
    };
    assert_eq!(got, want);
}

#[test]
fn a_file_that_cannot_be_read_says_so() {
    let mut pane = Pane::new();
    let contents = ContentCache::new(1);
    let s = Sources {
        files: &[],
        source: DiffSource::WorkingTree,
        base: "main",
        contents: &contents,
    };
    let sel = Selection::Path("x".into());
    pane.ensure_cache(&mut 0, &sel, 1, Layout::Inline, Extent::Full, &s, Some("no such file"));
    assert!(
        matches!(&pane.rows[0], RenderRow::Plain { text, .. } if text == "cannot read file: no such file")
    );
    pane.await_content();
    assert!(pane.rows.is_empty());
}

fn session() -> Session {
    Session {
        review: Review {
            branch: "b".into(),
            source: DiffSource::WorkingTree,
            base: "main".into(),
            files: files(),
            orphaned: Vec::new(),
        },
        nav: Nav::new(),
        pane: Pane::new(),
        loader: ContentLoader::new(4),
        generation: 0,
        loading: false,
        comment_dirty: false,
        error: None,
        note: String::new(),
    }
}

#[test]
fn a_superseded_reload_is_ignored() {
    let mut s = session();
    let (first, unsaved) = s.reload();
    assert!(unsaved.is_none() && s.review.files.is_empty() && s.loading);
    let (second, _) = s.reload();
    assert!(!s.poll_reload(first));
    assert!(s.loading);
    assert!(s.poll_reload(second));
    assert!(!s.loading);
}

#[test]
fn an_unsaved_comment_is_saved_before_a_reload() {
    let mut s = session();
    s.review.files[0].hunks[0].comment = "typed".into();
    s.comment_dirty = true;
    let (_, unsaved) = s.reload();
    let saved = unsaved.unwrap();
    assert_eq!(saved.files[0].hunks[0].comment.as_deref(), Some("typed"));
    assert!(!s.comment_dirty);
    // And comes back with the diff.
    assert!(s.apply_diff_result(Ok(("b".into(), files())), Some(&saved)));
    assert_eq!(s.review.files[0].hunks[0].comment, "typed");
    assert_eq!(s.open_path().as_deref(), Some("f.txt"));
}

#[test]
fn a_diff_that_nobody_reviewed_writes_nothing() {
    let mut s = session();
    assert!(!s.apply_diff_result(Ok(("b".into(), files())), None));
    assert!(s.nav.selected_file() == Some(0));
    assert!(!s.apply_diff_result(Err("boom".into()), None));
    assert_eq!(s.error.as_deref(), Some("boom"));
    assert!(s.review.files.is_empty() && s.nav.selected.is_none());
    assert_eq!(s.open_path(), None);
    s.nav.selected = Some(Selection::Path("x".into()));
    assert_eq!(s.open_path().as_deref(), Some("x"));
}
