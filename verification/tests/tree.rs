use purview::overlay::{
    finish_goto, rank, start_goto, Goto, QuickOpen, Rank, MAX_MATCHES,
};
use purview::gotodef::Candidate;
use purview::order::{drop_repeats, sort_names};
use purview::path::extension_of;
use purview::repo::DirEntry;
use purview::tree::{arrange, child_path, fuzzy_score, FileTree, FileWalk, Found};

#[test]
fn fuzzy_basics() {
    assert!(fuzzy_score("", "anything").is_some());
    assert!(fuzzy_score("mainrs", "src/main.rs").is_some());
    assert!(fuzzy_score("xyz", "src/main.rs").is_none());
    // closer/contiguous match scores lower (better)
    let a = fuzzy_score("main", "main.rs").unwrap();
    let b = fuzzy_score("main", "zzz/m_a_i_n.rs").unwrap();
    assert!(a < b);
}

#[test]
fn fuzzy_scores_are_exact_and_fold_case() {
    // Distance of the first match from the start, then the gaps.
    assert_eq!(fuzzy_score("main", "src/main.rs"), Some(7));
    assert_eq!(fuzzy_score("sm", "src/main.rs"), Some(4));
    assert_eq!(fuzzy_score("MAIN", "src/main.rs"), Some(7));
    assert_eq!(fuzzy_score("ö", "GRÖSSE"), Some(2));
    assert_eq!(fuzzy_score("", "x"), Some(0));
}

fn strings(v: &[&str]) -> Vec<String> {
    v.iter().map(|s| s.to_string()).collect()
}

#[test]
fn matches_are_ranked_by_score_and_length() {
    let mut q = QuickOpen::open(
        strings(&["lib/main.rs", "main.rs", "main.rs.bak", "other.txt"]),
        false,
    );
    q.query = "main".into();
    assert_eq!(q.matches(), [1, 2, 0]);
    q.sel = 1;
    assert_eq!(q.on_enter(&q.matches()), Some("main.rs.bak".to_string()));
    q.query = "zzz".into();
    assert_eq!(q.on_enter(&q.matches()), None);
    // Nothing typed: everything, the shorter first, and equal ones as they came.
    q.query = String::new();
    assert_eq!(q.matches(), [1, 3, 0, 2]);
}

#[test]
fn only_so_many_matches_are_shown() {
    let all: Vec<String> = (0..500).map(|i| format!("f{i:03}")).collect();
    let mut q = QuickOpen::open(all, true);
    q.query = "f".into();
    let m = q.matches();
    assert_eq!(m.len(), MAX_MATCHES);
    assert_eq!(m[..3], [0, 1, 2]);
    assert!(q.truncated);
}

#[test]
fn the_highlight_stays_on_a_match() {
    let mut q = QuickOpen::open(Vec::new(), false);
    q.step(3, false, true);
    q.step(3, false, true);
    q.step(3, false, true);
    assert_eq!(q.sel, 2);
    q.step(3, true, false);
    assert_eq!(q.sel, 1);
    q.step(1, false, false);
    assert_eq!(q.sel, 0);
    q.step(0, true, true);
    assert_eq!(q.sel, 0);
}

#[test]
fn ranking_leaves_out_what_does_not_match() {
    let r = |score: Option<i64>, len: usize| Rank { score, len };
    assert_eq!(
        rank(&[r(Some(5), 1), r(None, 1), r(Some(2), 9), r(Some(2), 4)], 10),
        [3, 2, 0]
    );
    assert_eq!(rank(&[r(Some(5), 1), r(Some(2), 9)], 1), [1]);
}

#[test]
fn a_lookup_goes_through_its_states() {
    let mut slot = Some(Goto::open(Some("foo")));
    assert_eq!(slot.as_ref().unwrap().on_enter().as_deref(), Some("foo"));
    assert_eq!(start_goto(&mut slot, "  foo ", true).as_deref(), Some("foo"));
    assert!(slot.as_ref().unwrap().resolving);
    assert_eq!(slot.as_ref().unwrap().on_enter(), None, "one at a time");
    let (slot, hit) = finish_goto(slot, Ok(None));
    assert_eq!(slot.as_ref().unwrap().note, "no definition found");
    assert!(hit.is_none() && !slot.as_ref().unwrap().resolving);
    let (slot, _) = finish_goto(slot, Err("boom".into()));
    assert_eq!(slot.as_ref().unwrap().note, "resolve failed: boom");
    let c = Candidate { file: "a.rs".into(), line: 3, text: "fn foo".into() };
    let (mut slot, hit) = finish_goto(slot, Ok(Some(c.clone())));
    assert!(slot.is_none());
    assert_eq!(hit, Some(c));
    assert_eq!(start_goto(&mut slot, "  ", true), None);
    assert!(slot.is_none());
    assert_eq!(start_goto(&mut slot, "x", false), None);
    assert_eq!(
        slot.unwrap().note,
        "go-to-definition is not supported for this repo"
    );
}

#[test]
fn directories_come_first_and_names_are_in_order() {
    let f = |name: &str, is_dir: bool| Found { name: name.into(), is_dir };
    let got: Vec<(String, String, bool)> =
        arrange("src", &[f("b", false), f("Z", false), f("y", true), f("ä", false), f("c", true)])
            .into_iter()
            .map(|e| (e.name, e.rel, e.is_dir))
            .collect();
    let want = [("c", true), ("y", true), ("Z", false), ("b", false), ("ä", false)];
    assert_eq!(
        got,
        want.map(|(n, d)| (n.to_string(), format!("src/{n}"), d))
    );
    assert_eq!(child_path("", "a"), "a");
}

#[test]
fn children_are_loaded_once() {
    let entry = |name: &str, is_dir: bool| DirEntry {
        name: name.into(),
        rel: name.into(),
        is_dir,
    };
    let mut t = FileTree::new("root".into(), vec![entry("d", true), entry("f", false)]);
    assert_eq!(t.nodes.len(), 2);
    assert!(FileTree::needs_children(&t.nodes[0]));
    FileTree::load_children(&mut t.nodes[0], vec![entry("x", false)]);
    assert!(!FileTree::needs_children(&t.nodes[0]));
    FileTree::load_children(&mut t.nodes[0], Vec::new());
    assert_eq!(t.nodes[0].children.as_ref().unwrap()[0].name, "x");
}

#[test]
fn a_walk_visits_every_directory_and_stops_at_the_cap() {
    let mut w = FileWalk::new(2);
    assert_eq!(w.next_dir().as_deref(), Some(""));
    w.enter("d".into(), true);
    w.enter("b".into(), false);
    assert_eq!(w.next_dir().as_deref(), Some("d"));
    w.enter("d/a".into(), false);
    w.enter("d/e".into(), true);
    // The cap is reached, but no file has been left out yet.
    assert_eq!(w.next_dir().as_deref(), Some("d/e"));
    w.enter("d/e/f".into(), false);
    w.enter("d/e/g".into(), true);
    assert_eq!(w.next_dir(), None);
    assert_eq!(w.finish(), (strings(&["b", "d/a"]), true));
    let mut w = FileWalk::new(9);
    w.next_dir();
    assert_eq!(w.next_dir(), None);
    assert_eq!(w.finish(), (Vec::new(), false));
}

#[test]
fn one_directory_does_not_exceed_the_cap() {
    let mut w = FileWalk::new(2);
    w.next_dir();
    for name in ["z", "y", "x"] {
        w.enter(name.into(), false);
    }
    assert_eq!(w.next_dir(), None);
    assert_eq!(w.finish(), (strings(&["y", "z"]), true));
}

#[test]
fn exactly_as_many_files_as_the_cap_are_not_cut() {
    let mut w = FileWalk::new(2);
    w.next_dir();
    w.enter("empty".into(), true);
    w.enter("b".into(), false);
    w.enter("a".into(), false);
    assert_eq!(w.next_dir().as_deref(), Some("empty"));
    assert_eq!(w.next_dir(), None);
    assert_eq!(w.finish(), (strings(&["a", "b"]), false));
}

#[test]
fn sorting_and_repeats() {
    let mut v = strings(&["b", "a", "ab", "B", "a"]);
    sort_names(&mut v);
    assert_eq!(v, ["B", "a", "a", "ab", "b"]);
    assert_eq!(drop_repeats(v), ["B", "a", "ab", "b"]);
}

#[test]
fn extensions() {
    for (p, e) in [
        ("a/b.rs", "rs"),
        ("a.b/c", ""),
        (".gitignore", ""),
        ("x.tar.gz", "gz"),
        ("dir.d/", "d"),
        ("dir.d/.", "d"),
        ("a.b/..", ""),
        ("", ""),
        ("end.", ""),
        ("..rs", "rs"),
    ] {
        assert_eq!(extension_of(p), e, "{p}");
        // As the standard library reads it.
        let std = std::path::Path::new(p).extension().and_then(|e| e.to_str()).unwrap_or("");
        assert_eq!(std, e, "{p}");
    }
}
