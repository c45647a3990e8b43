use purview::diff::{parse_unified_patch, ChangedFile, DiffSource, Hunk, ReviewStatus};
use purview::report::{count_status, review_report, review_totals};
use purview::review_state::{
    reply_file_name, reply_files, ComparisonKey, FileState, HunkState, OrphanedHunk, PostTime, Replies,
    Reply, ReviewState,
};
use purview::session::{
    apply_clicks, base_from_input, load_for_comparison, Resumed, Review,
};

fn sample() -> ReviewState {
    ReviewState {
        branch: "feature".into(),
        range: "main...HEAD".into(),
        files: vec![FileState {
            path: "src/a.rs".into(),
            hunks: vec![
                HunkState { header: "@@ -1 +1 @@".into(), status: "approved".into(), comment: None, anchor: String::new(), changed_since_review: false },
                HunkState { header: "@@ -9 +9 @@".into(), status: "rejected".into(), comment: Some("why".into()), anchor: String::new(), changed_since_review: false },
                HunkState { header: "@@ -20 +20 @@".into(), status: "unreviewed".into(), comment: None, anchor: String::new(), changed_since_review: false },
            ],
        }],
        orphaned: Vec::new(),
    }
}

#[test]
fn progress_counts_reviewed() {
    assert_eq!(sample().progress(), (2, 3));
}

#[test]
fn comparison_keys_sanitize_and_separate() {
    assert_eq!(ComparisonKey::WorkingTree.file_stem(), "worktree-vs-HEAD");
    assert_eq!(
        ComparisonKey::BranchRange { base: "main".into() }.file_stem(),
        "main__HEAD"
    );
    // Slashes (e.g. origin/feature) are sanitized to underscores.
    assert_eq!(
        ComparisonKey::BranchRange { base: "origin/feature".into() }.file_stem(),
        "origin_feature__HEAD"
    );
    // Different bases → different files (no collision).
    assert_ne!(
        ComparisonKey::BranchRange { base: "main".into() }.file_stem(),
        ComparisonKey::BranchRange { base: "develop".into() }.file_stem(),
    );
}

/// One-file diff from a unified patch (for re-anchor tests).
fn changed_files(patch: &str) -> Vec<ChangedFile> {
    parse_unified_patch(patch)
}

/// Build a saved ReviewState carrying a verdict+comment on the (only) hunk
/// of `patch`, computing the real anchor so re-anchoring can match it.
fn saved_from(patch: &str, status: &str, comment: &str) -> ReviewState {
    let files = changed_files(patch);
    let f = &files[0];
    let h = &f.hunks[0];
    ReviewState {
        branch: "b".into(),
        range: "main...HEAD".into(),
        files: vec![FileState {
            path: f.path.clone(),
            hunks: vec![HunkState {
                header: h.header.clone(),
                status: status.into(),
                comment: Some(comment.into()),
                anchor: h.content_anchor(),
                changed_since_review: false,
            }],
        }],
        orphaned: Vec::new(),
    }
}

const PATCH_A: &str =
    "diff --git a/f.txt b/f.txt\n--- a/f.txt\n+++ b/f.txt\n@@ -10,4 +10,4 @@\n ctx\n-old line\n+new line\n ctx2\n";

/// Anchor match across a shift → verdict carries SILENTLY (not stale).
#[test]
fn reanchor_carries_verdict_on_shifted_unchanged_hunk() {
    let saved = saved_from(PATCH_A, "approved", "looks good");
    // Same change, shifted to a different file offset (different @@).
    let shifted =
        "diff --git a/f.txt b/f.txt\n--- a/f.txt\n+++ b/f.txt\n@@ -300,4 +305,4 @@\n ctx\n-old line\n+new line\n ctx2\n";
    let mut live = changed_files(shifted);
    let orphans = saved.reanchor_onto(&mut live);
    assert_eq!(live[0].hunks[0].status, ReviewStatus::Approved);
    assert_eq!(live[0].hunks[0].comment, "looks good");
    assert!(!live[0].hunks[0].changed_since_review, "clean anchor match is silent");
    assert!(orphans.is_empty());
}

/// Content changed under the same @@ header → comment carried + flagged.
#[test]
fn reanchor_flags_changed_content_as_changed_since_review() {
    let saved = saved_from(PATCH_A, "rejected", "fix this");
    // Same header (@@ -10,4 +10,4 @@) but the replacement line differs.
    let edited =
        "diff --git a/f.txt b/f.txt\n--- a/f.txt\n+++ b/f.txt\n@@ -10,4 +10,4 @@\n ctx\n-old line\n+TOTALLY DIFFERENT\n ctx2\n";
    let mut live = changed_files(edited);
    let orphans = saved.reanchor_onto(&mut live);
    assert_eq!(live[0].hunks[0].comment, "fix this", "comment carried over");
    assert!(
        live[0].hunks[0].changed_since_review,
        "content changed under the same header → flagged"
    );
    assert!(orphans.is_empty());
}

/// Reviewed hunk gone from the diff → lands in the orphaned list.
#[test]
fn reanchor_orphans_a_vanished_hunk() {
    let saved = saved_from(PATCH_A, "rejected", "must change");
    // A completely different file/hunk in the new diff.
    let other =
        "diff --git a/g.txt b/g.txt\n--- a/g.txt\n+++ b/g.txt\n@@ -1,3 +1,3 @@\n x\n-y\n+Y\n";
    let mut live = changed_files(other);
    let orphans = saved.reanchor_onto(&mut live);
    // The live (unrelated) hunk got nothing.
    assert_eq!(live[0].hunks[0].status, ReviewStatus::Unreviewed);
    assert_eq!(orphans.len(), 1, "the vanished reviewed hunk is orphaned");
    assert_eq!(orphans[0].file, "f.txt");
    assert_eq!(orphans[0].comment.as_deref(), Some("must change"));
}

/// Migrated (anchor-less) saved hunks re-anchor by header, flagged stale
/// only if the content differs.
#[test]
fn reanchor_matches_old_anchorless_entry_by_header() {
    // Saved entry with NO anchor (as a migrated old file would have).
    let saved = ReviewState {
        branch: "b".into(),
        range: "main...HEAD".into(),
        files: vec![FileState {
            path: "f.txt".into(),
            hunks: vec![HunkState {
                header: "@@ -10,4 +10,4 @@".into(),
                status: "approved".into(),
                comment: Some("ok".into()),
                anchor: String::new(),
                changed_since_review: false,
            }],
        }],
        orphaned: Vec::new(),
    };
    let mut live = changed_files(PATCH_A);
    let orphans = saved.reanchor_onto(&mut live);
    assert_eq!(live[0].hunks[0].status, ReviewStatus::Approved);
    assert_eq!(live[0].hunks[0].comment, "ok");
    // No saved anchor to compare → conservatively flagged changed.
    assert!(live[0].hunks[0].changed_since_review);
    assert!(orphans.is_empty());
}

fn review(files: Vec<ChangedFile>) -> Review {
    Review {
        branch: "b".into(),
        source: DiffSource::BranchRange,
        base: "main".into(),
        files,
        orphaned: Vec::new(),
    }
}

#[test]
fn verdicts_and_comments_come_back_after_a_reload() {
    let mut r = review(changed_files(PATCH_A));
    r.files[0].hunks[0].status = ReviewStatus::Rejected;
    r.files[0].hunks[0].comment = "why".into();
    let saved = r.save_review_state();
    assert_eq!(saved.range, "main...HEAD");
    r.drop_files();
    r.take_diff("b".into(), changed_files(PATCH_A), Some(&saved));
    assert_eq!(r.files[0].hunks[0].status, ReviewStatus::Rejected);
    assert_eq!(r.files[0].hunks[0].comment, "why");
    assert!(!r.files[0].hunks[0].changed_since_review);
    assert!(r.orphaned.is_empty());
}

#[test]
fn a_vanished_verdict_stays_an_orphan_over_further_reloads() {
    let mut r = review(changed_files(PATCH_A));
    r.files[0].hunks[0].status = ReviewStatus::Approved;
    let saved = r.save_review_state();
    let other = "diff --git a/g.txt b/g.txt\n--- a/g.txt\n+++ b/g.txt\n@@ -1,3 +1,3 @@\n x\n-y\n+Y\n";
    r.take_diff("b".into(), changed_files(other), Some(&saved));
    assert_eq!(r.orphaned.len(), 1);
    let again = r.save_review_state();
    r.take_diff("b".into(), changed_files(other), Some(&again));
    assert_eq!(r.orphaned.len(), 1);
    assert_eq!(r.orphaned[0].status, "approved");
    assert!(r.has_review());
}

#[test]
fn each_saved_hunk_goes_to_one_live_hunk() {
    // The same change twice in the live diff: only the first one gets it.
    let twice = "diff --git a/f.txt b/f.txt\n--- a/f.txt\n+++ b/f.txt\n@@ -1,2 +1,2 @@\n-old line\n+new line\n@@ -50,2 +50,2 @@\n-old line\n+new line\n";
    let saved = saved_from(PATCH_A, "approved", "ok");
    let mut live = changed_files(twice);
    saved.reanchor_onto(&mut live);
    let got: Vec<ReviewStatus> = live[0].hunks.iter().map(|h| h.status).collect();
    assert_eq!(got, [ReviewStatus::Approved, ReviewStatus::Unreviewed]);
}

#[test]
fn anchors_follow_the_changes_and_nothing_else() {
    let a = changed_files(PATCH_A);
    let moved = changed_files(
        "diff --git a/f.txt b/f.txt\n--- a/f.txt\n+++ b/f.txt\n@@ -99,3 +98,3 @@\n other ctx\n-old line\n+new line\n",
    );
    assert_eq!(a[0].hunks[0].content_anchor(), moved[0].hunks[0].content_anchor());
    let swapped = changed_files(
        "diff --git a/f.txt b/f.txt\n--- a/f.txt\n+++ b/f.txt\n@@ -99,3 +98,3 @@\n+old line\n-new line\n",
    );
    assert_ne!(a[0].hunks[0].content_anchor(), swapped[0].hunks[0].content_anchor());
    assert_eq!(a[0].hunks[0].content_anchor().len(), 16);
    assert_eq!(Hunk::new("@@ -1 +1 @@".into()).content_anchor(), "");
}

#[test]
fn an_anchor_is_exactly_this() {
    let h = changed_files(
        "diff --git a/f b/f\n--- a/f\n+++ b/f\n@@ -1 +1 @@\n-a\n+b\n",
    );
    // FNV-1a over the bytes of the signed changed lines.
    let mut x: u64 = 0xcbf29ce484222325;
    for b in "-a\n+b\n".bytes() {
        x ^= b as u64;
        x = x.wrapping_mul(0x100000001b3);
    }
    assert_eq!(h[0].hunks[0].content_anchor(), format!("{x:016x}"));
}

#[test]
fn the_own_file_of_a_comparison_comes_first() {
    let key = ComparisonKey::of(DiffSource::BranchRange, "main");
    assert!(matches!(
        load_for_comparison(Some(sample()), Some(sample()), &key),
        Resumed::Own(_)
    ));
    assert!(matches!(load_for_comparison(None, Some(sample()), &key), Resumed::Migrated(_)));
    // The single file is of another comparison.
    let other = ComparisonKey::of(DiffSource::BranchRange, "develop");
    assert!(matches!(load_for_comparison(None, Some(sample()), &other), Resumed::Fresh));
    assert!(matches!(load_for_comparison(None, None, &key), Resumed::Fresh));
}

#[test]
fn state_lives_below_the_purview_directory() {
    assert_eq!(ReviewState::path_for("/r"), "/r/.purview/review-state.json");
    assert_eq!(
        ReviewState::path_for_comparison("/r/", &ComparisonKey::WorkingTree),
        "/r/.purview/state/worktree-vs-HEAD.json"
    );
    assert_eq!(Replies::dir_for(""), ".purview/replies");
}

#[test]
fn labels_name_the_comparison() {
    assert_eq!(ComparisonKey::WorkingTree.range_label(), "working tree vs HEAD");
    assert_eq!(
        ComparisonKey::of(DiffSource::BranchRange, "origin/x").range_label(),
        "origin/x...HEAD"
    );
}

#[test]
fn sanitized_stems_are_one_component_and_keep_letters_of_any_script() {
    let stem = ComparisonKey::BranchRange { base: "größe/a b:c".into() }.file_stem();
    assert_eq!(stem, "größe_a_b_c__HEAD");
    assert!(!stem.contains('/'));
}

#[test]
fn replies_are_found_by_header_or_by_anchor() {
    let reply = |header: &str, anchor: &str| Reply {
        file: "a.rs".into(),
        hunk_header: header.into(),
        text: "done".into(),
        anchor: anchor.into(),
    };
    let all = Replies { replies: vec![reply("@@ 1", ""), reply("@@ 2", "abc"), reply("@@ 3", "abc")] };
    assert_eq!(all.for_hunk("a.rs", "@@ 1").len(), 1);
    assert_eq!(all.for_hunk("b.rs", "@@ 1").len(), 0);
    // The header shifted; the anchor still finds both.
    assert_eq!(all.for_hunk_anchored("a.rs", "@@ 9", "abc").len(), 2);
    // An empty anchor never matches.
    assert_eq!(all.for_hunk_anchored("a.rs", "@@ 9", "").len(), 0);
    assert_eq!(all.for_hunk_anchored("a.rs", "@@ 1", "abc").len(), 3);
    assert_eq!(Replies::default().replies.len(), 0);
}

#[test]
fn reply_files_come_in_post_order() {
    let at = |millis, nanos, count| PostTime { millis, nanos, count };
    assert_eq!(
        reply_file_name(at(1700000000123, 123000007, 5), 42),
        "1700000000123-0123000007000000000000000000050000000042.json"
    );
    assert_eq!(
        reply_file_name(at(10_000_000_000_000, 0, 0), 1),
        "x00000010000000000000-0000000000000000000000000000000000000001.json"
    );
    // Each is posted before the next: in another millisecond, in one millisecond,
    // and within one tick of the clock. A name of another make keeps its place.
    let posted = [
        reply_file_name(at(999, 99999, 0), 9),
        reply_file_name(at(999, 100000, 1), 9),
        reply_file_name(at(999, 100000, 2), 9),
        reply_file_name(at(1000, 5, 0), 1),
        "1700000000123-42-7.json".to_string(),
        reply_file_name(at(1700000000124, 0, 0), 42),
        reply_file_name(at(9_999_999_999_999, 0, 0), 42),
        reply_file_name(at(10_000_000_000_000, 0, 0), 1),
        reply_file_name(at(u64::MAX, u32::MAX, u64::MAX), u32::MAX),
    ];
    let mut names: Vec<String> = posted.iter().rev().cloned().collect();
    names.insert(1, "notes.txt".to_string());
    names.insert(2, ".json".to_string());
    names.push("x.json.tmp".to_string());
    assert_eq!(reply_files(&names), posted);
}

fn two_hunks() -> Vec<ChangedFile> {
    changed_files(
        "diff --git a/f.txt b/f.txt\n--- a/f.txt\n+++ b/f.txt\n@@ -1,1 +1,1 @@\n-a\n+b\n@@ -9,1 +9,1 @@\n-c\n+d\n",
    )
}

#[test]
fn clicks_touch_their_hunks_and_the_last_one_decides() {
    let mut files = two_hunks();
    files[0].hunks[1].changed_since_review = true;
    let clicks = [
        (1, ReviewStatus::Approved),
        (1, ReviewStatus::Rejected),
        (7, ReviewStatus::Approved),
    ];
    assert!(apply_clicks(&mut files, 0, &clicks));
    assert_eq!(files[0].hunks[0].status, ReviewStatus::Unreviewed);
    assert_eq!(files[0].hunks[1].status, ReviewStatus::Rejected);
    assert!(!files[0].hunks[1].changed_since_review);
    assert!(!apply_clicks(&mut files, 0, &[]));
    assert!(apply_clicks(&mut files, 5, &clicks));
}

#[test]
fn totals_count_every_hunk_once() {
    let mut files = two_hunks();
    files[0].hunks[0].status = ReviewStatus::Approved;
    assert_eq!(review_totals(&files), (1, 2));
    assert_eq!(count_status(&files, ReviewStatus::Approved), 1);
    assert_eq!(count_status(&files, ReviewStatus::Rejected), 0);
    assert_eq!(count_status(&files, ReviewStatus::Unreviewed), 1);
}

#[test]
fn the_report_is_a_complete_record() {
    let mut files = two_hunks();
    files[0].hunks[0].status = ReviewStatus::Approved;
    files[0].hunks[0].comment = "nice\nwork".into();
    files[0].hunks[1].status = ReviewStatus::Rejected;
    files[0].hunks[1].comment = "no".into();
    files[0].hunks[1].changed_since_review = true;
    let orphan = OrphanedHunk {
        file: "g.txt".into(),
        header: "@@ -5 +5 @@".into(),
        status: "rejected".into(),
        comment: Some("gone".into()),
        anchor: String::new(),
    };
    let r = review_report("feat", DiffSource::BranchRange, "main", &files, &[orphan]);
    assert!(r.starts_with("# Review report — feat\n\nRange: main...HEAD\n\nProgress: 2/2 hunks reviewed — 1 approved, 1 rejected, 0 unreviewed.\n\n"));
    for part in ["Approved hunks", "nice", "work", "Rejected hunks", "no", "g.txt", "gone", "@@ -5 +5 @@"] {
        assert!(r.contains(part), "{part} in {r}");
    }
    assert!(r.contains("changed since reviewed"));
}

#[test]
fn a_typed_base_is_trimmed() {
    assert_eq!(base_from_input("  origin/main \n"), "origin/main");
}

#[test]
fn malformed_replies_are_skipped() {
    let reply = |text: &str| Reply {
        file: "a.rs".into(),
        hunk_header: "@@".into(),
        text: text.into(),
        anchor: String::new(),
    };
    let read = [Some(reply("one")), None, Some(reply("two")), Some(reply("one"))];
    let texts: Vec<String> = Replies::load(&read).replies.into_iter().map(|r| r.text).collect();
    assert_eq!(texts, ["one", "two", "one"]);
    assert!(Replies::load(&[]).replies.is_empty());
}
