//! The review report: a complete record in Markdown, to hand to the author of
//! the changes.

use crate::diff::{ChangedFile, DiffSource, Hunk, ReviewStatus};
use crate::number::push_decimal;
use crate::review_state::{ComparisonKey, OrphanedHunk};
use crate::text::{chars_of, lines_of, string_of, trimmed};
use vstd::prelude::*;

verus! {

/// How many hunks these files have.
pub open spec fn total_hunks(files: Seq<crate::diff::FileModel>) -> nat
    decreases files.len(),
{
    if files.len() == 0 {
        0
    } else {
        total_hunks(files.drop_last()) + files.last().hunks.len()
    }
}

/// How many of these hunks have this status.
pub open spec fn with_status(hunks: Seq<crate::diff::HunkModel>, status: ReviewStatus) -> nat
    decreases hunks.len(),
{
    if hunks.len() == 0 {
        0
    } else {
        with_status(hunks.drop_last(), status) + if hunks.last().status == status {
            1nat
        } else {
            0nat
        }
    }
}

/// How many hunks of these files have this status.
pub open spec fn total_with_status(
    files: Seq<crate::diff::FileModel>,
    status: ReviewStatus,
) -> nat
    decreases files.len(),
{
    if files.len() == 0 {
        0
    } else {
        total_with_status(files.drop_last(), status) + with_status(files.last().hunks, status)
    }
}

/// How many hunks of these files have a verdict.
pub open spec fn total_reviewed(files: Seq<crate::diff::FileModel>) -> nat
    decreases files.len(),
{
    if files.len() == 0 {
        0
    } else {
        total_reviewed(files.drop_last()) + crate::diff::reviewed_hunks(files.last().hunks)
    }
}

pub proof fn lemma_totals_grow(files: Seq<crate::diff::FileModel>, i: int)
    requires
        0 <= i <= files.len(),
    ensures
        total_hunks(files.take(i)) <= total_hunks(files),
    decreases files.len() - i,
{
    if i < files.len() {
        assert(files.take(i + 1).drop_last() == files.take(i));
        lemma_totals_grow(files, i + 1);
    } else {
        assert(files.take(i) == files);
    }
}

proof fn lemma_counts_of_hunks(hunks: Seq<crate::diff::HunkModel>)
    ensures
        with_status(hunks, ReviewStatus::Approved) + with_status(hunks, ReviewStatus::Rejected)
            == crate::diff::reviewed_hunks(hunks),
        crate::diff::reviewed_hunks(hunks) + with_status(hunks, ReviewStatus::Unreviewed)
            == hunks.len(),
    decreases hunks.len(),
{
    if hunks.len() > 0 {
        lemma_counts_of_hunks(hunks.drop_last());
    }
}

/// Every hunk is counted once: approved, rejected and unreviewed make up the
/// total, and the first two the reviewed.
pub proof fn counts_add_up(files: Seq<crate::diff::FileModel>)
    ensures
        total_with_status(files, ReviewStatus::Approved) + total_with_status(
            files,
            ReviewStatus::Rejected,
        ) == total_reviewed(files),
        total_reviewed(files) + total_with_status(files, ReviewStatus::Unreviewed) == total_hunks(
            files,
        ),
    decreases files.len(),
{
    if files.len() > 0 {
        counts_add_up(files.drop_last());
        lemma_counts_of_hunks(files.last().hunks);
    }
}

/// (reviewed, total) hunks across all changed files.
pub fn review_totals(files: &[ChangedFile]) -> (r: (usize, usize))
    requires
        total_hunks(crate::seqs::views(files@)) <= usize::MAX,
    ensures
        r.0 == total_reviewed(crate::seqs::views(files@)),
        r.1 == total_hunks(crate::seqs::views(files@)),
        r.0 <= r.1,
{
    let ghost fs = crate::seqs::views(files@);
    let mut reviewed: usize = 0;
    let mut total: usize = 0;
    for i in 0..files.len()
        invariant
            fs == crate::seqs::views(files@),
            total_hunks(fs) <= usize::MAX,
            reviewed == total_reviewed(fs.take(i as int)),
            total == total_hunks(fs.take(i as int)),
    {
        assert(fs.take(i + 1).drop_last() == fs.take(i as int));
        assert(fs[i as int] == files@[i as int]@);
        proof {
            lemma_totals_grow(fs, i + 1);
            counts_add_up(fs.take(i + 1));
        }
        let (r, t) = files[i].progress();
        reviewed = reviewed + r;
        total = total + t;
    }
    assert(fs.take(fs.len() as int) == fs);
    proof {
        counts_add_up(fs);
    }
    (reviewed, total)
}

/// How many hunks have this status.
pub fn count_status(files: &[ChangedFile], status: ReviewStatus) -> (r: usize)
    requires
        total_hunks(crate::seqs::views(files@)) <= usize::MAX,
    ensures
        r == total_with_status(crate::seqs::views(files@), status),
{
    let ghost fs = crate::seqs::views(files@);
    let mut count: usize = 0;
    for i in 0..files.len()
        invariant
            fs == crate::seqs::views(files@),
            total_hunks(fs) <= usize::MAX,
            count == total_with_status(fs.take(i as int), status),
    {
        let hunks = &files[i].hunks;
        let ghost hs = fs[i as int].hunks;
        assert(hs == crate::seqs::views(hunks@));
        assert(fs.take(i + 1).drop_last() == fs.take(i as int));
        proof {
            lemma_totals_grow(fs, i + 1);
            counts_add_up(fs.take(i + 1));
        }
        let ghost before = count;
        let n: usize = hunks.len();
        for k in 0..n
            invariant
                n == hunks@.len(),
                hs == crate::seqs::views(hunks@),
                before + with_status(hs, status) <= usize::MAX,
                count == before + with_status(hs.take(k as int), status),
        {
            assert(hs.take(k + 1).drop_last() == hs.take(k as int));
            assert(hs[k as int] == hunks@[k as int]@);
            proof {
                lemma_with_status_grows(hs, status, k + 1);
            }
            if hunks[k].status == status {
                count = count + 1;
            }
        }
        assert(hs.take(hs.len() as int) == hs);
    }
    assert(fs.take(fs.len() as int) == fs);
    count
}

proof fn lemma_with_status_grows(
    hunks: Seq<crate::diff::HunkModel>,
    status: ReviewStatus,
    i: int,
)
    requires
        0 <= i <= hunks.len(),
    ensures
        with_status(hunks.take(i), status) <= with_status(hunks, status),
    decreases hunks.len() - i,
{
    if i < hunks.len() {
        assert(hunks.take(i + 1).drop_last() == hunks.take(i));
        lemma_with_status_grows(hunks, status, i + 1);
    } else {
        assert(hunks.take(i) == hunks);
    }
}

/// Each line as a point of a nested list.
pub open spec fn nested_points(ls: Seq<Seq<char>>) -> Seq<char>
    decreases ls.len(),
{
    if ls.len() == 0 {
        Seq::empty()
    } else {
        nested_points(ls.drop_last()) + "  - "@ + ls.last() + "\n"@
    }
}

/// A comment, line by line, without the white space around it.
pub open spec fn comment_points(comment: Seq<char>) -> Seq<char> {
    nested_points(crate::text::lines(crate::text::trim(comment)))
}

/// The entry of a hunk: its header, a warning where its changes have changed,
/// and its comment underneath.
pub open spec fn hunk_entry(h: crate::diff::HunkModel) -> Seq<char> {
    "- `"@ + crate::text::trim(h.header) + "`"@ + (if h.changed_since_review {
        " ⚠ changed since reviewed"@
    } else {
        Seq::empty()
    }) + "\n"@ + comment_points(h.comment)
}

/// The entries of the hunks with this status.
pub open spec fn hunk_entries(
    hunks: Seq<crate::diff::HunkModel>,
    status: ReviewStatus,
) -> Seq<char>
    decreases hunks.len(),
{
    if hunks.len() == 0 {
        Seq::empty()
    } else if hunks.last().status == status {
        hunk_entries(hunks.drop_last(), status) + hunk_entry(hunks.last())
    } else {
        hunk_entries(hunks.drop_last(), status)
    }
}

/// The part of a file in the section of a status: nothing where it has no such
/// hunk.
pub open spec fn file_part(f: crate::diff::FileModel, status: ReviewStatus) -> Seq<char> {
    if with_status(f.hunks, status) == 0 {
        Seq::empty()
    } else {
        "### "@ + f.path + "\n\n"@ + hunk_entries(f.hunks, status) + "\n"@
    }
}

/// The parts of these files in the section of a status.
pub open spec fn file_parts(
    files: Seq<crate::diff::FileModel>,
    status: ReviewStatus,
) -> Seq<char>
    decreases files.len(),
{
    if files.len() == 0 {
        Seq::empty()
    } else {
        file_parts(files.drop_last(), status) + file_part(files.last(), status)
    }
}

/// The section of a status: nothing where no hunk has it.
pub open spec fn section(
    files: Seq<crate::diff::FileModel>,
    title: Seq<char>,
    status: ReviewStatus,
) -> Seq<char> {
    if total_with_status(files, status) == 0 {
        Seq::empty()
    } else {
        "## "@ + title + "\n\n"@ + file_parts(files, status)
    }
}

/// The entry of an orphan.
pub open spec fn orphan_entry(o: crate::review_state::OrphanModel) -> Seq<char> {
    "- `"@ + crate::text::trim(o.header) + "` ("@ + o.status + ")\n"@ + (match o.comment {
        Some(c) => comment_points(c),
        None => Seq::empty(),
    })
}

/// The entries of the orphans of this file.
pub open spec fn orphan_entries(
    orphans: Seq<crate::review_state::OrphanModel>,
    file: Seq<char>,
) -> Seq<char>
    decreases orphans.len(),
{
    if orphans.len() == 0 {
        Seq::empty()
    } else if orphans.last().file == file {
        orphan_entries(orphans.drop_last(), file) + orphan_entry(orphans.last())
    } else {
        orphan_entries(orphans.drop_last(), file)
    }
}

/// The files of these orphans, each once, in the order in which they come up.
pub open spec fn orphan_files(orphans: Seq<crate::review_state::OrphanModel>) -> Seq<Seq<char>>
    decreases orphans.len(),
{
    if orphans.len() == 0 {
        Seq::empty()
    } else {
        let before = orphan_files(orphans.drop_last());
        if before.contains(orphans.last().file) {
            before
        } else {
            before.push(orphans.last().file)
        }
    }
}

/// The orphans of these files.
pub open spec fn stale_parts(
    orphans: Seq<crate::review_state::OrphanModel>,
    files: Seq<Seq<char>>,
) -> Seq<char>
    decreases files.len(),
{
    if files.len() == 0 {
        Seq::empty()
    } else {
        stale_parts(orphans, files.drop_last()) + "### "@ + files.last() + "\n\n"@
            + orphan_entries(orphans, files.last()) + "\n"@
    }
}

/// The section of the hunks that are no longer in the diff.
pub open spec fn stale_section(orphans: Seq<crate::review_state::OrphanModel>) -> Seq<char> {
    if orphans.len() == 0 {
        Seq::empty()
    } else {
        "## Stale (no longer in diff)\n\n"@ + stale_parts(orphans, orphan_files(orphans))
    }
}

/// The first lines: the branch, the range and the counts.
pub open spec fn report_head(
    branch: Seq<char>,
    range: Seq<char>,
    files: Seq<crate::diff::FileModel>,
) -> Seq<char> {
    "# Review report — "@ + branch + "\n\n"@ + "Range: "@ + range + "\n\n"@ + "Progress: "@
        + crate::number::decimal(total_reviewed(files)) + "/"@ + crate::number::decimal(
        total_hunks(files),
    ) + " hunks reviewed — "@ + crate::number::decimal(
        total_with_status(files, ReviewStatus::Approved),
    ) + " approved, "@ + crate::number::decimal(
        total_with_status(files, ReviewStatus::Rejected),
    ) + " rejected, "@ + crate::number::decimal(
        (total_hunks(files) - total_reviewed(files)) as nat,
    ) + " unreviewed.\n\n"@
}

/// The report of a review. One section per status, in the order in which they
/// matter to the author; then what is no longer in the diff.
pub open spec fn report(
    branch: Seq<char>,
    range: Seq<char>,
    files: Seq<crate::diff::FileModel>,
    orphans: Seq<crate::review_state::OrphanModel>,
) -> Seq<char> {
    report_head(branch, range, files) + section(
        files,
        "Rejected hunks (need changes)"@,
        ReviewStatus::Rejected,
    ) + section(files, "Approved hunks"@, ReviewStatus::Approved) + section(
        files,
        "Still unreviewed"@,
        ReviewStatus::Unreviewed,
    ) + stale_section(orphans) + (if total_hunks(files) == 0 && orphans.len() == 0 {
        "No changes to review.\n"@
    } else {
        Seq::empty()
    })
}

fn push_trimmed(s: &mut String, text: &str)
    ensures
        final(s)@ == old(s)@ + crate::text::trim(text@),
{
    let cs = chars_of(text);
    s.append(string_of(trimmed(cs.as_slice())).as_str());
}

fn push_comment(s: &mut String, comment: &str)
    ensures
        final(s)@ == old(s)@ + comment_points(comment@),
{
    let cs = chars_of(comment);
    let body = string_of(trimmed(cs.as_slice()));
    let lines = lines_of(body.as_str());
    let ghost ls = crate::text::lines(crate::text::trim(comment@));
    let ghost start = s@;
    for i in 0..lines.len()
        invariant
            ls == crate::seqs::views(lines@),
            s@ == start + nested_points(ls.take(i as int)),
    {
        assert(ls.take(i + 1).drop_last() == ls.take(i as int));
        assert(ls.take(i + 1).last() == lines@[i as int]@);
        s.append("  - ");
        s.append(lines[i].as_str());
        s.append("\n");
        assert(s@ == start + nested_points(ls.take(i + 1)));
    }
    assert(ls.take(ls.len() as int) == ls);
}

fn push_hunk_entry(s: &mut String, h: &Hunk)
    ensures
        final(s)@ == old(s)@ + hunk_entry(h@),
{
    let ghost start = s@;
    s.append("- `");
    push_trimmed(s, h.header.as_str());
    s.append("`");
    if h.changed_since_review {
        s.append(" ⚠ changed since reviewed");
    }
    s.append("\n");
    push_comment(s, h.comment.as_str());
    assert(s@ == start + hunk_entry(h@));
}

fn push_file_part(s: &mut String, f: &ChangedFile, status: ReviewStatus)
    ensures
        final(s)@ == old(s)@ + file_part(f@, status),
{
    let ghost start = s@;
    let ghost hs = f@.hunks;
    let mut entries = String::new();
    let mut any = false;
    for i in 0..f.hunks.len()
        invariant
            hs == crate::seqs::views(f.hunks@),
            entries@ == hunk_entries(hs.take(i as int), status),
            any == (with_status(hs.take(i as int), status) > 0),
    {
        assert(hs.take(i + 1).drop_last() == hs.take(i as int));
        assert(hs.take(i + 1).last() == f.hunks@[i as int]@);
        if f.hunks[i].status == status {
            any = true;
            push_hunk_entry(&mut entries, &f.hunks[i]);
        }
    }
    assert(hs.take(hs.len() as int) == hs);
    if any {
        s.append("### ");
        s.append(f.path.as_str());
        s.append("\n\n");
        s.append(entries.as_str());
        s.append("\n");
    }
    assert(s@ == start + file_part(f@, status));
}

fn push_section(s: &mut String, files: &[ChangedFile], title: &str, status: ReviewStatus)
    ensures
        final(s)@ == old(s)@ + section(crate::seqs::views(files@), title@, status),
{
    let ghost start = s@;
    let ghost fs = crate::seqs::views(files@);
    let mut parts = String::new();
    for i in 0..files.len()
        invariant
            fs == crate::seqs::views(files@),
            parts@ == file_parts(fs.take(i as int), status),
    {
        assert(fs.take(i + 1).drop_last() == fs.take(i as int));
        assert(fs.take(i + 1).last() == files@[i as int]@);
        push_file_part(&mut parts, &files[i], status);
    }
    assert(fs.take(fs.len() as int) == fs);
    proof {
        lemma_parts_empty_iff_none(fs, status);
    }
    if !parts.as_str().is_empty() {
        s.append("## ");
        s.append(title);
        s.append("\n\n");
        s.append(parts.as_str());
    }
    assert(s@ == start + section(fs, title@, status));
}

proof fn lemma_parts_empty_iff_none(files: Seq<crate::diff::FileModel>, status: ReviewStatus)
    ensures
        file_parts(files, status).len() == 0 <==> total_with_status(files, status) == 0,
    decreases files.len(),
{
    if files.len() > 0 {
        lemma_parts_empty_iff_none(files.drop_last(), status);
        reveal_strlit("\n");
    }
}

fn push_orphan_entry(s: &mut String, o: &OrphanedHunk)
    ensures
        final(s)@ == old(s)@ + orphan_entry(o@),
{
    let ghost start = s@;
    s.append("- `");
    push_trimmed(s, o.header.as_str());
    s.append("` (");
    s.append(o.status.as_str());
    s.append(")\n");
    if let Some(c) = &o.comment {
        push_comment(s, c.as_str());
    }
    assert(s@ == start + orphan_entry(o@));
}

fn files_of_orphans(orphans: &[OrphanedHunk]) -> (r: Vec<String>)
    ensures
        crate::seqs::views(r@) == orphan_files(crate::seqs::views(orphans@)),
{
    let ghost os = crate::seqs::views(orphans@);
    let mut r: Vec<String> = Vec::new();
    assert(crate::seqs::views(r@) == Seq::<Seq<char>>::empty());
    for i in 0..orphans.len()
        invariant
            os == crate::seqs::views(orphans@),
            crate::seqs::views(r@) == orphan_files(os.take(i as int)),
    {
        let file = &orphans[i].file;
        let ghost before = crate::seqs::views(r@);
        assert(os.take(i + 1).drop_last() == os.take(i as int));
        assert(os.take(i + 1).last().file == file@);
        let mut known = false;
        let n: usize = r.len();
        for k in 0..n
            invariant
                n == r@.len(),
                before == crate::seqs::views(r@),
                known == exists|j: int| 0 <= j < k && #[trigger] before[j] == file@,
        {
            assert(before[k as int] == r@[k as int]@);
            if r[k] == *file {
                known = true;
            }
        }
        assert(known == before.contains(file@));
        if !known {
            proof {
                crate::seqs::lemma_views_push(r@, *file);
            }
            r.push(file.clone());
        }
    }
    assert(os.take(os.len() as int) == os);
    r
}

fn push_stale(s: &mut String, orphans: &[OrphanedHunk])
    ensures
        final(s)@ == old(s)@ + stale_section(crate::seqs::views(orphans@)),
{
    let ghost start = s@;
    let ghost os = crate::seqs::views(orphans@);
    if orphans.len() == 0 {
        assert(start + stale_section(os) == start);
        return ;
    }
    s.append("## Stale (no longer in diff)\n\n");
    let files = files_of_orphans(orphans);
    let ghost fs = crate::seqs::views(files@);
    let ghost head = s@;
    for i in 0..files.len()
        invariant
            os == crate::seqs::views(orphans@),
            fs == crate::seqs::views(files@),
            s@ == head + stale_parts(os, fs.take(i as int)),
    {
        let file = &files[i];
        assert(fs.take(i + 1).drop_last() == fs.take(i as int));
        assert(fs.take(i + 1).last() == file@);
        s.append("### ");
        s.append(file.as_str());
        s.append("\n\n");
        let ghost mid = s@;
        for k in 0..orphans.len()
            invariant
                os == crate::seqs::views(orphans@),
                s@ == mid + orphan_entries(os.take(k as int), file@),
        {
            assert(os.take(k + 1).drop_last() == os.take(k as int));
            assert(os.take(k + 1).last() == orphans@[k as int]@);
            if orphans[k].file == *file {
                push_orphan_entry(s, &orphans[k]);
                assert(s@ == mid + orphan_entries(os.take(k + 1), file@));
            }
        }
        assert(os.take(os.len() as int) == os);
        s.append("\n");
        assert(s@ == head + stale_parts(os, fs.take(i + 1)));
    }
    assert(fs.take(fs.len() as int) == fs);
    assert(s@ == start + stale_section(os));
}

/// Build a markdown review report: the artifact to hand to the author.
/// A COMPLETE record: counts, then Rejected / Approved / Unreviewed sections
/// per file, then what is no longer in the diff. Every hunk carries its comment
/// regardless of status.
pub fn review_report(
    branch: &str,
    source: DiffSource,
    base: &str,
    files: &[ChangedFile],
    orphaned: &[OrphanedHunk],
) -> (s: String)
    requires
        total_hunks(crate::seqs::views(files@)) <= usize::MAX,
    ensures
        s@ == report(
            branch@,
            crate::review_state::label(crate::review_state::key_of(source, base@)),
            crate::seqs::views(files@),
            crate::seqs::views(orphaned@),
        ),
{
    let ghost fs = crate::seqs::views(files@);
    let (rev, tot) = review_totals(files);
    let approved = count_status(files, ReviewStatus::Approved);
    let rejected = count_status(files, ReviewStatus::Rejected);
    let range = ComparisonKey::of(source, base).range_label();
    let mut s = String::new();
    s.append("# Review report — ");
    s.append(branch);
    s.append("\n\n");
    s.append("Range: ");
    s.append(range.as_str());
    s.append("\n\n");
    s.append("Progress: ");
    push_decimal(&mut s, rev as u64);
    s.append("/");
    push_decimal(&mut s, tot as u64);
    s.append(" hunks reviewed — ");
    push_decimal(&mut s, approved as u64);
    s.append(" approved, ");
    push_decimal(&mut s, rejected as u64);
    s.append(" rejected, ");
    push_decimal(&mut s, (tot - rev) as u64);
    s.append(" unreviewed.\n\n");
    assert(s@ == report_head(branch@, range@, fs));
    push_section(&mut s, files, "Rejected hunks (need changes)", ReviewStatus::Rejected);
    push_section(&mut s, files, "Approved hunks", ReviewStatus::Approved);
    push_section(&mut s, files, "Still unreviewed", ReviewStatus::Unreviewed);
    push_stale(&mut s, orphaned);
    if tot == 0 && orphaned.len() == 0 {
        s.append("No changes to review.\n");
    }
    s
}

proof fn lemma_occurs_within(a: Seq<char>, s: Seq<char>, b: Seq<char>, p: Seq<char>)
    requires
        crate::text::occurs(s, p),
    ensures
        crate::text::occurs(a + s + b, p),
        crate::text::occurs(a + s, p),
        crate::text::occurs(s + b, p),
{
    let i = choose|i: int| #[trigger] crate::text::stands_at(s, p, i);
    assert((a + s + b).subrange(a.len() + i, a.len() + i + p.len()) == p);
    assert(crate::text::stands_at(a + s + b, p, a.len() + i));
    assert((a + s).subrange(a.len() + i, a.len() + i + p.len()) == p);
    assert(crate::text::stands_at(a + s, p, a.len() + i));
    assert((s + b).subrange(i, i + p.len()) == p);
    assert(crate::text::stands_at(s + b, p, i));
}

proof fn lemma_occurs_itself(p: Seq<char>)
    ensures
        crate::text::occurs(p, p),
{
    assert(p.subrange(0, p.len() as int) == p);
    assert(crate::text::stands_at(p, p, 0));
}

proof fn lemma_entry_in_entries(
    hunks: Seq<crate::diff::HunkModel>,
    status: ReviewStatus,
    hi: int,
)
    requires
        0 <= hi < hunks.len(),
        hunks[hi].status == status,
    ensures
        crate::text::occurs(hunk_entries(hunks, status), hunk_entry(hunks[hi])),
        with_status(hunks, status) > 0,
    decreases hunks.len(),
{
    let before = hunk_entries(hunks.drop_last(), status);
    let none = Seq::<char>::empty();
    if hi == hunks.len() - 1 {
        lemma_occurs_itself(hunk_entry(hunks[hi]));
        lemma_occurs_within(before, hunk_entry(hunks[hi]), none, hunk_entry(hunks[hi]));
    } else {
        lemma_entry_in_entries(hunks.drop_last(), status, hi);
        if hunks.last().status == status {
            lemma_occurs_within(none, before, hunk_entry(hunks.last()), hunk_entry(hunks[hi]));
        }
    }
}

proof fn lemma_entry_in_parts(
    files: Seq<crate::diff::FileModel>,
    status: ReviewStatus,
    fi: int,
    hi: int,
)
    requires
        0 <= fi < files.len(),
        0 <= hi < files[fi].hunks.len(),
        files[fi].hunks[hi].status == status,
    ensures
        crate::text::occurs(file_parts(files, status), hunk_entry(files[fi].hunks[hi])),
        total_with_status(files, status) > 0,
    decreases files.len(),
{
    let entry = hunk_entry(files[fi].hunks[hi]);
    let none = Seq::<char>::empty();
    let before = file_parts(files.drop_last(), status);
    if fi == files.len() - 1 {
        let f = files[fi];
        lemma_entry_in_entries(f.hunks, status, hi);
        lemma_occurs_within(
            "### "@ + f.path + "\n\n"@,
            hunk_entries(f.hunks, status),
            "\n"@,
            entry,
        );
        lemma_occurs_within(before, file_part(f, status), none, entry);
    } else {
        lemma_entry_in_parts(files.drop_last(), status, fi, hi);
        lemma_occurs_within(none, before, file_part(files.last(), status), entry);
    }
}

/// Every hunk is in the report, with its comment, whatever its status.
pub proof fn every_hunk_is_reported(
    branch: Seq<char>,
    range: Seq<char>,
    files: Seq<crate::diff::FileModel>,
    orphans: Seq<crate::review_state::OrphanModel>,
    fi: int,
    hi: int,
)
    requires
        0 <= fi < files.len(),
        0 <= hi < files[fi].hunks.len(),
    ensures
        crate::text::occurs(report(branch, range, files, orphans), hunk_entry(files[fi].hunks[hi])),
{
    let h = files[fi].hunks[hi];
    let entry = hunk_entry(h);
    let none = Seq::<char>::empty();
    let title = match h.status {
        ReviewStatus::Rejected => "Rejected hunks (need changes)"@,
        ReviewStatus::Approved => "Approved hunks"@,
        ReviewStatus::Unreviewed => "Still unreviewed"@,
    };
    lemma_entry_in_parts(files, h.status, fi, hi);
    lemma_occurs_within(
        "## "@ + title + "\n\n"@,
        file_parts(files, h.status),
        none,
        entry,
    );
    let head = report_head(branch, range, files);
    let r = section(files, "Rejected hunks (need changes)"@, ReviewStatus::Rejected);
    let a = section(files, "Approved hunks"@, ReviewStatus::Approved);
    let u = section(files, "Still unreviewed"@, ReviewStatus::Unreviewed);
    let stale = stale_section(orphans);
    let tail = if total_hunks(files) == 0 && orphans.len() == 0 {
        "No changes to review.\n"@
    } else {
        Seq::empty()
    };
    let whole = report(branch, range, files, orphans);
    match h.status {
        ReviewStatus::Rejected => {
            lemma_occurs_within(head, r, a + u + stale + tail, entry);
            assert(head + r + (a + u + stale + tail) == whole);
        },
        ReviewStatus::Approved => {
            lemma_occurs_within(head + r, a, u + stale + tail, entry);
            assert(head + r + a + (u + stale + tail) == whole);
        },
        ReviewStatus::Unreviewed => {
            lemma_occurs_within(head + r + a, u, stale + tail, entry);
            assert(head + r + a + u + (stale + tail) == whole);
        },
    }
}

proof fn lemma_orphan_in_entries(orphans: Seq<crate::review_state::OrphanModel>, j: int)
    requires
        0 <= j < orphans.len(),
    ensures
        crate::text::occurs(orphan_entries(orphans, orphans[j].file), orphan_entry(orphans[j])),
    decreases orphans.len(),
{
    let file = orphans[j].file;
    let entry = orphan_entry(orphans[j]);
    let none = Seq::<char>::empty();
    let before = orphan_entries(orphans.drop_last(), file);
    if j == orphans.len() - 1 {
        lemma_occurs_itself(entry);
        lemma_occurs_within(before, entry, none, entry);
    } else {
        lemma_orphan_in_entries(orphans.drop_last(), j);
        if orphans.last().file == file {
            lemma_occurs_within(none, before, orphan_entry(orphans.last()), entry);
        }
    }
}

proof fn lemma_orphan_file_known(orphans: Seq<crate::review_state::OrphanModel>, j: int)
    requires
        0 <= j < orphans.len(),
    ensures
        orphan_files(orphans).contains(orphans[j].file),
    decreases orphans.len(),
{
    let before = orphan_files(orphans.drop_last());
    let all = orphan_files(orphans);
    if j < orphans.len() - 1 {
        lemma_orphan_file_known(orphans.drop_last(), j);
        let i = before.index_of(orphans[j].file);
        assert(all[i] == orphans[j].file);
    } else if !before.contains(orphans[j].file) {
        assert(all[before.len() as int] == orphans[j].file);
    }
}

proof fn lemma_orphan_in_stale(
    orphans: Seq<crate::review_state::OrphanModel>,
    files: Seq<Seq<char>>,
    i: int,
    j: int,
)
    requires
        0 <= i < files.len(),
        0 <= j < orphans.len(),
        files[i] == orphans[j].file,
    ensures
        crate::text::occurs(stale_parts(orphans, files), orphan_entry(orphans[j])),
    decreases files.len(),
{
    let entry = orphan_entry(orphans[j]);
    let none = Seq::<char>::empty();
    let before = stale_parts(orphans, files.drop_last());
    let last = "### "@ + files.last() + "\n\n"@ + orphan_entries(orphans, files.last()) + "\n"@;
    assert(stale_parts(orphans, files) == before + last);
    if i == files.len() - 1 {
        lemma_orphan_in_entries(orphans, j);
        lemma_occurs_within(
            "### "@ + files.last() + "\n\n"@,
            orphan_entries(orphans, files.last()),
            "\n"@,
            entry,
        );
        lemma_occurs_within(before, last, none, entry);
    } else {
        lemma_orphan_in_stale(orphans, files.drop_last(), i, j);
        lemma_occurs_within(none, before, last, entry);
    }
}

/// Every orphan is in the report, with its comment.
pub proof fn every_orphan_is_reported(
    branch: Seq<char>,
    range: Seq<char>,
    files: Seq<crate::diff::FileModel>,
    orphans: Seq<crate::review_state::OrphanModel>,
    j: int,
)
    requires
        0 <= j < orphans.len(),
    ensures
        crate::text::occurs(report(branch, range, files, orphans), orphan_entry(orphans[j])),
{
    let entry = orphan_entry(orphans[j]);
    let none = Seq::<char>::empty();
    lemma_orphan_file_known(orphans, j);
    let fs = orphan_files(orphans);
    lemma_orphan_in_stale(orphans, fs, fs.index_of(orphans[j].file), j);
    lemma_occurs_within(
        "## Stale (no longer in diff)\n\n"@,
        stale_parts(orphans, fs),
        none,
        entry,
    );
    let before = report_head(branch, range, files) + section(
        files,
        "Rejected hunks (need changes)"@,
        ReviewStatus::Rejected,
    ) + section(files, "Approved hunks"@, ReviewStatus::Approved) + section(
        files,
        "Still unreviewed"@,
        ReviewStatus::Unreviewed,
    );
    lemma_occurs_within(before, stale_section(orphans), none, entry);
    assert(before + stale_section(orphans) + none == report(branch, range, files, orphans));
}

} // verus!
