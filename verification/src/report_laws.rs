//! What the report says, word by word: the counts, and for every hunk and every
//! orphan its header and each line of its comment, below its file.

use crate::diff::{FileModel, HunkModel, ReviewStatus};
use crate::review_state::OrphanModel;
use vstd::prelude::*;

verus! {

/// All hunks of these files, in order.
pub open spec fn all_hunks(files: Seq<FileModel>) -> Seq<HunkModel>
    decreases files.len(),
{
    if files.len() == 0 {
        Seq::empty()
    } else {
        all_hunks(files.drop_last()) + files.last().hunks
    }
}

/// Progress counts every hunk of the diff once, and as reviewed those with a
/// verdict.
pub proof fn progress_counts_the_hunks_of_the_diff(files: Seq<FileModel>)
    ensures
        crate::report::total_hunks(files) == all_hunks(files).len(),
        crate::report::total_reviewed(files) == all_hunks(files).filter(
            |h: HunkModel| h.status != ReviewStatus::Unreviewed,
        ).len(),
    decreases files.len(),
{
    let keep = |h: HunkModel| h.status != ReviewStatus::Unreviewed;
    if files.len() > 0 {
        progress_counts_the_hunks_of_the_diff(files.drop_last());
        crate::numbering_laws::reviewed_hunks_are_counted(files.last().hunks);
        Seq::filter_distributes_over_add(all_hunks(files.drop_last()), files.last().hunks, keep);
    } else {
        reveal(Seq::filter);
    }
}

/// Those with this verdict.
pub open spec fn having(hunks: Seq<HunkModel>, status: ReviewStatus) -> Seq<HunkModel> {
    hunks.filter(|h: HunkModel| h.status == status)
}

/// One line of a comment in the report.
pub open spec fn comment_line(line: Seq<char>) -> Seq<char> {
    "  - "@ + line + "\n"@
}

/// The lines of a comment in the report.
pub open spec fn comment_lines(lines: Seq<Seq<char>>) -> Seq<char>
    decreases lines.len(),
{
    if lines.len() == 0 {
        Seq::empty()
    } else {
        comment_lines(lines.drop_last()) + comment_line(lines.last())
    }
}

/// The line of a hunk in the report: its header, and a warning where its changes
/// have changed since it was reviewed.
pub open spec fn header_line(h: HunkModel) -> Seq<char> {
    "- `"@ + crate::text::trim(h.header) + (if h.changed_since_review {
        "` ⚠ changed since reviewed\n"@
    } else {
        "`\n"@
    })
}

/// What the report says of a hunk.
pub open spec fn said_of_hunk(h: HunkModel) -> Seq<char> {
    header_line(h) + comment_lines(crate::text::lines(crate::text::trim(h.comment)))
}

/// What the report says of hunks, one after the other.
pub open spec fn said_of_hunks(hunks: Seq<HunkModel>) -> Seq<char>
    decreases hunks.len(),
{
    if hunks.len() == 0 {
        Seq::empty()
    } else {
        said_of_hunks(hunks.drop_last()) + said_of_hunk(hunks.last())
    }
}

/// What the report says of the hunks of a file with this verdict.
pub open spec fn said_of_file(f: FileModel, status: ReviewStatus) -> Seq<char> {
    if having(f.hunks, status).len() == 0 {
        Seq::empty()
    } else {
        "### "@ + f.path + "\n\n"@ + said_of_hunks(having(f.hunks, status)) + "\n"@
    }
}

/// What the report says of the hunks of files with this verdict.
pub open spec fn said_of_files(files: Seq<FileModel>, status: ReviewStatus) -> Seq<char>
    decreases files.len(),
{
    if files.len() == 0 {
        Seq::empty()
    } else {
        said_of_files(files.drop_last(), status) + said_of_file(files.last(), status)
    }
}

/// What the report says of an orphan.
pub open spec fn said_of_orphan(o: OrphanModel) -> Seq<char> {
    "- `"@ + crate::text::trim(o.header) + "` ("@ + o.status + ")\n"@ + (match o.comment {
        Some(c) => comment_lines(crate::text::lines(crate::text::trim(c))),
        None => Seq::empty(),
    })
}

proof fn lemma_comment_points(lines: Seq<Seq<char>>)
    ensures
        crate::report::nested_points(lines) == comment_lines(lines),
    decreases lines.len(),
{
    if lines.len() > 0 {
        lemma_comment_points(lines.drop_last());
        assert(crate::report::nested_points(lines) == comment_lines(lines));
    }
}

proof fn lemma_hunk_entry(h: HunkModel)
    ensures
        crate::report::hunk_entry(h) == said_of_hunk(h),
{
    lemma_comment_points(crate::text::lines(crate::text::trim(h.comment)));
    reveal_strlit("`");
    reveal_strlit("\n");
    reveal_strlit("`\n");
    reveal_strlit(" ⚠ changed since reviewed");
    reveal_strlit("` ⚠ changed since reviewed\n");
    assert("`"@ + " ⚠ changed since reviewed"@ + "\n"@ == "` ⚠ changed since reviewed\n"@);
    assert("`"@ + Seq::<char>::empty() + "\n"@ == "`\n"@);
    assert(crate::report::hunk_entry(h) == said_of_hunk(h));
}

proof fn lemma_hunk_entries(hunks: Seq<HunkModel>, status: ReviewStatus)
    ensures
        crate::report::hunk_entries(hunks, status) == said_of_hunks(having(hunks, status)),
        crate::report::with_status(hunks, status) == having(hunks, status).len(),
    decreases hunks.len(),
{
    let keep = |h: HunkModel| h.status == status;
    reveal(Seq::filter);
    if hunks.len() > 0 {
        let init = hunks.drop_last();
        lemma_hunk_entries(init, status);
        if keep(hunks.last()) {
            lemma_hunk_entry(hunks.last());
            assert(having(hunks, status) == having(init, status).push(hunks.last()));
            assert(having(init, status).push(hunks.last()).drop_last() == having(init, status));
        } else {
            assert(having(hunks, status) == having(init, status));
        }
    }
}

proof fn lemma_file_parts(files: Seq<FileModel>, status: ReviewStatus)
    ensures
        crate::report::file_parts(files, status) == said_of_files(files, status),
        crate::report::total_with_status(files, status) == having(all_hunks(files), status).len(),
        crate::report::total_hunks(files) == all_hunks(files).len(),
    decreases files.len(),
{
    reveal(Seq::filter);
    if files.len() > 0 {
        let keep = |h: HunkModel| h.status == status;
        lemma_file_parts(files.drop_last(), status);
        lemma_hunk_entries(files.last().hunks, status);
        Seq::filter_distributes_over_add(
            all_hunks(files.drop_last()),
            files.last().hunks,
            keep,
        );
    }
}

proof fn lemma_orphan_entry(o: OrphanModel)
    ensures
        crate::report::orphan_entry(o) == said_of_orphan(o),
{
    if let Some(c) = o.comment {
        lemma_comment_points(crate::text::lines(crate::text::trim(c)));
    }
}

/// The title above the hunks with one status, and nothing at all where there is no
/// such hunk.
pub open spec fn section_text(
    files: Seq<FileModel>,
    title: Seq<char>,
    status: ReviewStatus,
) -> Seq<char> {
    if having(all_hunks(files), status).len() == 0 {
        Seq::empty()
    } else {
        title + said_of_files(files, status)
    }
}

proof fn lemma_section(
    files: Seq<FileModel>,
    title: Seq<char>,
    name: Seq<char>,
    status: ReviewStatus,
)
    requires
        title == "## "@ + name + "\n\n"@,
    ensures
        crate::report::section(files, name, status) == section_text(files, title, status),
{
    lemma_file_parts(files, status);
}

/// The report is complete: what it says of the counts, of the hunks with each
/// verdict, file by file, and of the orphans, in this order.
pub proof fn the_report_is_complete(
    branch: Seq<char>,
    range: Seq<char>,
    files: Seq<FileModel>,
    orphans: Seq<OrphanModel>,
)
    ensures
        ({
            let all = all_hunks(files);
            let approved = having(all, ReviewStatus::Approved).len();
            let rejected = having(all, ReviewStatus::Rejected).len();
            let unreviewed = having(all, ReviewStatus::Unreviewed).len();
            crate::report::report(branch, range, files, orphans) == "# Review report — "@ + branch
                + "\n\nRange: "@ + range + "\n\nProgress: "@ + crate::number::decimal(
                approved + rejected,
            ) + "/"@ + crate::number::decimal(all.len()) + " hunks reviewed — "@
                + crate::number::decimal(approved) + " approved, "@ + crate::number::decimal(
                rejected,
            ) + " rejected, "@ + crate::number::decimal(unreviewed) + " unreviewed.\n\n"@
                + section_text(
                files,
                "## Rejected hunks (need changes)\n\n"@,
                ReviewStatus::Rejected,
            ) + section_text(files, "## Approved hunks\n\n"@, ReviewStatus::Approved)
                + section_text(files, "## Still unreviewed\n\n"@, ReviewStatus::Unreviewed)
                + crate::report::stale_section(orphans) + (if all.len() == 0 && orphans.len()
                == 0 {
                "No changes to review.\n"@
            } else {
                Seq::empty()
            })
        }),
{
    let all = all_hunks(files);
    crate::report::counts_add_up(files);
    lemma_file_parts(files, ReviewStatus::Approved);
    lemma_file_parts(files, ReviewStatus::Rejected);
    lemma_file_parts(files, ReviewStatus::Unreviewed);
    assert("## Rejected hunks (need changes)\n\n"@ == "## "@ + "Rejected hunks (need changes)"@
        + "\n\n"@) by {
        reveal_strlit("## Rejected hunks (need changes)\n\n");
        reveal_strlit("## ");
        reveal_strlit("Rejected hunks (need changes)");
        reveal_strlit("\n\n");
    }
    assert("## Approved hunks\n\n"@ == "## "@ + "Approved hunks"@ + "\n\n"@) by {
        reveal_strlit("## Approved hunks\n\n");
        reveal_strlit("## ");
        reveal_strlit("Approved hunks");
        reveal_strlit("\n\n");
    }
    assert("## Still unreviewed\n\n"@ == "## "@ + "Still unreviewed"@ + "\n\n"@) by {
        reveal_strlit("## Still unreviewed\n\n");
        reveal_strlit("## ");
        reveal_strlit("Still unreviewed");
        reveal_strlit("\n\n");
    }
    lemma_section(
        files,
        "## Rejected hunks (need changes)\n\n"@,
        "Rejected hunks (need changes)"@,
        ReviewStatus::Rejected,
    );
    lemma_section(files, "## Approved hunks\n\n"@, "Approved hunks"@, ReviewStatus::Approved);
    lemma_section(
        files,
        "## Still unreviewed\n\n"@,
        "Still unreviewed"@,
        ReviewStatus::Unreviewed,
    );
    assert("\n\nRange: "@ == "\n\n"@ + "Range: "@) by {
        reveal_strlit("\n\nRange: ");
        reveal_strlit("\n\n");
        reveal_strlit("Range: ");
    }
    assert("\n\nProgress: "@ == "\n\n"@ + "Progress: "@) by {
        reveal_strlit("\n\nProgress: ");
        reveal_strlit("\n\n");
        reveal_strlit("Progress: ");
    }
    let head = "# Review report — "@ + branch;
    assert(head + "\n\n"@ + "Range: "@ == head + "\n\nRange: "@);
    let more = head + "\n\nRange: "@ + range;
    assert(more + "\n\n"@ + "Progress: "@ == more + "\n\nProgress: "@);
}

proof fn lemma_said_within(hunks: Seq<HunkModel>, k: int) -> (r: (Seq<char>, Seq<char>))
    requires
        0 <= k < hunks.len(),
    ensures
        said_of_hunks(hunks) == r.0 + said_of_hunk(hunks[k]) + r.1,
    decreases hunks.len(),
{
    if k == hunks.len() - 1 {
        let r = (said_of_hunks(hunks.drop_last()), Seq::<char>::empty());
        assert(said_of_hunks(hunks) == r.0 + said_of_hunk(hunks[k]) + r.1);
        r
    } else {
        let (a, b) = lemma_said_within(hunks.drop_last(), k);
        let r = (a, b + said_of_hunk(hunks.last()));
        assert(said_of_hunks(hunks) == r.0 + said_of_hunk(hunks[k]) + r.1);
        r
    }
}

proof fn lemma_file_within(files: Seq<FileModel>, status: ReviewStatus, i: int) -> (r: (
    Seq<char>,
    Seq<char>,
))
    requires
        0 <= i < files.len(),
    ensures
        said_of_files(files, status) == r.0 + said_of_file(files[i], status) + r.1,
    decreases files.len(),
{
    if i == files.len() - 1 {
        let r = (said_of_files(files.drop_last(), status), Seq::<char>::empty());
        assert(said_of_files(files, status) == r.0 + said_of_file(files[i], status) + r.1);
        r
    } else {
        let (a, b) = lemma_file_within(files.drop_last(), status, i);
        let r = (a, b + said_of_file(files.last(), status));
        assert(said_of_files(files, status) == r.0 + said_of_file(files[i], status) + r.1);
        r
    }
}

proof fn lemma_line_within(lines: Seq<Seq<char>>, k: int) -> (r: Seq<char>)
    requires
        0 <= k < lines.len(),
    ensures
        comment_lines(lines) == comment_lines(lines.take(k)) + comment_line(lines[k]) + r,
    decreases lines.len(),
{
    if k == lines.len() - 1 {
        assert(lines.take(k) == lines.drop_last());
        let r = Seq::<char>::empty();
        assert(comment_lines(lines) == comment_lines(lines.take(k)) + comment_line(lines[k]) + r);
        r
    } else {
        let b = lemma_line_within(lines.drop_last(), k);
        assert(lines.drop_last().take(k) == lines.take(k));
        let r = b + comment_line(lines.last());
        assert(comment_lines(lines) == comment_lines(lines.take(k)) + comment_line(lines[k]) + r);
        r
    }
}

proof fn lemma_hunk_within(files: Seq<FileModel>, fi: int, hi: int) -> (r: (
    Seq<char>,
    Seq<char>,
    Seq<char>,
))
    requires
        0 <= fi < files.len(),
        0 <= hi < files[fi].hunks.len(),
    ensures
        said_of_files(files, files[fi].hunks[hi].status) == r.0 + ("### "@ + files[fi].path
            + "\n\n"@) + r.1 + said_of_hunk(files[fi].hunks[hi]) + r.2,
        having(all_hunks(files), files[fi].hunks[hi].status).len() > 0,
{
    let f = files[fi];
    let h = f.hunks[hi];
    let status = h.status;
    let keep = |x: HunkModel| x.status == status;
    let kept = having(f.hunks, status);
    f.hunks.lemma_filter_contains(keep, hi);
    let k = choose|k: int| 0 <= k < kept.len() && kept[k] == h;
    let (b, c) = lemma_said_within(kept, k);
    let (a, d) = lemma_file_within(files, status, fi);
    let head = "### "@ + f.path + "\n\n"@;
    let r = (a, b, c + "\n"@ + d);
    assert(said_of_file(f, status) == head + (b + said_of_hunk(h) + c) + "\n"@);
    assert(said_of_files(files, status) == r.0 + head + r.1 + said_of_hunk(h) + r.2);
    lemma_some_having(files, fi, hi);
    r
}

proof fn lemma_some_having(files: Seq<FileModel>, fi: int, hi: int)
    requires
        0 <= fi < files.len(),
        0 <= hi < files[fi].hunks.len(),
    ensures
        having(all_hunks(files), files[fi].hunks[hi].status).len() > 0,
    decreases files.len(),
{
    let status = files[fi].hunks[hi].status;
    let keep = |x: HunkModel| x.status == status;
    Seq::filter_distributes_over_add(all_hunks(files.drop_last()), files.last().hunks, keep);
    if fi == files.len() - 1 {
        files[fi].hunks.lemma_filter_contains(keep, hi);
    } else {
        lemma_some_having(files.drop_last(), fi, hi);
    }
}

/// The title of the section for a verdict.
pub open spec fn title_of(status: ReviewStatus) -> Seq<char> {
    match status {
        ReviewStatus::Rejected => "## Rejected hunks (need changes)\n\n"@,
        ReviewStatus::Approved => "## Approved hunks\n\n"@,
        ReviewStatus::Unreviewed => "## Still unreviewed\n\n"@,
    }
}

proof fn lemma_hunk_in_report(
    branch: Seq<char>,
    range: Seq<char>,
    files: Seq<FileModel>,
    orphans: Seq<OrphanModel>,
    fi: int,
    hi: int,
) -> (r: (Seq<char>, Seq<char>, Seq<char>, Seq<char>))
    requires
        0 <= fi < files.len(),
        0 <= hi < files[fi].hunks.len(),
    ensures
        crate::report::report(branch, range, files, orphans) == r.0 + title_of(
            files[fi].hunks[hi].status,
        ) + r.1 + ("### "@ + files[fi].path + "\n\n"@) + r.2 + said_of_hunk(files[fi].hunks[hi])
            + r.3,
{
    let h = files[fi].hunks[hi];
    let (b, c, e) = lemma_hunk_within(files, fi, hi);
    let whole = crate::report::report(branch, range, files, orphans);
    let r = section_text(
        files,
        "## Rejected hunks (need changes)\n\n"@,
        ReviewStatus::Rejected,
    );
    let ap = section_text(files, "## Approved hunks\n\n"@, ReviewStatus::Approved);
    let u = section_text(files, "## Still unreviewed\n\n"@, ReviewStatus::Unreviewed);
    let stale = crate::report::stale_section(orphans);
    let (head, tail) = lemma_report_shape(branch, range, files, orphans);
    let own = section_text(files, title_of(h.status), h.status);
    let (before, behind) = match h.status {
        ReviewStatus::Rejected => (head, ap + u + stale + tail),
        ReviewStatus::Approved => (head + r, u + stale + tail),
        ReviewStatus::Unreviewed => (head + r + ap, stale + tail),
    };
    lemma_pick(head, r, ap, u, stale, tail);
    assert(whole == before + own + behind);
    lemma_regroup(
        before,
        title_of(h.status),
        b,
        "### "@ + files[fi].path + "\n\n"@,
        c,
        said_of_hunk(h),
        e,
        behind,
    );
    (before, b, c, e + behind)
}

proof fn lemma_pick(
    a: Seq<char>,
    b: Seq<char>,
    c: Seq<char>,
    d: Seq<char>,
    e: Seq<char>,
    f: Seq<char>,
)
    ensures
        a + b + c + d + e + f == a + b + (c + d + e + f),
        a + b + c + d + e + f == (a + b) + c + (d + e + f),
        a + b + c + d + e + f == (a + b + c) + d + (e + f),
{
    assert(a + b + c + d + e + f == a + b + (c + d + e + f));
    assert(a + b + c + d + e + f == (a + b) + c + (d + e + f));
    assert(a + b + c + d + e + f == (a + b + c) + d + (e + f));
}

proof fn lemma_regroup(
    a: Seq<char>,
    b: Seq<char>,
    c: Seq<char>,
    d: Seq<char>,
    e: Seq<char>,
    f: Seq<char>,
    g: Seq<char>,
    h: Seq<char>,
)
    ensures
        a + (b + (c + d + e + f + g)) + h == a + b + c + d + e + f + (g + h),
{
    assert(a + (b + (c + d + e + f + g)) + h == a + b + c + d + e + f + (g + h));
}

/// Every hunk is in the report, in the section of its verdict and below the path
/// of its file: the line with its header, with a warning where its changes have
/// changed since, and behind that line all lines of its comment.
pub proof fn every_hunk_is_reported_with_its_comment(
    branch: Seq<char>,
    range: Seq<char>,
    files: Seq<FileModel>,
    orphans: Seq<OrphanModel>,
    fi: int,
    hi: int,
)
    requires
        0 <= fi < files.len(),
        0 <= hi < files[fi].hunks.len(),
    ensures
        exists|a: Seq<char>, b: Seq<char>, c: Seq<char>, d: Seq<char>|
            crate::report::report(branch, range, files, orphans) == #[trigger] (a + title_of(
                files[fi].hunks[hi].status,
            ) + b + ("### "@ + files[fi].path + "\n\n"@) + c + said_of_hunk(
                files[fi].hunks[hi],
            ) + d),
{
    let (a, b, c, d) = lemma_hunk_in_report(branch, range, files, orphans, fi, hi);
}

proof fn lemma_report_shape(
    branch: Seq<char>,
    range: Seq<char>,
    files: Seq<FileModel>,
    orphans: Seq<OrphanModel>,
) -> (r: (Seq<char>, Seq<char>))
    ensures
        crate::report::report(branch, range, files, orphans) == r.0 + section_text(
            files,
            "## Rejected hunks (need changes)\n\n"@,
            ReviewStatus::Rejected,
        ) + section_text(files, "## Approved hunks\n\n"@, ReviewStatus::Approved) + section_text(
            files,
            "## Still unreviewed\n\n"@,
            ReviewStatus::Unreviewed,
        ) + crate::report::stale_section(orphans) + r.1,
{
    the_report_is_complete(branch, range, files, orphans);
    let all = all_hunks(files);
    let approved = having(all, ReviewStatus::Approved).len();
    let rejected = having(all, ReviewStatus::Rejected).len();
    let unreviewed = having(all, ReviewStatus::Unreviewed).len();
    (
        "# Review report — "@ + branch + "\n\nRange: "@ + range + "\n\nProgress: "@
            + crate::number::decimal(approved + rejected) + "/"@ + crate::number::decimal(
            all.len(),
        ) + " hunks reviewed — "@ + crate::number::decimal(approved) + " approved, "@
            + crate::number::decimal(rejected) + " rejected, "@ + crate::number::decimal(
            unreviewed,
        ) + " unreviewed.\n\n"@,
        if all.len() == 0 && orphans.len() == 0 {
            "No changes to review.\n"@
        } else {
            Seq::empty()
        },
    )
}

/// Every line of every comment is in the report, whatever the verdict of its
/// hunk: it stands behind the line with the header of that hunk and the lines of
/// the comment above it.
pub proof fn every_comment_line_is_reported(
    branch: Seq<char>,
    range: Seq<char>,
    files: Seq<FileModel>,
    orphans: Seq<OrphanModel>,
    fi: int,
    hi: int,
    k: int,
)
    requires
        0 <= fi < files.len(),
        0 <= hi < files[fi].hunks.len(),
        0 <= k < crate::text::lines(crate::text::trim(files[fi].hunks[hi].comment)).len(),
    ensures
        exists|a: Seq<char>, b: Seq<char>|
            crate::report::report(branch, range, files, orphans) == #[trigger] (a + header_line(
                files[fi].hunks[hi],
            ) + comment_lines(
                crate::text::lines(crate::text::trim(files[fi].hunks[hi].comment)).take(k),
            ) + ("  - "@ + crate::text::lines(
                crate::text::trim(files[fi].hunks[hi].comment),
            )[k] + "\n"@) + b),
{
    let h = files[fi].hunks[hi];
    let lines = crate::text::lines(crate::text::trim(h.comment));
    let (a, b, c, d) = lemma_hunk_in_report(branch, range, files, orphans, fi, hi);
    let rest = lemma_line_within(lines, k);
    let front = a + title_of(h.status) + b + ("### "@ + files[fi].path + "\n\n"@) + c;
    lemma_regroup_line(
        front,
        header_line(h),
        comment_lines(lines.take(k)),
        "  - "@ + lines[k] + "\n"@,
        rest,
        d,
    );
}

proof fn lemma_regroup_line(
    a: Seq<char>,
    b: Seq<char>,
    c: Seq<char>,
    d: Seq<char>,
    e: Seq<char>,
    f: Seq<char>,
)
    ensures
        a + (b + (c + d + e)) + f == a + b + c + d + (e + f),
{
    assert(a + (b + (c + d + e)) + f == a + b + c + d + (e + f));
}

/// What the report says of the orphans of a file.
pub open spec fn said_of_orphans(orphans: Seq<OrphanModel>) -> Seq<char>
    decreases orphans.len(),
{
    if orphans.len() == 0 {
        Seq::empty()
    } else {
        said_of_orphans(orphans.drop_last()) + said_of_orphan(orphans.last())
    }
}

/// The orphans that were in this file.
pub open spec fn orphans_in(orphans: Seq<OrphanModel>, file: Seq<char>) -> Seq<OrphanModel> {
    orphans.filter(|o: OrphanModel| o.file == file)
}

proof fn lemma_orphan_entries(orphans: Seq<OrphanModel>, file: Seq<char>)
    ensures
        crate::report::orphan_entries(orphans, file) == said_of_orphans(orphans_in(orphans, file)),
    decreases orphans.len(),
{
    reveal(Seq::filter);
    if orphans.len() > 0 {
        let init = orphans.drop_last();
        lemma_orphan_entries(init, file);
        if orphans.last().file == file {
            lemma_orphan_entry(orphans.last());
            assert(orphans_in(orphans, file) == orphans_in(init, file).push(orphans.last()));
            assert(orphans_in(init, file).push(orphans.last()).drop_last() == orphans_in(
                init,
                file,
            ));
        } else {
            assert(orphans_in(orphans, file) == orphans_in(init, file));
        }
    }
}

proof fn lemma_orphan_files(orphans: Seq<OrphanModel>)
    ensures
        ({
            let files = crate::report::orphan_files(orphans);
            &&& files.no_duplicates()
            &&& forall|f: Seq<char>| #[trigger]
                files.contains(f) <==> exists|j: int|
                    0 <= j < orphans.len() && (#[trigger] orphans[j]).file == f
        }),
    decreases orphans.len(),
{
    let files = crate::report::orphan_files(orphans);
    if orphans.len() > 0 {
        let init = orphans.drop_last();
        let before = crate::report::orphan_files(init);
        let last = orphans.last().file;
        lemma_orphan_files(init);
        assert forall|f: Seq<char>| #[trigger] files.contains(f) <==> exists|j: int|
            0 <= j < orphans.len() && (#[trigger] orphans[j]).file == f by {
            if before.contains(f) {
                let i = choose|i: int| 0 <= i < before.len() && before[i] == f;
                assert(files[i] == f);
                let j = choose|j: int| 0 <= j < init.len() && (#[trigger] init[j]).file == f;
                assert(orphans[j].file == f);
            }
            if f == last {
                assert(orphans[orphans.len() - 1].file == f);
                if !before.contains(f) {
                    assert(files[before.len() as int] == f);
                }
            }
            if files.contains(f) && !before.contains(f) {
                let i = choose|i: int| 0 <= i < files.len() && files[i] == f;
                if i < before.len() {
                    assert(before[i] == f);
                }
            }
            if exists|j: int| 0 <= j < orphans.len() && (#[trigger] orphans[j]).file == f {
                let j = choose|j: int| 0 <= j < orphans.len() && (#[trigger] orphans[j]).file == f;
                if j < init.len() {
                    assert(init[j].file == f);
                }
            }
        }
    }
}

proof fn lemma_stale_part(orphans: Seq<OrphanModel>, files: Seq<Seq<char>>, i: int) -> (r: (
    Seq<char>,
    Seq<char>,
))
    requires
        0 <= i < files.len(),
    ensures
        crate::report::stale_parts(orphans, files) == r.0 + ("### "@ + files[i] + "\n\n"@
            + said_of_orphans(orphans_in(orphans, files[i])) + "\n"@) + r.1,
    decreases files.len(),
{
    lemma_orphan_entries(orphans, files.last());
    if i == files.len() - 1 {
        let r = (crate::report::stale_parts(orphans, files.drop_last()), Seq::<char>::empty());
        assert(crate::report::stale_parts(orphans, files) == r.0 + ("### "@ + files[i] + "\n\n"@
            + said_of_orphans(orphans_in(orphans, files[i])) + "\n"@) + r.1);
        r
    } else {
        let (a, b) = lemma_stale_part(orphans, files.drop_last(), i);
        let r = (
            a,
            b + ("### "@ + files.last() + "\n\n"@ + said_of_orphans(
                orphans_in(orphans, files.last()),
            ) + "\n"@),
        );
        assert(crate::report::stale_parts(orphans, files) == r.0 + ("### "@ + files[i] + "\n\n"@
            + said_of_orphans(orphans_in(orphans, files[i])) + "\n"@) + r.1);
        r
    }
}

/// The orphans are in the report in a section of their own: below the path of
/// its file stand all orphans of that file, in order, each with its header, its
/// verdict and its comment. Without orphans there is no such section.
pub proof fn orphans_are_reported_by_file(
    branch: Seq<char>,
    range: Seq<char>,
    files: Seq<FileModel>,
    orphans: Seq<OrphanModel>,
    j: int,
)
    requires
        0 <= j < orphans.len(),
    ensures
        exists|a: Seq<char>, b: Seq<char>, c: Seq<char>|
            crate::report::report(branch, range, files, orphans) == #[trigger] (a
                + "## Stale (no longer in diff)\n\n"@ + b + ("### "@ + orphans[j].file + "\n\n"@
                + said_of_orphans(orphans_in(orphans, orphans[j].file)) + "\n"@) + c),
        orphans_in(orphans, orphans[j].file).contains(orphans[j]),
{
    let names = crate::report::orphan_files(orphans);
    let file = orphans[j].file;
    lemma_orphan_files(orphans);
    assert(names.contains(file));
    let i = choose|i: int| 0 <= i < names.len() && names[i] == file;
    let (b, c) = lemma_stale_part(orphans, names, i);
    let (head, tail) = lemma_report_shape(branch, range, files, orphans);
    let a = head + section_text(
        files,
        "## Rejected hunks (need changes)\n\n"@,
        ReviewStatus::Rejected,
    ) + section_text(files, "## Approved hunks\n\n"@, ReviewStatus::Approved) + section_text(
        files,
        "## Still unreviewed\n\n"@,
        ReviewStatus::Unreviewed,
    );
    let part = "### "@ + file + "\n\n"@ + said_of_orphans(orphans_in(orphans, file)) + "\n"@;
    let whole = crate::report::report(branch, range, files, orphans);
    assert(whole == a + ("## Stale (no longer in diff)\n\n"@ + (b + part + c)) + tail);
    assert(whole == a + "## Stale (no longer in diff)\n\n"@ + b + part + (c + tail));
    orphans.lemma_filter_contains(|o: OrphanModel| o.file == file, j);
}

/// Without orphans nothing is said of them.
pub proof fn without_orphans_no_stale_section(orphans: Seq<OrphanModel>)
    ensures
        crate::report::stale_section(orphans).len() == 0 <==> orphans.len() == 0,
{
    reveal_strlit("## Stale (no longer in diff)\n\n");
}

} // verus!
