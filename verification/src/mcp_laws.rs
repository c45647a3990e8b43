//! What a connected agent is told of the rejected hunks, word by word.

use crate::mcp::Request;
use crate::review_state::{FileStateModel, HunkStateModel};
use serde_json::Value;
use vstd::prelude::*;

verus! {

/// What the agent is told of a hunk: its header, and its comment where there is
/// one, whatever else there is to the hunk.
pub open spec fn told_of_hunk(h: HunkStateModel) -> Seq<char> {
    match h.comment {
        Some(c) => "- "@ + crate::text::trim(h.header) + "\n  comment: "@ + c + "\n"@,
        None => "- "@ + crate::text::trim(h.header) + "\n"@,
    }
}

/// What the agent is told of hunks, one after the other.
pub open spec fn told_of_hunks(hunks: Seq<HunkStateModel>) -> Seq<char>
    decreases hunks.len(),
{
    if hunks.len() == 0 {
        Seq::empty()
    } else {
        told_of_hunks(hunks.drop_last()) + told_of_hunk(hunks.last())
    }
}

/// The hunks that were rejected.
pub open spec fn rejected_ones(hunks: Seq<HunkStateModel>) -> Seq<HunkStateModel> {
    hunks.filter(|h: HunkStateModel| h.status == "rejected"@)
}

/// What the agent is told of files: the path of each file that has a rejected
/// hunk, and its rejected hunks.
pub open spec fn told_of_files(files: Seq<FileStateModel>) -> Seq<char>
    decreases files.len(),
{
    if files.len() == 0 {
        Seq::empty()
    } else {
        let f = files.last();
        told_of_files(files.drop_last()) + if rejected_ones(f.hunks).len() == 0 {
            Seq::empty()
        } else {
            "## "@ + f.path + "\n"@ + told_of_hunks(rejected_ones(f.hunks))
        }
    }
}

/// Some file has a rejected hunk.
pub open spec fn any_rejected(files: Seq<FileStateModel>) -> bool {
    exists|i: int, j: int|
        0 <= i < files.len() && 0 <= j < files[i].hunks.len() && (#[trigger] files[i].hunks[j]).status
            == "rejected"@
}

proof fn lemma_entry(h: HunkStateModel)
    ensures
        crate::mcp::rejected_entry(h) == told_of_hunk(h),
{
    assert("\n  comment: "@ == "\n"@ + "  comment: "@) by {
        reveal_strlit("\n  comment: ");
        reveal_strlit("\n");
        reveal_strlit("  comment: ");
    }
    assert(crate::mcp::rejected_entry(h) == told_of_hunk(h));
}

proof fn lemma_entries(hunks: Seq<HunkStateModel>)
    ensures
        crate::mcp::rejected_entries(hunks) == told_of_hunks(hunks),
    decreases hunks.len(),
{
    if hunks.len() > 0 {
        lemma_entries(hunks.drop_last());
        lemma_entry(hunks.last());
    }
}

proof fn lemma_rejected(hunks: Seq<HunkStateModel>)
    ensures
        crate::mcp::rejected(hunks) == rejected_ones(hunks),
    decreases hunks.len(),
{
    reveal(Seq::filter);
    if hunks.len() > 0 {
        lemma_rejected(hunks.drop_last());
    }
}

proof fn lemma_files(files: Seq<FileStateModel>)
    ensures
        crate::mcp::rejected_of(files) == told_of_files(files),
        crate::mcp::rejected_of(files).len() > 0 <==> any_rejected(files),
    decreases files.len(),
{
    if files.len() > 0 {
        let init = files.drop_last();
        let f = files.last();
        let keep = |h: HunkStateModel| h.status == "rejected"@;
        let kept = rejected_ones(f.hunks);
        lemma_files(init);
        lemma_rejected(f.hunks);
        lemma_entries(kept);
        reveal_strlit("## ");
        if kept.len() > 0 {
            assert(kept.contains(kept[0]));
            f.hunks.lemma_filter_contains_rev(keep, kept[0]);
            crate::mcp::rejected_hunks_are_kept(f.hunks, kept[0]);
            let j = choose|j: int| 0 <= j < f.hunks.len() && f.hunks[j] == kept[0];
            assert(files[files.len() - 1].hunks[j].status == "rejected"@);
        }
        if any_rejected(init) {
            let (i, j) = choose|i: int, j: int|
                0 <= i < init.len() && 0 <= j < init[i].hunks.len() && (
                #[trigger] init[i].hunks[j]).status == "rejected"@;
            assert(files[i].hunks[j].status == "rejected"@);
        }
        if any_rejected(files) && kept.len() == 0 {
            let (i, j) = choose|i: int, j: int|
                0 <= i < files.len() && 0 <= j < files[i].hunks.len() && (
                #[trigger] files[i].hunks[j]).status == "rejected"@;
            if i == files.len() - 1 {
                f.hunks.lemma_filter_contains(keep, j);
            } else {
                assert(init[i].hunks[j].status == "rejected"@);
            }
        }
    }
}

/// The list is complete: file by file, the rejected hunks, each with its header
/// and its comment; and where no hunk is rejected, it says so.
pub proof fn the_list_of_rejected_hunks_is_complete(files: Seq<FileStateModel>)
    ensures
        crate::mcp::rejected_list(files) == if any_rejected(files) {
            told_of_files(files)
        } else {
            "No rejected hunks."@
        },
{
    lemma_files(files);
}

proof fn lemma_hunk_told(hunks: Seq<HunkStateModel>, k: int) -> (r: (Seq<char>, Seq<char>))
    requires
        0 <= k < hunks.len(),
    ensures
        told_of_hunks(hunks) == r.0 + told_of_hunk(hunks[k]) + r.1,
    decreases hunks.len(),
{
    if k == hunks.len() - 1 {
        let r = (told_of_hunks(hunks.drop_last()), Seq::<char>::empty());
        assert(told_of_hunks(hunks) == r.0 + told_of_hunk(hunks[k]) + r.1);
        r
    } else {
        let (a, b) = lemma_hunk_told(hunks.drop_last(), k);
        let r = (a, b + told_of_hunk(hunks.last()));
        assert(told_of_hunks(hunks) == r.0 + told_of_hunk(hunks[k]) + r.1);
        r
    }
}

proof fn lemma_file_told(files: Seq<FileStateModel>, i: int) -> (r: (Seq<char>, Seq<char>))
    requires
        0 <= i < files.len(),
        rejected_ones(files[i].hunks).len() > 0,
    ensures
        told_of_files(files) == r.0 + ("## "@ + files[i].path + "\n"@ + told_of_hunks(
            rejected_ones(files[i].hunks),
        )) + r.1,
    decreases files.len(),
{
    let own = "## "@ + files[i].path + "\n"@ + told_of_hunks(rejected_ones(files[i].hunks));
    if i == files.len() - 1 {
        let r = (told_of_files(files.drop_last()), Seq::<char>::empty());
        assert(told_of_files(files) == r.0 + own + r.1);
        r
    } else {
        let (a, b) = lemma_file_told(files.drop_last(), i);
        let f = files.last();
        let r = (
            a,
            b + if rejected_ones(f.hunks).len() == 0 {
                Seq::empty()
            } else {
                "## "@ + f.path + "\n"@ + told_of_hunks(rejected_ones(f.hunks))
            },
        );
        assert(told_of_files(files) == r.0 + own + r.1);
        r
    }
}

/// A rejected hunk with a comment is listed below the path of its file with both:
/// the agent is told what to fix, whatever else there is to the hunk.
pub proof fn every_comment_of_a_rejected_hunk_is_listed(
    files: Seq<FileStateModel>,
    i: int,
    j: int,
    comment: Seq<char>,
)
    requires
        0 <= i < files.len(),
        0 <= j < files[i].hunks.len(),
        files[i].hunks[j].status == "rejected"@,
        files[i].hunks[j].comment == Some(comment),
    ensures
        exists|a: Seq<char>, b: Seq<char>, c: Seq<char>|
            crate::mcp::rejected_list(files) == #[trigger] (a + ("## "@ + files[i].path + "\n"@)
                + b + ("- "@ + crate::text::trim(files[i].hunks[j].header) + "\n  comment: "@
                + comment + "\n"@) + c),
{
    let f = files[i];
    let h = f.hunks[j];
    let kept = rejected_ones(f.hunks);
    f.hunks.lemma_filter_contains(|x: HunkStateModel| x.status == "rejected"@, j);
    let k = choose|k: int| 0 <= k < kept.len() && kept[k] == h;
    the_list_of_rejected_hunks_is_complete(files);
    assert(any_rejected(files)) by {
        assert(files[i].hunks[j].status == "rejected"@);
    }
    let (b, c) = lemma_hunk_told(kept, k);
    let (a, d) = lemma_file_told(files, i);
    let head = "## "@ + f.path + "\n"@;
    assert(told_of_files(files) == a + head + b + told_of_hunk(h) + (c + d)) by {
        assert(a + (head + (b + told_of_hunk(h) + c)) + d == a + head + b + told_of_hunk(h) + (c
            + d));
    }
}

/// A text is read under its key, whole; where there is no such member, or it is
/// no text, nothing is read.
pub proof fn a_text_is_read_under_its_key(o: Value, m: Value, key: Seq<char>, text: Seq<char>)
    ensures
        crate::mcp::json_member(o, key) == Some(m) && crate::mcp::json_text(m) == Some(text)
            ==> crate::mcp::text_under(Some(o), key) == text,
        crate::mcp::json_member(o, key) == Some(m) && crate::mcp::json_text(m) is None
            ==> crate::mcp::text_under(Some(o), key).len() == 0,
        crate::mcp::json_member(o, key) is None ==> crate::mcp::text_under(Some(o), key).len() == 0,
        crate::mcp::text_under(None, key).len() == 0,
{
}

/// A request for a reply is read with the file, the hunk and the whole text that
/// it names, and is answered under its own number.
pub proof fn a_reply_is_read_whole(
    r: Request<'_>,
    msg: Value,
    params: Value,
    args: Value,
    member: Value,
    text: Seq<char>,
)
    requires
        crate::mcp::reads(r, msg),
        crate::mcp::json_member(msg, "params"@) == Some(params),
        crate::mcp::json_member(params, "arguments"@) == Some(args),
        crate::mcp::json_text(member) == Some(text),
    ensures
        crate::mcp::json_member(msg, "method"@) == Some(member) ==> r.method@ == text,
        crate::mcp::json_member(params, "name"@) == Some(member) ==> r.tool@ == text,
        crate::mcp::json_member(args, "file"@) == Some(member) ==> r.file@ == text,
        crate::mcp::json_member(args, "hunk_header"@) == Some(member) ==> r.hunk_header@ == text,
        crate::mcp::json_member(args, "text"@) == Some(member) ==> r.text@ == text,
        r.id is Some <==> crate::mcp::json_member(msg, "id"@) is Some,
        r.id matches Some(x) ==> crate::mcp::json_member(msg, "id"@) == Some(*x),
{
}

} // verus!
