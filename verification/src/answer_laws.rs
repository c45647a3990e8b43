//! What the calls of the library answer, taken from their contracts alone.

use crate::content::{ContentKey, ContentModel, FileContent, Selection};
use crate::controls::{EditEvent, EditOutcome, EditorEvents, EditorOutcome, HeaderControls};
use crate::diff::{
    ChangedFile, DiffLineRow, DiffSource, Hunk, LineKind, PatchLine, ReviewStatus,
};
use crate::display::PaneState;
use crate::goto_laws::Hit;
use crate::gotodef::{Candidate, Resolution};
use crate::mcp::{Asked, Line, Outcome, Step, Tool, ToolResult};
use crate::overlay::{Goto, QuickOpen};
use crate::repo::ssh::{SshRepo, SshTarget};
use crate::repo::{DirEntry, EntryModel};
use crate::review_state::{
    ComparisonKey, HunkStateModel, OrphanedHunk, Replies, Reply, ReplyModel, ReviewState,
};
use crate::rows::{Layout, RenderModel, RenderRow};
use crate::search::{Search, Tint};
use crate::session::{Resumed, Review};
use crate::tree::Found;
use vstd::prelude::*;

verus! {

/// No edit of a comment is lost: it is saved when the editor closes, and is
/// pending as long as it is open.
pub proof fn no_edit_is_lost(dirty: bool, ev: EditorEvents, r: EditorOutcome)
    requires
        call_ensures(crate::controls::comment_editor, (dirty, ev), r),
    ensures
        dirty || ev.edited ==> r.dirty || r.save,
        r.close <==> ev.submit || ev.cancel,
        r.close ==> !r.dirty,
        !r.close ==> !r.save,
        ev.submit ==> r.save,
        r.save ==> dirty || ev.edited || ev.submit,
{
}

/// A line that was edited is written where it is, with the whole text; before
/// that nothing is written, and an edit that is given up writes nothing.
pub proof fn an_edited_line_is_written_where_it_is(
    row: Option<usize>,
    path: Option<&str>,
    ev: EditEvent,
    r: EditOutcome,
)
    requires
        call_ensures(crate::controls::resolve_edit, (row, path, ev), r),
    ensures
        ev matches EditEvent::Commit(i, text) ==> r.editing is None && match path {
            Some(p) => r.write matches Some((at, line, t)) && at@ == p@ && line == i && t == text,
            None => r.write is None,
        },
        !(ev is Commit) ==> r.write is None,
        ev is Cancel ==> r.editing is None,
        ev matches EditEvent::Start(i, text) ==> r.editing == Some((i, text)),
        ev matches EditEvent::Typed(text) ==> r.editing == match row {
            Some(i) => Some((i, text)),
            None => None,
        },
{
}

/// Two hunks whose changed lines differ in one byte get different anchors.
pub proof fn anchors_tell_hunks_apart(a: Hunk, b: Hunk, i: int, x: String, y: String)
    requires
        call_ensures(Hunk::content_anchor, (&a,), x),
        call_ensures(Hunk::content_anchor, (&b,), y),
        crate::anchor_laws::differ_in_one_place(
            crate::anchor_laws::patch_bytes(crate::anchor_laws::changed_lines(a@.rows)),
            crate::anchor_laws::patch_bytes(crate::anchor_laws::changed_lines(b@.rows)),
            i,
        ),
    ensures
        x@ != y@,
{
    crate::anchor_laws::one_other_byte_is_another_anchor(a@, b@, i);
}

/// A patch that is read has every line of it.
pub proof fn a_patch_is_read_whole(patch: &str, files: Vec<ChangedFile>)
    requires
        call_ensures(crate::diff::try_parse_unified_patch, (patch,), Some(files)),
    ensures
        crate::patch_laws::marks(crate::seqs::views(files@)) == crate::patch_laws::lines_say(
            crate::text::split(patch@, '\n'),
        ),
{
    crate::patch_laws::every_line_of_a_patch_is_read(patch@);
}

/// A diff that is grouped has every line of it.
pub proof fn a_diff_is_grouped_whole(lines: &[PatchLine], files: Vec<ChangedFile>)
    requires
        call_ensures(crate::diff::group_patch_lines, (lines,), Some(files)),
    ensures
        crate::patch_laws::marks(crate::seqs::views(files@)) == crate::patch_laws::lines_tell(
            crate::seqs::views(lines@),
        ),
{
    crate::patch_laws::every_line_of_a_diff_is_grouped(crate::seqs::views(lines@));
}

/// The report has every hunk, with its comment, whatever its verdict.
pub proof fn the_report_has_every_hunk(
    branch: &str,
    source: DiffSource,
    base: &str,
    files: &[ChangedFile],
    orphaned: &[OrphanedHunk],
    report: String,
    fi: int,
    hi: int,
)
    requires
        call_ensures(
            crate::report::review_report,
            (branch, source, base, files, orphaned),
            report,
        ),
        0 <= fi < files@.len(),
        0 <= hi < files@[fi]@.hunks.len(),
    ensures
        exists|a: Seq<char>, b: Seq<char>, c: Seq<char>, d: Seq<char>|
            report@ == #[trigger] (a + crate::report_laws::title_of(files@[fi]@.hunks[hi].status) + b
                + ("### "@ + files@[fi]@.path + "\n\n"@) + c + crate::report_laws::said_of_hunk(
                files@[fi]@.hunks[hi],
            ) + d),
{
    let range = crate::review_state::label(crate::review_state::key_of(source, base@));
    let fs = crate::seqs::views(files@);
    assert(fs[fi] == files@[fi]@);
    crate::report_laws::every_hunk_is_reported_with_its_comment(
        branch@,
        range,
        fs,
        crate::seqs::views(orphaned@),
        fi,
        hi,
    );
}

/// The list of rejected hunks has every rejected hunk, with its comment.
pub proof fn the_list_has_every_rejected_hunk(
    state: ReviewState,
    list: String,
    i: int,
    j: int,
    comment: Seq<char>,
)
    requires
        call_ensures(crate::mcp::list_rejected, (&state,), list),
        0 <= i < state@.files.len(),
        0 <= j < state@.files[i].hunks.len(),
        state@.files[i].hunks[j].status == "rejected"@,
        state@.files[i].hunks[j].comment == Some(comment),
    ensures
        exists|a: Seq<char>, b: Seq<char>, c: Seq<char>|
            list@ == #[trigger] (a + ("## "@ + state@.files[i].path + "\n"@) + b + ("- "@
                + crate::text::trim(state@.files[i].hunks[j].header) + "\n  comment: "@ + comment
                + "\n"@) + c),
{
    crate::mcp_laws::every_comment_of_a_rejected_hunk_is_listed(state@.files, i, j, comment);
}

/// The hits of a search are all candidates, up to the sixtieth, wherever in their
/// files they are.
pub proof fn hits_are_candidates(hits: Seq<Hit>, out: &str, found: Vec<Candidate>, i: int)
    requires
        call_ensures(crate::gotodef::parse_grep_output, (out,), found),
        out@ == crate::text_laws::fed(crate::goto_laws::hit_lines(hits)),
        forall|k: int|
            0 <= k < hits.len() ==> crate::goto_laws::is_plain_hit(#[trigger] hits[k]),
        0 <= i < hits.len(),
        i < 60,
    ensures
        i < found@.len(),
        found@[i]@ == crate::goto_laws::candidate_for(hits[i]),
{
    crate::goto_laws::every_hit_is_a_candidate(hits);
    let all = hits.map_values(|h: Hit| crate::goto_laws::candidate_for(h));
    let shown = crate::seqs::views(found@);
    assert(shown.len() == found@.len());
    assert(shown[i] == all[i]);
}

/// With one candidate there is nothing to ask; with none there is no answer; else
/// the prompt asks about all of them.
pub proof fn a_choice_is_asked_for_where_there_is_one(
    symbol: &str,
    usage: Option<&str>,
    cands: &[Candidate],
    r: Resolution,
)
    requires
        call_ensures(crate::gotodef::find_definition, (symbol, usage, cands), r),
    ensures
        cands@.len() == 0 ==> r is Nothing,
        cands@.len() == 1 ==> (r matches Resolution::Only(c) && c@ == cands@[0]@),
        cands@.len() > 1 ==> (r matches Resolution::Ask(p) && crate::text::occurs(
            p@,
            crate::gotodef::numbered_candidates(crate::seqs::views(cands@)),
        )),
{
    if let Resolution::Ask(p) = r {
        let list = crate::gotodef::numbered_candidates(crate::seqs::views(cands@));
        let n = p@.len() - list.len();
        crate::text_laws::a_text_holds_its_parts(p@.take(n), list, Seq::empty());
        assert(p@.take(n) + list + Seq::empty() == p@);
    }
}

/// A search is made for a symbol as it stands, and for nothing else.
pub proof fn a_search_is_made_for_the_symbol(symbol: &str, r: Option<Vec<String>>)
    requires
        call_ensures(crate::gotodef::grep_args, (symbol,), r),
    ensures
        r is Some <==> crate::gotodef::is_symbol(symbol@),
        r matches Some(v) ==> v@.len() == 6 && v@[5]@ == symbol@ && v@[4]@ == "--"@ && v@[0]@
            == "grep"@ && v@[1]@ == "-n"@ && v@[2]@ == "-w"@ && v@[3]@ == "--untracked"@,
{
    if let Some(v) = r {
        let w = crate::seqs::views(v@);
        assert(w.len() == 6);
        assert(w[0] == v@[0]@ && w[1] == v@[1]@ && w[2] == v@[2]@ && w[3] == v@[3]@ && w[4]
            == v@[4]@ && w[5] == v@[5]@);
    }
}

/// A reply is posted to the hunk that it names, with its whole text, where the
/// review has that hunk; else the agent is told that there is none.
pub proof fn a_reply_is_posted_whole(
    loaded: Result<(ReviewState, String), String>,
    file: &str,
    header: &str,
    text: &str,
    r: Outcome,
)
    requires
        call_ensures(crate::mcp::on_state, (Tool::ReplyToComment, loaded, file, header, text), r),
    ensures
        loaded matches Ok((state, _)) ==> if exists|i: int, j: int|
            #![trigger state@.files[i].hunks[j]]
            0 <= i < state@.files.len() && 0 <= j < state@.files[i].hunks.len()
                && state@.files[i].path == file@ && state@.files[i].hunks[j].header == header@ {
            r matches Outcome::Post(reply) && reply@.file == file@ && reply@.hunk_header == header@
                && reply@.text == text@
        } else {
            r matches Outcome::Done(res) && res.is_error && res.text@
                == "no such hunk in the review: "@ + file@ + " "@ + header@
        },
        loaded matches Err(e) ==> (r matches Outcome::Done(res) && res.is_error && res.text@
            == "no review state: "@ + e@),
{
}

/// The agent gets the review as it was loaded.
pub proof fn the_review_is_told_as_loaded(
    loaded: Result<(ReviewState, String), String>,
    file: &str,
    header: &str,
    text: &str,
    r: Outcome,
)
    requires
        call_ensures(crate::mcp::on_state, (Tool::GetReviewState, loaded, file, header, text), r),
    ensures
        loaded matches Ok((_, json)) ==> (r matches Outcome::Done(res) && !res.is_error && res.text
            == json),
        loaded is Err ==> (r matches Outcome::Done(res) && res.is_error),
{
}

/// The agent gets the report as it was read, or why it could not be.
pub proof fn the_report_is_told_as_read(path: &str, read: Result<String, String>, r: ToolResult)
    requires
        call_ensures(crate::mcp::report_result, (path, read), r),
    ensures
        r.is_error <==> read is Err,
        read matches Ok(s) ==> r.text == s,
        read matches Err(e) ==> r.text@ == "no report at "@ + path@ + ": "@ + e@,
{
}

/// Every message is answered, and a notification never: what is no request of the
/// protocol is refused by its name.
pub proof fn every_request_is_answered(method: &str, has_id: bool, r: Asked)
    requires
        call_ensures(crate::mcp::dispatch, (method, has_id), r),
    ensures
        r is Initialize <==> method@ == "initialize"@,
        r is ListTools <==> method@ == "tools/list"@,
        r is CallTool <==> method@ == "tools/call"@,
        r is Nothing ==> !has_id,
        r matches Asked::NotFound(code, message) ==> has_id && code == -32601 && message@
            == "method not found: "@ + method@,
{
    reveal_strlit("initialize");
    reveal_strlit("tools/list");
    reveal_strlit("tools/call");
    assert("initialize"@[0] == 'i' && "tools/list"@[0] == 't' && "tools/call"@[0] == 't');
    assert("tools/list"@[6] == 'l' && "tools/call"@[6] == 'c');
}

/// A line of a message is read without the white space around it; a blank line is
/// passed over, and any other is read or reported as it is.
pub proof fn every_line_is_read_or_reported(line: &str, r: Line)
    requires
        call_ensures(crate::mcp::read_line, (line,), r),
    ensures
        r is Blank <==> crate::text::trim(line@).len() == 0,
        crate::text::trim(line@).len() > 0 ==> match crate::mcp::json_value(
            crate::text::trim(line@),
        ) {
            Some(v) => r == Line::Message(v),
            None => r matches Line::Malformed(s) && s@ == crate::text::trim(line@),
        },
{
}

/// Every tool is called by its name, and another name is refused.
pub proof fn tools_are_called_by_name(name: &str, r: Step)
    requires
        call_ensures(crate::mcp::begin_call, (name,), r),
    ensures
        name@ == "get_report"@ <==> r is ReadReport,
        name@ == "get_review_state"@ <==> r == Step::LoadState(Tool::GetReviewState),
        name@ == "list_rejected"@ <==> r == Step::LoadState(Tool::ListRejected),
        name@ == "reply_to_comment"@ <==> r == Step::LoadState(Tool::ReplyToComment),
        r matches Step::Refused(res) ==> res.is_error && res.text@ == "unknown tool: "@ + name@,
{
    crate::remote_laws::tools_go_by_their_names(name@);
}

/// A header shows of its hunk whether it has a comment and whether it has changed
/// since, and how many replies there are to it.
pub proof fn a_header_shows_its_hunk(
    files: &[ChangedFile],
    f: usize,
    idx: usize,
    text: &str,
    whole: bool,
    replies: Replies,
    r: HeaderControls,
)
    requires
        call_ensures(
            crate::controls::hunk_header_controls,
            (files, Some(f), idx, text, whole, &replies),
            r,
        ),
        f < files@.len(),
        idx < files@[f as int]@.hunks.len(),
    ensures
        ({
            let h = files@[f as int]@.hunks[idx as int];
            &&& r.has_comment <==> exists|k: int|
                0 <= k < h.comment.len() && !crate::text::is_white(#[trigger] h.comment[k])
            &&& r.changed_since == h.changed_since_review
            &&& !whole ==> r.status == h.status
            &&& r.replies == crate::seqs::views(replies.replies@).filter(
                |x: ReplyModel| x.file == files@[f as int]@.path && x.hunk_header == text@,
            ).len()
        }),
{
    let h = files@[f as int]@.hunks[idx as int];
    let path = files@[f as int]@.path;
    crate::text_laws::blank_is_nothing_but_white_space(h.comment);
    crate::controls::single_target_shows_its_status(files@[f as int]@.hunks, idx);
    assert((|x: ReplyModel| crate::review_state::replies_to(x, path, text@)) =~= (|x: ReplyModel|
        x.file == path && x.hunk_header == text@));
}

/// The replies to a hunk are those on its file and header, all of them in order.
pub proof fn replies_are_found_by_header(
    replies: Replies,
    file: &str,
    header: &str,
    found: Vec<&Reply>,
)
    requires
        call_ensures(Replies::for_hunk, (&replies, file, header), found),
    ensures
        crate::seqs::views(found@) == crate::seqs::views(replies.replies@).filter(
            |x: ReplyModel| x.file == file@ && x.hunk_header == header@,
        ),
{
    assert((|x: ReplyModel| crate::review_state::replies_to(x, file@, header@)) =~= (|
        x: ReplyModel,
    | x.file == file@ && x.hunk_header == header@));
}

/// What was fetched is kept as it came: the text of a file, or the hunks of the
/// full diff of its path.
pub proof fn what_was_fetched_is_kept(
    key: ContentKey,
    text: String,
    files: &[ChangedFile],
    r: FileContent,
    k: int,
)
    requires
        call_ensures(crate::content::payload, (&key, text, files), r),
    ensures
        !key.full_diff ==> r@ == ContentModel::Full(text@),
        key.full_diff && 0 <= k < files@.len() && files@[k]@.path == key@.path && (forall|i: int|
            0 <= i < k ==> (#[trigger] files@[i])@.path != key@.path) ==> r@
            == ContentModel::FullHunks(files@[k]@.hunks),
{
    let fs = crate::seqs::views(files@);
    if 0 <= k < files@.len() && files@[k]@.path == key@.path && (forall|i: int|
        0 <= i < k ==> (#[trigger] files@[i])@.path != key@.path) {
        assert forall|i: int| 0 <= i < k implies (#[trigger] fs[i]).path != key@.path by {
            assert(fs[i] == files@[i]@);
        }
        assert(fs[k] == files@[k]@);
        crate::session_laws::hunks_are_found_by_path(fs, key@.path, k);
    }
}

/// Untracked files are read for the working tree, and for a range of commits none
/// are.
pub proof fn untracked_files_are_read_for_the_work_tree(
    source: DiffSource,
    listing: &str,
    r: Vec<String>,
)
    requires
        call_ensures(crate::repo::ssh::untracked_to_read, (source, listing, None), r),
    ensures
        source == DiffSource::BranchRange ==> r@.len() == 0,
        source == DiffSource::WorkingTree ==> crate::seqs::views(r@) == crate::text::lines(
            listing@,
        ).map_values(|l: Seq<char>| crate::text::trim(l)).filter(|n: Seq<char>| n.len() > 0),
{
    crate::remote_laws::untracked_files_belong_to_the_diff(
        crate::text::lines(listing@),
        Seq::empty(),
    );
    if source == DiffSource::BranchRange {
        assert(crate::seqs::views(r@).len() == r@.len());
    }
}

/// A file on the remote machine is read and written under its path in the repo;
/// what is written is put beside its place and then moved there.
pub proof fn remote_files_are_named_by_their_path(
    repo: SshRepo,
    rel: &str,
    read: String,
    write: String,
    list: String,
)
    requires
        call_ensures(SshRepo::read_command, (&repo, rel), read),
        call_ensures(SshRepo::write_command, (&repo, rel), write),
        call_ensures(SshRepo::list_command, (&repo, rel), list),
    ensures
        ({
            let path = repo.target@.path + "/"@ + rel@;
            let tmp = crate::repo::ssh::quoted(path + ".purview.tmp"@);
            &&& read@ == "cat "@ + crate::repo::ssh::quoted(path)
            &&& write@ == "cat > "@ + tmp + " && mv "@ + tmp + " "@ + crate::repo::ssh::quoted(path)
            &&& rel@.len() > 0 ==> list@ == "ls -Ap "@ + crate::repo::ssh::quoted(path)
            &&& rel@.len() == 0 ==> list@ == "ls -Ap "@ + crate::repo::ssh::quoted(
                repo.target@.path,
            )
        }),
{
    reveal_strlit("/");
    assert(repo.target@.path.push('/') + rel@ == repo.target@.path + "/"@ + rel@);
}

/// A lookup ends with the definition that was found, or with a note that says why
/// there is none.
pub proof fn a_lookup_ends_with_its_answer(
    slot: Option<Goto>,
    res: Result<Option<Candidate>, String>,
    r: (Option<Goto>, Option<Candidate>),
)
    requires
        call_ensures(crate::overlay::finish_goto, (slot, res), r),
    ensures
        res matches Ok(Some(c)) ==> r.0 is None && r.1 == Some(c),
        !(res matches Ok(Some(_))) ==> r.1 is None && (r.0 is Some <==> slot is Some),
        res matches Ok(None) ==> (r.0 matches Some(g) ==> g@.note == "no definition found"@),
        res matches Err(e) ==> (r.0 matches Some(g) ==> g@.note == "resolve failed: "@ + e@),
{
}

/// The gutter shows both numbers in columns of one width and then the mark of the
/// line.
pub proof fn the_gutter_shows_numbers_and_mark(
    old_no: Option<u32>,
    new_no: Option<u32>,
    kind: LineKind,
    width: usize,
    r: String,
)
    requires
        call_ensures(crate::display::diff_gutter, (old_no, new_no, kind, width), r),
        old_no matches Some(n) ==> crate::number::decimal(n as nat).len() <= width,
        new_no matches Some(n) ==> crate::number::decimal(n as nat).len() <= width,
    ensures
        r@.len() == 2 * width + 4,
        r@.take(width as int) == crate::display::aligned_number(old_no, width as nat),
        r@.subrange(width + 1, 2 * width + 1) == crate::display::aligned_number(
            new_no,
            width as nat,
        ),
        r@[2 * width + 2] == match kind {
            LineKind::Add => '+',
            LineKind::Del => '-',
            LineKind::Ctx => ' ',
        },
{
    if let Some(n) = old_no {
        crate::view_laws::numbers_are_aligned_right(n, width as nat);
    }
    if let Some(n) = new_no {
        crate::view_laws::numbers_are_aligned_right(n, width as nat);
    }
    crate::view_laws::numbers_are_aligned_right(0, width as nat);
    crate::view_laws::changes_are_marked();
    let a = crate::display::aligned_number(old_no, width as nat);
    let b = crate::display::aligned_number(new_no, width as nat);
    assert(r@.take(width as int) == a);
    assert(r@.subrange(width + 1, 2 * width + 1) == b);
}

/// Two panes stand side by side for a changed file only.
pub proof fn only_changes_are_shown_side_by_side(
    computing: bool,
    fetching: bool,
    selected: Option<&Selection>,
    layout: Layout,
    r: PaneState,
)
    requires
        call_ensures(crate::display::pane_state, (computing, fetching, selected, layout), r),
    ensures
        computing ==> r == PaneState::Computing,
        !computing && fetching ==> r == PaneState::Fetching,
        !computing && !fetching ==> match selected {
            None => r == PaneState::Empty,
            Some(s) => r == PaneState::Split <==> layout == Layout::Split && s@ is Changed,
        },
{
}

/// The glyph of a file says whether all of it, some of it or none has been
/// reviewed.
pub proof fn the_glyph_says_how_much_is_reviewed(reviewed: usize, total: usize, r: &'static str)
    requires
        call_ensures(crate::controls::progress_glyph, (reviewed, total), r),
        reviewed <= total,
    ensures
        0 < reviewed && reviewed == total ==> r@ == "✓"@,
        0 < reviewed < total ==> r@ == "◐"@,
        reviewed == 0 ==> r@ == "○"@,
{
}

/// A verdict has its glyph.
pub proof fn a_verdict_has_its_glyph(status: ReviewStatus, r: &'static str)
    requires
        call_ensures(crate::controls::status_glyph, (status,), r),
    ensures
        status == ReviewStatus::Approved ==> r@ == "✓"@,
        status == ReviewStatus::Rejected ==> r@ == "✗"@,
        status == ReviewStatus::Unreviewed ==> r@ == "○"@,
{
}

/// What is saved of a review has every hunk, with its verdict, and its comment
/// unless it is nothing but white space; and every orphan.
pub proof fn a_review_is_saved_with_its_comments(r: Review, state: ReviewState, i: int, j: int)
    requires
        call_ensures(Review::save_review_state, (&r,), state),
        0 <= i < r@.files.len(),
        0 <= j < r@.files[i].hunks.len(),
    ensures
        ({
            let h = r@.files[i].hunks[j];
            let s = state@.files[i].hunks[j];
            &&& state@.files.len() == r@.files.len()
            &&& state@.files[i].path == r@.files[i].path
            &&& state@.files[i].hunks.len() == r@.files[i].hunks.len()
            &&& s.header == h.header
            &&& s.anchor == crate::diff::anchor(h)
            &&& h.status == ReviewStatus::Approved ==> s.status == "approved"@
            &&& h.status == ReviewStatus::Rejected ==> s.status == "rejected"@
            &&& h.status == ReviewStatus::Unreviewed ==> s.status == "unreviewed"@
            &&& (exists|k: int|
                0 <= k < h.comment.len() && !crate::text::is_white(#[trigger] h.comment[k]))
                ==> s.comment == Some(h.comment)
            &&& state@.orphaned == r@.orphaned
            &&& state@.branch == r@.branch
        }),
{
    crate::state_laws::a_review_is_saved_whole(r@.files, i, j);
}

/// A row is found where its text holds what is looked for, and nowhere else.
pub proof fn rows_are_found_by_their_text(
    rows: &[RenderRow],
    query: &str,
    found: Vec<usize>,
    i: int,
)
    requires
        call_ensures(crate::search::find_matches, (rows, query), found),
        0 <= i < rows@.len() <= usize::MAX,
    ensures
        found@.contains(i as usize) <==> crate::text::lowercase(crate::text::trim(query@)).len() > 0
            && crate::text::occurs(
            crate::text::lowercase(crate::browse_laws::shown_text(rows@[i]@)),
            crate::text::lowercase(crate::text::trim(query@)),
        ),
{
    let views = crate::seqs::views(rows@);
    assert(views[i] == rows@[i]@);
    crate::browse_laws::every_row_with_the_text_is_found(views, query@, i);
}

/// Everything that was found in a directory is in its listing.
pub proof fn a_directory_is_listed_whole(
    rel: &str,
    found: &[Found],
    listed: Vec<DirEntry>,
    k: int,
)
    requires
        call_ensures(crate::tree::arrange, (rel, found), listed),
        0 <= k < found@.len(),
    ensures
        listed@.len() == found@.len(),
        crate::seqs::views(listed@).contains(
            EntryModel {
                name: found@[k].name@,
                rel: if rel@.len() == 0 {
                    found@[k].name@
                } else {
                    rel@ + seq!['/'] + found@[k].name@
                },
                is_dir: found@[k].is_dir,
            },
        ),
{
    let all = crate::seqs::views(found@);
    let e = EntryModel {
        name: found@[k].name@,
        rel: if rel@.len() == 0 {
            found@[k].name@
        } else {
            rel@ + seq!['/'] + found@[k].name@
        },
        is_dir: found@[k].is_dir,
    };
    assert(all[k].name == e.name && all[k].is_dir == e.is_dir);
    crate::browse_laws::a_listing_shows_everything(rel@, all, e);
    assert(crate::seqs::views(listed@).len() == listed@.len());
    assert(all.len() == found@.len());
}

/// The starts that a header names are read.
pub proof fn the_starts_of_a_header_are_read(
    header: &str,
    r: Option<(u32, u32)>,
    old_start: u32,
    old_count: Option<nat>,
    new_start: u32,
    new_count: Option<nat>,
    rest: Seq<char>,
)
    requires
        call_ensures(crate::diff::parse_hunk_starts, (header,), r),
        header@ == crate::numbering_laws::header_text(
            old_start as nat,
            old_count,
            new_start as nat,
            new_count,
            rest,
        ),
        rest.len() > 0 ==> rest[0] == ' ',
    ensures
        r == Some((old_start, new_start)),
{
    crate::numbering_laws::header_starts_are_read(
        old_start as nat,
        old_count,
        new_start as nat,
        new_count,
        rest,
    );
}

/// A line that is replaced leaves everything before it and behind it.
pub proof fn a_replaced_line_leaves_the_rest(content: &str, n: usize, new: &str, r: Option<String>)
    requires
        call_ensures(crate::diff::replace_nth_line, (content, n, new), r),
    ensures
        r is Some <==> n < crate::text::lines(content@).len(),
        r matches Some(s) ==> exists|a: Seq<char>, b: Seq<char>|
            {
                &&& content@ == #[trigger] (a + crate::text::lines(content@)[n as int] + b)
                &&& s@ == a + new@ + b
                &&& a.filter(|c: char| c == '\n').len() == n
            },
{
    if n < crate::text::line_count(content@) {
        crate::numbering_laws::replacing_leaves_the_rest(content@, n as int, new@);
    }
}

/// A file that is not tracked is shown with every line of it.
pub proof fn an_untracked_file_is_shown_whole(path: &str, content: &str, f: ChangedFile, i: int)
    requires
        call_ensures(crate::diff::untracked_as_changed_file, (path, content), f),
        0 <= i < crate::text::lines(content@).len() < u32::MAX,
    ensures
        f@.path == path@,
        f@.hunks.len() == 1,
        f@.hunks[0].rows.len() == crate::text::lines(content@).len(),
        f@.hunks[0].rows[i].kind == LineKind::Add,
        f@.hunks[0].rows[i].text == crate::text::lines(content@)[i],
{
    crate::numbering_laws::a_new_file_is_all_additions(path@, content@);
}

/// A shell reads a quoted text as the text.
pub proof fn a_shell_reads_what_was_quoted(s: &str, r: String)
    requires
        call_ensures(crate::repo::ssh::shell_quote, (s,), r),
    ensures
        crate::repo::ssh::shell_reads(r@, false) == Some(s@),
{
    crate::repo::ssh::shell_reads_back_what_was_quoted(s@);
}

/// The URL of a target is read as the target.
pub proof fn a_url_is_read_as_its_target(t: SshTarget, arg: &str, r: Option<SshTarget>)
    requires
        call_ensures(SshTarget::parse, (arg,), r),
        crate::repo::ssh::can_be_named(t@),
        arg@ == crate::repo::ssh::url_of(t@),
    ensures
        r matches Some(x) && x@ == t@,
{
    crate::repo::ssh::target_reads_back(t@);
}

/// The number of a candidate picks it.
pub proof fn the_number_of_a_candidate_picks_it(
    reply: &str,
    cands: &[Candidate],
    r: Option<Candidate>,
    i: int,
)
    requires
        call_ensures(crate::gotodef::pick_candidate, (reply, cands), r),
        0 <= i < cands@.len() <= usize::MAX,
        reply@ == crate::number::decimal((i + 1) as nat),
    ensures
        r matches Some(c) && c@ == cands@[i]@,
{
    let all = crate::seqs::views(cands@);
    assert(all.len() == cands@.len());
    assert(all[i] == cands@[i]@);
    crate::gotodef::replying_its_number_chooses_a_candidate(all, i);
}

/// Laid side by side, a diff has every line on its side.
pub proof fn aligned_rows_have_both_sides(rows: &[DiffLineRow], out: Vec<RenderRow>)
    requires
        call_ensures(crate::rows::split_align, (rows,), out),
    ensures
        crate::rows_laws::old_column(crate::seqs::views(out@)) == crate::rows_laws::old_cells(
            crate::seqs::views(rows@),
        ),
        crate::rows_laws::new_column(crate::seqs::views(out@)) == crate::rows_laws::new_cells(
            crate::seqs::views(rows@),
        ),
{
    crate::rows_laws::layout_keeps_both_sides(crate::seqs::views(rows@), Layout::Split);
}

/// The summary of a file and the whole of it have every line on its side.
pub proof fn shown_files_have_both_sides(
    review: &[Hunk],
    full: &[Hunk],
    layout: Layout,
    short: Vec<RenderRow>,
    whole: Vec<RenderRow>,
)
    requires
        call_ensures(crate::rows::summary_rows, (review, layout), short),
        call_ensures(crate::rows::full_rows, (review, full, layout), whole),
        review@.len() <= usize::MAX,
    ensures
        ({
            let rows = crate::rows::rows_of(crate::seqs::views(review@), review@.len());
            let all = crate::rows::rows_of(crate::seqs::views(full@), full@.len());
            let a = crate::seqs::views(short@);
            let b = crate::seqs::views(whole@);
            &&& crate::rows_laws::old_column(a) == crate::rows_laws::old_cells(rows)
            &&& crate::rows_laws::new_column(a) == crate::rows_laws::new_cells(rows)
            &&& crate::rows_laws::old_column(b) == crate::rows_laws::old_cells(all)
            &&& crate::rows_laws::new_column(b) == crate::rows_laws::new_cells(all)
        }),
{
    let rs = crate::seqs::views(review@);
    crate::rows_laws::summary_keeps_both_sides(rs, layout, review@.len());
    crate::rows_laws::whole_file_keeps_both_sides(
        rs,
        layout,
        crate::rows::rows_of(crate::seqs::views(full@), full@.len()),
    );
}

/// A plain file is shown line by line.
pub proof fn plain_files_are_shown_line_by_line(content: &str, out: Vec<RenderRow>, i: int)
    requires
        call_ensures(crate::rows::plain_rows, (content,), out),
        0 <= i < crate::text::lines(content@).len() <= u32::MAX,
    ensures
        out@.len() == crate::text::lines(content@).len(),
        out@[i]@ == (RenderModel::Plain {
            text: crate::text::lines(content@)[i],
            lineno: (i + 1) as u32,
        }),
{
    let v = crate::seqs::views(out@);
    assert(v.len() == out@.len());
    crate::view_laws::a_plain_file_shows_every_line(content@, i);
    assert(v[i] == out@[i]@);
}

/// All replies that could be read are there, in order.
pub proof fn readable_replies_are_loaded(read: &[Option<Reply>], r: Replies)
    requires
        call_ensures(Replies::load, (read,), r),
    ensures
        crate::seqs::views(r.replies@) == read@.map_values(
            |o: Option<Reply>| crate::seqs::opt_view(o),
        ).filter(|o: Option<ReplyModel>| o is Some).map_values(|o: Option<ReplyModel>| o->0),
{
    crate::state_laws::all_that_can_be_read_is_loaded(
        read@.map_values(|o: Option<Reply>| crate::seqs::opt_view(o)),
    );
}

/// A diff of a remote repo has every line of the patch, and behind it every
/// untracked file that was read.
pub proof fn a_remote_diff_is_complete(
    head: &str,
    patch: &str,
    names: &[String],
    contents: &[Option<String>],
    branch: String,
    files: Vec<ChangedFile>,
)
    requires
        call_ensures(
            crate::repo::ssh::compute_full,
            (head, patch, names, contents),
            Some((branch, files)),
        ),
    ensures
        ({
            let patched = crate::diff::numbered(crate::diff::patch_files(patch@));
            let untracked = crate::repo::ssh::untracked_files(
                crate::seqs::views(names@),
                crate::repo::ssh::opt_views(contents@),
                names@.len(),
            );
            &&& crate::patch_laws::marks(patched) == crate::patch_laws::lines_say(
                crate::text::split(patch@, '\n'),
            )
            &&& crate::seqs::views(files@) == patched + untracked
            &&& crate::text::trim(head@) != "HEAD"@ ==> branch@ == crate::text::trim(head@)
            &&& crate::text::trim(head@) == "HEAD"@ ==> branch@ == "(detached)"@
        }),
{
    crate::patch_laws::every_line_of_a_patch_is_read(patch@);
}

/// Progress counts every hunk of a saved review, and as reviewed those with a
/// verdict.
pub proof fn progress_of_a_review_counts_every_hunk(state: ReviewState, r: (usize, usize))
    requires
        call_ensures(ReviewState::progress, (&state,), r),
    ensures
        r.1 == crate::state_laws::kept_hunks(state@.files).len(),
        r.0 == crate::state_laws::kept_hunks(state@.files).filter(
            |s: HunkStateModel| s.status != "unreviewed"@,
        ).len(),
{
    crate::state_laws::progress_counts_every_hunk(state@.files);
}

/// The totals of a diff count every hunk of it, and as reviewed those with a
/// verdict.
pub proof fn totals_of_a_diff_count_every_hunk(files: &[ChangedFile], r: (usize, usize))
    requires
        call_ensures(crate::report::review_totals, (files,), r),
    ensures
        r.1 == crate::report_laws::all_hunks(crate::seqs::views(files@)).len(),
        r.0 == crate::report_laws::all_hunks(crate::seqs::views(files@)).filter(
            |h: crate::diff::HunkModel| h.status != ReviewStatus::Unreviewed,
        ).len(),
{
    crate::report_laws::progress_counts_the_hunks_of_the_diff(crate::seqs::views(files@));
}

/// A review with a verdict, a comment or an orphan is kept.
pub proof fn a_review_with_anything_in_it_is_kept(r: Review, kept: bool, f: int, h: int)
    requires
        call_ensures(Review::has_review, (&r,), kept),
    ensures
        r@.orphaned.len() > 0 ==> kept,
        0 <= f < r@.files.len() && 0 <= h < r@.files[f].hunks.len() && (r@.files[f].hunks[h].status
            != ReviewStatus::Unreviewed || exists|k: int|
            0 <= k < r@.files[f].hunks[h].comment.len() && !crate::text::is_white(
                #[trigger] r@.files[f].hunks[h].comment[k],
            )) ==> kept,
{
    crate::session_laws::a_review_is_kept_where_there_is_one(r@, f, h);
}

/// A comparison goes on with its own state where it has one, and never with that
/// of another comparison.
pub proof fn a_comparison_goes_on_with_its_own_state(
    own: Option<ReviewState>,
    single: Option<ReviewState>,
    key: ComparisonKey,
    r: Resumed,
)
    requires
        call_ensures(crate::session::load_for_comparison, (own, single, &key), r),
    ensures
        own matches Some(s) ==> (r matches Resumed::Own(t) && t@ == s@),
        own is None && single is None ==> r is Fresh,
        r matches Resumed::Migrated(t) ==> own is None && (single matches Some(s) && t@ == s@)
            && t@.range == crate::review_state::label(key@),
        own is None && (single matches Some(s) && s@.range == crate::review_state::label(key@))
            ==> r is Migrated,
{
}

/// The entries of a remote directory are those that were listed.
pub proof fn a_remote_directory_is_listed_whole(rel: &str, out: &str, r: Vec<DirEntry>)
    requires
        call_ensures(crate::repo::ssh::list_dir, (rel, out), r),
    ensures
        crate::seqs::views(r@) == crate::tree::listing(
            rel@,
            crate::repo::ssh::found_in(crate::text::lines(out@)),
        ),
        r@.len() == crate::repo::ssh::found_in(crate::text::lines(out@)).len(),
{
    let found = crate::repo::ssh::found_in(crate::text::lines(out@));
    let any = EntryModel { name: Seq::empty(), rel: Seq::empty(), is_dir: false };
    crate::browse_laws::a_listing_shows_everything(rel@, found, any);
    assert(crate::seqs::views(r@).len() == r@.len());
}

/// A remote command is the last thing that the call says, behind where it goes.
pub proof fn a_remote_command_is_sent_whole(repo: SshRepo, command: &str, r: Vec<String>)
    requires
        call_ensures(SshRepo::remote_args, (&repo, command), r),
    ensures
        r@.len() >= 2,
        r@.last()@ == command@,
        r@[r@.len() - 2]@ == crate::repo::ssh::destination_of(repo.target@),
        crate::seqs::views(r@).take(8) == crate::repo::ssh::mux_options(repo.ctl_dir@),
{
    let v = crate::seqs::views(r@);
    let mux = crate::repo::ssh::mux_options(repo.ctl_dir@);
    assert(v.len() == r@.len());
    assert(mux.len() == 8);
    assert(v.take(8) == mux);
    assert(v[v.len() - 1] == r@[r@.len() - 1]@);
    assert(v[v.len() - 2] == r@[r@.len() - 2]@);
    assert(v[v.len() - 1] == command@);
    assert(v[v.len() - 2] == crate::repo::ssh::destination_of(repo.target@));
}

/// The prompt names the symbol, says where it is used, and ends with the
/// candidates.
pub proof fn the_prompt_ends_with_the_candidates(
    symbol: &str,
    usage: Option<&str>,
    cands: &[Candidate],
    r: String,
)
    requires
        call_ensures(crate::gotodef::build_prompt, (symbol, usage, cands), r),
    ensures
        exists|front: Seq<char>|
            r@ == #[trigger] (front + crate::gotodef::numbered_candidates(
                crate::seqs::views(cands@),
            )) && crate::text::occurs(front, "`"@ + symbol@ + "`"@) && (usage matches Some(u)
                ==> crate::text::occurs(front, "It is used here: "@ + u@ + "\n"@)),
{
    let list = crate::gotodef::numbered_candidates(crate::seqs::views(cands@));
    let open = "You are locating where the symbol `"@;
    let behind = "` is DEFINED or DECLARED (not merely used) in a codebase.\n"@;
    let used = match usage {
        Some(u) => "It is used here: "@ + u@ + "\n"@,
        None => Seq::empty(),
    };
    let ask
        = "\nCandidate locations (file:line: code):\nReply with ONLY the number of the candidate that is the definition/declaration. If none is a definition, reply 0. No other text.\n\n"@;
    let front = open + symbol@ + behind + used + ask;
    assert(r@ == front + list);
    reveal_strlit("You are locating where the symbol `");
    reveal_strlit("` is DEFINED or DECLARED (not merely used) in a codebase.\n");
    reveal_strlit("`");
    let a = open.drop_last();
    let b = behind.drop_first();
    let named = "`"@ + symbol@ + "`"@;
    assert(open == a + "`"@);
    assert(behind == "`"@ + b);
    assert(front == a + named + (b + used + ask));
    crate::text_laws::a_text_holds_its_parts(a, named, b + used + ask);
    crate::text_laws::a_text_holds_its_parts(open + symbol@ + behind, used, ask);
}

/// The match that is highlighted is opened.
pub proof fn the_highlighted_match_is_opened(q: QuickOpen, matches: &[usize], r: Option<String>)
    requires
        call_ensures(QuickOpen::on_enter, (&q, matches), r),
        forall|i: int| 0 <= i < matches@.len() ==> #[trigger] matches@[i] < q.all@.len(),
    ensures
        q.sel < matches@.len() ==> (r matches Some(p) && p@ == q.all@[matches@[q.sel as int] as int]@),
        q.sel >= matches@.len() ==> r is None,
{
}

/// Every match is tinted, and the current one so that it is told from the others.
pub proof fn every_match_is_tinted(s: Search, row: usize, r: Tint)
    requires
        call_ensures(Search::tint, (&s, row), r),
    ensures
        r is Plain ==> !s.matches@.contains(row),
        s.current < s.matches@.len() ==> (r is Current <==> s.matches@[s.current as int] == row),
        s.matches@.contains(row) ==> !(r is Plain),
{
    if s.current < s.matches@.len() {
        assert(s.matches@.contains(s.matches@[s.current as int]));
    }
}

/// The keys of the search go forward, or back with Shift.
pub proof fn search_keys_go_forward_or_back(
    enter: bool,
    f3: bool,
    ctrl_g: bool,
    shift: bool,
    r: (bool, bool),
)
    requires
        call_ensures(Search::direction, (enter, f3, ctrl_g, shift), r),
    ensures
        r.0 || r.1 <==> enter || f3 || ctrl_g,
        r.0 ==> !shift,
        r.1 ==> shift,
{
}

/// The note on an edit names the file and the line, counted from one, or says why
/// it failed.
pub proof fn an_edit_is_noted_with_its_place(
    path: &str,
    line0: usize,
    failure: Option<&str>,
    r: String,
)
    requires
        call_ensures(crate::controls::edit_note, (path, line0, failure), r),
    ensures
        failure is None ==> r@ == "edited "@ + path@ + ":"@ + crate::number::decimal(
            (line0 + 1) as nat,
        ),
        failure matches Some(e) ==> r@ == "edit failed: "@ + e@,
{
}

/// The replies to a hunk are those on its file that have its header, or its
/// anchor where it has one, all of them in order.
pub proof fn replies_are_found_by_anchor(
    replies: Replies,
    file: &str,
    header: &str,
    anchor: &str,
    found: Vec<&Reply>,
)
    requires
        call_ensures(Replies::for_hunk_anchored, (&replies, file, header, anchor), found),
    ensures
        crate::seqs::views(found@) == crate::seqs::views(replies.replies@).filter(
            |x: ReplyModel|
                x.file == file@ && (x.hunk_header == header@ || (anchor@.len() > 0 && x.anchor
                    == anchor@)),
        ),
{
    let a = |x: ReplyModel| crate::review_state::replies_to_anchored(x, file@, header@, anchor@);
    let b = |x: ReplyModel|
        x.file == file@ && (x.hunk_header == header@ || (anchor@.len() > 0 && x.anchor == anchor@));
    assert(a =~= b);
}

/// The files that hold replies are those with the extension `json`.
pub proof fn reply_files_are_found(names: &[String], r: Vec<String>, n: Seq<char>)
    requires
        call_ensures(crate::review_state::reply_files, (names,), r),
    ensures
        crate::seqs::views(r@).contains(n) <==> crate::seqs::views(names@).contains(n)
            && crate::path::extension(n) == "json"@,
{
    crate::state_laws::reply_files_are_the_json_files(crate::seqs::views(names@), n);
}

} // verus!
