//! What is kept of a review, under which name, and which replies are shown.

use crate::diff::{DiffSource, FileModel, ReviewStatus};
use crate::review_state::{FileStateModel, HunkStateModel, KeyModel, PostTime, ReplyModel};
use crate::text::Sep;
use vstd::prelude::*;

verus! {

/// A review is saved whole: every file with its path and all its hunks, and of
/// each hunk the header, the verdict, the anchor, the warning, and the comment as
/// it was written, unless it is nothing but white space.
pub proof fn a_review_is_saved_whole(files: Seq<FileModel>, i: int, j: int)
    ensures
        crate::review_state::saved_files(files).len() == files.len(),
        0 <= i < files.len() ==> {
            let saved = crate::review_state::saved_files(files)[i];
            &&& saved.path == files[i].path
            &&& saved.hunks.len() == files[i].hunks.len()
            &&& 0 <= j < files[i].hunks.len() ==> {
                let h = files[i].hunks[j];
                let s = saved.hunks[j];
                &&& s.header == h.header
                &&& s.status == match h.status {
                    ReviewStatus::Unreviewed => "unreviewed"@,
                    ReviewStatus::Approved => "approved"@,
                    ReviewStatus::Rejected => "rejected"@,
                }
                &&& s.anchor == crate::diff::anchor(h)
                &&& s.changed_since_review == h.changed_since_review
                &&& (exists|k: int|
                    0 <= k < h.comment.len() && !crate::text::is_white(#[trigger] h.comment[k]))
                    ==> s.comment == Some(h.comment)
                &&& (forall|k: int|
                    0 <= k < h.comment.len() ==> crate::text::is_white(#[trigger] h.comment[k]))
                    ==> s.comment is None
            }
        },
{
    if 0 <= i < files.len() && 0 <= j < files[i].hunks.len() {
        let c = files[i].hunks[j].comment;
        crate::text_laws::blank_is_nothing_but_white_space(c);
    }
}

/// Letters, digits, dots, underscores and hyphens stay as they are in the name
/// of a file, and every other character becomes an underscore.
pub proof fn a_name_keeps_what_it_can(s: Seq<char>, i: int)
    requires
        0 <= i < s.len(),
    ensures
        crate::review_state::sanitized(s).len() == s.len(),
        crate::text::is_alphanumeric(s[i]) || s[i] == '.' || s[i] == '_' || s[i] == '-'
            ==> crate::review_state::sanitized(s)[i] == s[i],
        !(crate::text::is_alphanumeric(s[i]) || s[i] == '.' || s[i] == '_' || s[i] == '-')
            ==> crate::review_state::sanitized(s)[i] == '_',
{
}

/// A comparison is named and labelled by its base.
pub proof fn a_comparison_is_named_by_its_base(base: Seq<char>)
    ensures
        crate::review_state::key_of(DiffSource::WorkingTree, base) == KeyModel::WorkingTree,
        crate::review_state::key_of(DiffSource::BranchRange, base) == (KeyModel::BranchRange {
            base,
        }),
        crate::review_state::stem(KeyModel::WorkingTree) == "worktree-vs-HEAD"@,
        crate::review_state::stem(KeyModel::BranchRange { base }).take(base.len() as int)
            == crate::review_state::sanitized(base),
        crate::review_state::stem(KeyModel::BranchRange { base }).skip(base.len() as int)
            == "__HEAD"@,
        crate::review_state::label(KeyModel::WorkingTree) == "working tree vs HEAD"@,
        crate::review_state::label(KeyModel::BranchRange { base }).take(base.len() as int) == base,
        crate::review_state::label(KeyModel::BranchRange { base }).skip(base.len() as int)
            == "...HEAD"@,
{
    let s = crate::review_state::stem(KeyModel::BranchRange { base });
    let l = crate::review_state::label(KeyModel::BranchRange { base });
    assert(s.take(base.len() as int) == crate::review_state::sanitized(base));
    assert(s.skip(base.len() as int) == "__HEAD"@);
    assert(l.take(base.len() as int) == base);
    assert(l.skip(base.len() as int) == "...HEAD"@);
}

/// What stands below a directory is the directory, one slash and the name: a
/// slash that ends the directory is not doubled.
pub proof fn a_file_stands_below_its_directory(root: Seq<char>, name: Seq<char>)
    requires
        root.len() > 0,
        root.last() != '/',
    ensures
        crate::review_state::path_join(root, name) == root + seq!['/'] + name,
        crate::review_state::path_join(root + seq!['/'], name) == root + seq!['/'] + name,
        crate::review_state::path_join(Seq::empty(), name) == name,
{
    assert((root + seq!['/']).last() == '/');
    assert(crate::review_state::path_join(root, name) == root + seq!['/'] + name);
    assert(Seq::<char>::empty() + name == name);
}

/// A reply is shown at a hunk exactly where it is on the same file and has the
/// hunk's header, or its anchor where there is one.
pub proof fn a_reply_is_shown_at_its_hunk(
    r: ReplyModel,
    file: Seq<char>,
    header: Seq<char>,
    anchor: Seq<char>,
)
    ensures
        r.file == file && r.hunk_header == header ==> crate::review_state::replies_to_anchored(
            r,
            file,
            header,
            anchor,
        ),
        r.file == file && r.anchor == anchor && anchor.len() > 0
            ==> crate::review_state::replies_to_anchored(r, file, header, anchor),
        r.file != file ==> !crate::review_state::replies_to_anchored(r, file, header, anchor),
        r.hunk_header != header && r.anchor != anchor ==> !crate::review_state::replies_to_anchored(
            r,
            file,
            header,
            anchor,
        ),
        r.hunk_header != header && anchor.len() == 0 ==> !crate::review_state::replies_to_anchored(
            r,
            file,
            header,
            anchor,
        ),
        crate::review_state::replies_to(r, file, header) <==> r.file == file && r.hunk_header
            == header,
{
}

/// All replies that could be read are loaded, in the order of their files.
pub proof fn all_that_can_be_read_is_loaded(read: Seq<Option<ReplyModel>>)
    ensures
        crate::review_state::readable(read) == read.filter(
            |o: Option<ReplyModel>| o is Some,
        ).map_values(|o: Option<ReplyModel>| o->0),
    decreases read.len(),
{
    let keep = |o: Option<ReplyModel>| o is Some;
    let get = |o: Option<ReplyModel>| o->0;
    reveal(Seq::filter);
    if read.len() > 0 {
        all_that_can_be_read_is_loaded(read.drop_last());
        if read.last() is Some {
            assert(read.filter(keep) == read.drop_last().filter(keep).push(read.last()));
            assert(read.filter(keep).map_values(get) == read.drop_last().filter(keep).map_values(
                get,
            ).push(read.last()->0));
        }
    } else {
        assert(read.filter(keep).map_values(get) == Seq::<ReplyModel>::empty());
    }
}

/// The hunks of these files, one after the other.
pub open spec fn kept_hunks(files: Seq<FileStateModel>) -> Seq<HunkStateModel>
    decreases files.len(),
{
    if files.len() == 0 {
        Seq::empty()
    } else {
        kept_hunks(files.drop_last()) + files.last().hunks
    }
}

proof fn lemma_reviewed(hunks: Seq<HunkStateModel>)
    ensures
        crate::review_state::reviewed_saved(hunks) == hunks.filter(
            |s: HunkStateModel| s.status != "unreviewed"@,
        ).len(),
    decreases hunks.len(),
{
    reveal(Seq::filter);
    if hunks.len() > 0 {
        lemma_reviewed(hunks.drop_last());
    }
}

/// Progress counts every hunk once, and as reviewed those with a verdict.
pub proof fn progress_counts_every_hunk(files: Seq<FileStateModel>)
    ensures
        crate::review_state::total_saved(files) == kept_hunks(files).len(),
        crate::review_state::total_reviewed_saved(files) == kept_hunks(files).filter(
            |s: HunkStateModel| s.status != "unreviewed"@,
        ).len(),
    decreases files.len(),
{
    let keep = |s: HunkStateModel| s.status != "unreviewed"@;
    if files.len() > 0 {
        progress_counts_every_hunk(files.drop_last());
        lemma_reviewed(files.last().hunks);
        Seq::filter_distributes_over_add(
            kept_hunks(files.drop_last()),
            files.last().hunks,
            keep,
        );
    } else {
        reveal(Seq::filter);
    }
}

/// The last dot is where no other follows.
proof fn lemma_last_dot(a: Seq<char>, e: Seq<char>)
    requires
        !e.contains('.'),
    ensures
        crate::path::last_dot(a + seq!['.'] + e) == Some(a.len() as int),
    decreases e.len(),
{
    let s = a + seq!['.'] + e;
    if e.len() > 0 {
        assert(e.contains(e.last()));
        assert forall|i: int| 0 <= i < e.drop_last().len() implies e.drop_last()[i] != '.' by {
            assert(e.contains(e[i]));
        }
        lemma_last_dot(a, e.drop_last());
        assert(s.drop_last() == a + seq!['.'] + e.drop_last());
        assert(s.last() == e.last());
    } else {
        assert(s.last() == '.');
    }
}

proof fn lemma_no_dot(s: Seq<char>)
    requires
        !s.contains('.'),
    ensures
        crate::path::last_dot(s) is None,
    decreases s.len(),
{
    if s.len() > 0 {
        assert(s.contains(s.last()));
        assert forall|i: int| 0 <= i < s.drop_last().len() implies s.drop_last()[i] != '.' by {
            assert(s.contains(s[i]));
        }
        lemma_no_dot(s.drop_last());
    }
}

/// What follows the last slash of a path.
proof fn lemma_last_piece(dir: Seq<char>, name: Seq<char>)
    requires
        !name.contains('/'),
    ensures
        crate::text::split(dir + seq!['/'] + name, '/').last() == name,
        crate::text::split(name, '/') == seq![name],
{
    crate::text_laws::lemma_unbroken(name, '/');
    crate::text::lemma_pieces_unbroken(name, Sep::Char('/'));
    crate::text::lemma_pieces_concat(dir, '/', name, Sep::Char('/'));
    assert(dir + seq!['/'] + name == dir.push('/') + name);
}

/// The extension of a file is what follows the last dot of its name, wherever
/// the file is; a name without a dot, or with one only in front, has none.
pub proof fn extensions_follow_the_last_dot(dir: Seq<char>, a: Seq<char>, e: Seq<char>)
    requires
        a.len() > 0,
        !a.contains('/'),
        !e.contains('/'),
        !e.contains('.'),
        a + seq!['.'] + e != ".."@,
    ensures
        crate::path::extension(a + seq!['.'] + e) == e,
        crate::path::extension(dir + seq!['/'] + (a + seq!['.'] + e)) == e,
        crate::path::extension(seq!['.'] + e) == Seq::<char>::empty(),
        crate::path::extension(e) == Seq::<char>::empty(),
{
    let name = a + seq!['.'] + e;
    let hidden = seq!['.'] + e;
    reveal_strlit("..");
    assert forall|i: int| 0 <= i < name.len() implies name[i] != '/' by {
        if i < a.len() {
            assert(a.contains(a[i]));
        } else if i > a.len() {
            assert(e.contains(e[i - a.len() - 1]));
        }
    }
    assert forall|i: int| 0 <= i < hidden.len() implies hidden[i] != '/' by {
        if i > 0 {
            assert(e.contains(e[i - 1]));
        }
    }
    lemma_last_piece(dir, name);
    lemma_last_piece(dir, hidden);
    lemma_last_piece(dir, e);
    lemma_last_dot(a, e);
    lemma_last_dot(Seq::empty(), e);
    lemma_no_dot(e);
    assert(Seq::<char>::empty() + seq!['.'] + e == hidden);
    assert(name.skip(a.len() as int + 1) == e);
    assert(seq!['.', '.'] == ".."@);
    assert(name != seq!['.']) by {
        assert(name.len() > 1);
    }
    assert(seq![name].last() == name && seq![hidden].last() == hidden && seq![e].last() == e);
    assert(crate::path::file_name(seq![name]) == Some(name));
    assert(crate::path::file_name(crate::text::split(dir + seq!['/'] + name, '/')) == Some(name));
    reveal_with_fuel(crate::path::file_name, 2);
}

/// The base name of a path is what follows its last slash.
pub proof fn base_names_follow_the_last_slash(dir: Seq<char>, name: Seq<char>)
    requires
        !name.contains('/'),
    ensures
        crate::path::base_name(dir + seq!['/'] + name) == name,
        crate::path::base_name(name) == name,
{
    lemma_last_piece(dir, name);
}

/// The files that hold replies are all those with the extension `json`, each as
/// often as it was listed.
pub proof fn reply_files_are_the_json_files(names: Seq<Seq<char>>, n: Seq<char>)
    ensures
        crate::review_state::reply_names(names).to_multiset() == names.filter(
            |n: Seq<char>| crate::path::extension(n) == "json"@,
        ).to_multiset(),
        crate::review_state::reply_names(names).contains(n) <==> names.contains(n)
            && crate::path::extension(n) == "json"@,
{
    broadcast use vstd::seq_lib::group_to_multiset_ensures;

    let keep = |n: Seq<char>| crate::path::extension(n) == "json"@;
    let kept = names.filter(keep);
    crate::order::in_order_sorts(kept);
    if names.contains(n) && keep(n) {
        let k = choose|k: int| 0 <= k < names.len() && names[k] == n;
        names.lemma_filter_contains(keep, k);
    }
    if kept.contains(n) {
        names.lemma_filter_contains_rev(keep, n);
    }
    assert(kept.contains(n) <==> kept.to_multiset().contains(n));
    assert(crate::review_state::reply_names(names).contains(n)
        <==> crate::review_state::reply_names(names).to_multiset().contains(n));
}

/// The file of a reply is named by the milliseconds at which it was posted, in
/// their thirteen digits, and by a counter of digits only; replies posted at
/// different times have different names.
pub proof fn a_reply_is_named_by_its_time(time: PostTime, process: u32)
    requires
        1_000_000_000_000 <= time.millis < 10_000_000_000_000,
    ensures
        exists|counter: Seq<char>|
            crate::review_state::reply_name(time, process) == #[trigger] (crate::number::decimal(
                time.millis as nat,
            ) + "-"@ + counter + ".json"@) && counter.len() == 40 && forall|i: int|
                0 <= i < counter.len() ==> 48 <= (#[trigger] counter[i]) as u32 <= 57,
{
    let counter = crate::review_state::counter_part(time, process);
    assert(crate::number::limit(13) == 10_000_000_000_000 && crate::number::limit(12)
        == 1_000_000_000_000) by {
        reveal_with_fuel(crate::number::limit, 14);
    }
    crate::number::lemma_padded_is_decimal(time.millis as nat, 13);
    crate::number::lemma_padded(time.nanos as nat, 10);
    crate::number::lemma_padded(time.count as nat, 20);
    crate::number::lemma_padded(process as nat, 10);
    assert forall|i: int| 0 <= i < counter.len() implies 48 <= (#[trigger] counter[i]) as u32
        <= 57 by {
        if i < 10 {
            assert(crate::number::is_digit(crate::number::padded(time.nanos as nat, 10)[i]));
        } else if i < 30 {
            assert(crate::number::is_digit(crate::number::padded(time.count as nat, 20)[i - 10]));
        } else {
            assert(crate::number::is_digit(crate::number::padded(process as nat, 10)[i - 30]));
        }
    }
    assert(crate::review_state::reply_name(time, process) == crate::number::decimal(
        time.millis as nat,
    ) + "-"@ + counter + ".json"@);
}

/// Names are in the order of their first characters that differ, and a name
/// stands before those that it begins.
pub proof fn names_are_ordered_by_their_characters(
    front: Seq<char>,
    a: char,
    b: char,
    x: Seq<char>,
    y: Seq<char>,
)
    requires
        a < b,
    ensures
        crate::order::at_most(front + seq![a] + x, front + seq![b] + y),
        !crate::order::at_most(front + seq![b] + y, front + seq![a] + x),
        crate::order::at_most(front, front + x),
        x.len() > 0 ==> !crate::order::at_most(front + x, front),
    decreases front.len(),
{
    let l = front + seq![a] + x;
    let r = front + seq![b] + y;
    if front.len() > 0 {
        let rest = front.drop_first();
        names_are_ordered_by_their_characters(rest, a, b, x, y);
        assert(l.drop_first() == rest + seq![a] + x);
        assert(r.drop_first() == rest + seq![b] + y);
        assert((front + x).drop_first() == rest + x);
        assert(l[0] == r[0] && (front + x)[0] == front[0]);
    } else {
        assert(l[0] == a && r[0] == b);
    }
}

/// Without repeats, a list in order has each of its names once, in order.
pub proof fn repeats_are_left_out(names: Seq<Seq<char>>, n: Seq<char>)
    requires
        forall|i: int, j: int|
            0 <= i <= j < names.len() ==> crate::order::at_most(
                #[trigger] names[i],
                #[trigger] names[j],
            ),
    ensures
        crate::order::without_repeats(names).no_duplicates(),
        crate::order::without_repeats(names).contains(n) <==> names.contains(n),
        forall|i: int, j: int|
            0 <= i <= j < crate::order::without_repeats(names).len() ==> crate::order::at_most(
                #[trigger] crate::order::without_repeats(names)[i],
                #[trigger] crate::order::without_repeats(names)[j],
            ),
        names.len() > 0 ==> crate::order::without_repeats(names).len() > 0
            && crate::order::without_repeats(names).last() == names.last(),
    decreases names.len(),
{
    let out = crate::order::without_repeats(names);
    crate::order::names_are_totally_ordered();
    let order = crate::order::name_order();
    assert forall|a: Seq<char>, b: Seq<char>|
        crate::order::at_most(a, b) && crate::order::at_most(b, a) implies a == b by {
        assert(order(a, b) && order(b, a));
    }
    assert forall|a: Seq<char>, b: Seq<char>, c: Seq<char>| #[trigger]
        crate::order::at_most(a, b) && #[trigger] crate::order::at_most(
            b,
            c,
        ) implies crate::order::at_most(a, c) by {
        assert(order(a, b) && order(b, c));
    }
    assert forall|a: Seq<char>| #[trigger] crate::order::at_most(a, a) by {
        assert(order(a, a));
    }
    if names.len() > 0 {
        let rest = names.drop_last();
        let before = crate::order::without_repeats(rest);
        repeats_are_left_out(rest, n);
        assert(names.contains(n) <==> rest.contains(n) || names.last() == n) by {
            assert(names == rest.push(names.last()));
            if rest.contains(n) {
                let k = choose|k: int| 0 <= k < rest.len() && rest[k] == n;
                assert(names[k] == n);
            }
            if names.last() == n {
                assert(names[names.len() - 1] == n);
            }
        }
        if names.len() > 1 && names[names.len() - 2] == names.last() {
            assert(rest.last() == names.last());
            assert(rest.contains(rest.last()));
        } else {
            assert(out == before.push(names.last()));
            assert(out.last() == names.last());
            assert forall|i: int| 0 <= i < before.len() implies crate::order::at_most(
                #[trigger] before[i],
                names.last(),
            ) && before[i] != names.last() by {
                if rest.len() > 0 {
                    assert(crate::order::at_most(before[i], before[before.len() - 1]));
                    assert(before[before.len() - 1] == rest[rest.len() - 1]);
                    assert(names[names.len() - 2] == rest[rest.len() - 1]);
                    assert(crate::order::at_most(names[names.len() - 2], names[names.len() - 1]));
                }
            }
            assert(out.contains(n) <==> before.contains(n) || names.last() == n) by {
                if before.contains(n) {
                    let k = choose|k: int| 0 <= k < before.len() && before[k] == n;
                    assert(out[k] == n);
                }
                assert(out[before.len() as int] == names.last());
            }
        }
    }
}

} // verus!
