//! What a directory of replies keeps: every reply that was posted, in post order.

use crate::review_state::{PostTime, ReplyModel};
use vstd::prelude::*;
use vstd::relations::sorted_by;
use vstd::seq_lib::lemma_sorted_unique;

verus! {

/// A reply that a process posts at some time.
pub struct Post {
    pub time: PostTime,
    pub process: u32,
    pub reply: ReplyModel,
}

/// The name of its file.
pub open spec fn name_of(p: Post) -> Seq<char> {
    crate::review_state::reply_name(p.time, p.process)
}

/// A directory in which these replies were posted, one after the other. To each
/// file it has what the file reads as; None is no reply.
pub open spec fn posted(dir: Map<Seq<char>, Option<ReplyModel>>, posts: Seq<Post>) -> Map<
    Seq<char>,
    Option<ReplyModel>,
>
    decreases posts.len(),
{
    if posts.len() == 0 {
        dir
    } else {
        posted(dir, posts.drop_last()).insert(name_of(posts.last()), Some(posts.last().reply))
    }
}

/// These are the names of the files in the directory, in any order.
pub open spec fn lists(names: Seq<Seq<char>>, dir: Map<Seq<char>, Option<ReplyModel>>) -> bool {
    &&& names.no_duplicates()
    &&& forall|n: Seq<char>| #[trigger] names.contains(n) <==> dir.contains_key(n)
}

/// The replies that are read from a directory with these files.
pub open spec fn loaded(
    dir: Map<Seq<char>, Option<ReplyModel>>,
    names: Seq<Seq<char>>,
) -> Seq<ReplyModel> {
    crate::review_state::readable(
        crate::review_state::reply_names(names).map_values(|n: Seq<char>| dir[n]),
    )
}

/// Each reply is posted before the next.
pub open spec fn in_turn(posts: Seq<Post>) -> bool {
    forall|i: int, j: int|
        0 <= i < j < posts.len() ==> crate::review_state::earlier(
            (#[trigger] posts[i]).time,
            (#[trigger] posts[j]).time,
        )
}

/// The directory has the posted replies, each in its file, and no others.
proof fn lemma_posted(dir: Map<Seq<char>, Option<ReplyModel>>, posts: Seq<Post>)
    requires
        in_turn(posts),
        forall|n: Seq<char>| #[trigger] dir.contains_key(n) ==> dir[n] is None,
    ensures
        forall|i: int|
            0 <= i < posts.len() ==> posted(dir, posts).contains_key(name_of(#[trigger] posts[i]))
                && posted(dir, posts)[name_of(posts[i])] == Some(posts[i].reply),
        forall|n: Seq<char>| #[trigger]
            posted(dir, posts).contains_key(n) && posted(dir, posts)[n] is Some ==> posts.map_values(
                |p: Post| name_of(p),
            ).contains(n),
    decreases posts.len(),
{
    if posts.len() > 0 {
        let init = posts.drop_last();
        let last = posts.last();
        let names = posts.map_values(|p: Post| name_of(p));
        let before = init.map_values(|p: Post| name_of(p));
        assert(in_turn(init)) by {
            assert forall|i: int, j: int| 0 <= i < j < init.len() implies crate::review_state::earlier(
                (#[trigger] init[i]).time,
                (#[trigger] init[j]).time,
            ) by {
                assert(init[i] == posts[i] && init[j] == posts[j]);
            }
        }
        lemma_posted(dir, init);
        assert forall|i: int| 0 <= i < posts.len() implies posted(dir, posts).contains_key(
            name_of(#[trigger] posts[i]),
        ) && posted(dir, posts)[name_of(posts[i])] == Some(posts[i].reply) by {
            if i < init.len() {
                assert(init[i] == posts[i]);
                assert(posts[posts.len() - 1] == last);
                crate::review_state::lemma_names_in_post_order(
                    posts[i].time,
                    posts[i].process,
                    last.time,
                    last.process,
                );
            }
        }
        assert forall|n: Seq<char>| #[trigger]
            posted(dir, posts).contains_key(n) && posted(dir, posts)[n] is Some implies names.contains(
            n,
        ) by {
            if n == name_of(last) {
                assert(names[posts.len() - 1] == n);
            } else {
                assert(posted(dir, init).contains_key(n));
                let k = choose|k: int| 0 <= k < before.len() && before[k] == n;
                assert(names[k] == before[k]);
            }
        }
    }
}

/// What is read is what the files with replies hold.
proof fn lemma_readable(
    names: Seq<Seq<char>>,
    dir: Map<Seq<char>, Option<ReplyModel>>,
)
    ensures
        crate::review_state::readable(names.map_values(|n: Seq<char>| dir[n])) == names.filter(
            |n: Seq<char>| dir[n] is Some,
        ).map_values(|n: Seq<char>| dir[n]->0),
    decreases names.len(),
{
    let keep = |n: Seq<char>| dir[n] is Some;
    let read = |n: Seq<char>| dir[n];
    let take = |n: Seq<char>| dir[n]->0;
    reveal(Seq::filter);
    if names.len() > 0 {
        let init = names.drop_last();
        lemma_readable(init, dir);
        assert(names.map_values(read).drop_last() == init.map_values(read));
        assert(names.map_values(read).last() == dir[names.last()]);
        if keep(names.last()) {
            assert(names.filter(keep) == init.filter(keep).push(names.last()));
            assert(init.filter(keep).push(names.last()).map_values(take) == init.filter(
                keep,
            ).map_values(take).push(dir[names.last()]->0));
        } else {
            assert(names.filter(keep) == init.filter(keep));
        }
    } else {
        assert(names.filter(keep).map_values(take) == Seq::<ReplyModel>::empty());
    }
}

/// What is kept of names in order is in order, and of different names different.
proof fn lemma_kept_in_order(names: Seq<Seq<char>>, keep: spec_fn(Seq<char>) -> bool)
    requires
        sorted_by(names, crate::order::name_order()),
        names.no_duplicates(),
    ensures
        sorted_by(names.filter(keep), crate::order::name_order()),
        names.filter(keep).no_duplicates(),
    decreases names.len(),
{
    reveal(Seq::filter);
    if names.len() > 0 {
        let order = crate::order::name_order();
        let init = names.drop_last();
        let rest = init.filter(keep);
        let all = names.filter(keep);
        assert(sorted_by(init, order));
        lemma_kept_in_order(init, keep);
        assert forall|k: int| 0 <= k < rest.len() implies order(#[trigger] rest[k], names.last())
            && rest[k] != names.last() by {
            assert(rest.contains(rest[k]));
            init.lemma_filter_contains_rev(keep, rest[k]);
            let i = choose|i: int| 0 <= i < init.len() && init[i] == rest[k];
            assert(names[i] == init[i]);
            assert(order(names[i], names[names.len() - 1]));
        }
        if keep(names.last()) {
            assert(all == rest.push(names.last()));
        } else {
            assert(all == rest);
        }
    }
}

/// Sequences of different names with the same members have the same multiset.
proof fn lemma_same_members(a: Seq<Seq<char>>, b: Seq<Seq<char>>)
    requires
        a.no_duplicates(),
        b.no_duplicates(),
        forall|n: Seq<char>| #[trigger] a.contains(n) <==> b.contains(n),
    ensures
        a.to_multiset() == b.to_multiset(),
{
    broadcast use vstd::seq_lib::group_to_multiset_ensures;

    a.lemma_multiset_has_no_duplicates();
    b.lemma_multiset_has_no_duplicates();
    assert forall|n: Seq<char>| #[trigger] a.to_multiset().count(n) == b.to_multiset().count(n) by {
        if a.contains(n) {
            assert(a.to_multiset().contains(n) && b.to_multiset().contains(n));
        } else {
            assert(!a.to_multiset().contains(n) && !b.to_multiset().contains(n));
        }
    }
    assert(a.to_multiset() =~= b.to_multiset());
}

/// Where replies are posted one after the other into a directory that had none,
/// they are read back in post order, none lost and none twice, whatever order
/// the directory is listed in and whatever else is in it.
pub proof fn posted_replies_are_loaded(
    dir: Map<Seq<char>, Option<ReplyModel>>,
    posts: Seq<Post>,
    names: Seq<Seq<char>>,
)
    requires
        forall|n: Seq<char>| #[trigger] dir.contains_key(n) ==> dir[n] is None,
        in_turn(posts),
        lists(names, posted(dir, posts)),
    ensures
        loaded(posted(dir, posts), names) == posts.map_values(|p: Post| p.reply),
{
    let full = posted(dir, posts);
    let order = crate::order::name_order();
    let keep = |n: Seq<char>| full[n] is Some;
    let json = |n: Seq<char>| crate::path::extension(n) == "json"@;
    let kept = names.filter(json);
    let listed = crate::review_state::reply_names(names);
    let found = listed.filter(keep);
    let wanted = posts.map_values(|p: Post| name_of(p));
    lemma_posted(dir, posts);
    lemma_readable(listed, full);
    lemma_filter_apart(names, json);
    crate::order::in_order_sorts(kept);
    crate::order::in_order_keeps_apart(kept);
    lemma_kept_in_order(listed, keep);
    assert forall|i: int, j: int| 0 <= i < j < wanted.len() implies order(
        #[trigger] wanted[i],
        #[trigger] wanted[j],
    ) && wanted[i] != wanted[j] by {
        assert(crate::review_state::earlier(posts[i].time, posts[j].time));
        crate::review_state::lemma_names_in_post_order(
            posts[i].time,
            posts[i].process,
            posts[j].time,
            posts[j].process,
        );
    }
    crate::order::names_are_totally_ordered();
    assert(sorted_by(wanted, order));
    assert(wanted.no_duplicates());
    assert forall|n: Seq<char>| #[trigger] found.contains(n) <==> wanted.contains(n) by {
        lemma_listed(names, n);
        if found.contains(n) {
            listed.lemma_filter_contains_rev(keep, n);
            assert(keep(n)) by {
                lemma_filter_keeps(listed, keep, n);
            }
            assert(names.contains(n));
            assert(full.contains_key(n));
        }
        if wanted.contains(n) {
            let k = choose|k: int| 0 <= k < wanted.len() && wanted[k] == n;
            assert(n == name_of(posts[k]));
            crate::review_state::lemma_reply_extension(posts[k].time, posts[k].process);
            assert(full.contains_key(n));
            assert(names.contains(n));
            let i = choose|i: int| 0 <= i < listed.len() && listed[i] == n;
            listed.lemma_filter_contains(keep, i);
        }
    }
    lemma_same_members(found, wanted);
    lemma_sorted_unique(found, wanted, order);
    assert(found.map_values(|n: Seq<char>| full[n]->0) == posts.map_values(|p: Post| p.reply)) by {
        assert forall|k: int| 0 <= k < posts.len() implies full[#[trigger] wanted[k]]->0
            == posts[k].reply by {
            assert(wanted[k] == name_of(posts[k]));
        }
    }
}

/// What a filter lets through passes its test.
proof fn lemma_filter_keeps(names: Seq<Seq<char>>, keep: spec_fn(Seq<char>) -> bool, n: Seq<char>)
    requires
        names.filter(keep).contains(n),
    ensures
        keep(n),
    decreases names.len(),
{
    reveal(Seq::filter);
    if names.len() > 0 {
        let rest = names.drop_last().filter(keep);
        let k = choose|k: int| 0 <= k < names.filter(keep).len() && names.filter(keep)[k] == n;
        if k < rest.len() {
            assert(rest[k] == n);
            lemma_filter_keeps(names.drop_last(), keep, n);
        }
    }
}

proof fn lemma_filter_apart(names: Seq<Seq<char>>, keep: spec_fn(Seq<char>) -> bool)
    requires
        names.no_duplicates(),
    ensures
        names.filter(keep).no_duplicates(),
    decreases names.len(),
{
    reveal(Seq::filter);
    if names.len() > 0 {
        let init = names.drop_last();
        let rest = init.filter(keep);
        lemma_filter_apart(init, keep);
        assert forall|k: int| 0 <= k < rest.len() implies #[trigger] rest[k] != names.last() by {
            assert(rest.contains(rest[k]));
            init.lemma_filter_contains_rev(keep, rest[k]);
            let i = choose|i: int| 0 <= i < init.len() && init[i] == rest[k];
            assert(names[i] == init[i]);
        }
        if keep(names.last()) {
            assert(names.filter(keep) == rest.push(names.last()));
        } else {
            assert(names.filter(keep) == rest);
        }
    }
}

/// The files of replies are the files with their extension.
proof fn lemma_listed(names: Seq<Seq<char>>, n: Seq<char>)
    ensures
        crate::review_state::reply_names(names).contains(n) <==> names.contains(n)
            && crate::path::extension(n) == "json"@,
{
    broadcast use vstd::seq_lib::group_to_multiset_ensures;

    let json = |n: Seq<char>| crate::path::extension(n) == "json"@;
    let kept = names.filter(json);
    let listed = crate::review_state::reply_names(names);
    crate::order::in_order_sorts(kept);
    assert(listed.contains(n) <==> listed.to_multiset().contains(n));
    assert(kept.contains(n) <==> kept.to_multiset().contains(n));
    if kept.contains(n) {
        names.lemma_filter_contains_rev(json, n);
        lemma_filter_keeps(names, json, n);
    }
    if names.contains(n) && json(n) {
        let k = choose|k: int| 0 <= k < names.len() && names[k] == n;
        names.lemma_filter_contains(json, k);
    }
}

} // verus!
