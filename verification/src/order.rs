//! The order of names, and sorting by it.

use vstd::prelude::*;
use vstd::relations::*;
use vstd::seq_lib::*;

verus! {

/// `a` comes before `b` or is the same: character by character, and a text
/// before those that it begins.
pub open spec fn at_most(a: Seq<char>, b: Seq<char>) -> bool
    decreases a.len(),
{
    if a.len() == 0 {
        true
    } else if b.len() == 0 {
        false
    } else if a[0] == b[0] {
        at_most(a.drop_first(), b.drop_first())
    } else {
        a[0] < b[0]
    }
}

/// `sorted` with `x` put in behind everything that is at most `x`.
pub open spec fn put_in(sorted: Seq<Seq<char>>, x: Seq<char>) -> Seq<Seq<char>>
    decreases sorted.len(),
{
    if sorted.len() == 0 || at_most(sorted.last(), x) {
        sorted.push(x)
    } else {
        put_in(sorted.drop_last(), x).push(sorted.last())
    }
}

/// The names in order.
pub open spec fn in_order(names: Seq<Seq<char>>) -> Seq<Seq<char>>
    decreases names.len(),
{
    if names.len() == 0 {
        Seq::empty()
    } else {
        put_in(in_order(names.drop_last()), names.last())
    }
}

proof fn lemma_reflexive(a: Seq<char>)
    ensures
        at_most(a, a),
    decreases a.len(),
{
    if a.len() > 0 {
        lemma_reflexive(a.drop_first());
    }
}

proof fn lemma_antisymmetric(a: Seq<char>, b: Seq<char>)
    requires
        at_most(a, b),
        at_most(b, a),
    ensures
        a == b,
    decreases a.len(),
{
    if a.len() > 0 && b.len() > 0 {
        lemma_antisymmetric(a.drop_first(), b.drop_first());
        assert(a == seq![a[0]] + a.drop_first());
        assert(b == seq![b[0]] + b.drop_first());
    } else {
        assert(a == b);
    }
}

proof fn lemma_transitive(a: Seq<char>, b: Seq<char>, c: Seq<char>)
    requires
        at_most(a, b),
        at_most(b, c),
    ensures
        at_most(a, c),
    decreases a.len(),
{
    if a.len() > 0 && a[0] == b[0] && b[0] == c[0] {
        lemma_transitive(a.drop_first(), b.drop_first(), c.drop_first());
    }
}

proof fn lemma_connected(a: Seq<char>, b: Seq<char>)
    ensures
        at_most(a, b) || at_most(b, a),
    decreases a.len(),
{
    if a.len() > 0 && b.len() > 0 {
        lemma_connected(a.drop_first(), b.drop_first());
    }
}

/// The first character in which two names differ decides.
pub proof fn lemma_differ(a: Seq<char>, b: Seq<char>, k: int)
    requires
        0 <= k < a.len(),
        k < b.len(),
        a.take(k) == b.take(k),
        a[k] < b[k],
    ensures
        at_most(a, b),
    decreases k,
{
    if k > 0 {
        assert(a[0] == a.take(k)[0]);
        assert(b[0] == b.take(k)[0]);
        assert(a.drop_first().take(k - 1) == a.take(k).drop_first());
        assert(b.drop_first().take(k - 1) == b.take(k).drop_first());
        lemma_differ(a.drop_first(), b.drop_first(), k - 1);
    }
}

/// The order as a relation.
pub open spec fn name_order() -> spec_fn(Seq<char>, Seq<char>) -> bool {
    |a: Seq<char>, b: Seq<char>| at_most(a, b)
}

/// Names are totally ordered.
pub proof fn names_are_totally_ordered()
    ensures
        total_ordering(name_order()),
{
    let r = name_order();
    assert forall|a: Seq<char>| #[trigger] r(a, a) by {
        lemma_reflexive(a);
    }
    assert forall|a: Seq<char>, b: Seq<char>|
        #[trigger] r(a, b) && #[trigger] r(b, a) implies a == b by {
        lemma_antisymmetric(a, b);
    }
    assert forall|a: Seq<char>, b: Seq<char>, c: Seq<char>|
        #[trigger] r(a, b) && #[trigger] r(b, c) implies r(a, c) by {
        lemma_transitive(a, b, c);
    }
    assert forall|a: Seq<char>, b: Seq<char>| #[trigger] r(a, b) || #[trigger] r(b, a) by {
        lemma_connected(a, b);
    }
}

proof fn lemma_put_in(s: Seq<Seq<char>>, x: Seq<char>)
    requires
        sorted_by(s, name_order()),
    ensures
        sorted_by(put_in(s, x), name_order()),
        put_in(s, x).to_multiset() == s.to_multiset().insert(x),
        forall|y: Seq<char>|
            #[trigger] put_in(s, x).contains(y) ==> y == x || s.contains(y),
    decreases s.len(),
{
    broadcast use vstd::multiset::group_multiset_axioms;
    broadcast use group_to_multiset_ensures;

    let after = put_in(s, x);
    let le = name_order();
    names_are_totally_ordered();
    if s.len() == 0 || at_most(s.last(), x) {
        assert forall|i: int, j: int| 0 <= i < j < after.len() implies #[trigger] le(
            after[i],
            after[j],
        ) by {
            if j == s.len() {
                if i < s.len() - 1 {
                    assert(le(s[i], s[s.len() - 1]));
                    lemma_transitive(s[i], s.last(), x);
                }
            } else {
                assert(le(s[i], s[j]));
            }
        }
        assert forall|y: Seq<char>| #[trigger] after.contains(y) implies y == x || s.contains(
            y,
        ) by {
            let i = after.index_of(y);
            if i < s.len() {
                assert(s[i] == y);
            }
        }
    } else {
        let init = s.drop_last();
        assert forall|i: int, j: int| 0 <= i < j < init.len() implies #[trigger] le(
            init[i],
            init[j],
        ) by {
            assert(le(s[i], s[j]));
        }
        lemma_put_in(init, x);
        let mid = put_in(init, x);
        lemma_connected(s.last(), x);
        assert forall|i: int, j: int| 0 <= i < j < after.len() implies #[trigger] le(
            after[i],
            after[j],
        ) by {
            if j == mid.len() {
                assert(mid.contains(mid[i]));
                if mid[i] != x {
                    let k = init.index_of(mid[i]);
                    assert(le(s[k], s[s.len() - 1]));
                }
            } else {
                assert(le(mid[i], mid[j]));
            }
        }
        assert(s == init.push(s.last()));
        assert forall|y: Seq<char>| #[trigger] after.contains(y) implies y == x || s.contains(
            y,
        ) by {
            let i = after.index_of(y);
            if i < mid.len() {
                assert(mid.contains(mid[i]));
                if y != x {
                    let k = init.index_of(y);
                    assert(s[k] == y);
                }
            } else {
                assert(s[s.len() - 1] == y);
            }
        }
    }
}

/// Putting names in order sorts them and neither adds nor drops any.
pub proof fn in_order_sorts(names: Seq<Seq<char>>)
    ensures
        sorted_by(in_order(names), name_order()),
        in_order(names).to_multiset() == names.to_multiset(),
    decreases names.len(),
{
    broadcast use group_to_multiset_ensures;

    if names.len() > 0 {
        in_order_sorts(names.drop_last());
        lemma_put_in(in_order(names.drop_last()), names.last());
        assert(names == names.drop_last().push(names.last()));
    }
}

/// Putting names in order keeps their number, and where no two are equal before
/// none are afterwards.
pub proof fn in_order_keeps_apart(names: Seq<Seq<char>>)
    ensures
        in_order(names).len() == names.len(),
        names.no_duplicates() ==> in_order(names).no_duplicates(),
{
    broadcast use group_to_multiset_ensures;

    in_order_sorts(names);
    assert(in_order(names).to_multiset().len() == names.to_multiset().len());
    if names.no_duplicates() {
        names.lemma_multiset_has_no_duplicates();
        in_order(names).lemma_multiset_has_no_duplicates_conv();
    }
}

/// `[String]::sort`: the strings in ascending order, none added and none
/// dropped. Strings are ordered by their bytes, which orders them by their
/// characters' code points.
#[verifier::external_body]
fn sort(v: &mut Vec<String>)
    ensures
        sorted_by(crate::seqs::views(final(v)@), name_order()),
        crate::seqs::views(final(v)@).to_multiset() == crate::seqs::views(old(v)@).to_multiset(),
{
    v.sort();
}

/// Puts names in order.
pub fn sort_names(v: &mut Vec<String>)
    ensures
        crate::seqs::views(final(v)@) == in_order(crate::seqs::views(old(v)@)),
{
    let ghost before = crate::seqs::views(v@);
    sort(v);
    proof {
        names_are_totally_ordered();
        in_order_sorts(before);
        lemma_sorted_unique(crate::seqs::views(v@), in_order(before), name_order());
    }
}

/// `names` without those that equal the one before.
pub open spec fn without_repeats(names: Seq<Seq<char>>) -> Seq<Seq<char>>
    decreases names.len(),
{
    if names.len() == 0 {
        Seq::empty()
    } else if names.len() > 1 && names[names.len() - 2] == names.last() {
        without_repeats(names.drop_last())
    } else {
        without_repeats(names.drop_last()).push(names.last())
    }
}

/// Drops names that equal the one before.
pub fn drop_repeats(v: Vec<String>) -> (r: Vec<String>)
    ensures
        crate::seqs::views(r@) == without_repeats(crate::seqs::views(v@)),
{
    let ghost names = crate::seqs::views(v@);
    let mut r: Vec<String> = Vec::new();
    assert(crate::seqs::views(r@) == Seq::<Seq<char>>::empty());
    for i in 0..v.len()
        invariant
            names == crate::seqs::views(v@),
            crate::seqs::views(r@) == without_repeats(names.take(i as int)),
    {
        assert(names.take(i + 1).drop_last() == names.take(i as int));
        assert(names.take(i + 1).last() == v@[i as int]@);
        if i == 0 || v[i - 1] != v[i] {
            proof {
                crate::seqs::lemma_views_push(r@, v@[i as int]);
            }
            r.push(v[i].clone());
        }
    }
    assert(names.take(names.len() as int) == names);
    r
}

} // verus!
