//! Views of collections, and what holds of sequences that are built or walked
//! item by item.

use vstd::prelude::*;

verus! {

/// The views of the items of a sequence.
pub open spec fn views<T: View>(v: Seq<T>) -> Seq<T::V> {
    v.map_values(|x: T| x.view())
}

/// The view of what an option holds.
pub open spec fn opt_view<T: View>(o: Option<T>) -> Option<T::V> {
    match o {
        Some(x) => Some(x.view()),
        None => None,
    }
}

/// The views of a sequence with one item more.
pub broadcast proof fn lemma_views_push<T: View>(v: Seq<T>, x: T)
    ensures
        #[trigger] views(v.push(x)) == views(v).push(x.view()),
{
    assert(views(v.push(x)) =~= views(v).push(x.view()));
}

/// The views of a sequence with one item replaced.
pub broadcast proof fn lemma_views_update<T: View>(v: Seq<T>, i: int, x: T)
    requires
        0 <= i < v.len(),
    ensures
        #[trigger] views(v.update(i, x)) == views(v).update(i, x.view()),
{
    assert(views(v.update(i, x)) =~= views(v).update(i, x.view()));
}

/// Filtering one item more.
pub proof fn lemma_filter_take<T>(s: Seq<T>, keep: spec_fn(T) -> bool, i: int)
    requires
        0 <= i < s.len(),
    ensures
        s.take(i + 1).filter(keep) == if keep(s[i]) {
            s.take(i).filter(keep).push(s[i])
        } else {
            s.take(i).filter(keep)
        },
{
    reveal(Seq::filter);
    assert(s.take(i + 1).drop_last() == s.take(i));
    assert(s.take(i + 1).last() == s[i]);
}

/// Filtering nothing.
pub proof fn lemma_filter_empty<T>(s: Seq<T>, keep: spec_fn(T) -> bool)
    ensures
        s.take(0).filter(keep) == Seq::<T>::empty(),
{
    reveal(Seq::filter);
}

} // verus!
