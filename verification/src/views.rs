//! Sequences of values, taken item by item by their meaning.

use vstd::prelude::*;

verus! {

/// The meaning of each item, in order.
pub open spec fn views<T: View>(items: Seq<T>) -> Seq<T::V> {
    items.map_values(|item: T| item@)
}

/// Adding an item adds its meaning.
pub proof fn lemma_views_push<T: View>(items: Seq<T>, item: T)
    ensures
        views(items.push(item)) == views(items).push(item@),
{
    assert(views(items.push(item)) =~= views(items).push(item@));
}

/// One more item taken from the front adds its meaning.
pub proof fn lemma_views_take<T: View>(items: Seq<T>, i: int)
    requires
        0 <= i < items.len(),
    ensures
        views(items.take(i + 1)) == views(items.take(i)).push(items[i]@),
        views(items).take(i + 1) == views(items).take(i).push(items[i]@),
        views(items.take(i)) == views(items).take(i),
{
    assert(views(items.take(i + 1)) =~= views(items.take(i)).push(items[i]@));
    assert(views(items).take(i + 1) =~= views(items).take(i).push(items[i]@));
    assert(views(items.take(i)) =~= views(items).take(i));
}

} // verus!
