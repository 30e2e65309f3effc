//! Capacity limits on ordered collections. Going over the limit is no
//! failure: the surplus is dropped, from the tail of a ranking or from the
//! head of a log.

use vstd::prelude::*;

verus! {

/// The first `capacity` elements of `s`, or all of `s` where it has no
/// more.
pub open spec fn keep_first<T>(s: Seq<T>, capacity: int) -> Seq<T> {
    if s.len() > capacity {
        s.subrange(0, capacity)
    } else {
        s
    }
}

/// The last `capacity` elements of `s`, or all of `s` where it has no
/// more.
pub open spec fn keep_last<T>(s: Seq<T>, capacity: int) -> Seq<T> {
    if s.len() > capacity {
        s.subrange(s.len() - capacity, s.len() as int)
    } else {
        s
    }
}

/// Drops elements from the tail of `items` until at most `capacity` are
/// left.
pub fn trim_tail<T>(items: &mut Vec<T>, capacity: usize)
    ensures
        final(items)@ == keep_first(old(items)@, capacity as int),
        final(items).len() <= capacity,
{
    while items.len() > capacity
        invariant
            items.len() <= old(items).len(),
            items.len() >= capacity || items.len() == old(items).len(),
            items@ == old(items)@.subrange(0, items.len() as int),
        decreases items.len(),
    {
        items.pop();
    }
    assert(items@ =~= keep_first(old(items)@, capacity as int));
}

/// Drops elements from the head of `items`, oldest first, until at most
/// `capacity` are left.
pub fn evict_head<T>(items: &mut Vec<T>, capacity: usize)
    ensures
        final(items)@ == keep_last(old(items)@, capacity as int),
        final(items).len() <= capacity,
{
    while items.len() > capacity
        invariant
            items.len() <= old(items).len(),
            items.len() >= capacity || items.len() == old(items).len(),
            items@ == old(items)@.subrange(
                old(items).len() - items.len(),
                old(items).len() as int,
            ),
        decreases items.len(),
    {
        items.remove(0);
    }
    assert(items@ =~= keep_last(old(items)@, capacity as int));
}

} // verus!
