//! What holds of the part of a list that a test picks out.

use vstd::prelude::*;

verus! {

/// What passes the test is picked out.
pub proof fn lemma_filter_keeps<A>(items: Seq<A>, keep: spec_fn(A) -> bool, item: A)
    requires
        items.contains(item),
        keep(item),
    ensures
        items.filter(keep).contains(item),
    decreases items.len(),
{
    reveal(Seq::filter);
    let rest = items.drop_last();
    if items.last() == item {
        assert(items.filter(keep).last() == item);
    } else {
        let i = choose|i: int| 0 <= i < items.len() && items[i] == item;
        assert(rest[i] == item);
        lemma_filter_keeps(rest, keep, item);
        let j = choose|j: int| 0 <= j < rest.filter(keep).len() && rest.filter(keep)[j] == item;
        assert(items.filter(keep)[j] == item);
    }
}

/// What is picked out was there, and passes the test.
pub proof fn lemma_filter_holds<A>(items: Seq<A>, keep: spec_fn(A) -> bool, i: int)
    requires
        0 <= i < items.filter(keep).len(),
    ensures
        items.contains(items.filter(keep)[i]),
        keep(items.filter(keep)[i]),
    decreases items.len(),
{
    reveal(Seq::filter);
    if items.len() > 0 {
        let rest = items.drop_last();
        if i < rest.filter(keep).len() {
            lemma_filter_holds(rest, keep, i);
            let j = choose|j: int| 0 <= j < rest.len() && rest[j] == rest.filter(keep)[i];
            assert(items[j] == items.filter(keep)[i]);
        } else {
            assert(items.last() == items[items.len() - 1]);
        }
    }
}

/// Two places of what is picked out come from two places, in that order.
pub proof fn lemma_filter_places<A>(
    items: Seq<A>,
    keep: spec_fn(A) -> bool,
    i: int,
    j: int,
) -> (at: (int, int))
    requires
        0 <= i < j < items.filter(keep).len(),
    ensures
        0 <= at.0 < at.1 < items.len(),
        items[at.0] == items.filter(keep)[i],
        items[at.1] == items.filter(keep)[j],
    decreases items.len(),
{
    reveal(Seq::filter);
    let rest = items.drop_last();
    if j < rest.filter(keep).len() {
        lemma_filter_places(rest, keep, i, j)
    } else {
        lemma_filter_holds(rest, keep, i);
        let a = choose|a: int| 0 <= a < rest.len() && rest[a] == rest.filter(keep)[i];
        (a, items.len() - 1)
    }
}

} // verus!
